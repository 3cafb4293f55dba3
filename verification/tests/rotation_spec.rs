use load_balancer::models::Address;
use load_balancer::targets::Targets;

fn addr(host: &str, port: u16) -> Address {
    Address { host: host.to_string(), port }
}

#[test]
fn targets_next_should_return_address_in_round_robin_manner() {
    let address1 = addr("127.0.0.1", 8081);
    let address2 = addr("127.0.0.1", 8082);
    let mut targets = Targets::new(vec![address1.clone(), address2.clone()]);

    let a = targets.next();
    assert_eq!(a, address1);
    assert_eq!(targets.curr, 1);

    let a = targets.next();
    assert_eq!(a, address2);
    assert_eq!(targets.curr, 0);

    let a = targets.next();
    assert_eq!(a, address1);
    assert_eq!(targets.curr, 1);
}
