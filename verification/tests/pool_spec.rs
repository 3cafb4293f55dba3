use load_balancer::models::Address;
use load_balancer::models::Server;
use load_balancer::models::Targets;

fn addr(host: &str, port: u16) -> Address {
    Address { host: host.to_string(), port }
}

#[test]
fn targets_new_should_init_struct_correctly() {
    let address1 = addr("127.0.0.1", 8081);
    let address2 = addr("127.0.0.1", 8082);

    let targets = Targets::new(vec![address1, address2]);

    assert_eq!(targets.servers.len(), 2);
    assert_eq!(targets.curr, 0);
}

#[test]
fn targets_next_should_return_address_in_round_robin_manner_when_multiple_healthy() {
    let address1 = addr("127.0.0.1", 8081);
    let address2 = addr("127.0.0.1", 8082);
    let mut targets = Targets::new(vec![address1.clone(), address2.clone()]);
    for s in targets.servers.iter_mut() {
        s.healthy = true;
    }

    let a = targets.next_available_server();
    assert_eq!(a, address1);
    assert_eq!(targets.curr, 1);

    let a = targets.next_available_server();
    assert_eq!(a, address2);
    assert_eq!(targets.curr, 0);

    let a = targets.next_available_server();
    assert_eq!(a, address1);
    assert_eq!(targets.curr, 1);
}

#[test]
fn selection_skips_unhealthy_server() {
    // targets [A(healthy), B(unhealthy), C(healthy)], cursor at A:
    // selections go A, C, A, C and never return B while it is down
    let a = addr("10.0.0.1", 8081);
    let b = addr("10.0.0.2", 8082);
    let c = addr("10.0.0.3", 8083);
    let mut targets = Targets::new(vec![a.clone(), b.clone(), c.clone()]);
    targets.servers[0].healthy = true;
    targets.servers[2].healthy = true;

    assert_eq!(targets.next_available_server(), a);
    assert_eq!(targets.next_available_server(), c);
    assert_eq!(targets.next_available_server(), a);
    assert_eq!(targets.next_available_server(), c);
}

#[test]
fn selection_falls_back_when_all_unhealthy() {
    // a fresh pool starts all-unhealthy: selection still answers, with
    // the last server scanned, and the cursor stays put
    let a = addr("10.0.0.1", 8081);
    let b = addr("10.0.0.2", 8082);
    let c = addr("10.0.0.3", 8083);
    let mut targets = Targets::new(vec![a.clone(), b.clone(), c.clone()]);

    assert_eq!(targets.next_available_server(), c);
    assert_eq!(targets.curr, 0);
    assert_eq!(targets.next_available_server(), c);
    assert_eq!(targets.curr, 0);
}

#[test]
fn selection_round_robin_example_with_two_servers() {
    // the pool [S1:8081, S2:8082], both healthy: three selections in a
    // row alternate S1, S2, S1; with S2 down after the first, the same
    // three selections give S1, S1, S1
    let s1 = addr("127.0.0.1", 8081);
    let s2 = addr("127.0.0.1", 8082);

    let mut targets = Targets::new(vec![s1.clone(), s2.clone()]);
    targets.servers[0].healthy = true;
    targets.servers[1].healthy = true;
    assert_eq!(targets.next_available_server(), s1);
    assert_eq!(targets.next_available_server(), s2);
    assert_eq!(targets.next_available_server(), s1);

    let mut targets = Targets::new(vec![s1.clone(), s2.clone()]);
    targets.servers[0].healthy = true;
    targets.servers[1].healthy = true;
    assert_eq!(targets.next_available_server(), s1);
    targets.servers[1].healthy = false;
    assert_eq!(targets.next_available_server(), s1);
    assert_eq!(targets.next_available_server(), s1);
}

#[test]
fn selection_is_fair_over_one_round() {
    // three healthy targets, three selections: each target exactly
    // once, in insertion order from the starting cursor
    let a = addr("10.0.0.1", 8081);
    let b = addr("10.0.0.2", 8082);
    let c = addr("10.0.0.3", 8083);
    let mut targets = Targets::new(vec![a.clone(), b.clone(), c.clone()]);
    for s in targets.servers.iter_mut() {
        s.healthy = true;
    }
    targets.curr = 1;

    assert_eq!(targets.next_available_server(), b);
    assert_eq!(targets.next_available_server(), c);
    assert_eq!(targets.next_available_server(), a);
    assert_eq!(targets.curr, 1);
}

#[test]
fn server_check_status_address_formats_probe_url() {
    let server = Server::new(addr("127.0.0.1", 8081));
    assert!(server.healthy);
    assert_eq!(
        server.check_status_address(),
        "http://127.0.0.1:8081/private/status"
    );
}

#[test]
fn address_to_text_formats_host_and_port() {
    assert_eq!(addr("0.0.0.0", 80).to_text(), "0.0.0.0:80");
    assert_eq!(addr("example.net", 65535).to_text(), "example.net:65535");
}
