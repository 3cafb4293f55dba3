use std::cell::Cell;

use load_balancer::service::Service;
use load_balancer::service::ServiceConfig;
use load_balancer::service::UrlsRepository;
use load_balancer::short_url::CreateShortUrlRequest;
use load_balancer::short_url::RepositoryShortUrlError;
use load_balancer::short_url::ShortUrl;
use load_balancer::short_url::ShortUrlId;
use load_balancer::short_url::ShortUrlResponse;
use load_balancer::short_url::WebUrl;

#[test]
fn url_key_should_create_different_ones() {
    let url1 = ShortUrlId::new();
    let url2 = ShortUrlId::new();
    let url3 = ShortUrlId::new();
    let url4 = ShortUrlId::new();

    assert_ne!(url1, url2);
    assert_ne!(url2, url3);
    assert_ne!(url1, url3);
    assert_ne!(url1, url4);
    assert_ne!(url2, url4);
    assert_ne!(url3, url4);
}

#[test]
fn url_key_should_be_of_6_characters() {
    let url = ShortUrlId::new();
    assert_eq!(url.as_str().len(), 6);
}

#[test]
fn create_short_url_entity_from_just_url() {
    let long_url =
        WebUrl::parse("https://codingchallenges.fyi/challenges/challenge-url-shortener/").unwrap();
    let short_url = ShortUrl::from_long_url(&long_url).unwrap();

    assert_eq!(short_url.long_url().as_str(), long_url.as_str())
}

#[test]
fn web_url_parse_normalizes_and_validates() {
    // the parser hands back the URL's normalized serialization, not
    // the raw input
    let url = WebUrl::parse("https://example.net").unwrap();
    assert_eq!(url.as_str(), "https://example.net/");
    assert_eq!(
        WebUrl::parse("HTTPS://EXAMPLE.net/Path").unwrap().as_str(),
        "https://example.net/Path"
    );
    assert!(WebUrl::parse("not a url").is_none());
}

fn service_config() -> ServiceConfig {
    ServiceConfig::new(3, "https://tinyurl.uk/")
}

fn test_url() -> WebUrl {
    WebUrl::parse("https://www.howtocodeit.com/articles/master-hexagonal-architecture-rust")
        .unwrap()
}

/// A scripted in-memory repository: what each port call answers, and
/// for `create_short_url` how many duplicate failures come before the
/// stored entity is accepted.
struct ScriptedRepository {
    find_by_long_url: Option<Result<Option<ShortUrl>, RepositoryShortUrlError>>,
    find_by_key: Option<Result<Option<ShortUrl>, RepositoryShortUrlError>>,
    create: Option<Result<ShortUrl, RepositoryShortUrlError>>,
    create_duplicates_first: Cell<u32>,
    delete: Option<Result<(), RepositoryShortUrlError>>,
}

impl ScriptedRepository {
    fn new() -> ScriptedRepository {
        ScriptedRepository {
            find_by_long_url: None,
            find_by_key: None,
            create: None,
            create_duplicates_first: Cell::new(0),
            delete: None,
        }
    }
}

fn clone_found(
    r: &Result<Option<ShortUrl>, RepositoryShortUrlError>,
) -> Result<Option<ShortUrl>, RepositoryShortUrlError> {
    match r {
        Ok(v) => Ok(v.clone()),
        Err(e) => Err(e.clone()),
    }
}

impl UrlsRepository for ScriptedRepository {
    fn create_short_url(&self, _short_url: ShortUrl) -> Result<ShortUrl, RepositoryShortUrlError> {
        if self.create_duplicates_first.get() > 0 {
            self.create_duplicates_first
                .set(self.create_duplicates_first.get() - 1);
            return Err(RepositoryShortUrlError::Duplicate { short_url_id: ShortUrlId::new() });
        }
        match self.create.as_ref().expect("create not scripted") {
            Ok(v) => Ok(v.clone()),
            Err(e) => Err(e.clone()),
        }
    }

    fn find_short_url_by_long_url(
        &self,
        _long_url: WebUrl,
    ) -> Result<Option<ShortUrl>, RepositoryShortUrlError> {
        clone_found(self.find_by_long_url.as_ref().expect("find_by_long_url not scripted"))
    }

    fn find_short_url_by_short_url(
        &self,
        _short_url: WebUrl,
    ) -> Result<Option<ShortUrl>, RepositoryShortUrlError> {
        panic!("find_short_url_by_short_url was not expected")
    }

    fn find_short_url_by_key(
        &self,
        _key: ShortUrlId,
    ) -> Result<Option<ShortUrl>, RepositoryShortUrlError> {
        clone_found(self.find_by_key.as_ref().expect("find_by_key not scripted"))
    }

    fn delete_short_url_by_key(
        &self,
        _key: ShortUrlId,
    ) -> Result<(), RepositoryShortUrlError> {
        match self.delete.as_ref().expect("delete not scripted") {
            Ok(()) => Ok(()),
            Err(e) => Err(e.clone()),
        }
    }
}

#[test]
fn repository_failure_is_passed_to_caller() {
    let mut repo = ScriptedRepository::new();
    repo.find_by_long_url = Some(Ok(None));
    repo.create = Some(Err(RepositoryShortUrlError::ShortUrlNotFound));

    let service_under_test = Service::new(repo, service_config());
    let create_short_url_request = CreateShortUrlRequest::new(test_url());
    let result = service_under_test.create_short_url(&create_short_url_request);

    let short_url_error = result.unwrap_err();
    assert_eq!(
        short_url_error.message(),
        RepositoryShortUrlError::ShortUrlNotFound.message()
    );
}

#[test]
fn create_entry_successfully_and_return_short_url_to_caller() {
    let test_url = test_url();
    let short_url = ShortUrl::from_long_url(&test_url).unwrap();
    let mut repo = ScriptedRepository::new();
    repo.find_by_long_url = Some(Ok(None));
    repo.create = Some(Ok(short_url.clone()));

    let service_under_test = Service::new(repo, service_config());

    let create_short_url_request = CreateShortUrlRequest::new(test_url.clone());
    let result = service_under_test
        .create_short_url(&create_short_url_request)
        .unwrap();
    let key = result.key();

    let expected_short_url =
        WebUrl::parse(&format!("{}{}", "https://tinyurl.uk/", key.as_str())).unwrap();

    assert_eq!(result.long_url().as_str(), test_url.as_str());
    assert_eq!(result.short_url().as_str(), expected_short_url.as_str());
}

#[test]
fn create_entry_for_existing_long_url_must_return_same_short_url_to_caller() {
    let test_url = test_url();
    let short_url = ShortUrl::from_long_url(&test_url).unwrap();
    let mut repo = ScriptedRepository::new();
    repo.find_by_long_url = Some(Ok(Some(short_url.clone())));

    let service_under_test = Service::new(repo, service_config());

    let create_short_url_request = CreateShortUrlRequest::new(test_url.clone());
    let result = service_under_test
        .create_short_url(&create_short_url_request)
        .unwrap();
    let key = result.key();

    let expected_short_url =
        WebUrl::parse(&format!("{}{}", "https://tinyurl.uk/", key.as_str())).unwrap();

    assert_eq!(result.long_url().as_str(), test_url.as_str());
    assert_eq!(result.short_url().as_str(), expected_short_url.as_str());
}

#[test]
fn create_instance_work_even_if_duplicate_error_happens_less_than_max_retries() {
    let test_url = test_url();
    let short_url = ShortUrl::from_long_url(&test_url).unwrap();
    let mut repo = ScriptedRepository::new();
    repo.find_by_long_url = Some(Ok(None));
    repo.create_duplicates_first = Cell::new(2);
    repo.create = Some(Ok(short_url.clone()));

    let service_under_test = Service::new(repo, service_config());

    let create_short_url_request = CreateShortUrlRequest::new(test_url.clone());
    let result = service_under_test
        .create_short_url(&create_short_url_request)
        .unwrap();
    let key = result.key();

    let expected_short_url =
        WebUrl::parse(&format!("{}{}", "https://tinyurl.uk/", key.as_str())).unwrap();

    assert_eq!(result.long_url().as_str(), test_url.as_str());
    assert_eq!(result.short_url().as_str(), expected_short_url.as_str());
}

#[test]
fn get_short_url_should_return_none_when_not_found() {
    let short_url = ShortUrl::from_long_url(&test_url()).unwrap();
    let mut repo = ScriptedRepository::new();
    repo.find_by_key = Some(Ok(None));

    let service_under_test = Service::new(repo, service_config());

    let maybe_short_url = service_under_test
        .retrieve_short_url(short_url.key().clone())
        .unwrap();

    assert_eq!(maybe_short_url, None);
}

#[test]
fn get_short_url_should_return_the_short_url_entity_when_found() {
    let short_url = ShortUrl::from_long_url(&test_url()).unwrap();
    let mut repo = ScriptedRepository::new();
    repo.find_by_key = Some(Ok(Some(short_url.clone())));

    let service_under_test = Service::new(repo, service_config());

    let result = service_under_test
        .retrieve_short_url(short_url.key().clone())
        .unwrap()
        .unwrap();

    let expected =
        ShortUrlResponse::from(short_url, "https://tinyurl.uk/".to_string()).unwrap();
    assert_eq!(result, expected);
}

#[test]
fn delete_short_url_should_return_not_found_error() {
    let short_url = ShortUrl::from_long_url(&test_url()).unwrap();
    let mut repo = ScriptedRepository::new();
    repo.delete = Some(Err(RepositoryShortUrlError::ShortUrlNotFound));

    let service_under_test = Service::new(repo, service_config());

    let result = service_under_test
        .delete_short_url(short_url.key().clone())
        .unwrap_err();

    assert_eq!(
        result.message(),
        RepositoryShortUrlError::ShortUrlNotFound.message()
    );
}

#[test]
fn delete_short_url_should_succeed() {
    let short_url = ShortUrl::from_long_url(&test_url()).unwrap();
    let mut repo = ScriptedRepository::new();
    repo.delete = Some(Ok(()));

    let service_under_test = Service::new(repo, service_config());

    let result = service_under_test
        .delete_short_url(short_url.key().clone())
        .unwrap();

    assert_eq!(result, ());
}
