use attohttpc::proxy::ProxySettings;
use attohttpc::urls::Url;

fn parse(s: &str) -> Url {
    Url::parse(s).unwrap()
}

fn text(u: Option<Url>) -> Option<String> {
    u.map(|u| String::from_utf8(u.as_bytes().to_vec()).unwrap())
}

#[test]
fn test_proxy_for_url() {
    let s = ProxySettings::from_parts(
        Some(parse("http://proxy1:3128")),
        Some(parse("http://proxy2:3128")),
        false,
        vec!["reddit.com".into()],
    );

    assert_eq!(text(s.for_url(&parse("http://google.ca"))), Some("http://proxy1:3128/".to_string()));
    assert_eq!(text(s.for_url(&parse("https://google.ca"))), Some("http://proxy2:3128/".to_string()));
    assert_eq!(text(s.for_url(&parse("https://reddit.com"))), None);
}

#[test]
fn test_proxy_for_url_disabled() {
    let s = ProxySettings::from_parts(
        Some(parse("http://proxy1:3128")),
        Some(parse("http://proxy2:3128")),
        true,
        vec![],
    );

    assert_eq!(text(s.for_url(&parse("https://reddit.com"))), None);
    assert_eq!(text(s.for_url(&parse("https://www.google.ca"))), None);
}

#[test]
fn test_proxy_from_env_all_proxy() {
    let s = ProxySettings::from_env_values(Some("http://proxy:3128".to_string()), None, None, None);

    assert_eq!(text(s.http_proxy().clone()), Some("http://proxy:3128/".to_string()));
    assert_eq!(text(s.https_proxy().clone()), Some("http://proxy:3128/".to_string()));
}

#[test]
fn test_proxy_from_env_override() {
    let s = ProxySettings::from_env_values(
        Some("http://proxy:3128".to_string()),
        Some("http://proxy:3129".to_string()),
        Some("http://proxy:3130".to_string()),
        None,
    );

    assert_eq!(text(s.http_proxy().clone()), Some("http://proxy:3129/".to_string()));
    assert_eq!(text(s.https_proxy().clone()), Some("http://proxy:3130/".to_string()));
}

#[test]
fn test_proxy_from_env_no_proxy_wildcard() {
    let s = ProxySettings::from_env_values(None, None, None, Some("*".to_string()));

    assert!(s.proxies_disabled());
}

#[test]
fn test_proxy_from_env_no_proxy_root_domain() {
    let s = ProxySettings::from_env_values(None, None, None, Some(".myroot.com".to_string()));

    let url = parse("https://mysub.myroot.com");
    assert!(s.for_url(&url).is_none());
    assert_eq!(s.no_proxy_hosts()[0], "myroot.com");
}

#[test]
fn test_proxy_from_env_no_proxy() {
    let s = ProxySettings::from_env_values(None, None, None, Some("example.com, www.reddit.com, google.ca ".to_string()));

    assert_eq!(s.no_proxy_hosts(), &vec!["example.com", "www.reddit.com", "google.ca"]);
}

#[test]
fn env_values_that_are_not_proxies_are_ignored() {
    let s = ProxySettings::from_env_values(
        Some("   ".to_string()),
        Some("ftp://proxy:21".to_string()),
        Some("not a url".to_string()),
        Some("A.Example.COM".to_string()),
    );
    assert!(s.http_proxy().is_none());
    assert!(s.https_proxy().is_none());
    assert!(!s.proxies_disabled());
    assert_eq!(s.no_proxy_hosts(), &vec!["a.example.com"]);
}

#[test]
fn builder_patterns_are_lower_case() {
    let s = ProxySettings::builder()
        .http_proxy(Some(parse("http://p:1")))
        .add_no_proxy_host("Intranet.LOCAL")
        .build();
    assert_eq!(s.no_proxy_hosts(), &vec!["intranet.local"]);
    assert!(s.for_url(&parse("http://wiki.intranet.local/")).is_none());
    assert_eq!(text(s.for_url(&parse("http://example.org/"))), Some("http://p:1/".to_string()));
    assert!(s.for_url(&parse("https://example.org/")).is_none());
}
