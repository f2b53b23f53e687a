use asimov_ftp_module::iri::{Authority, IriParts};
use asimov_ftp_module::target::target_of;
use asimov_ftp_module::target_map::TargetGroup;
use asimov_ftp_module::{group_targets, TargetHost, UrlError};

fn urls(list: &[&str]) -> Vec<String> {
    list.iter().map(|url| String::from(*url)).collect()
}

fn groups(list: &[&str]) -> Vec<TargetGroup> {
    group_targets(&urls(list)).unwrap().into_entries()
}

fn host(scheme: &str, name: &str, port: u16, user: &str, password: &str) -> TargetHost {
    TargetHost(
        String::from(scheme),
        String::from(name),
        port,
        (String::from(user), String::from(password)),
    )
}

fn error(list: &[&str]) -> UrlError {
    match group_targets(&urls(list)) {
        Ok(_) => panic!("no error"),
        Err(error) => error,
    }
}

#[test]
fn no_urls_make_no_groups() {
    assert!(groups(&[]).is_empty());
}

#[test]
fn urls_of_one_host_share_a_group() {
    let found = groups(&[
        "ftp://ftp.example.org/b",
        "ftp://other.example.org/",
        "ftp://ftp.example.org/a",
        "ftp://ftp.example.org/b",
    ]);
    assert_eq!(found.len(), 2);
    assert_eq!(found[0].0, host("ftp", "ftp.example.org", 21, "anonymous", "guest"));
    assert_eq!(found[0].1 .0, "ftp://ftp.example.org/b");
    assert_eq!(found[0].1 .1, vec!["/b", "/a", "/b"]);
    assert_eq!(found[1].0, host("ftp", "other.example.org", 21, "anonymous", "guest"));
    assert_eq!(found[1].1 .0, "ftp://other.example.org/");
    assert_eq!(found[1].1 .1, vec!["/"]);
}

#[test]
fn groups_are_in_the_order_of_their_hosts() {
    let found = groups(&[
        "ftps://a/1",
        "ftp://b:2122/2",
        "ftp://b:2121/3",
        "ftp://zoe:x@b:2121/4",
        "ftp://adam:x@b:2121/5",
        "ftp://a/6",
    ]);
    let hosts: Vec<TargetHost> = found.into_iter().map(|group| group.0).collect();
    let mut sorted: Vec<TargetHost> = hosts.clone();
    sorted.sort();
    assert_eq!(hosts, sorted);
    assert_eq!(
        hosts,
        vec![
            host("ftp", "a", 21, "anonymous", "guest"),
            host("ftp", "b", 2121, "adam", "x"),
            host("ftp", "b", 2121, "anonymous", "guest"),
            host("ftp", "b", 2121, "zoe", "x"),
            host("ftp", "b", 2122, "anonymous", "guest"),
            host("ftps", "a", 21, "anonymous", "guest"),
        ]
    );
}

#[test]
fn a_missing_scheme_is_ftp() {
    let found = groups(&["//ftp.example.org/pub"]);
    assert_eq!(found[0].0, host("ftp", "ftp.example.org", 21, "anonymous", "guest"));
    assert_eq!(found[0].1 .1, vec!["/pub"]);
}

#[test]
fn credentials_stand_before_the_host() {
    let found = groups(&["ftp://user:pass:word@ftp.example.org/"]);
    assert_eq!(found[0].0, host("ftp", "ftp.example.org", 21, "user", "pass:word"));
    let found = groups(&["ftp://user@ftp.example.org/"]);
    assert_eq!(found[0].0, host("ftp", "ftp.example.org", 21, "anonymous", "guest"));
    let found = groups(&["ftp://:@ftp.example.org/"]);
    assert_eq!(found[0].0, host("ftp", "ftp.example.org", 21, "", ""));
}

#[test]
fn ports_and_address_literals() {
    let found = groups(&["ftps://[2001:db8::1]:990/x?y#z"]);
    assert_eq!(found[0].0, host("ftps", "[2001:db8::1]", 990, "anonymous", "guest"));
    assert_eq!(found[0].1 .1, vec!["/x"]);
    let found = groups(&["ftp://[::1]"]);
    assert_eq!(found[0].0, host("ftp", "[::1]", 21, "anonymous", "guest"));
    assert_eq!(found[0].1 .1, vec![""]);
    let found = groups(&["ftp://h:65535"]);
    assert_eq!(found[0].0 .2, 65535);
}

#[test]
fn text_that_is_no_url_is_refused() {
    assert!(matches!(error(&["ftp://ftp example.org/"]), UrlError::Parse(_)));
}

#[test]
fn other_schemes_are_refused() {
    assert!(matches!(error(&["http://example.org/"]), UrlError::UnsupportedScheme));
    assert!(matches!(error(&["FTP://example.org/"]), UrlError::UnsupportedScheme));
    assert!(matches!(error(&["sftp:/x"]), UrlError::UnsupportedScheme));
}

#[test]
fn ports_that_are_no_numbers_are_refused() {
    assert!(matches!(error(&["ftp://h:65536/"]), UrlError::InvalidPort(_)));
    assert!(matches!(error(&["ftp://h:/"]), UrlError::InvalidPort(_)));
}

#[test]
fn urls_without_a_host_are_refused() {
    assert!(matches!(error(&["ftp:/pub"]), UrlError::NoHost));
    assert!(matches!(error(&["pub/file"]), UrlError::NoHost));
    assert!(matches!(error(&[""]), UrlError::NoHost));
}

#[test]
fn the_first_bad_url_decides() {
    assert!(matches!(
        error(&["ftp://h/", "ftp:/pub", "http://h/"]),
        UrlError::NoHost
    ));
    assert!(matches!(
        error(&["ftp://h/", "http://h/", "ftp:/pub"]),
        UrlError::UnsupportedScheme
    ));
}

#[test]
fn parts_of_a_url_name_a_target() {
    let parts = IriParts {
        scheme: Some(String::from("ftps")),
        authority: Some(Authority {
            userinfo: Some(String::from("me:secret")),
            host: String::from("h"),
            port: Some(String::from("+22")),
        }),
        path: String::from("/p"),
    };
    let (target, path) = target_of(&parts).unwrap();
    assert_eq!(target, host("ftps", "h", 22, "me", "secret"));
    assert_eq!(path, "/p");
}

#[test]
fn errors_hold_what_is_wrong() {
    let wrong = iri_string::types::IriReferenceStr::new("ftp://ftp example.org/").unwrap_err();
    match error(&["ftp://ftp example.org/"]) {
        UrlError::Parse(found) => assert_eq!(found, wrong),
        other => panic!("{:?}", other),
    }
    match error(&["ftp://h:65536/"]) {
        UrlError::InvalidPort(found) => assert_eq!(found, "65536".parse::<u16>().unwrap_err()),
        other => panic!("{:?}", other),
    }
    assert!(matches!(UrlError::from(wrong), UrlError::Parse(_)));
    let wrong = "x".parse::<u16>().unwrap_err();
    assert!(matches!(UrlError::from(wrong), UrlError::InvalidPort(_)));
}

#[test]
fn more_urls_add_their_paths() {
    let found = groups(&["ftp://h/a", "ftp://h:21/b", "ftp://g/c", "ftp://h/d"]);
    assert_eq!(found[1].1 .0, "ftp://h/a");
    assert_eq!(found[1].1 .1, vec!["/a", "/b", "/d"]);
    assert_eq!(found[0].1 .1, vec!["/c"]);
}

#[test]
fn tls_is_for_ftps() {
    assert!(host("ftps", "h", 21, "", "").uses_tls());
    assert!(!host("ftp", "h", 21, "", "").uses_tls());
}

#[test]
fn a_clone_is_the_same_host() {
    let target = host("ftp", "h", 21, "a", "b");
    assert_eq!(target.clone(), target);
}
