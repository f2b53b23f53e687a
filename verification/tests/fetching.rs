use asimov_ftp_module::{File, HostUrl};

#[test]
fn a_host_url_is_absolute() {
    assert!(HostUrl::new("ftp://ftp.example.org/").is_ok());
    assert!(HostUrl::new("//ftp.example.org/").is_err());
    assert!(HostUrl::new("ftp://ftp.example.org/#x").is_err());
    assert!(HostUrl::new("ftp://ftp example.org/").is_err());
}

#[test]
fn a_fetched_file() {
    let host = HostUrl::new("ftp://ftp.example.org/start").unwrap();
    assert_eq!(
        host.file("/pub/./%7ea.txt", vec![1, 2, 3]).unwrap(),
        File {
            id: Some(String::from("ftp://ftp.example.org/pub/~a.txt")),
            name: Some(String::from("%7ea.txt")),
            size: 3,
            data: vec![1, 2, 3],
        }
    );
}

#[test]
fn a_file_at_no_path() {
    let host = HostUrl::new("ftp://ftp.example.org").unwrap();
    let file = host.file("", vec![]).unwrap();
    assert_eq!(file.id, Some(String::from("ftp://ftp.example.org")));
    assert_eq!(file.name, Some(String::from("")));
    assert_eq!(file.size, 0);
}

#[test]
fn a_path_that_is_no_reference_is_refused() {
    let host = HostUrl::new("ftp://ftp.example.org/").unwrap();
    assert_eq!(
        host.file("/a b", vec![]).unwrap_err(),
        iri_string::types::IriRelativeStr::new("/a b").unwrap_err()
    );
    assert!(host.file("ftp://h/x", vec![]).is_err());
}
