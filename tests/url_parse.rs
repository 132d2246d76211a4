use naia_socket::{check_server_url, get_url, parse_server_url, UrlError};

#[test]
fn server_url_without_path_is_accepted() {
    let url = parse_server_url("http://127.0.0.1:14191").unwrap();
    assert_eq!(url.port(), Some(14191));
    assert!(parse_server_url("http://127.0.0.1:14191/session").is_ok());
}

#[test]
fn server_url_rejections() {
    assert_eq!(parse_server_url("not a url").unwrap_err(), UrlError::Invalid);
    assert_eq!(parse_server_url("http://host/a/b").unwrap_err(), UrlError::Path);
    assert_eq!(parse_server_url("http://host?x=1").unwrap_err(), UrlError::Query);
    assert_eq!(parse_server_url("http://host#frag").unwrap_err(), UrlError::Fragment);
    assert_eq!(get_url("http://host/a/b").unwrap_err(), UrlError::Path);
}

#[test]
fn check_server_url_order() {
    assert_eq!(check_server_url(Some(2), true, true), Err(UrlError::Path));
    assert_eq!(check_server_url(Some(1), true, true), Err(UrlError::Query));
    assert_eq!(check_server_url(None, false, true), Err(UrlError::Fragment));
    assert_eq!(check_server_url(Some(1), false, false), Ok(()));
    assert_eq!(check_server_url(None, false, false), Ok(()));
}
