use fdir::entity::Action;
use fdir::error::{Error, ErrorKind};
use fdir::file::FileInfo;
use fdir::path::FsPath;
use fdir::request::{Reply, Request};
use fdir::response::{content_disposition, response};
use fdir::normalize::{home_from, lookup_home, needs_home};
use fdir::{fix_path, home_dir, push_os_str};

fn p(text: &str) -> FsPath {
    let mut parts: Vec<String> = Vec::new();
    if text.starts_with('/') {
        parts.push("/".to_string());
    }
    for piece in text.split('/') {
        if !piece.is_empty() {
            parts.push(piece.to_string());
        }
    }
    FsPath::from_components(parts).unwrap()
}

fn header(name: &str, value: &str) -> (String, String) {
    (name.to_string(), value.to_string())
}

#[test]
fn disposition_encodes_the_name() {
    assert_eq!(content_disposition("report.txt"), "attachment; filename=report.txt");
    assert_eq!(content_disposition("a b&c.txt"), "attachment; filename=a+b%26c.txt");
    assert_eq!(content_disposition("*-._09AZaz"), "attachment; filename=*-._09AZaz");
    assert_eq!(content_disposition("100%/~"), "attachment; filename=100%25%2F%7E");
    assert_eq!(content_disposition("\u{e9}"), "attachment; filename=%C3%A9");
    assert_eq!(content_disposition(""), "attachment; filename=");
}

#[test]
fn response_offers_the_bytes() {
    let r = response(Reply::Bytes(vec![1, 2, 3]), "a b.bin", Some("application/octet-stream"));
    assert_eq!(r.status, 200);
    assert_eq!(
        r.headers,
        vec![
            header("content-type", "application/octet-stream"),
            header("content-disposition", "attachment; filename=a+b.bin"),
            header("access-control-expose-headers", "content-disposition"),
        ]
    );
    assert_eq!(r.body, vec![1, 2, 3]);
}

#[test]
fn response_defaults_to_plain_text() {
    let r = response(Reply::Bytes(Vec::new()), "x", None);
    assert_eq!(r.headers[0], header("content-type", "text/plain"));
    assert_eq!(r.body, Vec::<u8>::new());
}

#[test]
fn response_reports_a_failure() {
    let failed = Reply::Failed(Error::new(ErrorKind::NotFound, "no such file".to_string()));
    let r = response(failed, "x", None);
    assert_eq!(r.status, 500);
    assert!(r.headers.is_empty());
    assert_eq!(r.body, b"no such file".to_vec());
    let r = response(Reply::Done, "x", None);
    assert_eq!(r.status, 500);
    assert_eq!(r.body, b"Unexpected reply".to_vec());
}

#[test]
fn file_response_uses_its_own_name() {
    let f = FileInfo::open_uncheck(p("/srv/my file.txt"));
    assert!(matches!(f.read(), Request::ReadFile(a) if a == p("/srv/my file.txt")));
    let r = f.response(None, Reply::Bytes(b"hi".to_vec()));
    assert_eq!(r.headers[1], header("content-disposition", "attachment; filename=my+file.txt"));
    let r = f.response_with_name("other", Some("text/html"), Reply::Bytes(b"hi".to_vec()));
    assert_eq!(r.headers[0], header("content-type", "text/html"));
    assert_eq!(r.headers[1], header("content-disposition", "attachment; filename=other"));
    let root = FileInfo::open_uncheck(p("/"));
    let r = root.response(None, Reply::Bytes(Vec::new()));
    assert_eq!(r.headers[1], header("content-disposition", "attachment; filename=unknown_name"));
}

#[test]
fn home_stands_for_what_the_system_names() {
    match home_dir() {
        Some(home) => {
            let mut want = home.clone();
            want.push(&p("x"));
            assert_eq!(fix_path(&p("/a/~/x"), None).unwrap(), want);
            let mut path = p("/a");
            push_os_str(&p("~"), &mut path).unwrap();
            assert_eq!(path, home);
        }
        None => {
            assert_eq!(fix_path(&p("/a/~/x"), None).unwrap_err().kind(), ErrorKind::InvalidInput);
            let mut path = p("/a");
            assert!(push_os_str(&p("~"), &mut path).is_err());
            assert_eq!(path, p("/a"));
        }
    }
    let mut path = p("/a");
    push_os_str(&p("b"), &mut path).unwrap();
    assert_eq!(path, p("/a/b"));
}

#[test]
fn home_is_what_the_system_names_where_that_is_a_path() {
    let named = vec!["/".to_string(), "home".to_string(), "me".to_string()];
    assert_eq!(home_from(Some(named)), Some(p("/home/me")));
    assert_eq!(home_from(Some(Vec::new())), Some(p("")));
    assert_eq!(home_from(Some(vec!["a/b".to_string()])), None);
    assert_eq!(home_from(Some(vec!["home".to_string(), "/".to_string()])), None);
    assert_eq!(home_from(None), None);
}

#[test]
fn home_is_looked_up_only_where_it_matters() {
    assert!(needs_home(&p("~")));
    assert!(needs_home(&p("/a/~/b")));
    assert!(needs_home(&p("x/~")));
    assert!(!needs_home(&p("/a/b")));
    assert!(!needs_home(&p("/a/~b")));
    assert!(!needs_home(&p("")));
    assert_eq!(lookup_home(&p("/a/b")), None);
    assert_eq!(lookup_home(&p("/a/~/b")), home_dir());
}
