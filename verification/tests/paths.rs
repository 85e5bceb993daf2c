use fdir::error::{not_a_directory, not_a_file};
use fdir::path::FsPath;
use fdir::{
    already_exist, fix_path, fix_path_with, get_file_path, is_same_root, push_file_name,
    push_os_str_with, replace, ErrorKind, Recorder, INVALID_PATH,
};

fn p(text: &str) -> FsPath {
    let mut parts: Vec<String> = Vec::new();
    if text.starts_with('/') {
        parts.push("/".to_string());
    }
    for piece in text.split('/') {
        if !piece.is_empty() {
            parts.push(piece.to_string());
        }
    }
    FsPath::from_components(parts).unwrap()
}

#[test]
fn path_text_round_trip() {
    assert_eq!(p("/a/b.txt").to_text(), "/a/b.txt");
    assert_eq!(p("a/b").to_text(), "a/b");
    assert_eq!(p("/").to_text(), "/");
    assert_eq!(p("").to_text(), "");
    assert_eq!(p(".").to_text(), ".");
}

#[test]
fn from_components_refuses_what_is_no_path() {
    assert!(FsPath::from_components(vec!["a/b".to_string()]).is_none());
    assert!(FsPath::from_components(vec!["".to_string()]).is_none());
    assert!(FsPath::from_components(vec!["a".to_string(), "/".to_string()]).is_none());
    assert!(FsPath::from_components(vec!["/".to_string(), "a".to_string()]).is_some());
    assert!(FsPath::from_components(Vec::new()).is_some());
}

#[test]
fn components_come_back_as_given() {
    let parts = vec!["/".to_string(), "a".to_string(), "b.txt".to_string()];
    let path = FsPath::from_components(parts.clone()).unwrap();
    assert_eq!(path.components(), parts);
    assert_eq!(path.len(), 3);
    assert_eq!(path.component(2), "b.txt");
}

#[test]
fn push_appends_or_replaces() {
    let mut a = p("/a");
    a.push(&p("b/c"));
    assert_eq!(a, p("/a/b/c"));
    a.push(&p("/x"));
    assert_eq!(a, p("/x"));
    let mut e = FsPath::new();
    e.push(&p("rel"));
    assert_eq!(e, p("rel"));
}

#[test]
fn pop_stops_at_the_root() {
    let mut a = p("/a/b");
    assert!(a.pop());
    assert_eq!(a, p("/a"));
    assert!(a.pop());
    assert_eq!(a, p("/"));
    assert!(!a.pop());
    assert_eq!(a, p("/"));
    let mut r = p("x");
    assert!(r.pop());
    assert_eq!(r, p(""));
    assert!(!r.pop());
}

#[test]
fn parent_and_file_name() {
    assert_eq!(p("/a/b.txt").parent(), Some(p("/a")));
    assert_eq!(p("/").parent(), None);
    assert_eq!(p("").parent(), None);
    assert_eq!(p("/a/b.txt").file_name(), Some(p("b.txt")));
    assert_eq!(p("/").file_name(), None);
    assert_eq!(p("/a/..").file_name(), None);
    assert_eq!(p(".").file_name(), None);
    assert_eq!(p("/a/b.txt").file_name_text(), Some("b.txt".to_string()));
}

#[test]
fn extension_follows_the_last_dot() {
    assert_eq!(p("/a/b.txt").extension(), Some("txt".to_string()));
    assert_eq!(p("/a/b.tar.gz").extension(), Some("gz".to_string()));
    assert_eq!(p("/a/.bashrc").extension(), None);
    assert_eq!(p("/a/b").extension(), None);
    assert_eq!(p("/a/b.").extension(), Some("".to_string()));
    assert_eq!(p("/").extension(), None);
}

#[test]
fn set_extension_replaces_or_removes() {
    let mut a = p("/a/b.txt");
    assert!(a.set_extension(&"md".to_string()));
    assert_eq!(a, p("/a/b.md"));
    assert!(a.set_extension(&"".to_string()));
    assert_eq!(a, p("/a/b"));
    assert!(a.set_extension(&"rs".to_string()));
    assert_eq!(a, p("/a/b.rs"));
    let mut root = p("/");
    assert!(!root.set_extension(&"x".to_string()));
    assert_eq!(root, p("/"));
}

#[test]
fn set_file_name_gives_a_sibling() {
    let mut a = p("/a/b.txt");
    a.set_file_name(&p("c"));
    assert_eq!(a, p("/a/c"));
    let mut root = p("/");
    root.set_file_name(&p("c"));
    assert_eq!(root, p("/c"));
}

#[test]
fn starts_with_compares_components() {
    assert!(p("/a/b").starts_with(&p("/a")));
    assert!(p("/a/b").starts_with(&p("/a/b")));
    assert!(!p("/ab").starts_with(&p("/a")));
    assert!(!p("/a").starts_with(&p("/a/b")));
    assert!(p("/a").starts_with(&p("")));
    assert_eq!(p("/a/b/c").common_prefix_len(&p("/a/x")), 2);
    assert_eq!(p("/a").subpath(1, 9), p("a"));
    assert_eq!(p("/a").subpath(3, 1), p(""));
}

#[test]
fn rebase_puts_the_rest_under_the_destination() {
    assert_eq!(replace(&p("/src/x/1.txt"), &p("/src"), &p("/dst")), p("/dst/x/1.txt"));
    assert_eq!(replace(&p("/src"), &p("/src"), &p("/dst")), p("/dst"));
    assert_eq!(replace(&p("/src/x"), &p("/src/x"), &p("/src/x")), p("/src/x"));
}

#[test]
fn rebase_of_a_path_outside_the_root_does_not_fail() {
    assert_eq!(replace(&p("/a/b"), &p("/c"), &p("/dst")), p("/dst/a/b"));
    assert_eq!(replace(&p("/a"), &p("/a/b"), &p("/dst")), p("/dst"));
    assert_eq!(replace(&p("/a/b"), &p("rel"), &p("/dst")), p("/a/b"));
}

#[test]
fn push_file_name_needs_a_name() {
    assert_eq!(push_file_name(Some(&p("f.txt")), &p("/d")).unwrap(), p("/d/f.txt"));
    let e = push_file_name(None, &p("/d")).unwrap_err();
    assert_eq!(e.kind, ErrorKind::InvalidInput);
    assert_eq!(e.to_string(), "Invalid path");
}

#[test]
fn same_root_is_about_where_paths_start() {
    assert!(is_same_root(&p("/a/b"), &p("/c")));
    assert!(!is_same_root(&p("/a/b"), &p("c")));
    assert!(is_same_root(&p("a"), &p("c")));
    assert!(is_same_root(&p("a"), &p("/c")));
}

#[test]
fn fix_path_resolves_dots() {
    assert_eq!(fix_path_with(&p("/a/./b/../c"), None, None).unwrap(), p("/a/c"));
    assert_eq!(fix_path_with(&p("/../a"), None, None).unwrap(), p("/a"));
    assert_eq!(fix_path_with(&p("x/y"), Some(&p("/work")), None).unwrap(), p("/work/x/y"));
    assert_eq!(fix_path_with(&p("../y"), Some(&p("/work/dir")), None).unwrap(), p("/work/y"));
    assert_eq!(fix_path(&p("/a/b"), None).unwrap(), p("/a/b"));
}

#[test]
fn fix_path_replaces_home() {
    let home = p("/home/me");
    assert_eq!(fix_path_with(&p("~/x"), Some(&p("/work")), Some(&home)).unwrap(), p("/home/me/x"));
    assert_eq!(fix_path_with(&p("/a/~/x"), None, Some(&home)).unwrap(), p("/home/me/x"));
}

#[test]
fn fix_path_refuses_what_it_cannot_resolve() {
    let e = fix_path_with(&p("x/y"), None, None).unwrap_err();
    assert_eq!(e.kind, ErrorKind::InvalidInput);
    assert_eq!(e.message, "Invalid path");
    let e = fix_path_with(&p("/a/~"), None, None).unwrap_err();
    assert_eq!(e.kind, ErrorKind::InvalidInput);
    let e = fix_path(&p("x"), None).unwrap_err();
    assert_eq!(e.kind, ErrorKind::InvalidInput);
}

#[test]
fn fix_path_is_idempotent_on_normal_paths() {
    let once = fix_path_with(&p("/a/./b/../c/d"), None, None).unwrap();
    let twice = fix_path_with(&once, None, None).unwrap();
    assert_eq!(once, twice);
    assert!(twice.is_absolute());
}

#[test]
fn push_os_str_handles_each_kind_of_component() {
    let mut path = p("/a/b");
    push_os_str_with(&p("."), &mut path, None).unwrap();
    assert_eq!(path, p("/a/b"));
    push_os_str_with(&p(".."), &mut path, None).unwrap();
    assert_eq!(path, p("/a"));
    push_os_str_with(&p("c"), &mut path, None).unwrap();
    assert_eq!(path, p("/a/c"));
    push_os_str_with(&p("~"), &mut path, Some(&p("/home/me"))).unwrap();
    assert_eq!(path, p("/home/me"));
    assert!(push_os_str_with(&p("~"), &mut path, None).is_err());
    assert_eq!(path, p("/home/me"));
}

#[test]
fn get_file_path_takes_what_is_quoted() {
    let debug = "File { fd: 3, path: \"/tmp/a.txt\", read: true, write: false }".to_string();
    assert_eq!(get_file_path(debug), "/tmp/a.txt");
    assert_eq!(get_file_path("x\"y".to_string()), "y");
    assert_eq!(get_file_path("\"\"".to_string()), "");
}

#[test]
fn recorder_knows_its_end() {
    let r = Recorder::read(10);
    assert_eq!((r.pos, r.len), (0, 10));
    assert!(!r.EOF());
    let w = Recorder::write(7);
    assert_eq!((w.pos, w.len), (7, 0));
    assert!(w.EOF());
    assert!(Recorder::read(0).EOF());
}

#[test]
fn failures_carry_kind_and_message() {
    let e = already_exist(&p("/a/b.txt"));
    assert_eq!(e.kind(), ErrorKind::AlreadyExists);
    assert_eq!(e.to_string(), "The path '/a/b.txt' already exists!");
    let r: Result<u8, fdir::Error> = INVALID_PATH();
    let e = r.unwrap_err();
    assert_eq!(e.kind(), ErrorKind::InvalidInput);
    assert_eq!(e.to_string(), "Invalid path");
    let e = not_a_directory(&p("/a"));
    assert_eq!(e.kind(), ErrorKind::NotFound);
    assert_eq!(e.to_string(), "The path '/a' is not a directory or does not exist");
    let e = not_a_file(&p("/a"));
    assert_eq!(e.kind(), ErrorKind::NotFound);
    assert_eq!(e.to_string(), "The path '/a' is not a file or does not exist");
}
