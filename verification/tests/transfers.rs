use fdir::delete::Delete;
use fdir::dir::{DirTransfer, DirectoryInfo, Walk};
use fdir::entity::{Action, Info};
use fdir::error::{Error, ErrorKind};
use fdir::file::{FileInfo, FileTransfer};
use fdir::measure::Measure;
use fdir::open::{Open, OpenKind};
use fdir::path::FsPath;
use fdir::recover::{Recovery, Status, TryRecover};
use fdir::request::{DirEntry, EntryKind, Metadata, Reply, Request};
use std::collections::BTreeMap;

fn p(text: &str) -> FsPath {
    let mut parts: Vec<String> = Vec::new();
    if text.starts_with('/') {
        parts.push("/".to_string());
    }
    for piece in text.split('/') {
        if !piece.is_empty() {
            parts.push(piece.to_string());
        }
    }
    FsPath::from_components(parts).unwrap()
}

#[derive(Clone, Debug, PartialEq)]
enum Node {
    File { bytes: Vec<u8>, readonly: bool },
    Dir,
}

/// A file system in memory, strict about permissions: a read-only file can
/// be neither removed nor written over.
struct Disk {
    nodes: BTreeMap<String, Node>,
    rename_works: bool,
    log: Vec<String>,
}

fn failure(kind: ErrorKind, message: &str) -> Reply {
    Reply::Failed(Error::new(kind, message.to_string()))
}

fn show(req: &Request) -> String {
    match req {
        Request::CurrentDir => "cwd".to_string(),
        Request::Exists(a) => format!("exists {}", a.to_text()),
        Request::IsDir(a) => format!("is_dir {}", a.to_text()),
        Request::Metadata(a) => format!("metadata {}", a.to_text()),
        Request::SetReadonly(a, b) => format!("set_readonly {} {}", a.to_text(), b),
        Request::RemoveFile(a) => format!("remove_file {}", a.to_text()),
        Request::RemoveDirAll(a) => format!("remove_dir_all {}", a.to_text()),
        Request::Copy(a, b) => format!("copy {} {}", a.to_text(), b.to_text()),
        Request::Rename(a, b) => format!("rename {} {}", a.to_text(), b.to_text()),
        Request::CreateDirAll(a) => format!("create_dir_all {}", a.to_text()),
        Request::ReadDir(a) => format!("read_dir {}", a.to_text()),
        Request::CreateFile(a) => format!("create_file {}", a.to_text()),
        Request::OpenFile(a) => format!("open_file {}", a.to_text()),
        Request::ReadFile(a) => format!("read_file {}", a.to_text()),
    }
}

impl Disk {
    fn new() -> Disk {
        let mut nodes = BTreeMap::new();
        nodes.insert("/".to_string(), Node::Dir);
        Disk { nodes, rename_works: true, log: Vec::new() }
    }

    fn dir(&mut self, path: &str) {
        let mut at = FsPath::new();
        for part in p(path).components() {
            at.push(&FsPath::from_components(vec![part]).unwrap());
            self.nodes.entry(at.to_text()).or_insert(Node::Dir);
        }
    }

    fn file(&mut self, path: &str, bytes: &[u8]) {
        if let Some(dir) = p(path).parent() {
            self.dir(&dir.to_text());
        }
        self.nodes.insert(path.to_string(), Node::File { bytes: bytes.to_vec(), readonly: false });
    }

    fn lock(&mut self, path: &str) {
        if let Some(Node::File { readonly, .. }) = self.nodes.get_mut(path) {
            *readonly = true;
        }
    }

    fn bytes(&self, path: &str) -> Option<Vec<u8>> {
        match self.nodes.get(path) {
            Some(Node::File { bytes, .. }) => Some(bytes.clone()),
            _ => None,
        }
    }

    fn has(&self, path: &str) -> bool {
        self.nodes.contains_key(path)
    }

    fn is_dir(&self, path: &str) -> bool {
        matches!(self.nodes.get(path), Some(Node::Dir))
    }

    fn parent_is_dir(&self, path: &FsPath) -> bool {
        match path.parent() {
            Some(dir) => self.is_dir(&dir.to_text()),
            None => false,
        }
    }

    fn under(&self, path: &str) -> Vec<String> {
        let prefix = if path == "/" { "/".to_string() } else { format!("{}/", path) };
        self.nodes.keys().filter(|k| k.starts_with(&prefix) && k.as_str() != path).cloned().collect()
    }

    fn perform(&mut self, req: Request) -> Reply {
        self.log.push(show(&req));
        match req {
            Request::CurrentDir => Reply::Path(p("/work")),
            Request::Exists(a) => Reply::Flag(self.has(&a.to_text())),
            Request::IsDir(a) => Reply::Flag(self.is_dir(&a.to_text())),
            Request::Metadata(a) => match self.nodes.get(&a.to_text()) {
                Some(Node::File { bytes, readonly }) => {
                    Reply::Meta(Metadata { len: bytes.len() as u64, readonly: *readonly })
                }
                Some(Node::Dir) => Reply::Meta(Metadata { len: 0, readonly: false }),
                None => failure(ErrorKind::NotFound, "no such entry"),
            },
            Request::SetReadonly(a, flag) => match self.nodes.get_mut(&a.to_text()) {
                Some(Node::File { readonly, .. }) => {
                    *readonly = flag;
                    Reply::Done
                }
                Some(Node::Dir) => Reply::Done,
                None => failure(ErrorKind::NotFound, "no such entry"),
            },
            Request::RemoveFile(a) => match self.nodes.get(&a.to_text()) {
                Some(Node::File { readonly: true, .. }) => failure(ErrorKind::Other, "permission denied"),
                Some(Node::File { .. }) => {
                    self.nodes.remove(&a.to_text());
                    Reply::Done
                }
                _ => failure(ErrorKind::NotFound, "no such file"),
            },
            Request::RemoveDirAll(a) => {
                let at = a.to_text();
                if !self.is_dir(&at) {
                    return failure(ErrorKind::NotFound, "no such directory");
                }
                for key in self.under(&at) {
                    self.nodes.remove(&key);
                }
                self.nodes.remove(&at);
                Reply::Done
            }
            Request::Copy(from, to) => {
                let bytes = match self.bytes(&from.to_text()) {
                    Some(bytes) => bytes,
                    None => return failure(ErrorKind::NotFound, "no such file"),
                };
                if !self.parent_is_dir(&to) {
                    return failure(ErrorKind::NotFound, "no such directory");
                }
                match self.nodes.get(&to.to_text()) {
                    Some(Node::Dir) => return failure(ErrorKind::Other, "is a directory"),
                    Some(Node::File { readonly: true, .. }) => {
                        return failure(ErrorKind::Other, "permission denied")
                    }
                    _ => {}
                }
                self.nodes.insert(to.to_text(), Node::File { bytes, readonly: false });
                Reply::Done
            }
            Request::Rename(from, to) => {
                if !self.rename_works {
                    return failure(ErrorKind::Other, "cross-device link");
                }
                let (old, new) = (from.to_text(), to.to_text());
                let node = match self.nodes.get(&old) {
                    Some(node) => node.clone(),
                    None => return failure(ErrorKind::NotFound, "no such entry"),
                };
                if !self.parent_is_dir(&to) {
                    return failure(ErrorKind::NotFound, "no such directory");
                }
                if self.is_dir(&new) && !self.under(&new).is_empty() {
                    return failure(ErrorKind::Other, "directory not empty");
                }
                for key in self.under(&old) {
                    let moved = self.nodes.remove(&key).unwrap();
                    self.nodes.insert(format!("{}{}", new, &key[old.len()..]), moved);
                }
                self.nodes.remove(&old);
                self.nodes.insert(new, node);
                Reply::Done
            }
            Request::CreateDirAll(a) => {
                let mut at = FsPath::new();
                for part in a.components() {
                    at.push(&FsPath::from_components(vec![part]).unwrap());
                    match self.nodes.get(&at.to_text()) {
                        Some(Node::File { .. }) => return failure(ErrorKind::Other, "not a directory"),
                        Some(Node::Dir) => {}
                        None => {
                            self.nodes.insert(at.to_text(), Node::Dir);
                        }
                    }
                }
                Reply::Done
            }
            Request::ReadDir(a) => {
                let at = a.to_text();
                if !self.is_dir(&at) {
                    return failure(ErrorKind::NotFound, "no such directory");
                }
                let mut entries = Vec::new();
                for key in self.under(&at) {
                    let path = p(&key);
                    if path.parent().map(|d| d.to_text()) != Some(at.clone()) {
                        continue;
                    }
                    let kind = match self.nodes[&key] {
                        Node::File { .. } => EntryKind::File,
                        Node::Dir => EntryKind::Directory,
                    };
                    entries.push(DirEntry { path, kind });
                }
                Reply::Entries(entries)
            }
            Request::CreateFile(a) => {
                if !self.parent_is_dir(&a) {
                    return failure(ErrorKind::NotFound, "no such directory");
                }
                self.nodes.insert(a.to_text(), Node::File { bytes: Vec::new(), readonly: false });
                Reply::Done
            }
            Request::OpenFile(a) => {
                if self.has(&a.to_text()) {
                    Reply::Path(a)
                } else {
                    failure(ErrorKind::NotFound, "no such file")
                }
            }
            Request::ReadFile(a) => match self.bytes(&a.to_text()) {
                Some(bytes) => Reply::Bytes(bytes),
                None => failure(ErrorKind::NotFound, "no such file"),
            },
        }
    }
}

trait Job: Sized {
    fn feed(self, reply: Reply) -> (Self, Option<Request>);
}

impl Job for Delete {
    fn feed(self, reply: Reply) -> (Self, Option<Request>) {
        self.step(reply)
    }
}

impl Job for FileTransfer {
    fn feed(self, reply: Reply) -> (Self, Option<Request>) {
        self.step(reply)
    }
}

impl Job for DirTransfer {
    fn feed(self, reply: Reply) -> (Self, Option<Request>) {
        self.step(reply)
    }
}

impl Job for Walk {
    fn feed(self, reply: Reply) -> (Self, Option<Request>) {
        self.step(reply)
    }
}

impl Job for Recovery {
    fn feed(self, reply: Reply) -> (Self, Option<Request>) {
        self.step(reply)
    }
}

impl Job for Measure {
    fn feed(self, reply: Reply) -> (Self, Option<Request>) {
        self.step(reply)
    }
}

impl Job for Open {
    fn feed(self, reply: Reply) -> (Self, Option<Request>) {
        self.step(reply)
    }
}

fn drive<J: Job>(disk: &mut Disk, start: (J, Option<Request>)) -> J {
    let (mut job, mut ask) = start;
    while let Some(req) = ask {
        let reply = disk.perform(req);
        let (next, more) = job.feed(reply);
        job = next;
        ask = more;
    }
    job
}

fn drive_from<J: Job>(disk: &mut Disk, start: (J, Request)) -> J {
    drive(disk, (start.0, Some(start.1)))
}

fn file(path: &str) -> FileInfo {
    FileInfo::open_uncheck(p(path))
}

fn dir(path: &str) -> DirectoryInfo {
    DirectoryInfo::open_uncheck(p(path))
}

#[test]
fn open_directory_gives_its_normal_form() {
    let mut disk = Disk::new();
    disk.dir("/a/b");
    let open = drive(&mut disk, DirectoryInfo::open(&p("/a/./x/../b")));
    assert!(open.is_done());
    let found = DirectoryInfo::opened(&open).unwrap();
    assert_eq!(found.as_path(), &p("/a/b"));
    assert_eq!(found.to_string(), "/a/b");
    assert!(found.as_path().is_absolute());
}

#[test]
fn open_relative_directory_starts_at_the_working_directory() {
    let mut disk = Disk::new();
    disk.dir("/work/sub");
    let open = drive(&mut disk, DirectoryInfo::open(&p("sub")));
    assert_eq!(DirectoryInfo::opened(&open).unwrap().as_path(), &p("/work/sub"));
    assert_eq!(disk.log, vec!["cwd", "is_dir /work/sub"]);
}

#[test]
fn open_file_as_directory_is_not_found() {
    let mut disk = Disk::new();
    disk.file("/a/f.txt", b"x");
    let open = drive(&mut disk, DirectoryInfo::open(&p("/a/f.txt")));
    let e = DirectoryInfo::opened(&open).unwrap_err();
    assert_eq!(e.kind(), ErrorKind::NotFound);
    assert_eq!(e.to_string(), "The path '/a/f.txt' is not a directory or does not exist");
    let open = drive(&mut disk, DirectoryInfo::open(&p("/nowhere")));
    assert_eq!(DirectoryInfo::opened(&open).unwrap_err().kind(), ErrorKind::NotFound);
}

#[test]
fn open_directory_as_file_is_not_found() {
    let mut disk = Disk::new();
    disk.dir("/a/b");
    disk.file("/a/f.txt", b"x");
    let open = drive(&mut disk, Open::start(OpenKind::File, p("/a/b"), None));
    let e = FileInfo::opened(&open).unwrap_err();
    assert_eq!(e.kind(), ErrorKind::NotFound);
    assert_eq!(e.to_string(), "The path '/a/b' is not a file or does not exist");
    let open = drive(&mut disk, Open::start(OpenKind::File, p("/a/f.txt"), None));
    assert_eq!(FileInfo::opened(&open).unwrap().as_path(), &p("/a/f.txt"));
    let open = drive(&mut disk, Open::start(OpenKind::File, p("/a/none"), None));
    assert_eq!(FileInfo::opened(&open).unwrap_err().kind(), ErrorKind::NotFound);
}

#[test]
fn opening_of_one_kind_finds_none_of_the_other() {
    let mut disk = Disk::new();
    disk.dir("/a/b");
    disk.file("/a/f.txt", b"x");
    let open = drive(&mut disk, DirectoryInfo::open(&p("/a/b")));
    assert!(DirectoryInfo::opened(&open).is_ok());
    assert_eq!(FileInfo::opened(&open).unwrap_err().kind(), ErrorKind::NotFound);
    let open = drive(&mut disk, Open::start(OpenKind::File, p("/a/f.txt"), None));
    assert!(FileInfo::opened(&open).is_ok());
    assert_eq!(DirectoryInfo::opened(&open).unwrap_err().kind(), ErrorKind::NotFound);
    assert!(DirectoryInfo::found(&open).is_none());
}

#[test]
fn create_makes_the_directories_above() {
    let mut disk = Disk::new();
    let open = drive(&mut disk, FileInfo::create(&p("/x/y/z.txt")));
    assert_eq!(FileInfo::opened(&open).unwrap().as_path(), &p("/x/y/z.txt"));
    assert!(disk.is_dir("/x/y"));
    assert_eq!(disk.bytes("/x/y/z.txt"), Some(Vec::new()));
    assert_eq!(disk.log, vec!["is_dir /x/y", "create_dir_all /x/y", "create_file /x/y/z.txt"]);
    disk.log.clear();
    drive(&mut disk, FileInfo::create(&p("/x/y/w.txt")));
    assert_eq!(disk.log, vec!["is_dir /x/y", "create_file /x/y/w.txt"]);
    let open = drive(&mut disk, Open::start(OpenKind::Create, p("/"), None));
    assert_eq!(FileInfo::opened(&open).unwrap_err().kind(), ErrorKind::InvalidInput);
}

#[test]
fn copy_file_round_trip() {
    let mut disk = Disk::new();
    disk.file("/src/f.bin", &[1, 2, 3, 255]);
    disk.dir("/dst");
    let job = drive(&mut disk, file("/src/f.bin").copy_new(&p("/dst/g.bin")));
    assert!(job.is_done());
    assert!(job.outcome().is_ok());
    assert_eq!(disk.bytes("/dst/g.bin"), Some(vec![1, 2, 3, 255]));
    assert_eq!(disk.bytes("/src/f.bin"), Some(vec![1, 2, 3, 255]));
    assert_eq!(job.entity().as_path(), &p("/src/f.bin"));
    assert_eq!(disk.log, vec!["exists /dst/g.bin", "copy /src/f.bin /dst/g.bin"]);
}

#[test]
fn copy_to_appends_the_name() {
    let mut disk = Disk::new();
    disk.file("/src/f.bin", b"abc");
    disk.dir("/dst");
    let job = drive(&mut disk, file("/src/f.bin").copy_to(&p("/dst")));
    assert!(job.outcome().is_ok());
    assert_eq!(disk.bytes("/dst/f.bin"), Some(b"abc".to_vec()));
}

#[test]
fn copy_to_of_the_root_is_an_invalid_path() {
    let mut disk = Disk::new();
    let job = drive(&mut disk, file("/").copy_to(&p("/dst")));
    let failure = job.outcome().unwrap_err();
    assert_eq!(failure.error.kind(), ErrorKind::InvalidInput);
    assert!(failure.status.is_none());
    assert!(disk.log.is_empty());
    let job = drive(&mut disk, dir("/").move_to(&p("/dst")));
    assert_eq!(job.outcome().unwrap_err().error.kind(), ErrorKind::InvalidInput);
}

#[test]
fn copy_onto_taken_destination_is_a_conflict() {
    let mut disk = Disk::new();
    disk.file("/src/f", b"new");
    disk.file("/dst/f", b"old");
    let job = drive(&mut disk, file("/src/f").copy_new(&p("/dst/f")));
    let failure = job.outcome().unwrap_err();
    assert_eq!(failure.error.kind(), ErrorKind::AlreadyExists);
    assert_eq!(failure.error.to_string(), "The path '/dst/f' already exists!");
    match &failure.status {
        Some(Status::CopyFile(f, to)) => {
            assert_eq!(f.as_path(), &p("/src/f"));
            assert_eq!(to, &p("/dst/f"));
        }
        _ => panic!("the failure does not say what was being done"),
    }
    assert_eq!(disk.bytes("/dst/f"), Some(b"old".to_vec()));
    assert_eq!(disk.log, vec!["exists /dst/f"]);
}

#[test]
fn copy_twice_recovers_from_the_conflict() {
    let mut disk = Disk::new();
    disk.file("/src/f", b"one");
    disk.dir("/dst");
    let first = drive(&mut disk, file("/src/f").copy_new(&p("/dst/f")));
    assert!(first.outcome().is_ok());
    disk.file("/src/f", b"two");
    let second = drive(&mut disk, file("/src/f").copy_new(&p("/dst/f")));
    let failure = second.outcome().unwrap_err();
    let recovery = drive(&mut disk, failure.try_recover());
    assert!(recovery.is_done());
    assert!(recovery.outcome().is_ok());
    assert_eq!(disk.bytes("/dst/f"), Some(b"two".to_vec()));
    assert_eq!(disk.bytes("/src/f"), Some(b"two".to_vec()));
}

#[test]
fn recovery_clears_a_read_only_destination() {
    let mut disk = Disk::new();
    disk.file("/src/f", b"new");
    disk.file("/dst/f", b"old");
    disk.lock("/dst/f");
    let job = drive(&mut disk, file("/src/f").copy_new(&p("/dst/f")));
    disk.log.clear();
    let recovery = drive(&mut disk, job.outcome().unwrap_err().try_recover());
    assert!(recovery.outcome().is_ok());
    assert_eq!(disk.bytes("/dst/f"), Some(b"new".to_vec()));
    assert_eq!(
        disk.log,
        vec![
            "metadata /dst/f",
            "set_readonly /dst/f false",
            "is_dir /dst/f",
            "remove_file /dst/f",
            "copy /src/f /dst/f"
        ]
    );
}

#[test]
fn recovery_hands_back_what_is_no_conflict() {
    let mut disk = Disk::new();
    let plain = TryRecover::from(Error::new(ErrorKind::Other, "disk full".to_string()));
    let recovery = drive(&mut disk, plain.try_recover());
    assert!(recovery.is_done());
    let e = recovery.outcome().unwrap_err();
    assert_eq!(e.kind(), ErrorKind::Other);
    assert_eq!(e.to_string(), "disk full");
    let no_status = TryRecover::from(Error::new(ErrorKind::AlreadyExists, "taken".to_string()));
    let recovery = drive(&mut disk, no_status.try_recover());
    assert_eq!(recovery.outcome().unwrap_err().kind(), ErrorKind::AlreadyExists);
    let other_kind = TryRecover::new(
        Error::new(ErrorKind::NotFound, "gone".to_string()),
        Status::CopyFile(file("/a"), p("/b")),
    );
    let recovery = drive(&mut disk, other_kind.try_recover());
    assert_eq!(recovery.outcome().unwrap_err().kind(), ErrorKind::NotFound);
    assert!(disk.log.is_empty());
    assert_eq!(recovery.entity(), None);
    let e: Error = TryRecover::from(Error::new(ErrorKind::Other, "x".to_string())).into();
    assert_eq!(e.to_string(), "x");
}

#[test]
fn move_file_renames_on_the_same_device() {
    let mut disk = Disk::new();
    disk.file("/src/f", b"abc");
    let job = drive(&mut disk, file("/src/f").move_new(&p("/dst/deep/g")));
    assert!(job.outcome().is_ok());
    assert_eq!(job.entity().as_path(), &p("/dst/deep/g"));
    assert_eq!(disk.bytes("/dst/deep/g"), Some(b"abc".to_vec()));
    assert!(!disk.has("/src/f"));
    assert_eq!(
        disk.log,
        vec!["exists /dst/deep/g", "create_dir_all /dst/deep", "rename /src/f /dst/deep/g"]
    );
}

#[test]
fn move_file_falls_back_to_copy_and_delete_across_devices() {
    let mut disk = Disk::new();
    disk.rename_works = false;
    disk.file("/src/f", b"abc");
    disk.lock("/src/f");
    let job = drive(&mut disk, file("/src/f").move_to(&p("/dst")));
    assert!(job.outcome().is_ok());
    assert_eq!(job.entity().as_path(), &p("/dst/f"));
    assert_eq!(disk.bytes("/dst/f"), Some(b"abc".to_vec()));
    assert!(!disk.has("/src/f"));
    assert_eq!(
        disk.log,
        vec![
            "exists /dst/f",
            "create_dir_all /dst",
            "rename /src/f /dst/f",
            "copy /src/f /dst/f",
            "metadata /src/f",
            "set_readonly /src/f false",
            "is_dir /src/f",
            "remove_file /src/f"
        ]
    );
}

#[test]
fn move_file_that_fails_stays_where_it_is() {
    let mut disk = Disk::new();
    disk.rename_works = false;
    let job = drive(&mut disk, file("/src/missing").move_new(&p("/dst/g")));
    let failure = job.outcome().unwrap_err();
    assert_eq!(failure.error.kind(), ErrorKind::NotFound);
    assert!(failure.status.is_none());
    assert_eq!(job.entity().as_path(), &p("/src/missing"));
}

#[test]
fn move_file_conflict_recovers_and_repoints() {
    for rename_works in [true, false] {
        let mut disk = Disk::new();
        disk.rename_works = rename_works;
        disk.file("/src/f", b"new");
        disk.file("/dst/f", b"old");
        let job = drive(&mut disk, file("/src/f").move_new(&p("/dst/f")));
        let failure = job.outcome().unwrap_err();
        assert!(matches!(failure.status, Some(Status::MoveFile(_, _))));
        assert_eq!(job.entity().as_path(), &p("/src/f"));
        let recovery = drive(&mut disk, failure.try_recover());
        assert!(recovery.outcome().is_ok());
        assert_eq!(recovery.entity(), Some(p("/dst/f")));
        assert_eq!(disk.bytes("/dst/f"), Some(b"new".to_vec()));
        assert!(!disk.has("/src/f"));
    }
}

#[test]
fn relative_destination_is_resolved_first() {
    let mut disk = Disk::new();
    disk.file("/src/f", b"abc");
    disk.dir("/work");
    let job = drive(&mut disk, file("/src/f").copy_new(&p("out/../g")));
    assert!(job.outcome().is_ok());
    assert_eq!(disk.bytes("/work/g"), Some(b"abc".to_vec()));
    assert_eq!(disk.log, vec!["cwd", "exists /work/g", "copy /src/f /work/g"]);
}

#[test]
fn unexpected_reply_ends_the_transfer() {
    let (job, ask) = file("/src/f").copy_new(&p("/dst/f"));
    assert!(matches!(ask, Some(Request::Exists(_))));
    let (job, ask) = job.step(Reply::Done);
    assert!(ask.is_none());
    let failure = job.outcome().unwrap_err();
    assert_eq!(failure.error.kind(), ErrorKind::Other);
    assert_eq!(failure.error.to_string(), "Unexpected reply");
    let (job, ask) = job.step(Reply::Flag(false));
    assert!(ask.is_none());
    assert!(job.is_done());
}

#[test]
fn copy_tree_mirrors_structure() {
    let mut disk = Disk::new();
    disk.file("/t/a", b"A");
    disk.file("/t/x/b", b"B");
    disk.file("/t/x/y/c", b"C");
    disk.dir("/t/empty");
    let job = drive(&mut disk, dir("/t").copy_new(&p("/out/t2")));
    assert!(job.outcome().is_ok());
    assert_eq!(job.entity().as_path(), &p("/t"));
    assert_eq!(disk.bytes("/out/t2/a"), Some(b"A".to_vec()));
    assert_eq!(disk.bytes("/out/t2/x/b"), Some(b"B".to_vec()));
    assert_eq!(disk.bytes("/out/t2/x/y/c"), Some(b"C".to_vec()));
    assert!(disk.is_dir("/out/t2/empty"));
    assert_eq!(disk.bytes("/t/a"), Some(b"A".to_vec()));
    assert_eq!(disk.bytes("/t/x/y/c"), Some(b"C".to_vec()));
}

#[test]
fn walk_goes_breadth_first() {
    let mut disk = Disk::new();
    disk.file("/t/a/deep/f", b"1");
    disk.file("/t/b/g", b"2");
    let walk = drive(&mut disk, Walk::start(&dir("/t"), p("/o"), None, true));
    assert!(walk.is_done());
    assert!(walk.outcome().is_ok());
    let visited: Vec<&String> = disk.log.iter().filter(|l| l.starts_with("create_dir_all")).collect();
    assert_eq!(
        visited,
        vec![
            "create_dir_all /o",
            "create_dir_all /o/a",
            "create_dir_all /o/b",
            "create_dir_all /o/a/deep"
        ]
    );
}

#[test]
fn copy_of_an_empty_directory_creates_the_destination() {
    let mut disk = Disk::new();
    disk.dir("/t");
    let job = drive(&mut disk, dir("/t").copy_to(&p("/out")));
    assert!(job.outcome().is_ok());
    assert!(disk.is_dir("/out/t"));
    assert!(disk.is_dir("/t"));
}

#[test]
fn move_tree_by_rename() {
    let mut disk = Disk::new();
    disk.file("/t/a", b"A");
    disk.file("/t/x/b", b"B");
    disk.dir("/out");
    let job = drive(&mut disk, dir("/t").move_new(&p("/out/t")));
    assert!(job.outcome().is_ok());
    assert_eq!(job.entity().as_path(), &p("/out/t"));
    assert_eq!(disk.bytes("/out/t/a"), Some(b"A".to_vec()));
    assert_eq!(disk.bytes("/out/t/x/b"), Some(b"B".to_vec()));
    assert!(!disk.has("/t"));
    assert_eq!(disk.log, vec!["exists /out/t", "rename /t /out/t"]);
}

#[test]
fn move_tree_preserves_content_across_devices() {
    let mut disk = Disk::new();
    disk.rename_works = false;
    disk.file("/t/a", b"A");
    disk.file("/t/b", b"B");
    disk.file("/t/x/c", b"C");
    let job = drive(&mut disk, dir("/t").move_new(&p("/out/t")));
    assert!(job.outcome().is_ok());
    assert_eq!(job.entity().as_path(), &p("/out/t"));
    assert_eq!(disk.bytes("/out/t/a"), Some(b"A".to_vec()));
    assert_eq!(disk.bytes("/out/t/b"), Some(b"B".to_vec()));
    assert_eq!(disk.bytes("/out/t/x/c"), Some(b"C".to_vec()));
    assert!(!disk.has("/t"));
    assert!(disk.under("/t").is_empty());
    assert_eq!(disk.log.last().unwrap(), "remove_dir_all /t");
}

#[test]
fn copy_tree_over_partial_conflict() {
    let mut disk = Disk::new();
    disk.file("/t/x/1.txt", b"fresh");
    disk.file("/t/x/2.txt", b"two");
    disk.file("/d/x/1.txt", b"stale");
    disk.file("/d/keep.txt", b"kept");
    let job = drive(&mut disk, dir("/t").copy_new(&p("/d")));
    let failure = job.outcome().unwrap_err();
    assert!(matches!(failure.status, Some(Status::CopyDirectory(_, _))));
    assert_eq!(disk.bytes("/d/x/1.txt"), Some(b"stale".to_vec()));
    let recovery = drive(&mut disk, failure.try_recover());
    assert!(recovery.outcome().is_ok());
    assert_eq!(disk.bytes("/d/x/1.txt"), Some(b"fresh".to_vec()));
    assert_eq!(disk.bytes("/d/x/2.txt"), Some(b"two".to_vec()));
    assert_eq!(disk.bytes("/d/keep.txt"), Some(b"kept".to_vec()));
    assert_eq!(disk.bytes("/t/x/1.txt"), Some(b"fresh".to_vec()));
    assert_eq!(recovery.entity(), Some(p("/t")));
}

#[test]
fn walk_recovers_each_file_in_place() {
    let mut disk = Disk::new();
    disk.file("/t/x/1.txt", b"fresh");
    disk.file("/t/x/2.txt", b"two");
    disk.file("/d/x/1.txt", b"stale");
    let walk = drive(&mut disk, Walk::start(&dir("/t"), p("/d"), None, true));
    assert!(walk.outcome().is_ok());
    let at = disk.log.iter().position(|l| l == "exists /d/x/1.txt").unwrap();
    assert_eq!(
        &disk.log[at..at + 7],
        &[
            "exists /d/x/1.txt",
            "metadata /d/x/1.txt",
            "is_dir /d/x/1.txt",
            "remove_file /d/x/1.txt",
            "copy /t/x/1.txt /d/x/1.txt",
            "exists /d/x/2.txt",
            "copy /t/x/2.txt /d/x/2.txt"
        ]
    );
}

#[test]
fn move_tree_onto_taken_destination_merges() {
    let mut disk = Disk::new();
    disk.file("/t/x/1.txt", b"fresh");
    disk.file("/d/x/1.txt", b"stale");
    disk.file("/d/other", b"o");
    let job = drive(&mut disk, dir("/t").move_new(&p("/d")));
    let failure = job.outcome().unwrap_err();
    assert!(matches!(failure.status, Some(Status::MoveDirectory(_, _))));
    let recovery = drive(&mut disk, failure.try_recover());
    assert!(recovery.outcome().is_ok());
    assert_eq!(recovery.entity(), Some(p("/d")));
    assert_eq!(disk.bytes("/d/x/1.txt"), Some(b"fresh".to_vec()));
    assert_eq!(disk.bytes("/d/other"), Some(b"o".to_vec()));
    assert!(!disk.has("/t"));
}

#[test]
fn walk_stops_at_the_first_failure_that_is_no_conflict() {
    let mut disk = Disk::new();
    disk.file("/t/a", b"A");
    disk.file("/d", b"a file where the directory should be");
    let walk = drive(&mut disk, Walk::start(&dir("/t"), p("/d"), None, true));
    assert!(walk.is_done());
    assert_eq!(walk.outcome().unwrap_err().kind(), ErrorKind::Other);
    assert_eq!(disk.bytes("/t/a"), Some(b"A".to_vec()));
}

#[test]
fn delete_read_only_file() {
    let mut disk = Disk::new();
    disk.file("/a/f", b"x");
    disk.lock("/a/f");
    let job = drive_from(&mut disk, file("/a/f").delete());
    assert!(job.is_done());
    assert!(job.outcome().is_ok());
    assert!(!disk.has("/a/f"));
    assert_eq!(
        disk.log,
        vec!["metadata /a/f", "set_readonly /a/f false", "is_dir /a/f", "remove_file /a/f"]
    );
}

#[test]
fn delete_directory_removes_the_tree() {
    let mut disk = Disk::new();
    disk.file("/a/b/f", b"x");
    let job = drive_from(&mut disk, dir("/a").delete());
    assert!(job.outcome().is_ok());
    assert!(!disk.has("/a"));
    assert!(!disk.has("/a/b/f"));
    assert_eq!(disk.log, vec!["metadata /a", "is_dir /a", "remove_dir_all /a"]);
}

#[test]
fn delete_of_what_is_missing_fails() {
    let mut disk = Disk::new();
    let job = drive_from(&mut disk, file("/none").delete());
    assert_eq!(job.outcome().unwrap_err().kind(), ErrorKind::NotFound);
    assert_eq!(disk.log, vec!["metadata /none"]);
}

#[test]
fn rename_keeps_directory_and_extension() {
    let mut f = file("/a/b.txt");
    assert_eq!(f.rename_to(&p("c")), p("/a/c.txt"));
    let ask = f.rename_request(&p("c"));
    assert!(matches!(&ask, Request::Rename(from, to) if from == &p("/a/b.txt") && to == &p("/a/c.txt")));
    f.rename(&p("c"), Reply::Done).unwrap();
    assert_eq!(f.as_path(), &p("/a/c.txt"));
    assert_eq!(file("/a/b").rename_to(&p("c")), p("/a/c"));
    assert_eq!(file("/a/b.txt").rename_to(&p("c.md")), p("/a/c.txt"));
    assert_eq!(file("/a/b.").rename_to(&p("c")), p("/a/c"));
    assert_eq!(dir("/a/b.d").rename_to(&p("c")), p("/a/c"));
}

#[test]
fn rename_that_fails_leaves_the_entity_alone() {
    let mut f = file("/a/b.txt");
    let e = f.rename(&p("c"), failure(ErrorKind::Other, "busy")).unwrap_err();
    assert_eq!(e.to_string(), "busy");
    assert_eq!(f.as_path(), &p("/a/b.txt"));
    let mut d = dir("/a/b");
    d.rename(&p("c"), Reply::Done).unwrap();
    assert_eq!(d.as_path(), &p("/a/c"));
}

#[test]
fn size_of_missing_is_zero() {
    let mut disk = Disk::new();
    let m = drive_from(&mut disk, file("/none").size());
    assert!(m.is_done());
    assert_eq!(m.total(), 0);
    let m = drive_from(&mut disk, dir("/none").size());
    assert!(m.is_done());
    assert_eq!(m.total(), 0);
}

#[test]
fn size_adds_up_the_tree() {
    let mut disk = Disk::new();
    disk.file("/t/a", &[0; 5]);
    disk.file("/t/x/b", &[0; 7]);
    disk.file("/t/x/y/c", &[0; 11]);
    disk.dir("/t/empty");
    let m = drive_from(&mut disk, dir("/t").size());
    assert_eq!(m.total(), 23);
    let m = drive_from(&mut disk, file("/t/x/b").size());
    assert_eq!(m.total(), 7);
}

#[test]
fn size_stops_at_the_largest_number() {
    let (m, _) = Measure::start(&p("/t"));
    let entries = vec![
        DirEntry { path: p("/t/a"), kind: EntryKind::File },
        DirEntry { path: p("/t/b"), kind: EntryKind::Other },
    ];
    let (m, ask) = m.step(Reply::Entries(entries));
    assert!(matches!(ask, Some(Request::Metadata(_))));
    let (m, ask) = m.step(Reply::Meta(Metadata { len: u64::MAX - 1, readonly: false }));
    assert!(matches!(ask, Some(Request::Metadata(_))));
    let (m, ask) = m.step(Reply::Meta(Metadata { len: 5, readonly: false }));
    assert!(ask.is_none());
    assert_eq!(m.total(), u64::MAX);
}

#[test]
fn listing_sorts_entries_by_kind() {
    let entries = vec![
        DirEntry { path: p("/t/a"), kind: EntryKind::File },
        DirEntry { path: p("/t/d"), kind: EntryKind::Directory },
        DirEntry { path: p("/t/s"), kind: EntryKind::Other },
        DirEntry { path: p("/t/b"), kind: EntryKind::File },
    ];
    let d = dir("/t");
    assert_eq!(d.children(&entries), vec![p("/t/a"), p("/t/d"), p("/t/s"), p("/t/b")]);
    let files: Vec<FsPath> = d.files(&entries).iter().map(|f| f.as_path().clone()).collect();
    assert_eq!(files, vec![p("/t/a"), p("/t/b")]);
    let dirs: Vec<FsPath> = d.directories(&entries).iter().map(|f| f.as_path().clone()).collect();
    assert_eq!(dirs, vec![p("/t/d")]);
    assert_eq!(fdir::read_dir(&entries, Some(EntryKind::Other)), vec![p("/t/s")]);
}

#[test]
fn entity_queries() {
    let f = file("/a/b.txt");
    assert_eq!(f.file_name(), Some(p("b.txt")));
    assert_eq!(f.to_string(), "/a/b.txt");
    assert!(matches!(f.metadata(), Request::Metadata(a) if a == p("/a/b.txt")));
    assert!(matches!(f.set_readonly(true), Request::SetReadonly(a, true) if a == p("/a/b.txt")));
    assert_eq!(f.read_only(Reply::Meta(Metadata { len: 1, readonly: true })).unwrap(), true);
    assert_eq!(f.read_only(Reply::Meta(Metadata { len: 1, readonly: false })).unwrap(), false);
    assert_eq!(f.read_only(failure(ErrorKind::NotFound, "gone")).unwrap_err().kind(), ErrorKind::NotFound);
    assert!(file("/").file_name().is_none());
}

#[test]
fn parent_is_opened_as_a_directory() {
    let mut disk = Disk::new();
    disk.file("/a/f", b"x");
    let open = drive(&mut disk, file("/a/f").parent().unwrap());
    assert_eq!(DirectoryInfo::opened(&open).unwrap().as_path(), &p("/a"));
    assert!(dir("/").parent().is_none());
    let open = drive(&mut disk, file("/missing/f").parent().unwrap());
    assert!(DirectoryInfo::opened(&open).is_err());
}
