use mini_fs::path::{join, strip_mount};
use mini_fs::{Empty, Error, File, Local, Merge, MergeAll, MiniFs, Ram, Store};

struct Broken;

impl Store for Broken {
    fn open(&self, _path: &str) -> Result<File, Error> {
        Err(Error::Io(String::from("device failure")))
    }
}

fn ram(entries: &[(&str, &str)]) -> Ram {
    let mut r = Ram::new();
    for (p, c) in entries {
        r.touch(p, c.as_bytes());
    }
    r
}

fn content<S: Store>(s: &S, path: &str) -> Option<String> {
    match s.open(path) {
        Ok(mut f) => {
            let mut out = Vec::new();
            f.read_to_end(&mut out);
            Some(String::from_utf8(out).unwrap())
        }
        Err(_) => None,
    }
}

fn is_io(r: Result<File, Error>) -> bool {
    matches!(r, Err(Error::Io(_)))
}

fn is_not_found(r: Result<File, Error>) -> bool {
    matches!(r, Err(Error::FileNotFound))
}

#[test]
fn merge_uses_first_when_it_opens() {
    let m = Merge(ram(&[("x", "first")]), ram(&[("x", "second")]));
    assert_eq!(content(&m, "x").as_deref(), Some("first"));
}

#[test]
fn merge_falls_back_to_second() {
    let m = Merge(ram(&[]), ram(&[("x", "second")]));
    assert_eq!(content(&m, "x").as_deref(), Some("second"));
}

#[test]
fn merge_reports_the_second_error() {
    let m = Merge(Broken, Empty);
    assert!(is_not_found(m.open("x")));
    let m = Merge(Empty, Broken);
    assert!(is_io(m.open("x")));
}

#[test]
fn merge_with_empty_is_the_store_alone() {
    let a = ram(&[("x", "data")]);
    let m = Merge(a.clone(), Empty);
    assert_eq!(content(&m, "x"), content(&a, "x"));
    assert!(is_not_found(m.open("y")));
    assert!(is_not_found(a.open("y")));
}

#[test]
fn empty_never_opens() {
    assert!(is_not_found(Empty.open("")));
    assert!(is_not_found(Empty.open("/any/path")));
}

#[test]
fn merge_all_follows_priority() {
    let m = MergeAll::new(vec![
        ram(&[("a", "1")]),
        ram(&[("a", "2"), ("b", "2")]),
        ram(&[("a", "3"), ("b", "3"), ("c", "3")]),
    ]);
    assert_eq!(content(&m, "a").as_deref(), Some("1"));
    assert_eq!(content(&m, "b").as_deref(), Some("2"));
    assert_eq!(content(&m, "c").as_deref(), Some("3"));
    assert!(is_not_found(m.open("d")));
}

#[test]
fn merge_all_ends_in_not_found() {
    let stores: Vec<Box<dyn Store>> = vec![Box::new(Broken), Box::new(Broken)];
    let m = MergeAll::new(stores);
    assert!(is_not_found(m.open("x")));
}

#[test]
fn newest_mount_is_authoritative() {
    let a = ram(&[("etc/x", "from root")]);
    let b = ram(&[]);
    let fs = MiniFs::new()
        .mount("/", Box::new(a) as Box<dyn Store>)
        .mount("/etc", Box::new(b) as Box<dyn Store>);
    assert!(is_not_found(fs.open("/etc/x")));
}

#[test]
fn mount_no_fallback_on_backend_error() {
    let fs = MiniFs::new()
        .mount("/", Box::new(ram(&[("etc/x", "root")])) as Box<dyn Store>)
        .mount("/etc", Box::new(Broken) as Box<dyn Store>);
    assert!(is_io(fs.open("/etc/x")));
    assert_eq!(content(&fs, "/etc2").as_deref(), None);
}

#[test]
fn root_mount_strips_only_the_root() {
    let fs = MiniFs::new().mount("/", ram(&[("etc/x", "root x")]));
    assert_eq!(content(&fs, "/etc/x").as_deref(), Some("root x"));
}

#[test]
fn last_mounted_wins_at_identical_path() {
    let fs = MiniFs::new()
        .mount("/d", ram(&[("f", "old")]))
        .mount("/d", ram(&[("f", "new")]));
    assert_eq!(content(&fs, "/d/f").as_deref(), Some("new"));
}

#[test]
fn prefix_must_end_on_a_separator() {
    let fs = MiniFs::new().mount("/files", ram(&[("x", "1"), ("", "dir")]));
    assert!(is_not_found(fs.open("/filesx")));
    assert_eq!(content(&fs, "/files/x").as_deref(), Some("1"));
    assert_eq!(content(&fs, "/files").as_deref(), Some("dir"));
}

#[test]
fn no_mount_is_not_found() {
    let fs: MiniFs<Ram> = MiniFs::new();
    assert!(is_not_found(fs.open("/a")));
}

#[test]
fn umount_takes_newest_then_next_older() {
    let mut fs = MiniFs::new()
        .mount("/d", ram(&[("f", "oldest")]))
        .mount("/e", ram(&[("f", "other")]))
        .mount("/d", ram(&[("f", "newest")]));
    let first = fs.umount("/d").unwrap();
    assert_eq!(content(&first, "f").as_deref(), Some("newest"));
    assert_eq!(content(&fs, "/d/f").as_deref(), Some("oldest"));
    let second = fs.umount("/d").unwrap();
    assert_eq!(content(&second, "f").as_deref(), Some("oldest"));
    assert!(fs.umount("/d").is_none());
    assert_eq!(content(&fs, "/e/f").as_deref(), Some("other"));
}

#[test]
fn umount_exact_path_only() {
    let mut fs = MiniFs::new().mount("/", Local::new("/")).mount("/etc", Local::new("/etc"));
    assert!(fs.umount("/et").is_none());
    assert!(fs.umount("/etc").is_some());
    assert!(fs.umount("/etc").is_none());
    assert!(fs.umount("/").is_some());
}

#[test]
fn touch_then_open_round_trip() {
    let mut r = Ram::new();
    r.touch("p", &[0u8, 255, 7]);
    let mut f = r.open("p").unwrap();
    let mut out = Vec::new();
    assert_eq!(f.read_to_end(&mut out), 3);
    assert_eq!(out, vec![0u8, 255, 7]);
    r.touch("p", b"again");
    assert_eq!(content(&r, "p").as_deref(), Some("again"));
}

#[test]
fn clear_then_open_not_found() {
    let mut r = ram(&[("a", "1"), ("b", "2")]);
    r.clear();
    assert!(is_not_found(r.open("a")));
    assert!(is_not_found(r.open("b")));
}

#[test]
fn empty_file_opens() {
    let r = ram(&[("e", "")]);
    assert_eq!(content(&r, "e").as_deref(), Some(""));
}

#[test]
fn file_read_in_pieces() {
    let mut f = File::from_bytes(b"hello".to_vec());
    let mut buf = [9u8; 3];
    assert_eq!(f.read(&mut buf), 3);
    assert_eq!(buf, [b'h', b'e', b'l']);
    assert_eq!(f.read(&mut buf), 2);
    assert_eq!(buf, [b'l', b'o', b'l']);
    assert_eq!(f.read(&mut buf), 0);
    let mut out = vec![1u8];
    assert_eq!(f.read_to_end(&mut out), 0);
    assert_eq!(out, vec![1u8]);
}

#[test]
fn file_from_ram_copies() {
    let data = vec![1u8, 2, 3];
    let mut f = File::from_ram(&data);
    let mut out = Vec::new();
    f.read_to_end(&mut out);
    assert_eq!(out, data);
}

#[test]
fn strip_mount_cases() {
    assert_eq!(strip_mount("/files/a.txt", "/files"), Some("a.txt"));
    assert_eq!(strip_mount("/files", "/files"), Some(""));
    assert_eq!(strip_mount("/filesx", "/files"), None);
    assert_eq!(strip_mount("/etc/x", "/"), Some("etc/x"));
    assert_eq!(strip_mount("/etc/x", ""), Some("/etc/x"));
    assert_eq!(strip_mount("/a/b", "/a/"), Some("b"));
    assert_eq!(strip_mount("/a", "/a/b"), None);
    assert_eq!(strip_mount("/é/ü", "/é"), Some("ü"));
}

#[test]
fn join_cases() {
    assert_eq!(join("/core/res", "a.txt"), "/core/res/a.txt");
    assert_eq!(join("/core/res/", "a.txt"), "/core/res/a.txt");
    assert_eq!(join("/core", "/abs"), "/abs");
    assert_eq!(join("", "rel"), "rel");
    assert_eq!(join("/r", ""), "/r/");
}

#[test]
fn local_path_of() {
    let l = Local::new("/user/res");
    assert_eq!(l.root_dir(), "/user/res");
    assert_eq!(l.path_of("img/a.png"), "/user/res/img/a.png");
}

#[test]
fn error_kind() {
    assert!(Error::FileNotFound.is_not_found());
    assert!(!Error::Io(String::from("x")).is_not_found());
}
