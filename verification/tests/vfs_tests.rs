use open_kernel::vfs::{
    change_directory, create_dir, get_current_directory, list_directory, read_file_string,
    remove_node,
    resolve_path, write_file_string, FileSystem, VfsNode, BIN_INIT, README_TXT, SYSTEM_CONF,
};

fn names(entries: &[(String, bool)]) -> Vec<(&str, bool)> {
    entries.iter().map(|(n, d)| (n.as_str(), *d)).collect()
}

#[test]
fn new_file_system_has_default_structure() {
    let mut fs = FileSystem::new();
    let root = fs.list_directory("/").unwrap();
    assert_eq!(
        names(&root),
        vec![("config", true), ("bin", true), ("home", true), ("readme.txt", false)]
    );
    assert_eq!(fs.read_file("config/system.conf").unwrap(), SYSTEM_CONF.as_bytes());
    assert_eq!(fs.read_file("/readme.txt").unwrap(), README_TXT.as_bytes());
    assert_eq!(fs.read_file("bin/init").unwrap(), BIN_INIT.as_bytes());
    assert_eq!(fs.list_directory("home").unwrap().len(), 0);
}

#[test]
fn list_directory_of_file_or_missing_is_none() {
    let mut fs = FileSystem::new();
    assert!(fs.list_directory("readme.txt").is_none());
    assert!(fs.list_directory("nope").is_none());
    assert!(fs.list_directory("").is_some());
}

#[test]
fn write_then_read_gives_data() {
    let mut fs = FileSystem::new();
    assert!(fs.write_file("home/notes.txt", b"hello"));
    assert_eq!(fs.read_file("home/notes.txt").unwrap(), b"hello".to_vec());
    assert!(fs.write_file("/home/notes.txt/", b"again"));
    assert_eq!(fs.read_file("home//notes.txt").unwrap(), b"again".to_vec());
    assert_eq!(names(&fs.list_directory("home").unwrap()), vec![("notes.txt", false)]);
}

#[test]
fn write_refusals() {
    let mut fs = FileSystem::new();
    assert!(!fs.write_file("", b"x"));
    assert!(!fs.write_file("///", b"x"));
    assert!(!fs.write_file("missing/file", b"x"));
    assert!(!fs.write_file("readme.txt/inner", b"x"));
    assert!(!fs.write_file("home", b"x"));
    assert_eq!(fs.list_directory("home").unwrap().len(), 0);
}

#[test]
fn read_file_of_directory_is_none() {
    let mut fs = FileSystem::new();
    assert!(fs.read_file("config").is_none());
    assert!(fs.read_file("").is_none());
    assert!(fs.read_file("config/missing").is_none());
}

#[test]
fn mkdir_then_list_is_empty_and_duplicates_refused() {
    let mut fs = FileSystem::new();
    assert!(fs.mkdir("home/user"));
    assert_eq!(fs.list_directory("home/user").unwrap().len(), 0);
    assert!(!fs.mkdir("home/user"));
    assert!(!fs.mkdir("readme.txt"));
    assert!(!fs.mkdir("/"));
    assert!(!fs.mkdir("no/such/parent"));
    assert!(fs.mkdir("home/user/deep"));
    assert_eq!(names(&fs.list_directory("/home/user").unwrap()), vec![("deep", true)]);
}

#[test]
fn remove_then_lookup_finds_nothing() {
    let mut fs = FileSystem::new();
    assert!(fs.remove("config"));
    assert!(fs.read_file("config/system.conf").is_none());
    assert!(fs.list_directory("config").is_none());
    assert!(!fs.remove("config"));
    assert!(!fs.remove(""));
    assert!(fs.remove("/readme.txt"));
    assert_eq!(names(&fs.list_directory("").unwrap()), vec![("bin", true), ("home", true)]);
}

#[test]
fn node_names() {
    let f = VfsNode::File { name: "a".to_string(), content: vec![] };
    let d = VfsNode::Directory { name: "b".to_string(), children: vec![] };
    assert_eq!(f.name(), "a");
    assert_eq!(d.name(), "b");
    assert!(f.is_file());
    assert!(!d.is_file());
}

#[test]
fn resolve_path_normalises() {
    assert_eq!(resolve_path("", "/"), "/");
    assert_eq!(resolve_path("home", "/"), "/home");
    assert_eq!(resolve_path("docs", "/home"), "/home/docs");
    assert_eq!(resolve_path("/etc", "/home"), "/etc");
    assert_eq!(resolve_path("..", "/home/user"), "/home");
    assert_eq!(resolve_path("../..", "/home"), "/");
    assert_eq!(resolve_path("./a/./b/", "/"), "/a/b");
    assert_eq!(resolve_path("a//b/../c", "/x"), "/x/a/c");
    assert_eq!(resolve_path("/..", "/home"), "/");
}

#[test]
fn resolve_path_is_idempotent_on_examples() {
    for (p, cwd) in [("a/../b/./c", "/x/y"), ("../..", "/"), ("/q//r/", "/z"), ("", "/home")] {
        let once = resolve_path(p, cwd);
        assert_eq!(resolve_path(&once, "/elsewhere"), once);
    }
}

#[test]
fn change_directory_only_to_directories() {
    let fs = FileSystem::new();
    let mut cwd = "/".to_string();
    assert!(change_directory(&fs, &mut cwd, "home"));
    assert_eq!(get_current_directory(&cwd), "/home");
    assert!(!change_directory(&fs, &mut cwd, "nothing"));
    assert_eq!(cwd, "/home");
    assert!(!change_directory(&fs, &mut cwd, "/readme.txt"));
    assert_eq!(cwd, "/home");
    assert!(change_directory(&fs, &mut cwd, ".."));
    assert_eq!(cwd, "/");
    assert!(change_directory(&fs, &mut cwd, "/config"));
    assert_eq!(cwd, "/config");
}

#[test]
fn string_helpers_resolve_against_cwd() {
    let mut fs = FileSystem::new();
    assert!(write_file_string(&mut fs, "/home", "notes.txt", "buy milk"));
    assert_eq!(read_file_string(&mut fs, "/", "home/notes.txt").unwrap(), "buy milk");
    assert_eq!(read_file_string(&mut fs, "/home", "../readme.txt").unwrap(), README_TXT);
    assert!(read_file_string(&mut fs, "/", "home").is_none());
    assert!(create_dir(&mut fs, "/home", "projects"));
    assert!(fs.list_directory("/home/projects").is_some());
    assert!(!create_dir(&mut fs, "/home", "projects"));
    assert!(remove_node(&mut fs, "/home", "notes.txt"));
    assert!(read_file_string(&mut fs, "/", "home/notes.txt").is_none());
    assert!(!remove_node(&mut fs, "/", "nothing"));
}

#[test]
fn read_file_string_rejects_invalid_utf8() {
    let mut fs = FileSystem::new();
    assert!(fs.write_file("home/bin.dat", &[0xff, 0xfe, 0x00]));
    assert!(read_file_string(&mut fs, "/", "/home/bin.dat").is_none());
    assert!(fs.read_file("home/bin.dat").is_some());
}

#[test]
fn ls_lists_the_current_or_the_resolved_directory() {
    let mut fs = FileSystem::new();
    let (target, entries) = list_directory(&mut fs, "/config", "");
    assert_eq!(target, "/config");
    assert_eq!(names(&entries.unwrap()), vec![("system.conf", false)]);
    let (target, entries) = list_directory(&mut fs, "/config", "../bin");
    assert_eq!(target, "/bin");
    assert_eq!(names(&entries.unwrap()), vec![("init", false)]);
    let (target, entries) = list_directory(&mut fs, "/", ".");
    assert_eq!(target, "/");
    assert_eq!(
        names(&entries.unwrap()),
        vec![("config", true), ("bin", true), ("home", true), ("readme.txt", false)]
    );
    let (target, entries) = list_directory(&mut fs, "/home", "nowhere");
    assert_eq!(target, "/home/nowhere");
    assert!(entries.is_none());
    let (_, entries) = list_directory(&mut fs, "/", "readme.txt");
    assert!(entries.is_none());
}

#[test]
fn edits_leave_other_paths_alone() {
    let mut fs = FileSystem::new();
    assert!(fs.write_file("home/a.txt", b"a"));
    assert!(fs.mkdir("home/docs"));
    assert!(fs.remove("bin/init"));
    assert_eq!(fs.read_file("config/system.conf").unwrap(), SYSTEM_CONF.as_bytes());
    assert_eq!(fs.read_file("readme.txt").unwrap(), README_TXT.as_bytes());
    assert_eq!(fs.read_file("home/a.txt").unwrap(), b"a");
    assert!(fs.read_file("bin/init").is_none());
    assert_eq!(names(&fs.list_directory("bin").unwrap()), Vec::<(&str, bool)>::new());
}

#[test]
fn remove_undoes_mkdir_and_new_write() {
    let mut fs = FileSystem::new();
    let before = names(&fs.list_directory("home").unwrap().clone()).iter().map(|(n, d)| (n.to_string(), *d)).collect::<Vec<_>>();
    assert!(fs.mkdir("home/tmp"));
    assert!(fs.remove("home/tmp"));
    assert!(fs.write_file("home/new.txt", b"x"));
    assert!(fs.remove("home/new.txt"));
    let after = names(&fs.list_directory("home").unwrap().clone()).iter().map(|(n, d)| (n.to_string(), *d)).collect::<Vec<_>>();
    assert_eq!(before, after);
    assert_eq!(
        names(&fs.list_directory("").unwrap()),
        vec![("config", true), ("bin", true), ("home", true), ("readme.txt", false)]
    );
}

#[test]
fn when_edits_succeed() {
    let mut fs = FileSystem::new();
    assert!(!fs.write_file("", b"x"));
    assert!(!fs.write_file("nowhere/f", b"x"));
    assert!(!fs.write_file("readme.txt/f", b"x"));
    assert!(!fs.write_file("home", b"x"));
    assert!(fs.write_file("readme.txt", b"x"));
    assert!(!fs.mkdir("readme.txt"));
    assert!(!fs.mkdir("bin"));
    assert!(!fs.remove("home/nothing"));
    assert!(fs.remove("bin"));
}

#[test]
fn resolved_paths_are_normal() {
    for (input, cwd) in [("a//b/./c/", "/"), ("../..", "/x"), ("/p/../q/", "/ignored"), ("", "/home"), (".", "/")] {
        let r = resolve_path(input, cwd);
        assert!(r.starts_with('/'));
        assert!(r == "/" || (!r.ends_with('/') && r[1..].split('/').all(|s| !s.is_empty() && s != "." && s != "..")));
    }
    assert_eq!(resolve_path("/p/q", "/one"), resolve_path("/p/q", "/two"));
}
