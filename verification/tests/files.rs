use reworkspace::files::{check_all, dir_like, file_b64, first_refusal, keep_shown, move_step, size_verdict, MoveStep};
use reworkspace::files::{first_free, keep_existing};
use reworkspace::files::{
    candidate_name, check, check_on, checked_unprotected, default_dock, dock_candidates, ext_of, is_app, is_hidden,
    mode_string, name_of, path_join, path_join_on, protected, protected_with, same_path, sort_entries, unique_name, access_string,
    Entry, Os,
};

fn entry(name: &str, is_dir: bool) -> Entry {
    Entry {
        name: name.to_string(),
        path: format!("/d/{name}"),
        is_dir,
        is_symlink: false,
        is_app: false,
        size: 1,
        modified: 0,
        hidden: is_hidden(name, false),
    }
}

#[test]
fn rejects_relative_and_dotdot() {
    assert!(check("relative/path").is_err());
    assert!(check("/tmp/../etc").is_err());
    assert!(check("/tmp/ok").is_ok());
}

#[test]
fn paths_are_checked_by_the_host_rules() {
    assert_eq!(check_on("relative/path", false), Err("not an absolute path: relative/path".to_string()));
    assert_eq!(check_on("/tmp/../etc", false), Err("path contains '..': /tmp/../etc".to_string()));
    assert_eq!(check_on("/tmp/..hidden", false), Ok("/tmp/..hidden".to_string()));
    assert!(check_on("", false).is_err());
    // a drive path is relative on Unix, and `\` separates nothing there
    assert!(check_on("C:\\x", false).is_err());
    assert_eq!(check_on("/a\\..", false), Ok("/a\\..".to_string()));
    // on Windows a drive path is absolute and `/tmp/ok` is not
    assert_eq!(check_on("C:\\Users\\me", true), Ok("C:\\Users\\me".to_string()));
    assert!(check_on("/tmp/ok", true).is_err());
    assert!(check_on("C:\\a\\..\\b", true).is_err());
    if std::path::MAIN_SEPARATOR == '/' {
        assert!(check("C:\\x").is_err());
    }
}

#[test]
fn protected_roots() {
    for p in ["/", "/Users", "/System", "/Applications", "C:\\", "C:\\Windows", "C:\\Program Files", "C:\\Program Files (x86)"] {
        assert!(protected(p), "{p}");
    }
    let home = dirs::home_dir().unwrap();
    assert!(protected(&home.to_string_lossy()));
    assert!(!protected("/Users/nobody/Documents"));
    assert!(!protected("C:\\Program Files\\App"));
    assert!(checked_unprotected("/").is_err());
}

#[test]
fn protected_paths_compare_by_components() {
    assert!(protected_with("/Users/", None));
    assert!(protected_with("//System", None));
    assert!(protected_with("/home/me/", Some("/home/me")));
    assert!(!protected_with("/home/me/notes", Some("/home/me")));
    assert!(protected_with("c:\\program files\\", None));
    assert!(!protected_with("/tmp", None));
    assert!(same_path("/a/./b/", "/a/b"));
    assert!(!same_path("/a/b", "a/b"));
    assert_eq!(checked_unprotected("/tmp/x"), Ok("/tmp/x".to_string()));
    assert_eq!(checked_unprotected("relative"), Err("not an absolute path: relative".to_string()));
}

#[test]
fn sorting_and_hidden() {
    let listing = || vec![entry("b.txt", false), entry("A.txt", false), entry(".hidden", false), entry("zdir", true), entry("Adir", true)];
    let names = |v: Vec<Entry>| v.into_iter().map(|e| e.name).collect::<Vec<_>>();
    let mut all = listing();
    sort_entries(&mut all);
    assert_eq!(names(all), ["Adir", "zdir", ".hidden", "A.txt", "b.txt"]);
    let mut shown: Vec<Entry> = listing().into_iter().filter(|e| !e.hidden).collect();
    sort_entries(&mut shown);
    assert_eq!(names(shown), ["Adir", "zdir", "A.txt", "b.txt"]);
}

#[test]
fn unique_names() {
    let dir = "/nonexistent-reworkspace-folder";
    assert_eq!(unique_name(dir, "New Folder", false, Os::Other), "New Folder");
    assert_eq!(candidate_name("New Folder", false, 2, false), "New Folder 2");
    assert_eq!(unique_name(dir, "a.txt", true, Os::Other), "a copy.txt");
    assert_eq!(candidate_name("a.txt", true, 2, false), "a copy 2.txt");
    assert_eq!(candidate_name("my.dir", true, 1, true), "my.dir copy");
    assert_eq!(candidate_name(".profile", true, 1, false), ".profile copy");
    assert_eq!(candidate_name("a.tar.gz", true, 3, false), "a.tar copy 3.gz");
}

#[test]
fn names_extensions_and_applications() {
    assert_eq!(ext_of("Photo.JPG"), "jpg");
    assert_eq!(ext_of(".bashrc"), "");
    assert_eq!(ext_of("archive.tar.gz"), "gz");
    assert!(is_app("Safari.app", true, Os::MacOs));
    assert!(!is_app("Safari.app", false, Os::MacOs));
    assert!(is_app("tool.EXE", false, Os::Windows));
    assert!(is_app("link.lnk", false, Os::Windows));
    assert!(!is_app("tool.exe", false, Os::Other));
    assert!(is_hidden(".git", false));
    assert!(is_hidden("System Volume Information", true));
    assert!(!is_hidden("notes.txt", false));
    assert_eq!(name_of("/Users/marko/notes.txt"), Ok("notes.txt".to_string()));
    assert!(name_of("/").is_err());
}

#[test]
fn modes_are_written_like_ls() {
    assert_eq!(mode_string(0o755, false, true), "drwxr-xr-x");
    assert_eq!(mode_string(0o644, false, false), "-rw-r--r--");
    assert_eq!(mode_string(0o777, true, false), "lrwxrwxrwx");
    assert_eq!(mode_string(0o100600, false, false), "-rw-------");
    assert_eq!(access_string(true), "Read-only");
    assert_eq!(access_string(false), "Read/Write");
}

#[test]
fn joining_paths() {
    assert_eq!(path_join("/tmp", "a"), "/tmp/a");
    assert_eq!(path_join_on("C:\\Users", "a", '\\'), "C:\\Users\\a");
    assert_eq!(path_join_on("C:\\Users\\", "a", '\\'), "C:\\Users\\a");
    assert_eq!(path_join_on("C:/x", "a", '\\'), "C:/x\\a");
    assert_eq!(path_join("/tmp/", "a"), "/tmp/a");
    assert_eq!(path_join("/tmp", "/etc"), "/etc");
    assert_eq!(path_join("", "a"), "a");
}

#[test]
fn the_dock_starts_with_applications_that_exist() {
    assert_eq!(dock_candidates(Os::MacOs).len(), 3);
    assert_eq!(dock_candidates(Os::Windows).len(), 4);
    assert!(dock_candidates(Os::Other).is_empty());
    assert!(default_dock(Os::Other).is_empty());
    for app in default_dock(Os::MacOs) {
        assert!(dock_candidates(Os::MacOs).contains(&app.as_str()));
    }
}

#[test]
fn the_first_free_candidate_is_picked_from_the_answers() {
    assert_eq!(first_free("New Folder", false, false, &vec![]), "New Folder");
    assert_eq!(first_free("New Folder", false, false, &vec![true]), "New Folder 2");
    assert_eq!(first_free("a.txt", true, false, &vec![]), "a copy.txt");
    assert_eq!(first_free("a.txt", true, false, &vec![true]), "a copy 2.txt");
    assert_eq!(first_free("my.dir", true, true, &vec![]), "my.dir copy");
    assert_eq!(first_free("x", false, false, &vec![true, false, true]), "x 2");
    assert_eq!(keep_existing(&vec!["/a", "/b", "/c"], &vec![false, true, true]), vec!["/b", "/c"]);
}

#[test]
fn entries_with_equal_keys_keep_their_order() {
    let mk = |name: &str, path: &str| Entry { name: name.into(), path: path.into(), is_dir: false, is_symlink: false, is_app: false, size: 0, modified: 0, hidden: false };
    let mut v = vec![mk("b", "/1"), mk("A", "/2"), mk("a", "/3"), mk("B", "/4")];
    sort_entries(&mut v);
    let paths: Vec<&str> = v.iter().map(|e| e.path.as_str()).collect();
    assert_eq!(paths, vec!["/2", "/3", "/1", "/4"]);
}

#[test]
fn folders_are_dir_like_unless_they_are_applications() {
    assert!(dir_like(true, "Documents", Os::MacOs));
    assert!(!dir_like(true, "Mail.app", Os::MacOs));
    assert!(dir_like(true, "Mail.app", Os::Other));
    assert!(!dir_like(false, "notes.txt", Os::MacOs));
}

#[test]
fn moving_refuses_a_folder_into_itself_and_a_taken_name() {
    assert_eq!(move_step("/a/b", "/c", "/c/b", false), MoveStep::Go);
    assert_eq!(move_step("/a/b", "/c", "/c/b", true), MoveStep::Taken);
    assert_eq!(move_step("/a/b", "/a", "/a/b", true), MoveStep::Skip);
    assert_eq!(move_step("/a/b", "/a/", "/a//b", true), MoveStep::Skip);
    assert_eq!(move_step("/a", "/a/b", "/a/b/a", false), MoveStep::IntoItself);
    assert_eq!(move_step("/a", "/ab", "/ab/a", false), MoveStep::Go);
}

#[test]
fn hidden_entries_are_listed_only_when_asked_for() {
    let mk = |name: &str, hidden: bool| Entry {
        name: name.into(),
        path: format!("/d/{name}"),
        is_dir: false,
        is_symlink: false,
        is_app: false,
        size: 0,
        modified: 0,
        hidden,
    };
    let all = vec![mk("b", false), mk(".a", true), mk("c", false), mk(".d", true)];
    let mut v = all.clone();
    keep_shown(&mut v, false);
    let names: Vec<&str> = v.iter().map(|e| e.name.as_str()).collect();
    assert_eq!(names, ["b", "c"]);
    let mut w = all.clone();
    keep_shown(&mut w, true);
    assert_eq!(w.len(), 4);
}

#[test]
fn files_are_read_as_base64_up_to_a_limit() {
    assert_eq!(file_b64("/d/a.txt", 5, 10, b"hello"), Ok("aGVsbG8=".to_string()));
    assert_eq!(file_b64("/d/a.txt", 0, 10, b""), Ok(String::new()));
    assert_eq!(file_b64("/d/big.bin", 11, 10, b""), Err("/d/big.bin: file is too large (11 bytes)".to_string()));
    assert_eq!(size_verdict("/d/a", 10, 10), Ok(()));
    assert!(size_verdict("/d/a", 11, 10).is_err());
}

#[test]
fn every_path_is_checked_before_any_is_touched() {
    let ok = vec!["/tmp/x/a".to_string(), "/tmp/x/b".to_string()];
    assert_eq!(check_all(&ok), Ok(ok.clone()));
    let bad = vec!["/tmp/x/a".to_string(), "relative".to_string(), "/".to_string()];
    assert!(check_all(&bad).is_err());
    let rs = vec![Ok("a".to_string()), Err("first".to_string()), Err("second".to_string())];
    assert_eq!(first_refusal(&rs), Err("first".to_string()));
    assert_eq!(first_refusal(&vec![Ok("a".to_string()), Ok("b".to_string())]), Ok(vec!["a".to_string(), "b".to_string()]));
}
