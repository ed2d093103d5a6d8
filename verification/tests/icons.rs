use reworkspace::icons::{
    ancestors, basename, dirname, ext, file_icon, icon_for, image_mime, is_app_path, is_root, is_text_like, join, kind_for, sep,
    small_icon_for,
};

#[test]
fn paths() {
    assert_eq!(basename("/Users/marko/"), "marko");
    assert_eq!(basename("/"), "/");
    assert_eq!(dirname("/Users"), Some("/".into()));
    assert_eq!(dirname("/Users/marko/Documents"), Some("/Users/marko".into()));
    assert_eq!(dirname("/"), None);
    assert_eq!(join("/", "Users"), "/Users");
    assert_eq!(join("/Users", "marko"), "/Users/marko");
    assert_eq!(ancestors("/Users/marko", false), vec![Some("/".to_string()), Some("/Users".into()), Some("/Users/marko".into())]);
    assert_eq!(dirname("C:\\Users\\me"), Some("C:\\Users".into()));
    assert_eq!(dirname("C:\\Users"), Some("C:\\".into()));
    assert!(is_root("C:\\"));
    assert_eq!(join("C:\\", "Users"), "C:\\Users");
}

#[test]
fn kinds() {
    assert_eq!(file_icon("a.PNG"), "file-image");
    assert_eq!(kind_for("x.pdf", false, false), "PDF document");
    assert_eq!(small_icon_for("main.rs", false, false), "file-code-16");
}

#[test]
fn icons_follow_the_extension() {
    assert_eq!(ext("archive.tar.GZ"), "gz");
    assert_eq!(ext(".profile"), "");
    assert_eq!(ext("README"), "");
    assert_eq!(file_icon("song.flac"), "file-audio");
    assert_eq!(file_icon("clip.webm"), "file-video");
    assert_eq!(file_icon("notes"), "file-generic");
    assert_eq!(icon_for("x.txt", true, false), "folder");
    assert_eq!(icon_for("x.txt", false, true), "application");
    assert_eq!(small_icon_for("x.pdf", false, false), "file-generic-16");
    assert_eq!(kind_for("a.rs", false, false), "RS source code");
    assert_eq!(kind_for("Makefile", false, false), "Document");
    assert_eq!(kind_for("x", true, false), "Folder");
    assert_eq!(kind_for("Safari.app", false, true), "Application");
    assert!(is_app_path("Tool.EXE"));
    assert!(!is_app_path("app"));
    assert!(is_text_like("data.json"));
    assert!(is_text_like("main.go"));
    assert!(!is_text_like("photo.png"));
    assert!(image_mime("Photo.png"));
    assert!(!image_mime("photo.jpg"));
}

#[test]
fn separators_and_windows_paths() {
    assert_eq!(sep("C:\\Users"), '\\');
    assert_eq!(sep("/Users"), '/');
    assert_eq!(basename("C:\\Users\\me\\"), "me");
    assert_eq!(basename("C:\\"), "C:\\");
    assert_eq!(join("/Users/", "x"), "/Users//x");
    assert_eq!(
        ancestors("C:\\Users\\me", true),
        vec![None, Some("C:\\".to_string()), Some("C:\\Users".to_string()), Some("C:\\Users\\me".to_string())]
    );
    assert_eq!(dirname("relative"), None);
    assert_eq!(dirname("/a/b//"), Some("/a".to_string()));
}
