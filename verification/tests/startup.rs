use reworkspace::startup::folder_choice;
use reworkspace::startup::{default_shelf, drop_missing, keep_present, start_folder};

#[test]
fn a_first_start_shelves_home_root_applications_desktop_and_documents() {
    let s = default_shelf("/home/a", &vec!["/".to_string()]);
    assert_eq!(s, vec!["/home/a", "/", "/Applications", "/home/a/Desktop", "/home/a/Documents"]);
    let s = default_shelf("C:\\Users\\A", &vec!["C:\\".to_string(), "D:\\".to_string()]);
    assert_eq!(s, vec!["C:\\Users\\A", "C:\\", "C:\\Program Files", "C:\\Users\\A\\Desktop", "C:\\Users\\A\\Documents"]);
}

#[test]
fn missing_entries_are_dropped_with_a_line_each() {
    let list = vec!["/a".to_string(), "/b".to_string(), "/c".to_string()];
    let (keep, lines) = keep_present(&list, &vec![true, false, true], "Dock");
    assert_eq!(keep, vec!["/a", "/c"]);
    assert_eq!(lines, vec!["dropped missing Dock entry /b"]);
    let (keep, lines) = drop_missing(&vec!["/".to_string(), "/no/such/place/here".to_string()], "Shelf");
    assert_eq!(keep, vec!["/"]);
    assert_eq!(lines, vec!["dropped missing Shelf entry /no/such/place/here"]);
    assert_eq!(start_folder("", "/"), "/");
    assert_eq!(start_folder("/no/such/place/here", "/"), "/");
}

#[test]
fn the_saved_folder_is_used_only_while_it_exists() {
    assert_eq!(folder_choice("/work", "/home/me", true), "/work");
    assert_eq!(folder_choice("/work", "/home/me", false), "/home/me");
    assert_eq!(folder_choice("", "/home/me", true), "/home/me");
}
