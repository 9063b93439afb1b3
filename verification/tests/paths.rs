use arch_builder::utils::{file_path_of, is_dir_cs, is_entry, is_file_cs, is_path_cs, ToFilePath};
use std::path::PathBuf;
use std::str::FromStr;

#[test]
fn missing_path_is_neither_file_nor_directory() {
    assert!(!is_file_cs("/definitely/not/here".to_string()));
    assert!(!is_dir_cs("/definitely/not/here".to_string()));
}

#[test]
fn root_is_a_directory_and_no_file() {
    assert!(is_dir_cs("/".to_string()));
    assert!(!is_file_cs("/".to_string()));
}

#[test]
fn entry_needs_presence_and_kind() {
    assert!(is_entry(true, true));
    assert!(!is_entry(true, false));
    assert!(!is_entry(false, true));
    assert!(!is_entry(false, false));
}

#[test]
fn path_spelling_is_checked_against_listings() {
    let components = vec!["Src".to_string(), "main.py".to_string()];
    let exact = vec![vec!["Src".to_string(), "doc".to_string()], vec!["main.py".to_string()]];
    let other_case = vec![vec!["src".to_string()], vec!["main.py".to_string()]];
    assert!(is_path_cs(&components, &exact));
    assert!(!is_path_cs(&components, &other_case));
    assert!(!is_path_cs(&components, &vec![vec!["Src".to_string()]]));
    assert!(is_path_cs(&vec![], &vec![]));
}

#[test]
fn file_uri_gives_its_path() {
    let uri = lsp_types::Uri::from_str("file:///tmp/project/a.py").unwrap();
    assert_eq!(uri.to_file_path(), Ok(PathBuf::from("/tmp/project/a.py")));
    let spaced = lsp_types::Uri::from_str("file:///tmp/my%20dir/a.py").unwrap();
    assert_eq!(spaced.to_file_path(), Ok(PathBuf::from("/tmp/my dir/a.py")));
}

#[test]
fn uri_that_is_no_url_gives_no_path() {
    let relative = lsp_types::Uri::from_str("project/a.py").unwrap();
    assert_eq!(relative.to_file_path(), Err(()));
}

#[test]
fn uri_with_remote_host_gives_no_path() {
    let remote = lsp_types::Uri::from_str("file://example.org/a.py").unwrap();
    assert_eq!(remote.to_file_path(), Err(()));
}

#[test]
fn path_is_handed_on_only_after_parsing() {
    assert_eq!(file_path_of(true, Ok(PathBuf::from("/a"))), Ok(PathBuf::from("/a")));
    assert_eq!(file_path_of(true, Err(())), Err(()));
    assert_eq!(file_path_of(false, Ok(PathBuf::from("/a"))), Err(()));
}
