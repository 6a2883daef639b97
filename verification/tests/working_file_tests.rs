use record_log::working_file::WorkingFile;
use std::path::{Path, PathBuf};

#[test]
fn working_file_keeps_its_path() {
    let file = WorkingFile::new(PathBuf::from("/var/lib/guests/accounts.jsonl"));
    assert_eq!(file.path().as_path(), Path::new("/var/lib/guests/accounts.jsonl"));
}

#[test]
fn working_file_keeps_a_relative_path_as_it_is() {
    let file = WorkingFile::new(PathBuf::from("accounts.jsonl"));
    assert_eq!(file.path(), &PathBuf::from("accounts.jsonl"));
    assert!(file.path().is_relative());
}

#[test]
fn working_file_keeps_an_empty_path() {
    let file = WorkingFile::new(PathBuf::new());
    assert_eq!(file.path().as_os_str().len(), 0);
}
