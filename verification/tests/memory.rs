use bhc_metadata::error::Error;
use bhc_metadata::lexer::Lexer;
use bhc_metadata::memory::Memory;
use bhc_metadata::timestamp::{is_stale, Timestamp};

#[test]
fn memory_is_ready_once_a_workspace_is_added() {
    let mut memory = Memory::new();
    assert!(!memory.is_ready());
    assert_eq!(memory.get_workspace_folder("/w/a.html"), None);
    memory.add_workspace(String::from("/w"));
    assert!(memory.is_ready());

    let mut other = Memory::new();
    other.add_workspaces(vec![]);
    assert!(other.is_ready());
}

#[test]
fn file_belongs_to_the_first_workspace_that_holds_it() {
    let mut memory = Memory::new();
    memory.add_workspaces(vec![String::from("/w/inner"), String::from("/w"), String::from("/x/")]);
    assert_eq!(memory.get_workspace_folder("/w/inner/a.html"), Some(String::from("/w/inner")));
    assert_eq!(memory.get_workspace_folder("/w/a.html"), Some(String::from("/w")));
    assert_eq!(memory.get_workspace_folder("/x"), Some(String::from("/x/")));
    assert_eq!(memory.get_workspace_folder("/wide/a.html"), None);
    assert_eq!(memory.get_workspace_folder("w/a.html"), None);
}

#[test]
fn removed_workspaces_are_forgotten() {
    let mut memory = Memory::new();
    memory.add_workspaces(vec![String::from("/a"), String::from("/b"), String::from("/a/")]);
    memory.remove_workspaces(vec![String::from("/a"), String::from("/c")]);
    assert_eq!(memory.get_workspace_folder("/a/x"), None);
    assert_eq!(memory.get_workspace_folder("/b/x"), Some(String::from("/b")));
    assert!(memory.is_ready());
}

#[test]
fn record_is_stale_only_when_the_file_is_strictly_newer() {
    let updated = Timestamp::from_seconds(1710090300);
    assert!(!is_stale(&updated, &updated));
    assert!(!is_stale(&Timestamp::from_seconds(1710090299), &updated));
    assert!(is_stale(&Timestamp::from_seconds(1710090301), &updated));
    assert!(is_stale(&Timestamp { seconds: 1710090300, nanoseconds: 1 }, &updated));
    assert!(!is_stale(
        &Timestamp { seconds: 1710090299, nanoseconds: 999_999_999 },
        &updated
    ));
    assert!(Timestamp { seconds: -1, nanoseconds: 5 }.later_than(&Timestamp { seconds: -1, nanoseconds: 4 }));
    assert!(!Timestamp { seconds: -2, nanoseconds: 5 }.later_than(&Timestamp { seconds: -1, nanoseconds: 4 }));
}

#[test]
fn clock_gives_a_time_of_this_century() {
    let now = Timestamp::now();
    assert!(now.seconds > 1_700_000_000);
    assert!(now.nanoseconds < 2_000_000_000);
}

#[test]
fn error_record_keeps_the_last_message() {
    let mut error = Error::new();
    assert!(!error.error_occurred);
    assert_eq!(error.error_string, "");
    error.handle_error(String::from("first"));
    error.handle_error(String::from("second"));
    assert!(error.error_occurred);
    assert_eq!(error.error_string, "second");
}

#[test]
fn lexer_reads_the_first_byte() {
    let _lexer = Lexer::new(String::from("<html>"));
    let _empty = Lexer::new(String::new());
}
