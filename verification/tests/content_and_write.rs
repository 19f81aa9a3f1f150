use fs_core::content::{null_in_prefix, read_file_core, read_file_safe_core, BINARY_CHECK_LIMIT};
use fs_core::creator::create_file_check;
use fs_core::errors::FsError;
use fs_core::writer::{temp_path_for, AtomicWriter, WriteAction};

#[test]
fn null_byte_in_first_kilobyte_reads_as_binary_with_empty_content() {
    let bytes = vec![b'h', b'i', 0u8, b'x'];
    let fc = read_file_safe_core(bytes).expect("binary classification is not an error");
    assert!(fc.is_binary);
    assert_eq!(fc.content, "");
}

#[test]
fn small_text_file_reads_back_exactly() {
    let fc = read_file_safe_core(b"hello world".to_vec()).unwrap();
    assert!(!fc.is_binary);
    assert_eq!(fc.content, "hello world");
}

#[test]
fn null_byte_after_first_kilobyte_still_reads_as_text() {
    let mut bytes = vec![b'a'; BINARY_CHECK_LIMIT];
    bytes.push(0u8);
    bytes.push(b'b');
    let fc = read_file_safe_core(bytes).unwrap();
    assert!(!fc.is_binary);
    assert_eq!(fc.content.len(), BINARY_CHECK_LIMIT + 2);
    assert_eq!(&fc.content[..3], "aaa");
    assert_eq!(fc.content.as_bytes()[BINARY_CHECK_LIMIT], 0u8);
}

#[test]
fn invalid_encoding_is_a_decode_error_not_an_empty_result() {
    let r = read_file_safe_core(vec![0xFFu8, 0xFEu8]);
    match r {
        Err(e) => assert_eq!(e.message(), "File content is not valid text"),
        Ok(_) => panic!("invalid bytes must not decode"),
    }
}

#[test]
fn multi_byte_text_is_decoded_not_passed_through() {
    let fc = read_file_safe_core(vec![0xC3u8, 0xA9u8]).unwrap();
    assert!(!fc.is_binary);
    assert_eq!(fc.content, "\u{e9}");
    assert_eq!(fc.content.chars().count(), 1);
}

#[test]
fn raw_read_decodes_without_binary_detection() {
    let s = read_file_core(vec![b'o', b'k', 0u8]).unwrap();
    assert_eq!(s, "ok\0");
    assert!(read_file_core(vec![0x80u8]).is_err());
}

#[test]
fn temporary_path_appends_the_suffix_in_the_same_directory() {
    assert_eq!(temp_path_for(&String::from("a.txt")), "a.txt.tmp");
    assert_eq!(temp_path_for(&String::from("notes/todo.md")), "notes/todo.md.tmp");
    assert_eq!(temp_path_for(&String::from("noext")), "noext.tmp");
    assert_eq!(temp_path_for(&String::from(".gitignore")), ".gitignore.tmp");
    assert_eq!(temp_path_for(&String::from("")), ".tmp");
}

#[test]
fn temporary_path_never_equals_its_target() {
    for p in ["x.tmp", "d/x.tmp", "a.txt", ".tmp", ""] {
        let target = String::from(p);
        assert_ne!(temp_path_for(&target), target);
    }
}

#[test]
fn targets_differing_only_in_extension_get_distinct_temporary_paths() {
    assert_ne!(
        temp_path_for(&String::from("a.txt")),
        temp_path_for(&String::from("a.md"))
    );
}

#[test]
fn binary_classification_looks_only_at_the_first_kilobyte_of_the_head() {
    assert!(null_in_prefix(&vec![b'a', 0u8]));
    assert!(!null_in_prefix(&vec![b'a'; 100]));
    let mut long = vec![b'a'; BINARY_CHECK_LIMIT];
    long.push(0u8);
    assert!(!null_in_prefix(&long));
}

#[test]
fn atomic_write_runs_create_write_sync_rename_then_succeeds() {
    let mut w = AtomicWriter::new(String::from("notes/todo.txt"), &String::from("hello"));
    assert_eq!(w.temp, "notes/todo.txt.tmp");
    assert_eq!(w.data, b"hello".to_vec());
    assert!(matches!(w.next_action(), Some(WriteAction::CreateTemp)));
    w.advance(Ok(()));
    assert!(matches!(w.next_action(), Some(WriteAction::WriteData)));
    w.advance(Ok(()));
    assert!(matches!(w.next_action(), Some(WriteAction::SyncData)));
    w.advance(Ok(()));
    assert!(matches!(w.next_action(), Some(WriteAction::Rename)));
    w.advance(Ok(()));
    assert!(w.next_action().is_none());
    assert!(w.result().is_ok());
}

#[test]
fn atomic_write_encodes_its_text_as_utf8() {
    let w = AtomicWriter::new(String::from("f"), &String::from("\u{e9}"));
    assert_eq!(w.data, vec![0xC3u8, 0xA9u8]);
}

#[test]
fn failure_before_rename_aborts_without_rename_or_cleanup() {
    let mut w = AtomicWriter::new(String::from("f.txt"), &String::from("data"));
    w.advance(Ok(()));
    w.advance(Err(String::from("disk full")));
    assert!(w.next_action().is_none());
    match w.result() {
        Err(e) => assert_eq!(e.message(), "disk full"),
        Ok(()) => panic!("an aborted write must report its failure"),
    }
}

#[test]
fn rename_failure_cleans_up_the_temporary_file_then_reports() {
    let mut w = AtomicWriter::new(String::from("f.txt"), &String::from("data"));
    w.advance(Ok(()));
    w.advance(Ok(()));
    w.advance(Ok(()));
    w.advance(Err(String::from("cross-device link")));
    assert!(matches!(w.next_action(), Some(WriteAction::RemoveTemp)));
    w.advance(Err(String::from("cleanup also failed")));
    assert!(w.next_action().is_none());
    match w.result() {
        Err(e) => assert_eq!(e.message(), "cross-device link"),
        Ok(()) => panic!("a failed rename must be reported"),
    }
}

#[test]
fn writing_then_safe_reading_returns_the_same_text() {
    let content = String::from("line one\nline two \u{e9}\u{4e16}");
    let w = AtomicWriter::new(String::from("doc.txt"), &content);
    let fc = read_file_safe_core(w.data.clone()).unwrap();
    assert!(!fc.is_binary);
    assert_eq!(fc.content, content);
}

#[test]
fn create_file_succeeds_once_then_reports_already_exists() {
    assert!(create_file_check(false).is_ok());
    match create_file_check(true) {
        Err(e) => assert_eq!(e.message(), "File already exists"),
        Ok(()) => panic!("an occupied path must be rejected"),
    }
}

#[test]
fn io_error_carries_its_cause() {
    let e = FsError::Io(String::from("permission denied"));
    assert_eq!(e.message(), "permission denied");
}
