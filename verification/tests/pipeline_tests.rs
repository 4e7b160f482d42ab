use ouch::check::QuestionPolicy;
use ouch::extension::CompressionFormat;
use ouch::pipeline::{
    compression_report, decide_create_file, derive_output_path, entry_path_is_safe,
    in_memory_warnings, needs_in_memory, render_listing, resolve_level, CompressionReport,
    FileWriteDecision, ListOptions,
};

#[test]
fn level_shorthands_map_to_the_extremes() {
    assert_eq!(resolve_level(None, true, false), Some(1));
    assert_eq!(resolve_level(Some(7), true, false), Some(1));
    assert_eq!(resolve_level(None, false, true), Some(i16::MAX));
    assert_eq!(resolve_level(Some(7), false, false), Some(7));
    assert_eq!(resolve_level(None, false, false), None);
}

#[test]
fn whole_buffer_formats_force_in_memory_work() {
    assert!(needs_in_memory(&vec![CompressionFormat::Zip]));
    assert!(needs_in_memory(&vec![
        CompressionFormat::SevenZip,
        CompressionFormat::Gzip
    ]));
    assert!(!needs_in_memory(&vec![
        CompressionFormat::Tar,
        CompressionFormat::Gzip
    ]));
    assert!(!needs_in_memory(&vec![]));
}

#[test]
fn advisories_are_owed_when_combined_with_other_layers() {
    assert_eq!(
        in_memory_warnings(&vec![CompressionFormat::Zip, CompressionFormat::Gzip]),
        (true, false)
    );
    assert_eq!(in_memory_warnings(&vec![CompressionFormat::Zip]), (false, false));
    assert_eq!(
        in_memory_warnings(&vec![CompressionFormat::SevenZip, CompressionFormat::Zstd]),
        (false, true)
    );
    assert_eq!(
        in_memory_warnings(&vec![CompressionFormat::Tar, CompressionFormat::Gzip]),
        (false, false)
    );
}

#[test]
fn cleanup_protocol_reports_each_outcome_distinctly() {
    assert_eq!(compression_report(true, None), CompressionReport::Success);
    assert_eq!(
        compression_report(false, Some(true)),
        CompressionReport::FailedCleaned
    );
    assert_eq!(
        compression_report(false, Some(false)),
        CompressionReport::FailedCleanupFailed
    );
}

#[test]
fn overwrite_asks_only_when_something_is_there() {
    assert_eq!(
        decide_create_file(false, QuestionPolicy::AlwaysNo, false),
        FileWriteDecision::Write
    );
    assert_eq!(
        decide_create_file(true, QuestionPolicy::AlwaysNo, true),
        FileWriteDecision::Skip
    );
    assert_eq!(
        decide_create_file(true, QuestionPolicy::AlwaysYes, false),
        FileWriteDecision::Write
    );
    assert_eq!(
        decide_create_file(true, QuestionPolicy::Ask, true),
        FileWriteDecision::Write
    );
    assert_eq!(
        decide_create_file(true, QuestionPolicy::Ask, false),
        FileWriteDecision::Skip
    );
}

#[test]
fn output_path_is_directory_slash_base() {
    assert_eq!(derive_output_path(b".", b"file"), b"./file".to_vec());
    assert_eq!(derive_output_path(b"out", b"a.txt"), b"out/a.txt".to_vec());
}

#[test]
fn traversal_and_absolute_entries_are_rejected() {
    assert!(entry_path_is_safe(b"a"));
    assert!(entry_path_is_safe(b"a/b/c.txt"));
    assert!(entry_path_is_safe(b"a/..b"));
    assert!(entry_path_is_safe(b"a./b"));
    assert!(!entry_path_is_safe(b""));
    assert!(!entry_path_is_safe(b"/etc/passwd"));
    assert!(!entry_path_is_safe(b".."));
    assert!(!entry_path_is_safe(b"../x"));
    assert!(!entry_path_is_safe(b"a/../b"));
    assert!(!entry_path_is_safe(b"a/.."));
}

#[test]
fn listing_renders_flat_or_as_a_tree() {
    let entries = vec![b"top.txt".to_vec(), b"dir/inner.txt".to_vec()];
    let flat = render_listing(&entries, ListOptions { tree: false });
    assert_eq!(flat, b"top.txt\ndir/inner.txt\n".to_vec());
    let tree = render_listing(&entries, ListOptions { tree: true });
    assert_eq!(tree, b"top.txt\n  inner.txt\n".to_vec());
}
