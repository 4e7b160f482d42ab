use ouch::check::{
    canonical_extension, check_archive_formats_position, check_for_non_archive_formats,
    check_invalid_compression_with_non_archive_format, check_missing_formats_when_decompressing,
    check_mime_type, resolve_question, MimeOutcome, QuestionPolicy,
};
use ouch::error::{Error, ErrorKind};
use ouch::extension::CompressionFormat;

#[test]
fn archive_must_stand_outermost() {
    assert!(check_archive_formats_position(&vec![
        CompressionFormat::Tar,
        CompressionFormat::Gzip
    ])
    .is_ok());
    assert!(check_archive_formats_position(&vec![]).is_ok());
    assert!(check_archive_formats_position(&vec![CompressionFormat::Gzip]).is_ok());
    assert_eq!(
        check_archive_formats_position(&vec![
            CompressionFormat::Gzip,
            CompressionFormat::Tar
        ]),
        Err(Error::MisplacedArchiveFormat)
    );
}

#[test]
fn two_containers_are_always_rejected() {
    let containers = [
        CompressionFormat::Tar,
        CompressionFormat::Zip,
        CompressionFormat::SevenZip,
    ];
    for a in containers {
        for b in containers {
            assert_eq!(
                check_archive_formats_position(&vec![a, b]),
                Err(Error::MisplacedArchiveFormat)
            );
        }
    }
}

#[test]
fn several_inputs_need_an_archive_container() {
    let gz = vec![CompressionFormat::Gzip];
    let tar_gz = vec![CompressionFormat::Tar, CompressionFormat::Gzip];
    assert_eq!(
        check_invalid_compression_with_non_archive_format(&gz, 3, false),
        Err(Error::MultipleInputsToNonArchive)
    );
    assert_eq!(
        check_invalid_compression_with_non_archive_format(&gz, 1, true),
        Err(Error::MultipleInputsToNonArchive)
    );
    assert!(check_invalid_compression_with_non_archive_format(&gz, 1, false).is_ok());
    assert!(check_invalid_compression_with_non_archive_format(&tar_gz, 3, true).is_ok());
}

#[test]
fn decompression_needs_a_nonempty_chain_for_every_file() {
    let ok = vec![
        vec![CompressionFormat::Gzip],
        vec![CompressionFormat::Tar, CompressionFormat::Zstd],
    ];
    assert!(check_missing_formats_when_decompressing(&ok).is_ok());
    let bad = vec![vec![CompressionFormat::Gzip], vec![]];
    assert_eq!(
        check_missing_formats_when_decompressing(&bad),
        Err(Error::MissingFormats)
    );
}

#[test]
fn listing_a_chain_without_container_always_fails() {
    assert_eq!(
        check_for_non_archive_formats(&vec![vec![CompressionFormat::Gzip]]),
        Err(Error::ListNonArchive)
    );
    assert_eq!(
        check_for_non_archive_formats(&vec![vec![]]),
        Err(Error::ListNonArchive)
    );
    assert!(check_for_non_archive_formats(&vec![vec![
        CompressionFormat::Tar,
        CompressionFormat::Gzip
    ]])
    .is_ok());
}

#[test]
fn question_policy_resolution() {
    assert!(resolve_question(QuestionPolicy::AlwaysYes, false));
    assert!(!resolve_question(QuestionPolicy::AlwaysNo, true));
    assert!(resolve_question(QuestionPolicy::Ask, true));
    assert!(!resolve_question(QuestionPolicy::Ask, false));
}

#[test]
fn sniffed_format_is_adopted_only_when_confirmed() {
    let mut formats = vec![];
    let r = check_mime_type(&mut formats, Some(CompressionFormat::Gzip), true);
    assert_eq!(r, MimeOutcome::Proceed);
    assert_eq!(formats.len(), 1);
    assert_eq!(formats[0].formats, vec![CompressionFormat::Gzip]);
    assert_eq!(formats[0].text, b"gz".to_vec());

    let mut formats = vec![];
    let r = check_mime_type(&mut formats, Some(CompressionFormat::Gzip), false);
    assert_eq!(r, MimeOutcome::Declined);
    assert!(formats.is_empty());

    let mut formats = vec![];
    let r = check_mime_type(&mut formats, None, false);
    assert_eq!(r, MimeOutcome::Proceed);
    assert!(formats.is_empty());
}

#[test]
fn contradicting_sniff_surfaces_a_confirmation() {
    let mut formats = vec![canonical_extension(CompressionFormat::Zip)];
    let r = check_mime_type(&mut formats, Some(CompressionFormat::Gzip), false);
    assert_eq!(r, MimeOutcome::Declined);
    assert_eq!(formats.len(), 1);

    let mut formats = vec![canonical_extension(CompressionFormat::Zip)];
    let r = check_mime_type(&mut formats, Some(CompressionFormat::Gzip), true);
    assert_eq!(r, MimeOutcome::Proceed);

    let mut formats = vec![canonical_extension(CompressionFormat::Zip)];
    let r = check_mime_type(&mut formats, Some(CompressionFormat::Zip), false);
    assert_eq!(r, MimeOutcome::Proceed);
}

#[test]
fn error_kinds_follow_the_taxonomy() {
    assert_eq!(Error::NoFilesToCompress.kind(), ErrorKind::Input);
    assert_eq!(Error::NoFileName.kind(), ErrorKind::Input);
    assert_eq!(Error::MissingFormats.kind(), ErrorKind::Input);
    assert_eq!(Error::UnknownExtension.kind(), ErrorKind::Input);
    assert_eq!(
        Error::MultipleInputsToNonArchive.kind(),
        ErrorKind::ChainLegality
    );
    assert_eq!(Error::MisplacedArchiveFormat.kind(), ErrorKind::ChainLegality);
    assert_eq!(Error::ListNonArchive.kind(), ErrorKind::ChainLegality);
    assert_eq!(Error::IoFailure.kind(), ErrorKind::Io);
    assert_eq!(Error::CleanupFailure.kind(), ErrorKind::Cleanup);
}
