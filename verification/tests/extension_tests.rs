use ouch::extension::{
    chain_suffix_text, flatten_compression_formats, parse_format,
    separate_known_extensions_from_name, suffix_formats, CompressionFormat,
};

fn formats_of(name: &[u8]) -> Vec<CompressionFormat> {
    let (_, exts) = separate_known_extensions_from_name(name);
    flatten_compression_formats(&exts)
}

#[test]
fn resolves_stacked_suffixes_outer_to_inner() {
    let (base, exts) = separate_known_extensions_from_name(b"file.tar.gz");
    assert_eq!(base, b"file".to_vec());
    let formats = flatten_compression_formats(&exts);
    assert_eq!(formats, vec![CompressionFormat::Tar, CompressionFormat::Gzip]);
}

#[test]
fn roundtrip_reserializes_the_original_suffix_order() {
    for name in [
        b"file.tar.gz".to_vec(),
        b"a.tar.gz.xz".to_vec(),
        b"x.tgz".to_vec(),
        b"x.zip".to_vec(),
        b"deep.tar.bz2.zst.lz4".to_vec(),
    ] {
        let (base, exts) = separate_known_extensions_from_name(&name);
        let mut rebuilt = base.clone();
        rebuilt.extend_from_slice(&chain_suffix_text(&exts));
        assert_eq!(rebuilt, name);
    }
}

#[test]
fn unrecognized_trailing_suffix_stops_the_strip() {
    let (base, exts) = separate_known_extensions_from_name(b"file.tar.weird");
    assert_eq!(base, b"file.tar.weird".to_vec());
    assert!(exts.is_empty());

    let (base, exts) = separate_known_extensions_from_name(b"file.weird.gz");
    assert_eq!(base, b"file.weird".to_vec());
    let formats = flatten_compression_formats(&exts);
    assert_eq!(formats, vec![CompressionFormat::Gzip]);
}

#[test]
fn compound_suffix_denotes_a_whole_subchain() {
    assert_eq!(
        formats_of(b"a.tgz"),
        vec![CompressionFormat::Tar, CompressionFormat::Gzip]
    );
    assert_eq!(
        formats_of(b"a.tbz"),
        vec![CompressionFormat::Tar, CompressionFormat::Bzip2]
    );
    assert_eq!(
        formats_of(b"a.txz"),
        vec![CompressionFormat::Tar, CompressionFormat::Lzma]
    );
    assert_eq!(
        formats_of(b"a.tzst"),
        vec![CompressionFormat::Tar, CompressionFormat::Zstd]
    );
}

#[test]
fn every_recognized_suffix_maps_to_its_format() {
    let cases: Vec<(&[u8], Vec<CompressionFormat>)> = vec![
        (b"tar", vec![CompressionFormat::Tar]),
        (b"zip", vec![CompressionFormat::Zip]),
        (b"7z", vec![CompressionFormat::SevenZip]),
        (b"gz", vec![CompressionFormat::Gzip]),
        (b"bz", vec![CompressionFormat::Bzip2]),
        (b"bz2", vec![CompressionFormat::Bzip2]),
        (b"xz", vec![CompressionFormat::Lzma]),
        (b"lzma", vec![CompressionFormat::Lzma]),
        (b"lz4", vec![CompressionFormat::Lz4]),
        (b"zst", vec![CompressionFormat::Zstd]),
    ];
    for (text, expected) in cases {
        assert_eq!(suffix_formats(text), Some(expected));
    }
    assert_eq!(suffix_formats(b"rar"), None);
    assert_eq!(suffix_formats(b""), None);
}

#[test]
fn explicit_format_token_parses_or_is_rejected_whole() {
    let exts = parse_format(b"tar.gz").unwrap();
    let formats = flatten_compression_formats(&exts);
    assert_eq!(formats, vec![CompressionFormat::Tar, CompressionFormat::Gzip]);

    assert!(parse_format(b"tar.weird").is_none());
    assert!(parse_format(b"weird").is_none());
    assert!(parse_format(b"").is_none());

    let exts = parse_format(b"zip").unwrap();
    assert_eq!(
        flatten_compression_formats(&exts),
        vec![CompressionFormat::Zip]
    );
}

#[test]
fn name_without_suffixes_keeps_its_whole_base() {
    let (base, exts) = separate_known_extensions_from_name(b"plain");
    assert_eq!(base, b"plain".to_vec());
    assert!(exts.is_empty());

    let (base, exts) = separate_known_extensions_from_name(b"");
    assert!(base.is_empty());
    assert!(exts.is_empty());
}

#[test]
fn archive_and_whole_buffer_classification() {
    assert!(CompressionFormat::Tar.is_archive());
    assert!(CompressionFormat::Zip.is_archive());
    assert!(CompressionFormat::SevenZip.is_archive());
    assert!(!CompressionFormat::Gzip.is_archive());
    assert!(!CompressionFormat::Tar.is_whole_buffer());
    assert!(CompressionFormat::Zip.is_whole_buffer());
    assert!(CompressionFormat::SevenZip.is_whole_buffer());
}
