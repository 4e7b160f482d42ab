//! Compression and archive formats, and the resolution of a format chain
//! from the stacked suffixes of a file name.
//!
//! A chain is read left to right as outer to inner: `file.tar.gz` denotes a
//! tar archive wrapped in a gzip stream, so its chain is `[Tar, Gzip]`.

use vstd::prelude::*;

verus! {

/// One recognized format: either an archive container, which can hold many
/// named entries, or a stream codec, which transforms a single byte stream.
#[derive(Clone, Copy, PartialEq, Eq, Debug, Structural)]
pub enum CompressionFormat {
    Gzip,
    Bzip2,
    Lz4,
    Lzma,
    Zstd,
    Tar,
    Zip,
    SevenZip,
}

/// Archive containers hold multiple named entries; everything else is a
/// single-stream codec.
pub open spec fn spec_is_archive(f: CompressionFormat) -> bool {
    f == CompressionFormat::Tar || f == CompressionFormat::Zip || f == CompressionFormat::SevenZip
}

/// Formats whose on-disk layout needs random-access writes to finalize, so
/// they cannot take part in pure stream nesting: combined with other layers
/// the whole operation must be buffered in memory.
pub open spec fn spec_is_whole_buffer(f: CompressionFormat) -> bool {
    f == CompressionFormat::Zip || f == CompressionFormat::SevenZip
}

impl CompressionFormat {
    pub fn is_archive(&self) -> (r: bool)
        ensures
            r == spec_is_archive(*self),
    {
        match self {
            CompressionFormat::Tar => true,
            CompressionFormat::Zip => true,
            CompressionFormat::SevenZip => true,
            _ => false,
        }
    }

    pub fn is_whole_buffer(&self) -> (r: bool)
        ensures
            r == spec_is_whole_buffer(*self),
    {
        match self {
            CompressionFormat::Zip => true,
            CompressionFormat::SevenZip => true,
            _ => false,
        }
    }
}

/// The formats denoted by one file-name suffix (the text after one dot),
/// outer to inner; the empty sequence means the suffix is not recognized.
/// Compound suffixes such as `tgz` stand for a whole two-format chain.
pub open spec fn spec_suffix_formats(e: Seq<u8>) -> Seq<CompressionFormat> {
    if e.len() == 3 && e[0] == 116u8 && e[1] == 97u8 && e[2] == 114u8 {
        seq![CompressionFormat::Tar]
    } else if e.len() == 3 && e[0] == 122u8 && e[1] == 105u8 && e[2] == 112u8 {
        seq![CompressionFormat::Zip]
    } else if e.len() == 2 && e[0] == 55u8 && e[1] == 122u8 {
        seq![CompressionFormat::SevenZip]
    } else if e.len() == 2 && e[0] == 103u8 && e[1] == 122u8 {
        seq![CompressionFormat::Gzip]
    } else if e.len() == 2 && e[0] == 98u8 && e[1] == 122u8 {
        seq![CompressionFormat::Bzip2]
    } else if e.len() == 3 && e[0] == 98u8 && e[1] == 122u8 && e[2] == 50u8 {
        seq![CompressionFormat::Bzip2]
    } else if e.len() == 2 && e[0] == 120u8 && e[1] == 122u8 {
        seq![CompressionFormat::Lzma]
    } else if e.len() == 4 && e[0] == 108u8 && e[1] == 122u8 && e[2] == 109u8 && e[3] == 97u8 {
        seq![CompressionFormat::Lzma]
    } else if e.len() == 3 && e[0] == 108u8 && e[1] == 122u8 && e[2] == 52u8 {
        seq![CompressionFormat::Lz4]
    } else if e.len() == 3 && e[0] == 122u8 && e[1] == 115u8 && e[2] == 116u8 {
        seq![CompressionFormat::Zstd]
    } else if e.len() == 3 && e[0] == 116u8 && e[1] == 103u8 && e[2] == 122u8 {
        seq![CompressionFormat::Tar, CompressionFormat::Gzip]
    } else if e.len() == 3 && e[0] == 116u8 && e[1] == 98u8 && e[2] == 122u8 {
        seq![CompressionFormat::Tar, CompressionFormat::Bzip2]
    } else if e.len() == 3 && e[0] == 116u8 && e[1] == 120u8 && e[2] == 122u8 {
        seq![CompressionFormat::Tar, CompressionFormat::Lzma]
    } else if e.len() == 4 && e[0] == 116u8 && e[1] == 122u8 && e[2] == 115u8 && e[3] == 116u8 {
        seq![CompressionFormat::Tar, CompressionFormat::Zstd]
    } else {
        seq![]
    }
}

/// A suffix is recognized when it denotes at least one format.
pub open spec fn spec_is_recognized(e: Seq<u8>) -> bool {
    spec_suffix_formats(e).len() > 0
}

/// The formats denoted by a suffix, or `None` when it is not recognized.
pub fn suffix_formats(e: &[u8]) -> (r: Option<Vec<CompressionFormat>>)
    ensures
        match r {
            Some(v) => v@ == spec_suffix_formats(e@) && v@.len() > 0,
            None => spec_suffix_formats(e@).len() == 0,
        },
{
    if e.len() == 3 && e[0] == 116u8 && e[1] == 97u8 && e[2] == 114u8 {
        let v = vec![CompressionFormat::Tar];
        proof { assert(v@ =~= spec_suffix_formats(e@)); }
        Some(v)
    } else if e.len() == 3 && e[0] == 122u8 && e[1] == 105u8 && e[2] == 112u8 {
        let v = vec![CompressionFormat::Zip];
        proof { assert(v@ =~= spec_suffix_formats(e@)); }
        Some(v)
    } else if e.len() == 2 && e[0] == 55u8 && e[1] == 122u8 {
        let v = vec![CompressionFormat::SevenZip];
        proof { assert(v@ =~= spec_suffix_formats(e@)); }
        Some(v)
    } else if e.len() == 2 && e[0] == 103u8 && e[1] == 122u8 {
        let v = vec![CompressionFormat::Gzip];
        proof { assert(v@ =~= spec_suffix_formats(e@)); }
        Some(v)
    } else if e.len() == 2 && e[0] == 98u8 && e[1] == 122u8 {
        let v = vec![CompressionFormat::Bzip2];
        proof { assert(v@ =~= spec_suffix_formats(e@)); }
        Some(v)
    } else if e.len() == 3 && e[0] == 98u8 && e[1] == 122u8 && e[2] == 50u8 {
        let v = vec![CompressionFormat::Bzip2];
        proof { assert(v@ =~= spec_suffix_formats(e@)); }
        Some(v)
    } else if e.len() == 2 && e[0] == 120u8 && e[1] == 122u8 {
        let v = vec![CompressionFormat::Lzma];
        proof { assert(v@ =~= spec_suffix_formats(e@)); }
        Some(v)
    } else if e.len() == 4 && e[0] == 108u8 && e[1] == 122u8 && e[2] == 109u8 && e[3] == 97u8 {
        let v = vec![CompressionFormat::Lzma];
        proof { assert(v@ =~= spec_suffix_formats(e@)); }
        Some(v)
    } else if e.len() == 3 && e[0] == 108u8 && e[1] == 122u8 && e[2] == 52u8 {
        let v = vec![CompressionFormat::Lz4];
        proof { assert(v@ =~= spec_suffix_formats(e@)); }
        Some(v)
    } else if e.len() == 3 && e[0] == 122u8 && e[1] == 115u8 && e[2] == 116u8 {
        let v = vec![CompressionFormat::Zstd];
        proof { assert(v@ =~= spec_suffix_formats(e@)); }
        Some(v)
    } else if e.len() == 3 && e[0] == 116u8 && e[1] == 103u8 && e[2] == 122u8 {
        let v = vec![CompressionFormat::Tar, CompressionFormat::Gzip];
        proof { assert(v@ =~= spec_suffix_formats(e@)); }
        Some(v)
    } else if e.len() == 3 && e[0] == 116u8 && e[1] == 98u8 && e[2] == 122u8 {
        let v = vec![CompressionFormat::Tar, CompressionFormat::Bzip2];
        proof { assert(v@ =~= spec_suffix_formats(e@)); }
        Some(v)
    } else if e.len() == 3 && e[0] == 116u8 && e[1] == 120u8 && e[2] == 122u8 {
        let v = vec![CompressionFormat::Tar, CompressionFormat::Lzma];
        proof { assert(v@ =~= spec_suffix_formats(e@)); }
        Some(v)
    } else if e.len() == 4 && e[0] == 116u8 && e[1] == 122u8 && e[2] == 115u8 && e[3] == 116u8 {
        let v = vec![CompressionFormat::Tar, CompressionFormat::Zstd];
        proof { assert(v@ =~= spec_suffix_formats(e@)); }
        Some(v)
    } else {
        None
    }
}

/// The byte that separates a file name's suffixes.
pub const DOT: u8 = 46;

/// One stripped suffix: the formats it denotes (outer to inner) and its
/// literal text, kept so that a resolved chain can be re-serialized to the
/// exact suffix string it came from.
pub struct Extension {
    pub formats: Vec<CompressionFormat>,
    pub text: Vec<u8>,
}

/// The mathematical model of an `Extension`.
pub ghost struct ExtensionModel {
    pub formats: Seq<CompressionFormat>,
    pub text: Seq<u8>,
}

impl View for Extension {
    type V = ExtensionModel;

    open spec fn view(&self) -> ExtensionModel {
        ExtensionModel { formats: self.formats@, text: self.text@ }
    }
}

/// The models of a sequence of extensions.
pub open spec fn exts_view(v: Seq<Extension>) -> Seq<ExtensionModel> {
    v.map_values(|e: Extension| e@)
}

/// The model of one recognized suffix.
pub open spec fn ext_model(text: Seq<u8>) -> ExtensionModel {
    ExtensionModel { formats: spec_suffix_formats(text), text: text }
}

/// The index of the last occurrence of byte `b` in `s`, if any.
pub open spec fn spec_last_pos(s: Seq<u8>, b: u8) -> Option<int>
    decreases s.len(),
{
    if s.len() == 0 {
        None
    } else if s[s.len() - 1] == b {
        Some(s.len() - 1)
    } else {
        spec_last_pos(s.drop_last(), b)
    }
}

/// The index of the last dot in `s`, if any.
pub open spec fn spec_last_dot(s: Seq<u8>) -> Option<int> {
    spec_last_pos(s, DOT)
}

/// `spec_last_pos` names a position of `b` after which `b` never occurs.
pub proof fn lemma_last_pos_props(s: Seq<u8>, b: u8)
    ensures
        match spec_last_pos(s, b) {
            Some(i) => 0 <= i < s.len() && s[i] == b && (forall|j: int|
                i < j < s.len() ==> s[j] != b),
            None => forall|j: int| 0 <= j < s.len() ==> s[j] != b,
        },
    decreases s.len(),
{
    if s.len() > 0 && s[s.len() - 1] != b {
        lemma_last_pos_props(s.drop_last(), b);
        assert forall|j: int| 0 <= j < s.len() - 1 implies s.drop_last()[j] == s[j] by {}
    }
}

/// `spec_last_dot` names a dot position after which no dot follows.
pub proof fn lemma_last_dot_props(s: Seq<u8>)
    ensures
        match spec_last_dot(s) {
            Some(i) => 0 <= i < s.len() && s[i] == DOT && (forall|j: int|
                i < j < s.len() ==> s[j] != DOT),
            None => forall|j: int| 0 <= j < s.len() ==> s[j] != DOT,
        },
{
    lemma_last_pos_props(s, DOT);
}

/// Implicit chain resolution: strip recognized suffixes right to left,
/// returning the residual base name and the chain outer to inner. An
/// unrecognized trailing suffix stops the strip; the remainder is the base.
pub open spec fn spec_parse_name(s: Seq<u8>) -> (Seq<u8>, Seq<ExtensionModel>)
    decreases s.len(),
    via spec_parse_name_decreases
{
    match spec_last_dot(s) {
        Some(i) => {
            let ext = s.subrange(i + 1, s.len() as int);
            if spec_is_recognized(ext) {
                let rest = spec_parse_name(s.subrange(0, i));
                (rest.0, rest.1.push(ext_model(ext)))
            } else {
                (s, seq![])
            }
        },
        None => (s, seq![]),
    }
}

#[via_fn]
proof fn spec_parse_name_decreases(s: Seq<u8>) {
    lemma_last_dot_props(s);
}

/// Explicit chain parsing for a format-override token such as `tar.gz`:
/// every dot-separated segment must be a recognized suffix, else `None`.
pub open spec fn spec_parse_format(s: Seq<u8>) -> Option<Seq<ExtensionModel>>
    decreases s.len(),
    via spec_parse_format_decreases
{
    match spec_last_dot(s) {
        Some(i) => {
            let ext = s.subrange(i + 1, s.len() as int);
            if spec_is_recognized(ext) {
                match spec_parse_format(s.subrange(0, i)) {
                    Some(es) => Some(es.push(ext_model(ext))),
                    None => None,
                }
            } else {
                None
            }
        },
        None => if spec_is_recognized(s) {
            Some(seq![ext_model(s)])
        } else {
            None
        },
    }
}

#[via_fn]
proof fn spec_parse_format_decreases(s: Seq<u8>) {
    lemma_last_dot_props(s);
}

/// Re-serialization of a resolved chain back to its suffix string: one dot
/// before each suffix text, in chain order.
pub open spec fn spec_chain_suffix(es: Seq<ExtensionModel>) -> Seq<u8>
    decreases es.len(),
{
    if es.len() == 0 {
        seq![]
    } else {
        spec_chain_suffix(es.drop_last()) + seq![DOT] + es.last().text
    }
}

/// Round trip: the residual base name followed by the re-serialized chain is
/// exactly the name the chain was resolved from.
pub proof fn lemma_resolve_roundtrip(s: Seq<u8>)
    ensures
        spec_parse_name(s).0 + spec_chain_suffix(spec_parse_name(s).1) == s,
    decreases s.len(),
{
    lemma_last_dot_props(s);
    match spec_last_dot(s) {
        Some(i) => {
            let ext = s.subrange(i + 1, s.len() as int);
            if spec_is_recognized(ext) {
                let prefix = s.subrange(0, i);
                lemma_resolve_roundtrip(prefix);
                let r = spec_parse_name(s);
                assert(r.1.drop_last() =~= spec_parse_name(prefix).1);
                assert(r.1.last() == ext_model(ext));
                assert(spec_chain_suffix(r.1) == spec_chain_suffix(spec_parse_name(prefix).1)
                    + seq![DOT] + ext);
                assert(s =~= prefix + seq![DOT] + ext);
                assert(r.0 + spec_chain_suffix(r.1) =~= s);
            } else {
                assert(spec_parse_name(s).0 + spec_chain_suffix(spec_parse_name(s).1) =~= s);
            }
        },
        None => {
            assert(spec_parse_name(s).0 + spec_chain_suffix(spec_parse_name(s).1) =~= s);
        },
    }
}

/// The last occurrence of `b` strictly before `end`, matching
/// `spec_last_pos` on the prefix of that length.
pub fn last_pos_in(name: &[u8], end: usize, b: u8) -> (r: Option<usize>)
    requires
        end <= name@.len(),
    ensures
        match r {
            Some(i) => i < end && spec_last_pos(name@.take(end as int), b) == Some(i as int),
            None => spec_last_pos(name@.take(end as int), b) is None,
        },
{
    let mut i = end;
    while i > 0
        invariant
            i <= end <= name@.len(),
            spec_last_pos(name@.take(end as int), b) == spec_last_pos(name@.take(i as int), b),
        decreases i,
    {
        i = i - 1;
        if name[i] == b {
            proof {
                assert(name@.take(i + 1)[i as int] == name@[i as int]);
            }
            return Some(i);
        }
        proof {
            assert(name@.take(i + 1)[i as int] == name@[i as int]);
            assert(name@.take(i + 1).drop_last() =~= name@.take(i as int));
        }
    }
    None
}

/// Copies `name[from..to]` out as an owned vector.
pub fn copy_range(name: &[u8], from: usize, to: usize) -> (r: Vec<u8>)
    requires
        from <= to <= name@.len(),
    ensures
        r@ == name@.subrange(from as int, to as int),
{
    let mut out: Vec<u8> = Vec::new();
    let mut k = from;
    while k < to
        invariant
            from <= k <= to <= name@.len(),
            out@ == name@.subrange(from as int, k as int),
        decreases to - k,
    {
        out.push(name[k]);
        proof {
            assert(out@ =~= name@.subrange(from as int, k + 1));
        }
        k = k + 1;
    }
    out
}

/// Resolves a file name into its residual base name and the format chain its
/// recognized suffixes denote, outer to inner: `file.tar.gz` yields base
/// `file` and chain `[tar, gz]`. An unrecognized trailing suffix ends the
/// strip and stays part of the base name.
pub fn separate_known_extensions_from_name(name: &[u8]) -> (r: (Vec<u8>, Vec<Extension>))
    ensures
        r.0@ == spec_parse_name(name@).0,
        exts_view(r.1@) == spec_parse_name(name@).1,
{
    let mut end = name.len();
    let mut out: Vec<Extension> = Vec::new();
    proof {
        assert(name@.take(end as int) =~= name@);
        assert(spec_parse_name(name@).1 =~= spec_parse_name(name@.take(end as int)).1 + exts_view(
            out@,
        ));
    }
    loop
        invariant
            end <= name@.len(),
            spec_parse_name(name@).0 == spec_parse_name(name@.take(end as int)).0,
            spec_parse_name(name@).1 == spec_parse_name(name@.take(end as int)).1 + exts_view(
                out@,
            ),
        ensures
            end <= name@.len(),
            spec_parse_name(name@).0 == name@.take(end as int),
            spec_parse_name(name@).1 == exts_view(out@),
        decreases end,
    {
        let ghost pre = name@.take(end as int);
        proof {
            lemma_last_dot_props(pre);
        }
        match last_pos_in(name, end, DOT) {
            Some(i) => {
                let ext_text = copy_range(name, i + 1, end);
                proof {
                    assert(pre.subrange(i + 1, pre.len() as int) =~= name@.subrange(
                        i + 1,
                        end as int,
                    ));
                }
                match suffix_formats(&ext_text) {
                    Some(formats) => {
                        let ghost old_out = out@;
                        out.insert(0, Extension { formats, text: ext_text });
                        proof {
                            assert(pre.subrange(0, i as int) =~= name@.take(i as int));
                            assert(exts_view(out@) =~= seq![
                                ext_model(pre.subrange(i + 1, pre.len() as int)),
                            ] + exts_view(old_out));
                            assert(spec_parse_name(name@).1 =~= spec_parse_name(
                                name@.take(i as int),
                            ).1 + exts_view(out@));
                        }
                        end = i;
                    },
                    None => {
                        proof {
                            assert(spec_parse_name(pre).1 =~= Seq::<ExtensionModel>::empty());
                            assert(spec_parse_name(name@).1 =~= exts_view(out@));
                        }
                        break ;
                    },
                }
            },
            None => {
                proof {
                    assert(spec_parse_name(pre).1 =~= Seq::<ExtensionModel>::empty());
                    assert(spec_parse_name(name@).1 =~= exts_view(out@));
                }
                break ;
            },
        }
    }
    let base = copy_range(name, 0, end);
    (base, out)
}

/// Parses an explicit format-override token such as `tar.gz`; `None` when
/// any dot-separated segment is not a recognized suffix.
pub fn parse_format(text: &[u8]) -> (r: Option<Vec<Extension>>)
    ensures
        match r {
            Some(v) => spec_parse_format(text@) == Some(exts_view(v@)),
            None => spec_parse_format(text@) is None,
        },
{
    let mut end = text.len();
    let mut out: Vec<Extension> = Vec::new();
    proof {
        assert(text@.take(end as int) =~= text@);
    }
    loop
        invariant
            end <= text@.len(),
            spec_parse_format(text@) == match spec_parse_format(text@.take(end as int)) {
                Some(es) => Some(es + exts_view(out@)),
                None => None::<Seq<ExtensionModel>>,
            },
        ensures
            end <= text@.len(),
            spec_last_dot(text@.take(end as int)) is None,
            spec_parse_format(text@) == match spec_parse_format(text@.take(end as int)) {
                Some(es) => Some(es + exts_view(out@)),
                None => None::<Seq<ExtensionModel>>,
            },
        decreases end,
    {
        let ghost pre = text@.take(end as int);
        proof {
            lemma_last_dot_props(pre);
        }
        match last_pos_in(text, end, DOT) {
            Some(i) => {
                let ext_text = copy_range(text, i + 1, end);
                proof {
                    assert(pre.subrange(i + 1, pre.len() as int) =~= text@.subrange(
                        i + 1,
                        end as int,
                    ));
                }
                match suffix_formats(&ext_text) {
                    Some(formats) => {
                        let ghost old_out = out@;
                        out.insert(0, Extension { formats, text: ext_text });
                        proof {
                            assert(pre.subrange(0, i as int) =~= text@.take(i as int));
                            assert(exts_view(out@) =~= seq![
                                ext_model(pre.subrange(i + 1, pre.len() as int)),
                            ] + exts_view(old_out));
                            if spec_parse_format(text@.take(i as int)) is Some {
                                assert(spec_parse_format(text@.take(i as int)).unwrap().push(
                                    ext_model(pre.subrange(i + 1, pre.len() as int)),
                                ) + exts_view(old_out) =~= spec_parse_format(
                                    text@.take(i as int),
                                ).unwrap() + exts_view(out@));
                            }
                        }
                        end = i;
                    },
                    None => {
                        return None;
                    },
                }
            },
            None => {
                break ;
            },
        }
    }
    let seg = copy_range(text, 0, end);
    proof {
        assert(seg@ =~= text@.take(end as int));
    }
    match suffix_formats(&seg) {
        Some(formats) => {
            let ghost old_out = out@;
            out.insert(0, Extension { formats, text: seg });
            proof {
                assert(exts_view(out@) =~= seq![ext_model(text@.take(end as int))] + exts_view(
                    old_out,
                ));
                assert(spec_parse_format(text@.take(end as int)).unwrap() + exts_view(old_out)
                    =~= exts_view(out@));
            }
            Some(out)
        },
        None => None,
    }
}

/// Re-serializes a resolved chain to the suffix string it denotes: one dot
/// before each suffix text, in chain order.
pub fn chain_suffix_text(exts: &Vec<Extension>) -> (r: Vec<u8>)
    ensures
        r@ == spec_chain_suffix(exts_view(exts@)),
{
    let mut out: Vec<u8> = Vec::new();
    let mut i: usize = 0;
    proof {
        assert(exts_view(exts@.take(0)) =~= Seq::<ExtensionModel>::empty());
    }
    while i < exts.len()
        invariant
            i <= exts@.len(),
            out@ == spec_chain_suffix(exts_view(exts@.take(i as int))),
        decreases exts@.len() - i,
    {
        out.push(DOT);
        let t = &exts[i].text;
        let mut k: usize = 0;
        while k < t.len()
            invariant
                k <= t@.len(),
                out@ == spec_chain_suffix(exts_view(exts@.take(i as int))) + seq![DOT] + t@.take(
                    k as int,
                ),
            decreases t@.len() - k,
        {
            out.push(t[k]);
            proof {
                assert(t@.take(k + 1) =~= t@.take(k as int).push(t@[k as int]));
                assert(out@ =~= spec_chain_suffix(exts_view(exts@.take(i as int))) + seq![DOT]
                    + t@.take(k + 1));
            }
            k = k + 1;
        }
        proof {
            assert(t@.take(t@.len() as int) =~= t@);
            assert(exts_view(exts@.take(i + 1)).drop_last() =~= exts_view(exts@.take(i as int)));
            assert(exts_view(exts@.take(i + 1)).last() == exts@[i as int]@);
            assert(out@ =~= spec_chain_suffix(exts_view(exts@.take(i + 1))));
        }
        i = i + 1;
    }
    proof {
        assert(exts@.take(exts@.len() as int) =~= exts@);
    }
    out
}

/// The flattened format chain of a sequence of extensions: each suffix's
/// formats in order, compound suffixes contributing a whole sub-chain.
pub open spec fn spec_flatten(es: Seq<ExtensionModel>) -> Seq<CompressionFormat>
    decreases es.len(),
{
    if es.len() == 0 {
        seq![]
    } else {
        spec_flatten(es.drop_last()) + es.last().formats
    }
}

/// Flattens a resolved chain of extensions into the plain format sequence
/// the pipelines are built from.
pub fn flatten_compression_formats(exts: &Vec<Extension>) -> (r: Vec<CompressionFormat>)
    ensures
        r@ == spec_flatten(exts_view(exts@)),
{
    let mut out: Vec<CompressionFormat> = Vec::new();
    let mut i: usize = 0;
    proof {
        assert(exts_view(exts@.take(0)) =~= Seq::<ExtensionModel>::empty());
    }
    while i < exts.len()
        invariant
            i <= exts@.len(),
            out@ == spec_flatten(exts_view(exts@.take(i as int))),
        decreases exts@.len() - i,
    {
        let fs = &exts[i].formats;
        let mut k: usize = 0;
        while k < fs.len()
            invariant
                k <= fs@.len(),
                out@ == spec_flatten(exts_view(exts@.take(i as int))) + fs@.take(k as int),
            decreases fs@.len() - k,
        {
            out.push(fs[k]);
            proof {
                assert(fs@.take(k + 1) =~= fs@.take(k as int).push(fs@[k as int]));
                assert(out@ =~= spec_flatten(exts_view(exts@.take(i as int))) + fs@.take(k + 1));
            }
            k = k + 1;
        }
        proof {
            assert(fs@.take(fs@.len() as int) =~= fs@);
            assert(exts_view(exts@.take(i + 1)).drop_last() =~= exts_view(exts@.take(i as int)));
            assert(exts_view(exts@.take(i + 1)).last() == exts@[i as int]@);
            assert(out@ =~= spec_flatten(exts_view(exts@.take(i + 1))));
        }
        i = i + 1;
    }
    proof {
        assert(exts@.take(exts@.len() as int) =~= exts@);
    }
    out
}

} // verus!
