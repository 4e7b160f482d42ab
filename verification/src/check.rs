//! The safety checks: pure structural validation of (inputs, chains,
//! output) triples, run before any destructive work, plus the decision
//! protocol around a content sniff and an interactive confirmation.

use vstd::prelude::*;

use crate::error::Error;
use crate::extension::{exts_view, spec_is_archive, spec_suffix_formats, CompressionFormat, Extension};

verus! {

/// Whether the chain holds an archive container anywhere.
pub open spec fn spec_has_archive(fs: Seq<CompressionFormat>) -> bool {
    exists|i: int| 0 <= i < fs.len() && spec_is_archive(fs[i])
}

/// An archive container may stand only outermost in a chain: never after
/// the first position, so never two containers, and never a container under
/// a stream codec or under another container.
pub open spec fn spec_archive_position_ok(fs: Seq<CompressionFormat>) -> bool {
    forall|i: int| 1 <= i < fs.len() ==> !spec_is_archive(fs[i])
}

/// A chain is fit to hold several named inputs only when its outermost
/// format is an archive container.
pub open spec fn spec_starts_with_archive(fs: Seq<CompressionFormat>) -> bool {
    fs.len() > 0 && spec_is_archive(fs[0])
}

/// Whether the chain holds an archive container anywhere.
pub fn has_archive(fs: &Vec<CompressionFormat>) -> (r: bool)
    ensures
        r == spec_has_archive(fs@),
{
    let mut i: usize = 0;
    while i < fs.len()
        invariant
            i <= fs@.len(),
            forall|j: int| 0 <= j < i ==> !spec_is_archive(fs@[j]),
        decreases fs@.len() - i,
    {
        if fs[i].is_archive() {
            return true;
        }
        i = i + 1;
    }
    false
}

/// Rejects a chain whose archive container is misplaced: a container after
/// the first position, which covers two stacked containers and a container
/// nested under any other format.
pub fn check_archive_formats_position(fs: &Vec<CompressionFormat>) -> (r: Result<(), Error>)
    ensures
        r is Ok <==> spec_archive_position_ok(fs@),
        r is Err ==> r == Err::<(), Error>(Error::MisplacedArchiveFormat),
{
    let mut i: usize = 1;
    while i < fs.len()
        invariant
            1 <= i,
            forall|j: int| 1 <= j < i ==> !spec_is_archive(fs@[j]),
        decreases fs@.len() - i,
    {
        if fs[i].is_archive() {
            return Err(Error::MisplacedArchiveFormat);
        }
        i = i + 1;
    }
    Ok(())
}

/// Rejects compressing several inputs, or a directory, into a chain whose
/// outermost format is not an archive container: a single compressed stream
/// cannot hold more than one named entry.
pub fn check_invalid_compression_with_non_archive_format(
    fs: &Vec<CompressionFormat>,
    input_count: usize,
    any_dir: bool,
) -> (r: Result<(), Error>)
    ensures
        r is Ok <==> ((input_count <= 1 && !any_dir) || spec_starts_with_archive(fs@)),
        r is Err ==> r == Err::<(), Error>(Error::MultipleInputsToNonArchive),
{
    if input_count <= 1 && !any_dir {
        Ok(())
    } else if fs.len() > 0 && fs[0].is_archive() {
        Ok(())
    } else {
        Err(Error::MultipleInputsToNonArchive)
    }
}

/// Rejects decompression when some file's chain came out empty: its name
/// names no recognized format, and no explicit override was given. This is
/// its own error, distinct from a generic not-found.
pub fn check_missing_formats_when_decompressing(
    chains: &Vec<Vec<CompressionFormat>>,
) -> (r: Result<(), Error>)
    ensures
        r is Ok <==> (forall|i: int| 0 <= i < chains@.len() ==> chains@[i]@.len() > 0),
        r is Err ==> r == Err::<(), Error>(Error::MissingFormats),
{
    let mut i: usize = 0;
    while i < chains.len()
        invariant
            i <= chains@.len(),
            forall|j: int| 0 <= j < i ==> chains@[j]@.len() > 0,
        decreases chains@.len() - i,
    {
        if chains[i].len() == 0 {
            return Err(Error::MissingFormats);
        }
        i = i + 1;
    }
    Ok(())
}

/// Rejects listing when some file's chain holds no archive container at
/// all: listing is meaningless for a bare compressed stream, and must never
/// silently produce empty output.
pub fn check_for_non_archive_formats(chains: &Vec<Vec<CompressionFormat>>) -> (r: Result<
    (),
    Error,
>)
    ensures
        r is Ok <==> (forall|i: int| 0 <= i < chains@.len() ==> spec_has_archive(chains@[i]@)),
        r is Err ==> r == Err::<(), Error>(Error::ListNonArchive),
{
    let mut i: usize = 0;
    while i < chains.len()
        invariant
            i <= chains@.len(),
            forall|j: int| 0 <= j < i ==> spec_has_archive(chains@[j]@),
        decreases chains@.len() - i,
    {
        if !has_archive(&chains[i]) {
            return Err(Error::ListNonArchive);
        }
        i = i + 1;
    }
    Ok(())
}

/// A chain holding two archive containers is always misplaced, whichever
/// containers they are and wherever they stand.
pub proof fn lemma_two_containers_always_rejected(fs: Seq<CompressionFormat>, i: int, j: int)
    requires
        0 <= i < j < fs.len(),
        spec_is_archive(fs[i]),
        spec_is_archive(fs[j]),
    ensures
        !spec_archive_position_ok(fs),
{
}

/// How every interactive confirmation is resolved.
#[derive(Clone, Copy, PartialEq, Eq, Debug, Structural)]
pub enum QuestionPolicy {
    /// Every question is answered yes without prompting.
    AlwaysYes,
    /// Every question is answered no without prompting.
    AlwaysNo,
    /// The user is prompted each time.
    Ask,
}

/// What a confirmation resolves to under a policy; `prompt_answer` is what
/// the interactive prompt returned, consulted only when the policy asks.
pub open spec fn spec_resolve_question(policy: QuestionPolicy, prompt_answer: bool) -> bool {
    match policy {
        QuestionPolicy::AlwaysYes => true,
        QuestionPolicy::AlwaysNo => false,
        QuestionPolicy::Ask => prompt_answer,
    }
}

/// Resolves one confirmation under the policy. The caller prompts first and
/// passes the answer in; it is consulted only when the policy asks.
pub fn resolve_question(policy: QuestionPolicy, prompt_answer: bool) -> (r: bool)
    ensures
        r == spec_resolve_question(policy, prompt_answer),
{
    match policy {
        QuestionPolicy::AlwaysYes => true,
        QuestionPolicy::AlwaysNo => false,
        QuestionPolicy::Ask => prompt_answer,
    }
}

/// How the mime-sniff decision protocol ends: go on with the operation, or
/// terminate it early because the user declined — an early exit, not a
/// failure.
#[derive(Clone, Copy, PartialEq, Eq, Debug, Structural)]
pub enum MimeOutcome {
    Proceed,
    Declined,
}

/// The canonical suffix text of one format, used when a sniffed format is
/// adopted for a file whose name named none.
pub open spec fn spec_canonical_ext(f: CompressionFormat) -> Seq<u8> {
    match f {
        CompressionFormat::Gzip => seq![103u8, 122u8],
        CompressionFormat::Bzip2 => seq![98u8, 122u8, 50u8],
        CompressionFormat::Lz4 => seq![108u8, 122u8, 52u8],
        CompressionFormat::Lzma => seq![120u8, 122u8],
        CompressionFormat::Zstd => seq![122u8, 115u8, 116u8],
        CompressionFormat::Tar => seq![116u8, 97u8, 114u8],
        CompressionFormat::Zip => seq![122u8, 105u8, 112u8],
        CompressionFormat::SevenZip => seq![55u8, 122u8],
    }
}

/// The canonical suffix denotes exactly that one format.
pub proof fn lemma_canonical_ext_recognized(f: CompressionFormat)
    ensures
        spec_suffix_formats(spec_canonical_ext(f)) == seq![f],
{
    assert(spec_suffix_formats(spec_canonical_ext(f)) =~= seq![f]);
}

/// The extension a sniffed format is adopted under.
pub fn canonical_extension(f: CompressionFormat) -> (r: Extension)
    ensures
        r@.text == spec_canonical_ext(f),
        r@.formats == seq![f],
{
    let text: Vec<u8> = match f {
        CompressionFormat::Gzip => vec![103u8, 122u8],
        CompressionFormat::Bzip2 => vec![98u8, 122u8, 50u8],
        CompressionFormat::Lz4 => vec![108u8, 122u8, 52u8],
        CompressionFormat::Lzma => vec![120u8, 122u8],
        CompressionFormat::Zstd => vec![122u8, 115u8, 116u8],
        CompressionFormat::Tar => vec![116u8, 97u8, 114u8],
        CompressionFormat::Zip => vec![122u8, 105u8, 112u8],
        CompressionFormat::SevenZip => vec![55u8, 122u8],
    };
    let formats: Vec<CompressionFormat> = vec![f];
    proof {
        lemma_canonical_ext_recognized(f);
        assert(text@ =~= spec_canonical_ext(f));
        assert(formats@ =~= seq![f]);
    }
    Extension { formats, text }
}

/// The decision protocol around a content sniff, for decompression and
/// listing. `sniffed` is the format the file's first bytes look like, or
/// `None` when nothing was detected; `confirm` is the already-resolved
/// answer to whichever confirmation the protocol may surface.
///
/// With an empty chain: an undetected content type changes nothing; a
/// detected one is adopted when confirmed, else the operation ends early.
/// With a nonempty chain: a detected format that contradicts the outermost
/// suffix surfaces a confirmation — declining ends the operation early,
/// confirming keeps the extension-derived chain; agreement or an undetected
/// content type changes nothing.
pub fn check_mime_type(
    formats: &mut Vec<Extension>,
    sniffed: Option<CompressionFormat>,
    confirm: bool,
) -> (r: MimeOutcome)
    ensures
        old(formats)@.len() == 0 ==> match sniffed {
            None => r == MimeOutcome::Proceed && final(formats)@ == old(formats)@,
            Some(f) => {
                if confirm {
                    r == MimeOutcome::Proceed && exts_view(final(formats)@) == exts_view(
                        old(formats)@,
                    ).push(crate::extension::ExtensionModel {
                        formats: seq![f],
                        text: spec_canonical_ext(f),
                    })
                } else {
                    r == MimeOutcome::Declined && final(formats)@ == old(formats)@
                }
            },
        },
        old(formats)@.len() > 0 ==> final(formats)@ == old(formats)@ && match sniffed {
            None => r == MimeOutcome::Proceed,
            Some(f) => {
                if exts_view(old(formats)@)[0].formats.contains(f) {
                    r == MimeOutcome::Proceed
                } else {
                    r == (if confirm {
                        MimeOutcome::Proceed
                    } else {
                        MimeOutcome::Declined
                    })
                }
            },
        },
{
    if formats.len() == 0 {
        match sniffed {
            None => MimeOutcome::Proceed,
            Some(f) => {
                if confirm {
                    let ghost before = formats@;
                    let ext = canonical_extension(f);
                    formats.push(ext);
                    proof {
                        assert(exts_view(formats@) =~= exts_view(before).push(
                            crate::extension::ExtensionModel {
                                formats: seq![f],
                                text: spec_canonical_ext(f),
                            },
                        ));
                    }
                    MimeOutcome::Proceed
                } else {
                    MimeOutcome::Declined
                }
            },
        }
    } else {
        match sniffed {
            None => MimeOutcome::Proceed,
            Some(f) => {
                let outer = &formats[0].formats;
                let mut agrees = false;
                let mut k: usize = 0;
                while k < outer.len()
                    invariant
                        k <= outer@.len(),
                        agrees == exists|j: int| 0 <= j < k && outer@[j] == f,
                    decreases outer@.len() - k,
                {
                    if outer[k] == f {
                        agrees = true;
                    }
                    k = k + 1;
                }
                if agrees {
                    MimeOutcome::Proceed
                } else if confirm {
                    MimeOutcome::Proceed
                } else {
                    MimeOutcome::Declined
                }
            },
        }
    }
}

} // verus!
