//! Pipeline-side decisions: compression-level mapping, the in-memory
//! buffering rule for whole-buffer formats and its advisory warnings, the
//! cleanup protocol after a failed compression, output-path derivation and
//! extraction-path safety for decompression, and archive-content rendering.

use vstd::prelude::*;
use vstd::string::StringExecFns;

use crate::check::spec_resolve_question;
use crate::check::QuestionPolicy;
use crate::extension::{last_pos_in, spec_last_pos, CompressionFormat, DOT};
use crate::message::{MessageLevel, PrintMessage};

verus! {

/// The byte that separates path components.
pub const SLASH: u8 = 47;

/// The byte that ends a rendered line.
pub const NEWLINE: u8 = 10;

/// The compression level an operation runs at: the fastest shorthand forces
/// the minimum representable level, the slowest shorthand the maximum, and
/// otherwise an explicit level is passed through (each format later clamps
/// it to its own range).
pub open spec fn spec_resolve_level(level: Option<i16>, fast: bool, slow: bool) -> Option<i16> {
    if fast {
        Some(1i16)
    } else if slow {
        Some(i16::MAX)
    } else {
        level
    }
}

/// Resolves the effective compression level from the explicit level and the
/// two shorthand flags.
pub fn resolve_level(level: Option<i16>, fast: bool, slow: bool) -> (r: Option<i16>)
    ensures
        r == spec_resolve_level(level, fast, slow),
{
    if fast {
        Some(1i16)
    } else if slow {
        Some(i16::MAX)
    } else {
        level
    }
}

/// A chain holding a whole-buffer format anywhere cannot be driven as a
/// pure stream: the whole operation is buffered in memory first.
pub open spec fn spec_needs_in_memory(fs: Seq<CompressionFormat>) -> bool {
    exists|i: int| 0 <= i < fs.len() && crate::extension::spec_is_whole_buffer(fs[i])
}

/// The zip advisory is owed when zip is combined with other layers.
pub open spec fn spec_warn_zip(fs: Seq<CompressionFormat>) -> bool {
    fs.len() > 1 && fs.contains(CompressionFormat::Zip)
}

/// The 7z advisory is owed when 7z is combined with other layers.
pub open spec fn spec_warn_sevenz(fs: Seq<CompressionFormat>) -> bool {
    fs.len() > 1 && fs.contains(CompressionFormat::SevenZip)
}

/// Whether a chain forces whole-in-memory buffering: some whole-buffer
/// format stands anywhere in it.
pub fn needs_in_memory(fs: &Vec<CompressionFormat>) -> (r: bool)
    ensures
        r == spec_needs_in_memory(fs@),
{
    let mut i: usize = 0;
    while i < fs.len()
        invariant
            i <= fs@.len(),
            forall|j: int| 0 <= j < i ==> !crate::extension::spec_is_whole_buffer(fs@[j]),
        decreases fs@.len() - i,
    {
        if fs[i].is_whole_buffer() {
            return true;
        }
        i = i + 1;
    }
    false
}

/// Which in-memory advisories a chain owes: one for zip, one for 7z, each
/// when that whole-buffer format is combined with other layers.
pub fn in_memory_warnings(fs: &Vec<CompressionFormat>) -> (r: (bool, bool))
    ensures
        r.0 == spec_warn_zip(fs@),
        r.1 == spec_warn_sevenz(fs@),
{
    let mut has_zip = false;
    let mut has_sevenz = false;
    let mut i: usize = 0;
    while i < fs.len()
        invariant
            i <= fs@.len(),
            has_zip == exists|j: int| 0 <= j < i && fs@[j] == CompressionFormat::Zip,
            has_sevenz == exists|j: int| 0 <= j < i && fs@[j] == CompressionFormat::SevenZip,
        decreases fs@.len() - i,
    {
        if fs[i] == CompressionFormat::Zip {
            has_zip = true;
        }
        if fs[i] == CompressionFormat::SevenZip {
            has_sevenz = true;
        }
        i = i + 1;
    }
    (fs.len() > 1 && has_zip, fs.len() > 1 && has_sevenz)
}

/// The advisory that zip cannot be driven as a stream: combined with other
/// formats the whole operation is buffered in memory, at the risk of
/// exhausting it on large inputs.
pub fn warn_user_about_loading_zip_in_memory() -> (r: PrintMessage)
    ensures
        r@.contents == (
        "\n\tThe format '.zip' is limited and cannot be (de)compressed using encoding streams.\n\tWhen using '.zip' with other formats, (de)compression must be done in-memory\n\tCareful, you might run out of RAM if the archive is too large!"
        )@,
        r@.accessible == true,
        r@.level == MessageLevel::Warning,
{
    PrintMessage {
        contents: String::from_str(
            "\n\tThe format '.zip' is limited and cannot be (de)compressed using encoding streams.\n\tWhen using '.zip' with other formats, (de)compression must be done in-memory\n\tCareful, you might run out of RAM if the archive is too large!",
        ),
        accessible: true,
        level: MessageLevel::Warning,
    }
}

/// The advisory that 7z cannot be driven as a stream: combined with other
/// formats the whole operation is buffered in memory, at the risk of
/// exhausting it on large inputs.
pub fn warn_user_about_loading_sevenz_in_memory() -> (r: PrintMessage)
    ensures
        r@.contents == (
        "\n\tThe format '.7z' is limited and cannot be (de)compressed using encoding streams.\n\tWhen using '.7z' with other formats, (de)compression must be done in-memory\n\tCareful, you might run out of RAM if the archive is too large!"
        )@,
        r@.accessible == true,
        r@.level == MessageLevel::Warning,
{
    PrintMessage {
        contents: String::from_str(
            "\n\tThe format '.7z' is limited and cannot be (de)compressed using encoding streams.\n\tWhen using '.7z' with other formats, (de)compression must be done in-memory\n\tCareful, you might run out of RAM if the archive is too large!",
        ),
        accessible: true,
        level: MessageLevel::Warning,
    }
}

/// The one closing status message of a successful compression. It is
/// flagged accessible: a screen reader may not announce the exit status, so
/// success must be said in words.
pub fn compression_success_message(path_text: &str) -> (r: PrintMessage)
    ensures
        r@.contents == "Successfully compressed '"@ + path_text@ + "'."@,
        r@.accessible == true,
        r@.level == MessageLevel::Info,
{
    let mut contents = String::from_str("Successfully compressed '");
    contents.append(path_text);
    contents.append("'.");
    PrintMessage { contents, accessible: true, level: MessageLevel::Info }
}

/// Whether the output file is written at all: a fresh path is always
/// written; an existing one only when the overwrite confirmation resolves
/// to yes. Declining is an early exit, not a failure.
#[derive(Clone, Copy, PartialEq, Eq, Debug, Structural)]
pub enum FileWriteDecision {
    Write,
    Skip,
}

/// Decides whether to (over)write the output path. `occupied` says whether
/// a file is already there; `prompt_answer` is what the interactive prompt
/// returned, consulted only when the policy asks.
pub fn decide_create_file(occupied: bool, policy: QuestionPolicy, prompt_answer: bool) -> (r:
    FileWriteDecision)
    ensures
        (r == FileWriteDecision::Write) <==> (!occupied || spec_resolve_question(
            policy,
            prompt_answer,
        )),
{
    if !occupied {
        FileWriteDecision::Write
    } else if crate::check::resolve_question(policy, prompt_answer) {
        FileWriteDecision::Write
    } else {
        FileWriteDecision::Skip
    }
}

/// How a compression attempt is reported once cleanup has run.
#[derive(Clone, Copy, PartialEq, Eq, Debug, Structural)]
pub enum CompressionReport {
    /// The output was written whole.
    Success,
    /// Compression failed or was abandoned, and the partial output was
    /// deleted: the output path no longer exists.
    FailedCleaned,
    /// Compression failed and deleting the partial output failed too: a
    /// possibly corrupt file remains on disk and must be deleted by hand.
    /// Reported on top of the original failure, at higher severity.
    FailedCleanupFailed,
}

/// The cleanup protocol after a compression attempt. The partial output is
/// deleted exactly when the attempt did not finish, so `removal_ok` carries
/// the deletion outcome exactly in that case. A cleanup failure is reported
/// as its own, higher-severity condition; a cleaned failure guarantees the
/// output path no longer exists.
pub fn compression_report(compress_ok: bool, removal_ok: Option<bool>) -> (r: CompressionReport)
    requires
        compress_ok <==> removal_ok is None,
    ensures
        r == CompressionReport::Success <==> compress_ok,
        r == CompressionReport::FailedCleaned <==> removal_ok == Some(true),
        r == CompressionReport::FailedCleanupFailed <==> removal_ok == Some(false),
{
    match removal_ok {
        None => CompressionReport::Success,
        Some(true) => CompressionReport::FailedCleaned,
        Some(false) => CompressionReport::FailedCleanupFailed,
    }
}

/// The single-file output path of a decompression: the output directory,
/// one separator, the residual base name.
pub open spec fn spec_joined_path(dir: Seq<u8>, name: Seq<u8>) -> Seq<u8> {
    dir + seq![SLASH] + name
}

/// Joins the output directory and a derived base name into the output path.
pub fn derive_output_path(dir: &[u8], name: &[u8]) -> (r: Vec<u8>)
    ensures
        r@ == spec_joined_path(dir@, name@),
{
    let mut out: Vec<u8> = Vec::new();
    let mut i: usize = 0;
    while i < dir.len()
        invariant
            i <= dir@.len(),
            out@ == dir@.take(i as int),
        decreases dir@.len() - i,
    {
        out.push(dir[i]);
        proof {
            assert(out@ =~= dir@.take(i + 1));
        }
        i = i + 1;
    }
    out.push(SLASH);
    let mut k: usize = 0;
    proof {
        assert(dir@.take(dir@.len() as int) =~= dir@);
        assert(out@ =~= dir@ + seq![SLASH] + name@.take(0));
    }
    while k < name.len()
        invariant
            k <= name@.len(),
            out@ == dir@ + seq![SLASH] + name@.take(k as int),
        decreases name@.len() - k,
    {
        out.push(name[k]);
        proof {
            assert(out@ =~= dir@ + seq![SLASH] + name@.take(k + 1));
        }
        k = k + 1;
    }
    proof {
        assert(name@.take(name@.len() as int) =~= name@);
    }
    out
}

/// A `..` path component starts at `i`: two dots bounded by the start of
/// the path or a separator on the left, and the end of the path or a
/// separator on the right.
pub open spec fn spec_dotdot_at(p: Seq<u8>, i: int) -> bool {
    &&& 0 <= i
    &&& i + 2 <= p.len()
    &&& p[i] == DOT
    &&& p[i + 1] == DOT
    &&& (i == 0 || p[i - 1] == SLASH)
    &&& (i + 2 == p.len() || p[i + 2] == SLASH)
}

/// An archive entry may be materialized only at a path that stays within
/// the output directory: nonempty, not absolute, and without any `..`
/// component.
pub open spec fn spec_entry_path_safe(p: Seq<u8>) -> bool {
    &&& p.len() > 0
    &&& p[0] != SLASH
    &&& !(exists|i: int| spec_dotdot_at(p, i))
}

/// Whether an archive entry's path may be materialized under the output
/// directory. Directory-traversal (`..`) and absolute entries are rejected,
/// never silently followed.
pub fn entry_path_is_safe(p: &[u8]) -> (r: bool)
    ensures
        r == spec_entry_path_safe(p@),
{
    if p.len() == 0 {
        return false;
    }
    if p[0] == SLASH {
        return false;
    }
    let mut i: usize = 0;
    while i < p.len()
        invariant
            i <= p@.len(),
            forall|j: int| 0 <= j < i ==> !spec_dotdot_at(p@, j),
        decreases p@.len() - i,
    {
        if p[i] == DOT && i + 1 < p.len() && p[i + 1] == DOT {
            let head_ok = i == 0 || p[i - 1] == SLASH;
            let tail_ok = i + 2 == p.len() || p[i + 2] == SLASH;
            if head_ok && tail_ok {
                proof {
                    assert(spec_dotdot_at(p@, i as int));
                }
                return false;
            }
        }
        i = i + 1;
    }
    true
}

/// How archive contents are rendered: flat, or grouped as a tree.
#[derive(Clone, Copy, PartialEq, Eq, Debug, Structural)]
pub struct ListOptions {
    pub tree: bool,
}

/// The number of separators in an entry's path: its depth in the tree.
pub open spec fn spec_count_slashes(p: Seq<u8>) -> nat
    decreases p.len(),
{
    if p.len() == 0 {
        0
    } else {
        spec_count_slashes(p.drop_last()) + (if p.last() == SLASH {
            1nat
        } else {
            0nat
        })
    }
}

/// The text after the last separator: the entry's own name.
pub open spec fn spec_last_component(p: Seq<u8>) -> Seq<u8> {
    match spec_last_pos(p, SLASH) {
        Some(i) => p.subrange(i + 1, p.len() as int),
        None => p,
    }
}

/// One rendered line of a listing: the whole path when flat; when rendered
/// as a tree, the entry's own name indented two spaces per directory level.
pub open spec fn spec_listing_line(p: Seq<u8>, tree: bool) -> Seq<u8> {
    if tree {
        Seq::new(2 * spec_count_slashes(p), |i: int| 32u8) + spec_last_component(p)
    } else {
        p
    }
}

/// The views of a sequence of byte strings.
pub open spec fn bytes_view(v: Seq<Vec<u8>>) -> Seq<Seq<u8>> {
    v.map_values(|p: Vec<u8>| p@)
}

/// Indexing through `bytes_view` is indexing then viewing.
pub proof fn lemma_bytes_view_index(v: Seq<Vec<u8>>)
    ensures
        bytes_view(v).len() == v.len(),
        forall|j: int| 0 <= j < v.len() ==> bytes_view(v)[j] == v[j]@,
{
}

/// A whole rendered listing: each entry's line, each ended by a newline.
pub open spec fn spec_listing(es: Seq<Seq<u8>>, tree: bool) -> Seq<u8>
    decreases es.len(),
{
    if es.len() == 0 {
        seq![]
    } else {
        spec_listing(es.drop_last(), tree) + spec_listing_line(es.last(), tree) + seq![NEWLINE]
    }
}

/// The number of separators in an entry's path.
pub fn count_slashes(p: &[u8]) -> (r: usize)
    ensures
        r == spec_count_slashes(p@),
{
    let mut n: usize = 0;
    let mut i: usize = 0;
    while i < p.len()
        invariant
            i <= p@.len(),
            n == spec_count_slashes(p@.take(i as int)),
            n <= i,
        decreases p@.len() - i,
    {
        proof {
            assert(p@.take(i + 1).drop_last() =~= p@.take(i as int));
        }
        if p[i] == SLASH {
            n = n + 1;
        }
        i = i + 1;
    }
    proof {
        assert(p@.take(p@.len() as int) =~= p@);
    }
    n
}

/// Renders one entry's listing line.
fn listing_line(p: &Vec<u8>, tree: bool) -> (r: Vec<u8>)
    requires
        p@.len() < usize::MAX / 4,
    ensures
        r@ == spec_listing_line(p@, tree),
{
    if !tree {
        return crate::extension::copy_range(p.as_slice(), 0, p.len());
    }
    let depth = count_slashes(p.as_slice());
    let mut out: Vec<u8> = Vec::new();
    let mut k: usize = 0;
    proof {
        assert(spec_count_slashes(p@) <= p@.len()) by {
            lemma_count_slashes_le(p@);
        }
    }
    while k < 2 * depth
        invariant
            k <= 2 * depth,
            depth < usize::MAX / 4,
            out@ == Seq::new(k as nat, |i: int| 32u8),
        decreases 2 * depth - k,
    {
        out.push(32u8);
        proof {
            assert(out@ =~= Seq::new((k + 1) as nat, |i: int| 32u8));
        }
        k = k + 1;
    }
    let start = match last_pos_in(p.as_slice(), p.len(), SLASH) {
        Some(i) => {
            proof {
                crate::extension::lemma_last_pos_props(p@, SLASH);
                assert(p@.take(p@.len() as int) =~= p@);
            }
            i + 1
        },
        None => {
            proof {
                assert(p@.take(p@.len() as int) =~= p@);
            }
            0
        },
    };
    let mut j = start;
    let ghost indent = out@;
    while j < p.len()
        invariant
            start <= j <= p@.len(),
            out@ == indent + p@.subrange(start as int, j as int),
        decreases p@.len() - j,
    {
        out.push(p[j]);
        proof {
            assert(out@ =~= indent + p@.subrange(start as int, j + 1));
        }
        j = j + 1;
    }
    proof {
        assert(out@ =~= spec_listing_line(p@, tree));
    }
    out
}

/// A path has no more separators than bytes.
proof fn lemma_count_slashes_le(p: Seq<u8>)
    ensures
        spec_count_slashes(p) <= p.len(),
    decreases p.len(),
{
    if p.len() > 0 {
        lemma_count_slashes_le(p.drop_last());
    }
}

/// Renders an archive's entry paths without writing any file: flat, one
/// path per line, or as a tree with each entry's own name indented by its
/// directory depth.
pub fn render_listing(entries: &Vec<Vec<u8>>, options: ListOptions) -> (r: Vec<u8>)
    requires
        forall|i: int| 0 <= i < entries@.len() ==> (#[trigger] entries@[i])@.len() < usize::MAX
            / 4,
    ensures
        r@ == spec_listing(bytes_view(entries@), options.tree),
{
    let mut out: Vec<u8> = Vec::new();
    let mut i: usize = 0;
    proof {
        assert(bytes_view(entries@.take(0)) =~= Seq::<Seq<u8>>::empty());
    }
    while i < entries.len()
        invariant
            i <= entries@.len(),
            forall|k: int| 0 <= k < entries@.len() ==> (#[trigger] entries@[k])@.len()
                < usize::MAX / 4,
            out@ == spec_listing(bytes_view(entries@.take(i as int)), options.tree),
        decreases entries@.len() - i,
    {
        let mut line = listing_line(&entries[i], options.tree);
        let ghost lv = line@;
        let ghost before = out@;
        out.append(&mut line);
        out.push(NEWLINE);
        proof {
            assert(bytes_view(entries@.take(i + 1)).drop_last() =~= bytes_view(
                entries@.take(i as int),
            ));
            assert(bytes_view(entries@.take(i + 1)).last() == entries@[i as int]@);
            assert(out@ =~= spec_listing(bytes_view(entries@.take(i + 1)), options.tree));
        }
        i = i + 1;
    }
    proof {
        assert(entries@.take(entries@.len() as int) =~= entries@);
    }
    out
}

} // verus!
