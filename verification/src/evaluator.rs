//! Evaluation of one whole invocation: resolve every input's format chain,
//! run the safety checks, and produce the operation plan the surrounding
//! binary executes — or the exact error, before any destructive work.

use vstd::prelude::*;

use crate::check::{
    check_archive_formats_position, check_for_non_archive_formats,
    check_invalid_compression_with_non_archive_format, spec_archive_position_ok, spec_has_archive,
    spec_starts_with_archive,
};
use crate::error::Error;
use crate::extension::{
    copy_range, exts_view, flatten_compression_formats, parse_format,
    separate_known_extensions_from_name, spec_flatten, spec_parse_format, spec_parse_name,
    CompressionFormat, DOT,
};
use crate::pipeline::{
    bytes_view, derive_output_path, in_memory_warnings, lemma_bytes_view_index, needs_in_memory,
    resolve_level, spec_joined_path, spec_needs_in_memory, spec_resolve_level, spec_warn_sevenz,
    spec_warn_zip,
};

verus! {

/// What one invocation asks for.
pub enum CommandKind {
    /// Pack the inputs into one output, whose name (or the override) names
    /// the chain.
    Compress {
        files: Vec<Vec<u8>>,
        any_dir: bool,
        output: Vec<u8>,
        level: Option<i16>,
        fast: bool,
        slow: bool,
    },
    /// Unpack each input into the output directory.
    Decompress { files: Vec<Vec<u8>>, output_dir: Option<Vec<u8>> },
    /// Render each archive's contents without writing files.
    List { archives: Vec<Vec<u8>>, tree: bool },
}

/// One whole invocation: its kind, and the format override that replaces
/// suffix inference uniformly for every listed input.
pub struct Command {
    pub kind: CommandKind,
    pub format: Option<Vec<u8>>,
}

/// The model of an optional byte string.
pub open spec fn opt_bytes_view(o: Option<Vec<u8>>) -> Option<Seq<u8>> {
    match o {
        Some(v) => Some(v@),
        None => None,
    }
}

/// Whether the override, if given, parses as a chain of recognized suffixes.
pub open spec fn spec_override_ok(ov: Option<Seq<u8>>) -> bool {
    match ov {
        Some(t) => spec_parse_format(t) is Some,
        None => true,
    }
}

/// The format chain one input resolves to: the parsed override when given,
/// else the chain its own suffixes denote.
pub open spec fn spec_chain_for(name: Seq<u8>, ov: Option<Seq<u8>>) -> Seq<CompressionFormat>
    recommends
        spec_override_ok(ov),
{
    match ov {
        Some(t) => spec_flatten(spec_parse_format(t).unwrap()),
        None => spec_flatten(spec_parse_name(name).1),
    }
}

/// The base name a single-file output is derived from: with an override the
/// whole file name, else the name with its recognized suffixes stripped.
pub open spec fn spec_base_for(name: Seq<u8>, ov: Option<Seq<u8>>) -> Seq<u8> {
    match ov {
        Some(_) => name,
        None => spec_parse_name(name).0,
    }
}

/// The error a compression request is rejected with, or `None` when every
/// check passes: nothing to compress; an unparsable override; several inputs
/// (or a directory) into a non-archive chain; a misplaced archive container.
pub open spec fn spec_eval_compress_err(
    files: Seq<Seq<u8>>,
    any_dir: bool,
    output: Seq<u8>,
    ov: Option<Seq<u8>>,
) -> Option<Error> {
    if files.len() == 0 {
        Some(Error::NoFilesToCompress)
    } else if !spec_override_ok(ov) {
        Some(Error::UnknownExtension)
    } else {
        let fs = spec_chain_for(output, ov);
        if !((files.len() <= 1 && !any_dir) || spec_starts_with_archive(fs)) {
            Some(Error::MultipleInputsToNonArchive)
        } else if !spec_archive_position_ok(fs) {
            Some(Error::MisplacedArchiveFormat)
        } else {
            None
        }
    }
}

/// The error a decompression request is rejected with, or `None`: an
/// unparsable override; an input with no file name; an input whose chain
/// came out empty with no override to fall back on.
pub open spec fn spec_eval_decompress_err(files: Seq<Seq<u8>>, ov: Option<Seq<u8>>) -> Option<
    Error,
> {
    if !spec_override_ok(ov) {
        Some(Error::UnknownExtension)
    } else if exists|i: int| 0 <= i < files.len() && (#[trigger] files[i]).len() == 0 {
        Some(Error::NoFileName)
    } else if exists|i: int|
        0 <= i < files.len() && spec_chain_for(#[trigger] files[i], ov).len() == 0 {
        Some(Error::MissingFormats)
    } else {
        None
    }
}

/// The error a listing request is rejected with, or `None`: an unparsable
/// override; an input whose chain holds no archive container at all.
pub open spec fn spec_eval_list_err(archives: Seq<Seq<u8>>, ov: Option<Seq<u8>>) -> Option<
    Error,
> {
    if !spec_override_ok(ov) {
        Some(Error::UnknownExtension)
    } else if exists|i: int|
        0 <= i < archives.len() && !spec_has_archive(
            spec_chain_for(#[trigger] archives[i], ov),
        ) {
        Some(Error::ListNonArchive)
    } else {
        None
    }
}

/// The plan of one compression: a single pipeline over one output, however
/// many inputs there are — compression is never fanned out.
pub struct CompressionPlan {
    /// Where the one output stream goes.
    pub output: Vec<u8>,
    /// The chain, in literal suffix order; encoder layers are built nested,
    /// the last suffix's layer wrapping the raw output.
    pub formats: Vec<CompressionFormat>,
    /// The effective level, to be clamped per format.
    pub level: Option<i16>,
    /// A whole-buffer format is in the chain: the operation cannot stream
    /// and is buffered wholly in memory.
    pub in_memory: bool,
    /// The zip in-memory advisory is owed before work starts.
    pub warn_zip: bool,
    /// The 7z in-memory advisory is owed before work starts.
    pub warn_sevenz: bool,
}

/// One independent decompression work item, fit to be dispatched on its own
/// worker: nothing in it is shared with any other item.
pub struct DecompressionItem {
    /// The archive to read.
    pub input: Vec<u8>,
    /// Its chain, in literal suffix order; decoding peels layers from the
    /// last suffix inward to the container.
    pub formats: Vec<CompressionFormat>,
    /// Where the single-file output goes when the chain has no container.
    pub output_file: Vec<u8>,
}

/// One independent listing work item.
pub struct ListItem {
    /// The archive whose entries are rendered.
    pub archive: Vec<u8>,
    /// Its chain, in literal suffix order.
    pub formats: Vec<CompressionFormat>,
}

/// A validated operation, ready to execute.
pub enum Plan {
    Compress(CompressionPlan),
    Decompress { items: Vec<DecompressionItem>, output_dir: Vec<u8> },
    List { items: Vec<ListItem>, tree: bool },
}

/// A decompression or listing work item depends on its own input name and
/// the shared override alone, never on the other inputs: two invocations
/// that agree on one name resolve it to the same chain and the same base,
/// whatever else they carry. Items may therefore be dispatched in any
/// order, or in parallel, with the same per-archive result as running them
/// one by one.
pub proof fn lemma_work_items_independent(
    files1: Seq<Seq<u8>>,
    files2: Seq<Seq<u8>>,
    ov: Option<Seq<u8>>,
    i: int,
    j: int,
)
    requires
        0 <= i < files1.len(),
        0 <= j < files2.len(),
        files1[i] == files2[j],
    ensures
        spec_chain_for(files1[i], ov) == spec_chain_for(files2[j], ov),
        spec_base_for(files1[i], ov) == spec_base_for(files2[j], ov),
{
}

/// Copies a byte string.
pub fn clone_bytes(v: &Vec<u8>) -> (r: Vec<u8>)
    ensures
        r@ == v@,
{
    let r = copy_range(v.as_slice(), 0, v.len());
    proof {
        assert(v@.subrange(0, v@.len() as int) =~= v@);
    }
    r
}

/// Evaluates commands: resolves chains, runs the safety checks, and hands
/// back the plan or the exact rejection.
pub struct Evaluator {
    pub command: Command,
}

impl Evaluator {
    /// Wraps a parsed invocation for evaluation.
    pub fn new(command: Command) -> (r: Self)
        ensures
            r.command == command,
    {
        Evaluator { command }
    }

    /// Resolves every input's chain, runs the safety checks, and produces
    /// the plan, or the error the request is rejected with — always before
    /// any destructive work. The command itself is left as it was.
    #[verifier::loop_isolation(false)]
    pub fn evaluate(&mut self) -> (r: Result<Plan, Error>)
        ensures
            *final(self) == *old(self),
            match old(self).command.kind {
                CommandKind::Compress { files, any_dir, output, level, fast, slow } => {
                    let ov = opt_bytes_view(old(self).command.format);
                    match r {
                        Err(e) => spec_eval_compress_err(bytes_view(files@), any_dir, output@, ov)
                            == Some(e),
                        Ok(plan) => spec_eval_compress_err(
                            bytes_view(files@),
                            any_dir,
                            output@,
                            ov,
                        ) is None && (plan matches Plan::Compress(p) && p.output@ == output@
                            && p.formats@ == spec_chain_for(output@, ov) && p.level
                            == spec_resolve_level(level, fast, slow) && p.in_memory
                            == spec_needs_in_memory(p.formats@) && p.warn_zip == spec_warn_zip(
                            p.formats@,
                        ) && p.warn_sevenz == spec_warn_sevenz(p.formats@)),
                    }
                },
                CommandKind::Decompress { files, output_dir } => {
                    let ov = opt_bytes_view(old(self).command.format);
                    let dir = match opt_bytes_view(output_dir) {
                        Some(d) => d,
                        None => seq![DOT],
                    };
                    match r {
                        Err(e) => spec_eval_decompress_err(bytes_view(files@), ov) == Some(e),
                        Ok(plan) => spec_eval_decompress_err(bytes_view(files@), ov) is None && (
                        plan matches Plan::Decompress { items, output_dir: d } && d@ == dir
                            && items@.len() == files@.len() && (forall|i: int|
                            0 <= i < items@.len() ==> (#[trigger] items@[i]).input@ == files@[i]@
                                && items@[i].formats@ == spec_chain_for(files@[i]@, ov)
                                && items@[i].output_file@ == spec_joined_path(
                                dir,
                                spec_base_for(files@[i]@, ov),
                            ))),
                    }
                },
                CommandKind::List { archives, tree } => {
                    let ov = opt_bytes_view(old(self).command.format);
                    match r {
                        Err(e) => spec_eval_list_err(bytes_view(archives@), ov) == Some(e),
                        Ok(plan) => spec_eval_list_err(bytes_view(archives@), ov) is None && (
                        plan matches Plan::List { items, tree: t } && t == tree && items@.len()
                            == archives@.len() && (forall|i: int|
                            0 <= i < items@.len() ==> (#[trigger] items@[i]).archive@
                                == archives@[i]@ && items@[i].formats@ == spec_chain_for(
                                archives@[i]@,
                                ov,
                            ))),
                    }
                },
            },
    {
        let ghost ov = opt_bytes_view(self.command.format);
        match &self.command.kind {
            CommandKind::Compress { files, any_dir, output, level, fast, slow } => {
                if files.len() == 0 {
                    return Err(Error::NoFilesToCompress);
                }
                let exts = match &self.command.format {
                    Some(t) => match parse_format(t.as_slice()) {
                        Some(es) => es,
                        None => {
                            return Err(Error::UnknownExtension);
                        },
                    },
                    None => separate_known_extensions_from_name(output.as_slice()).1,
                };
                let formats = flatten_compression_formats(&exts);
                proof {
                    assert(formats@ == spec_chain_for(output@, ov));
                }
                match check_invalid_compression_with_non_archive_format(
                    &formats,
                    files.len(),
                    *any_dir,
                ) {
                    Err(e) => {
                        return Err(e);
                    },
                    Ok(_) => {},
                }
                match check_archive_formats_position(&formats) {
                    Err(e) => {
                        return Err(e);
                    },
                    Ok(_) => {},
                }
                let lv = resolve_level(*level, *fast, *slow);
                let (warn_zip, warn_sevenz) = in_memory_warnings(&formats);
                let in_memory = needs_in_memory(&formats);
                Ok(
                    Plan::Compress(
                        CompressionPlan {
                            output: clone_bytes(output),
                            formats,
                            level: lv,
                            in_memory,
                            warn_zip,
                            warn_sevenz,
                        },
                    ),
                )
            },
            CommandKind::Decompress { files, output_dir } => {
                let override_exts = match &self.command.format {
                    Some(t) => match parse_format(t.as_slice()) {
                        Some(es) => Some(es),
                        None => {
                            return Err(Error::UnknownExtension);
                        },
                    },
                    None => None,
                };
                let mut i: usize = 0;
                while i < files.len()
                    invariant
                        *self == *old(self),
                        i <= files@.len(),
                        forall|j: int| 0 <= j < i ==> (#[trigger] files@[j])@.len() > 0,
                    decreases files@.len() - i,
                {
                    if files[i].len() == 0 {
                        proof {
                            lemma_bytes_view_index(files@);
                            assert((#[trigger] bytes_view(files@)[i as int]).len() == 0);
                            assert(spec_eval_decompress_err(bytes_view(files@), ov) == Some(
                                Error::NoFileName,
                            ));
                        }
                        return Err(Error::NoFileName);
                    }
                    i = i + 1;
                }
                let dir: Vec<u8> = match output_dir {
                    Some(d) => clone_bytes(d),
                    None => vec![DOT],
                };
                proof {
                    assert(dir@ == (match opt_bytes_view(*output_dir) {
                        Some(d) => d,
                        None => seq![DOT],
                    })) by {
                        if opt_bytes_view(*output_dir) is None {
                            assert(dir@ =~= seq![DOT]);
                        }
                    }
                }
                let mut items: Vec<DecompressionItem> = Vec::new();
                let mut k: usize = 0;
                while k < files.len()
                    invariant
                        *self == *old(self),
                        k <= files@.len(),
                        items@.len() == k,
                        spec_override_ok(ov),
                        override_exts matches Some(es) ==> ov is Some && exts_view(es@)
                            == spec_parse_format(ov.unwrap()).unwrap(),
                        override_exts is None ==> ov is None,
                        forall|j: int|
                            0 <= j < k ==> (#[trigger] items@[j]).input@ == files@[j]@
                                && items@[j].formats@ == spec_chain_for(files@[j]@, ov)
                                && items@[j].formats@.len() > 0 && items@[j].output_file@
                                == spec_joined_path(dir@, spec_base_for(files@[j]@, ov)),
                    decreases files@.len() - k,
                {
                    let name = &files[k];
                    let (base, formats) = match &override_exts {
                        Some(es) => (clone_bytes(name), flatten_compression_formats(es)),
                        None => {
                            let (b, exts) = separate_known_extensions_from_name(name.as_slice());
                            (b, flatten_compression_formats(&exts))
                        },
                    };
                    if formats.len() == 0 {
                        proof {
                            lemma_bytes_view_index(files@);
                            assert(spec_chain_for(files@[k as int]@, ov).len() == 0);
                            assert(spec_chain_for(bytes_view(files@)[k as int], ov).len() == 0);
                            assert(!(exists|i: int|
                                0 <= i < bytes_view(files@).len() && (#[trigger] bytes_view(
                                    files@,
                                )[i]).len() == 0));
                            assert(spec_eval_decompress_err(bytes_view(files@), ov) == Some(
                                Error::MissingFormats,
                            ));
                        }
                        return Err(Error::MissingFormats);
                    }
                    let output_file = derive_output_path(dir.as_slice(), base.as_slice());
                    items.push(DecompressionItem { input: clone_bytes(name), formats, output_file });
                    k = k + 1;
                }
                proof {
                    lemma_bytes_view_index(files@);
                    assert forall|i: int|
                        0 <= i < bytes_view(files@).len() implies spec_chain_for(
                        #[trigger] bytes_view(files@)[i],
                        ov,
                    ).len() > 0 by {
                        assert(items@[i].formats@ == spec_chain_for(files@[i]@, ov));
                    }
                }
                Ok(Plan::Decompress { items, output_dir: dir })
            },
            CommandKind::List { archives, tree } => {
                let override_exts = match &self.command.format {
                    Some(t) => match parse_format(t.as_slice()) {
                        Some(es) => Some(es),
                        None => {
                            return Err(Error::UnknownExtension);
                        },
                    },
                    None => None,
                };
                let mut chains: Vec<Vec<CompressionFormat>> = Vec::new();
                let mut i: usize = 0;
                while i < archives.len()
                    invariant
                        *self == *old(self),
                        i <= archives@.len(),
                        chains@.len() == i,
                        spec_override_ok(ov),
                        override_exts matches Some(es) ==> ov is Some && exts_view(es@)
                            == spec_parse_format(ov.unwrap()).unwrap(),
                        override_exts is None ==> ov is None,
                        forall|j: int|
                            0 <= j < i ==> (#[trigger] chains@[j])@ == spec_chain_for(
                                archives@[j]@,
                                ov,
                            ),
                    decreases archives@.len() - i,
                {
                    let formats = match &override_exts {
                        Some(es) => flatten_compression_formats(es),
                        None => {
                            let (_, exts) = separate_known_extensions_from_name(
                                archives[i].as_slice(),
                            );
                            flatten_compression_formats(&exts)
                        },
                    };
                    chains.push(formats);
                    i = i + 1;
                }
                match check_for_non_archive_formats(&chains) {
                    Err(e) => {
                        proof {
                            lemma_bytes_view_index(archives@);
                            let w = choose|j: int|
                                0 <= j < chains@.len() && !spec_has_archive(chains@[j]@);
                            assert(!spec_has_archive(
                                spec_chain_for(bytes_view(archives@)[w], ov),
                            ));
                        }
                        return Err(e);
                    },
                    Ok(_) => {},
                }
                let mut items: Vec<ListItem> = Vec::new();
                let mut k: usize = 0;
                while k < archives.len()
                    invariant
                        *self == *old(self),
                        k <= archives@.len(),
                        items@.len() == k,
                        chains@.len() == archives@.len(),
                        forall|j: int|
                            0 <= j < chains@.len() ==> (#[trigger] chains@[j])@ == spec_chain_for(
                                archives@[j]@,
                                ov,
                            ),
                        forall|j: int|
                            0 <= j < k ==> (#[trigger] items@[j]).archive@ == archives@[j]@
                                && items@[j].formats@ == spec_chain_for(archives@[j]@, ov),
                    decreases archives@.len() - k,
                {
                    let formats = clone_formats(&chains[k]);
                    items.push(ListItem { archive: clone_bytes(&archives[k]), formats });
                    k = k + 1;
                }
                proof {
                    lemma_bytes_view_index(archives@);
                    assert forall|i: int|
                        0 <= i < bytes_view(archives@).len() implies spec_has_archive(
                        spec_chain_for(#[trigger] bytes_view(archives@)[i], ov),
                    ) by {
                        assert(chains@[i]@ == spec_chain_for(archives@[i]@, ov));
                        assert(spec_has_archive(chains@[i]@));
                    }
                }
                Ok(Plan::List { items, tree: *tree })
            },
        }
    }
}

/// Copies a format chain.
pub fn clone_formats(v: &Vec<CompressionFormat>) -> (r: Vec<CompressionFormat>)
    ensures
        r@ == v@,
{
    let mut out: Vec<CompressionFormat> = Vec::new();
    let mut i: usize = 0;
    while i < v.len()
        invariant
            i <= v@.len(),
            out@ == v@.take(i as int),
        decreases v@.len() - i,
    {
        out.push(v[i]);
        proof {
            assert(out@ =~= v@.take(i + 1));
        }
        i = i + 1;
    }
    proof {
        assert(v@.take(v@.len() as int) =~= v@);
    }
    out
}

} // verus!
