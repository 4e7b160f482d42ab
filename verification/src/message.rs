//! Diagnostic messages: their formatting by level and accessible mode, and
//! the bounded buffering the single consumer of the message channel runs.
//!
//! Many producers send; one consumer receives in channel order, batches the
//! formatted lines into a bounded buffer, flushes the buffer as one write
//! when it fills, and flushes the remainder when the last producer is gone —
//! only then may the process report completion, so no message is ever
//! silently dropped by an early exit.

use vstd::prelude::*;
use vstd::string::StringExecFns;

verus! {

/// How important a message is; there is nothing below informational.
#[derive(Clone, Copy, PartialEq, Eq, Debug, Structural)]
pub enum MessageLevel {
    Info,
    Warning,
}

/// One diagnostic message: its text, whether it must also be shown in
/// accessible mode, and its level.
pub struct PrintMessage {
    pub contents: String,
    pub accessible: bool,
    pub level: MessageLevel,
}

/// The mathematical model of a `PrintMessage`.
pub ghost struct PrintMessageModel {
    pub contents: Seq<char>,
    pub accessible: bool,
    pub level: MessageLevel,
}

impl View for PrintMessage {
    type V = PrintMessageModel;

    open spec fn view(&self) -> PrintMessageModel {
        PrintMessageModel {
            contents: self.contents@,
            accessible: self.accessible,
            level: self.level,
        }
    }
}

/// The models of a sequence of messages.
pub open spec fn msgs_view(v: Seq<PrintMessage>) -> Seq<PrintMessageModel> {
    v.map_values(|m: PrintMessage| m@)
}

/// The views of a sequence of formatted lines.
pub open spec fn lines_view(v: Seq<String>) -> Seq<Seq<char>> {
    v.map_values(|s: String| s@)
}

/// The formatted line one message produces, or `None` when it is not shown
/// in this mode. Warnings are always shown; informational messages flagged
/// accessible are always shown; other informational messages are shown only
/// outside accessible mode. Accessible mode uses full words, the default
/// mode bracketed tags.
pub open spec fn spec_map_message(m: PrintMessageModel, accessible_mode: bool) -> Option<
    Seq<char>,
> {
    match m.level {
        MessageLevel::Info => {
            if m.accessible {
                if accessible_mode {
                    Some("Info: "@ + m.contents)
                } else {
                    Some("[INFO] "@ + m.contents)
                }
            } else {
                if accessible_mode {
                    None
                } else {
                    Some("[INFO] "@ + m.contents)
                }
            }
        },
        MessageLevel::Warning => {
            if accessible_mode {
                Some("Warning: "@ + m.contents)
            } else {
                Some("[WARNING] "@ + m.contents)
            }
        },
    }
}

/// Formats one message, or `None` when it is suppressed in this mode.
/// Rendering is plain text; any terminal coloring is applied outside.
pub fn map_message(m: &PrintMessage, accessible_mode: bool) -> (r: Option<String>)
    ensures
        match r {
            Some(line) => spec_map_message(m@, accessible_mode) == Some(line@),
            None => spec_map_message(m@, accessible_mode) is None,
        },
{
    match m.level {
        MessageLevel::Info => {
            if m.accessible {
                if accessible_mode {
                    let mut s = String::from_str("Info: ");
                    s.append(m.contents.as_str());
                    Some(s)
                } else {
                    let mut s = String::from_str("[INFO] ");
                    s.append(m.contents.as_str());
                    Some(s)
                }
            } else {
                if accessible_mode {
                    None
                } else {
                    let mut s = String::from_str("[INFO] ");
                    s.append(m.contents.as_str());
                    Some(s)
                }
            }
        },
        MessageLevel::Warning => {
            if accessible_mode {
                let mut s = String::from_str("Warning: ");
                s.append(m.contents.as_str());
                Some(s)
            } else {
                let mut s = String::from_str("[WARNING] ");
                s.append(m.contents.as_str());
                Some(s)
            }
        },
    }
}

/// The lines a whole message sequence produces, in receive order.
pub open spec fn spec_mapped_lines(ms: Seq<PrintMessageModel>, accessible_mode: bool) -> Seq<
    Seq<char>,
>
    decreases ms.len(),
{
    if ms.len() == 0 {
        seq![]
    } else {
        spec_mapped_lines(ms.drop_last(), accessible_mode) + (match spec_map_message(
            ms.last(),
            accessible_mode,
        ) {
            Some(line) => seq![line],
            None => seq![],
        })
    }
}

/// A single message's mapped lines: the one formatted line, or nothing.
pub proof fn lemma_mapped_singleton(m: PrintMessageModel, accessible_mode: bool)
    ensures
        spec_mapped_lines(seq![m], accessible_mode) == (match spec_map_message(
            m,
            accessible_mode,
        ) {
            Some(line) => seq![line],
            None => Seq::<Seq<char>>::empty(),
        }),
{
    let s = seq![m];
    assert(s.len() == 1);
    assert(s.drop_last() =~= Seq::<PrintMessageModel>::empty());
    assert(s.last() == m);
    assert(spec_mapped_lines(s.drop_last(), accessible_mode) == Seq::<Seq<char>>::empty());
    match spec_map_message(m, accessible_mode) {
        Some(line) => {
            assert(spec_mapped_lines(s, accessible_mode) =~= seq![line]);
        },
        None => {
            assert(spec_mapped_lines(s, accessible_mode) =~= Seq::<Seq<char>>::empty());
        },
    }
}

/// How many formatted lines the consumer holds back before flushing them as
/// one write.
pub const BUFFER_CAPACITY: usize = 10;

/// The consumer's bounded buffer of formatted lines not yet flushed.
pub struct MessageBuffer {
    pub lines: Vec<String>,
}

impl MessageBuffer {
    /// The buffer never holds a full batch: reaching the capacity flushes.
    pub open spec fn wf(&self) -> bool {
        self.lines@.len() < BUFFER_CAPACITY
    }

    /// An empty buffer, as the consumer starts with.
    pub fn new() -> (r: Self)
        ensures
            r.wf(),
            lines_view(r.lines@) == Seq::<Seq<char>>::empty(),
    {
        let r = MessageBuffer { lines: Vec::new() };
        proof {
            assert(lines_view(r.lines@) =~= Seq::<Seq<char>>::empty());
        }
        r
    }

    /// Takes one received message: its formatted line, if it is shown at
    /// all, is appended to the buffer; a buffer that thereby reaches the
    /// capacity is handed out to be joined and flushed as one write, and
    /// cleared. Nothing is ever discarded: every shown line either stays
    /// buffered or is in the returned batch.
    pub fn handle(&mut self, m: &PrintMessage, accessible_mode: bool) -> (flushed: Option<
        Vec<String>,
    >)
        requires
            old(self).wf(),
        ensures
            final(self).wf(),
            match flushed {
                None => lines_view(final(self).lines@) == lines_view(old(self).lines@)
                    + spec_mapped_lines(seq![m@], accessible_mode),
                Some(batch) => lines_view(batch@) == lines_view(old(self).lines@)
                    + spec_mapped_lines(seq![m@], accessible_mode) && lines_view(
                    final(self).lines@,
                ) == Seq::<Seq<char>>::empty(),
            },
    {
        proof {
            lemma_mapped_singleton(m@, accessible_mode);
        }
        match map_message(m, accessible_mode) {
            Some(line) => {
                let ghost before = self.lines@;
                self.lines.push(line);
                proof {
                    assert(lines_view(self.lines@) =~= lines_view(before) + spec_mapped_lines(
                        seq![m@],
                        accessible_mode,
                    ));
                }
                if self.lines.len() == BUFFER_CAPACITY {
                    let mut batch: Vec<String> = Vec::new();
                    core::mem::swap(&mut batch, &mut self.lines);
                    proof {
                        assert(lines_view(self.lines@) =~= Seq::<Seq<char>>::empty());
                    }
                    Some(batch)
                } else {
                    None
                }
            },
            None => {
                proof {
                    assert(lines_view(self.lines@) =~= lines_view(self.lines@) + spec_mapped_lines(
                        seq![m@],
                        accessible_mode,
                    ));
                }
                None
            },
        }
    }

    /// All senders are gone: the remaining buffered lines, to be flushed
    /// before the shutdown barrier is signalled.
    pub fn finish(self) -> (r: Vec<String>)
        ensures
            lines_view(r@) == lines_view(self.lines@),
    {
        self.lines
    }
}

/// A batch of lines joined for one write: the lines in order, one newline
/// between each pair.
pub open spec fn spec_join_lines(ls: Seq<Seq<char>>) -> Seq<char>
    decreases ls.len(),
{
    if ls.len() == 0 {
        seq![]
    } else if ls.len() == 1 {
        ls[0]
    } else {
        spec_join_lines(ls.drop_last()) + seq!['\n'] + ls.last()
    }
}

/// Joins one flushed batch into the single string written out.
pub fn join_lines(lines: &Vec<String>) -> (r: String)
    ensures
        r@ == spec_join_lines(lines_view(lines@)),
{
    let mut out = String::new();
    let mut i: usize = 0;
    proof {
        assert(lines_view(lines@.take(0)) =~= Seq::<Seq<char>>::empty());
    }
    while i < lines.len()
        invariant
            i <= lines@.len(),
            out@ == spec_join_lines(lines_view(lines@.take(i as int))),
        decreases lines@.len() - i,
    {
        if i > 0 {
            out.append("\n");
        }
        out.append(lines[i].as_str());
        proof {
            assert(lines_view(lines@.take(i + 1)).drop_last() =~= lines_view(
                lines@.take(i as int),
            ));
            assert(lines_view(lines@.take(i + 1)).last() == lines@[i as int]@);
            if i == 0 {
                assert(out@ =~= spec_join_lines(lines_view(lines@.take(i + 1))));
            } else {
                assert("\n"@ =~= seq!['\n']) by {
                    reveal_strlit("\n");
                }
                assert(out@ =~= spec_join_lines(lines_view(lines@.take(i + 1))));
            }
        }
        i = i + 1;
    }
    proof {
        assert(lines@.take(lines@.len() as int) =~= lines@);
    }
    out
}

/// The whole consumer loop over the messages received before the channel
/// closed, returning every line printed, in order: each batch the buffer
/// flushed, then the final flush. The result is exactly the formatted lines
/// of the received messages, in receive order — none is dropped, none is
/// reordered, whatever the capacity boundaries.
pub fn drain_messages(msgs: &Vec<PrintMessage>, accessible_mode: bool) -> (out: Vec<String>)
    ensures
        lines_view(out@) == spec_mapped_lines(msgs_view(msgs@), accessible_mode),
{
    let mut buf = MessageBuffer::new();
    let mut out: Vec<String> = Vec::new();
    let mut i: usize = 0;
    proof {
        assert(msgs_view(msgs@.take(0)) =~= Seq::<PrintMessageModel>::empty());
        assert(lines_view(out@) + lines_view(buf.lines@) =~= spec_mapped_lines(
            msgs_view(msgs@.take(0)),
            accessible_mode,
        ));
    }
    while i < msgs.len()
        invariant
            i <= msgs@.len(),
            buf.wf(),
            lines_view(out@) + lines_view(buf.lines@) == spec_mapped_lines(
                msgs_view(msgs@.take(i as int)),
                accessible_mode,
            ),
        decreases msgs@.len() - i,
    {
        let ghost out_before = out@;
        match buf.handle(&msgs[i], accessible_mode) {
            Some(batch) => {
                let mut b = batch;
                let ghost bv = b@;
                out.append(&mut b);
                proof {
                    assert(lines_view(out@) =~= lines_view(out_before) + lines_view(bv));
                }
            },
            None => {},
        }
        proof {
            lemma_mapped_singleton(msgs@[i as int]@, accessible_mode);
            assert(msgs_view(msgs@.take(i + 1)).drop_last() =~= msgs_view(msgs@.take(i as int)));
            assert(msgs_view(msgs@.take(i + 1)).last() == msgs@[i as int]@);
            assert(lines_view(out@) + lines_view(buf.lines@) =~= spec_mapped_lines(
                msgs_view(msgs@.take(i + 1)),
                accessible_mode,
            ));
        }
        i = i + 1;
    }
    let ghost out_before_rest = out@;
    let mut rest = buf.finish();
    let ghost rv = rest@;
    out.append(&mut rest);
    proof {
        assert(msgs_view(msgs@.take(msgs@.len() as int)) =~= msgs_view(msgs@));
        assert(lines_view(out@) =~= lines_view(out_before_rest) + lines_view(rv));
    }
    out
}

} // verus!
