//! The end of an `ssh` process: what its output says, how much of it is kept, and how the thread
//! that watches the process decides.

use vstd::prelude::*;
use vstd::string::*;
use vstd::utf8::*;

use crate::model::optional_text;
use crate::text::{chars_of, push_signed_decimal, signed_decimal, text_between, texts, trim, trimmed};

verus! {

/// How many bytes of a process's error output are kept.
pub const STDERR_LIMIT: usize = 16_384;

/// The text that bytes stand for, with replacement characters for what is not UTF-8: the result of
/// `String::from_utf8_lossy`.
pub uninterp spec fn utf8_lossy(bytes: Seq<u8>) -> Seq<char>;

/// `String::from_utf8_lossy`: the text of `bytes`, which is their decoding where they are UTF-8.
/// How it replaces what is not UTF-8 is left to the name.
#[verifier::external_body]
fn lossy_text(bytes: &[u8]) -> (text: String)
    ensures
        text@ == utf8_lossy(bytes@),
        valid_utf8(bytes@) ==> text@ == decode_utf8(bytes@),
{
    String::from_utf8_lossy(bytes).into_owned()
}

/// A line without the carriage return at its end.
pub open spec fn without_return(line: Seq<char>) -> Seq<char> {
    if line.len() > 0 && line.last() == '\r' {
        line.drop_last()
    } else {
        line
    }
}

/// The lines of `s` from `i` on, when the line that holds `i` begins at `start`. A line ends at a
/// line feed, or at a carriage return and a line feed; the end of the last one may be missing.
pub open spec fn lines_from(s: Seq<char>, start: int, i: int) -> Seq<Seq<char>>
    decreases s.len() - i,
{
    if i >= s.len() {
        if start < s.len() {
            seq![s.skip(start)]
        } else {
            Seq::empty()
        }
    } else if s[i] == '\n' {
        seq![without_return(s.subrange(start, i))] + lines_from(s, i + 1, i + 1)
    } else {
        lines_from(s, start, i + 1)
    }
}

/// The lines of `s`.
pub open spec fn lines(s: Seq<char>) -> Seq<Seq<char>> {
    lines_from(s, 0, 0)
}

/// The last two of a list of lines with a blank between them, or the only one.
pub open spec fn last_two(list: Seq<Seq<char>>) -> Seq<char> {
    if list.len() == 0 {
        Seq::empty()
    } else if list.len() == 1 {
        list[0]
    } else {
        list[list.len() - 2] + seq![' '] + list.last()
    }
}

/// The last two lines of an output, trimmed, if that leaves anything.
pub open spec fn output_summary(output: Seq<char>) -> Option<Seq<char>> {
    let summary = trim(last_two(lines(output)));
    if summary.len() == 0 {
        None
    } else {
        Some(summary)
    }
}

/// Why a process ended: what its output says, or else its status.
pub open spec fn exit_reason(summary: Option<Seq<char>>, status: Option<i32>) -> Seq<char> {
    match summary {
        Some(summary) => summary,
        None => match status {
            None => "SSH process terminated."@,
            Some(status) => if status == 0 {
                "SSH connection closed."@
            } else {
                "SSH exited with status "@ + signed_decimal(status as int) + "."@
            },
        },
    }
}

/// Why a process ended that left this output and this status.
pub open spec fn exit_message(output: Seq<char>, status: Option<i32>) -> Seq<char> {
    exit_reason(output_summary(output), status)
}

/// The lines of a text.
fn lines_of(text: &str) -> (list: Vec<String>)
    ensures
        texts(list@) == lines(text@),
{
    let chars = chars_of(text);
    let mut list: Vec<String> = Vec::new();
    let mut start: usize = 0;
    let mut i: usize = 0;
    assert(texts(list@) + lines(chars@) =~= lines(chars@));
    while i < chars.len()
        invariant
            start <= i <= chars@.len(),
            chars@ == text@,
            texts(list@) + lines_from(chars@, start as int, i as int) == lines(text@),
        decreases chars@.len() - i,
    {
        if chars[i] == '\n' {
            let ghost line = chars@.subrange(start as int, i as int);
            let end: usize = if i > start && chars[i - 1] == '\r' {
                i - 1
            } else {
                i
            };
            let ghost before = list@;
            list.push(text_between(&chars, start, end));
            assert(list@.last()@ =~= without_return(line));
            assert(texts(list@) =~= texts(before).push(without_return(line)));
            assert(texts(before).push(without_return(line)) + lines_from(
                chars@,
                i + 1,
                i + 1,
            ) =~= texts(before) + (seq![without_return(line)] + lines_from(chars@, i + 1, i + 1)));
            start = i + 1;
        }
        i += 1;
    }
    if start < chars.len() {
        let ghost before = list@;
        list.push(text_between(&chars, start, chars.len()));
        assert(list@.last()@ =~= chars@.skip(start as int));
        assert(texts(list@) =~= texts(before) + seq![chars@.skip(start as int)]);
    }
    assert(texts(list@) =~= lines(text@));
    list
}

/// The last two lines of an output, on one line, if they are not blank.
pub fn summarize_output(output: &str) -> (summary: Option<String>)
    ensures
        match summary {
            Some(summary) => output_summary(output@) == Some(summary@),
            None => output_summary(output@) is None,
        },
{
    let list = lines_of(output);
    let ghost all = lines(output@);
    assert forall|i: int| 0 <= i < list@.len() implies #[trigger] all[i] == list@[i]@ by {}
    let count = list.len();
    let joined = if count == 0 {
        String::new()
    } else if count == 1 {
        list[0].clone()
    } else {
        let mut joined = list[count - 2].clone();
        joined.push(' ');
        joined.append(list[count - 1].as_str());
        joined
    };
    assert(joined@ =~= last_two(all));
    let summary = trimmed(joined.as_str());
    if summary.as_str().is_empty() {
        None
    } else {
        Some(summary)
    }
}

/// The end of a process's error output, if there is any.
pub fn stderr_message(stderr: &[u8]) -> (message: Option<String>)
    ensures
        match message {
            Some(message) => output_summary(utf8_lossy(stderr@)) == Some(message@),
            None => output_summary(utf8_lossy(stderr@)) is None,
        },
        valid_utf8(stderr@) ==> match message {
            Some(message) => output_summary(decode_utf8(stderr@)) == Some(message@),
            None => output_summary(decode_utf8(stderr@)) is None,
        },
{
    summarize_output(lossy_text(stderr).as_str())
}

/// Why a process ended, from the end of its output, if there is any, and its status.
pub fn describe_exit(summary: Option<String>, status: Option<i32>) -> (reason: String)
    ensures
        reason@ == exit_reason(optional_text(summary), status),
{
    match summary {
        Some(summary) => summary,
        None => match status {
            None => "SSH process terminated.".to_owned(),
            Some(status) => {
                if status == 0 {
                    "SSH connection closed.".to_owned()
                } else {
                    let mut reason = "SSH exited with status ".to_owned();
                    push_signed_decimal(&mut reason, status);
                    reason.append(".");
                    reason
                }
            },
        },
    }
}

/// The part of an error output that is kept: its last bytes, as many as the limit allows.
pub open spec fn kept_stderr(stderr: Seq<u8>) -> Seq<u8> {
    if stderr.len() > STDERR_LIMIT {
        stderr.skip(stderr.len() - STDERR_LIMIT)
    } else {
        stderr
    }
}

/// Keeps the last bytes of an error output.
pub fn clip_stderr(stderr: Vec<u8>) -> (kept: Vec<u8>)
    ensures
        kept@ == kept_stderr(stderr@),
{
    if stderr.len() <= STDERR_LIMIT {
        return stderr;
    }
    let mut kept: Vec<u8> = Vec::new();
    let mut i: usize = stderr.len() - STDERR_LIMIT;
    while i < stderr.len()
        invariant
            stderr@.len() > STDERR_LIMIT,
            stderr@.len() - STDERR_LIMIT <= i <= stderr@.len(),
            kept@ == stderr@.subrange(stderr@.len() - STDERR_LIMIT, i as int),
        decreases stderr@.len() - i,
    {
        kept.push(stderr[i]);
        i += 1;
    }
    assert(kept@ =~= kept_stderr(stderr@));
    kept
}

/// What the channel that asks a process to stop holds.
#[derive(Clone, Copy, Debug, PartialEq, Eq)]
pub enum StopSignal {
    /// Nothing has been asked.
    Absent,
    /// The process is to stop.
    Requested,
    /// Nobody is left who could ask.
    Abandoned,
}

/// What a look at a process found.
#[derive(Clone, Copy, Debug, PartialEq, Eq)]
pub enum ChildState {
    Running,
    Exited,
    /// The look itself failed.
    Unknown,
}

/// What the thread that watches a process does next.
#[derive(Clone, Copy, Debug, PartialEq, Eq)]
pub enum WatchStep {
    /// Kill the process and collect its end.
    Kill,
    /// Look whether the process still runs.
    Poll,
    /// Wait a moment and begin again.
    Sleep,
    /// Collect the end of the process.
    Collect,
}

/// What follows a look at the stop channel: a process is killed when it is to stop or when nobody
/// is left to ask.
pub fn after_signal(signal: StopSignal) -> (step: WatchStep)
    ensures
        step == (if signal is Absent {
            WatchStep::Poll
        } else {
            WatchStep::Kill
        }),
{
    match signal {
        StopSignal::Absent => WatchStep::Poll,
        StopSignal::Requested => WatchStep::Kill,
        StopSignal::Abandoned => WatchStep::Kill,
    }
}

/// What follows a look at the process: it is watched on only while it is known to run.
pub fn after_poll(child: ChildState) -> (step: WatchStep)
    ensures
        step == (if child is Running {
            WatchStep::Sleep
        } else {
            WatchStep::Collect
        }),
{
    match child {
        ChildState::Running => WatchStep::Sleep,
        ChildState::Exited => WatchStep::Collect,
        ChildState::Unknown => WatchStep::Collect,
    }
}

} // verus!
