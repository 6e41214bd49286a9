//! What holds of the end of every process: which lines of its output are told, what its status
//! says, and how much of the output is kept.

use vstd::prelude::*;

use crate::model_laws::{begins_with, ends_in};
use crate::process::{
    exit_message, exit_reason, kept_stderr, last_two, lines, lines_from, output_summary, without_return,
};
use crate::store::exhausted_message;
use crate::text::{decimal, signed_decimal, trim};
use crate::text_laws::law_signed_decimal;

verus! {

/// Whether a text is on one line.
pub open spec fn is_one_line(s: Seq<char>) -> bool {
    !s.contains('\n')
}

/// Whether a text holds whole lines only.
pub open spec fn holds_whole_lines(s: Seq<char>) -> bool {
    s.len() == 0 || s.last() == '\n'
}

/// Lines behind whole lines are read on their own.
proof fn lemma_lines_behind(front: Seq<char>, rest: Seq<char>, start: int, i: int)
    requires
        holds_whole_lines(front),
        0 <= start <= i <= front.len(),
        forall|j: int| start <= j < i ==> #[trigger] front[j] != '\n',
    ensures
        lines_from(front + rest, start, i) == lines_from(front, start, i) + lines(rest),
    decreases front.len() - i,
{
    let s = front + rest;
    if i == front.len() {
        if start < i {
            assert(front[i - 1] == '\n');
        }
        lemma_lines_shift(s, i, i, i);
        assert(s.skip(i) =~= rest);
        assert(lines_from(front, start, i) == Seq::<Seq<char>>::empty());
        assert(Seq::<Seq<char>>::empty() + lines(rest) =~= lines(rest));
    } else {
        assert(s[i] == front[i]);
        if front[i] == '\n' {
            lemma_lines_behind(front, rest, i + 1, i + 1);
            assert(s.subrange(start, i) =~= front.subrange(start, i));
            let line = seq![without_return(front.subrange(start, i))];
            assert(line + (lines_from(front, i + 1, i + 1) + lines(rest)) =~= (line + lines_from(
                front,
                i + 1,
                i + 1,
            )) + lines(rest));
        } else {
            lemma_lines_behind(front, rest, start, i + 1);
        }
    }
}

/// Lines from a place on are the lines of the text from there.
proof fn lemma_lines_shift(s: Seq<char>, k: int, start: int, i: int)
    requires
        0 <= k <= start <= i <= s.len(),
    ensures
        lines_from(s, start, i) == lines_from(s.skip(k), start - k, i - k),
    decreases s.len() - i,
{
    let t = s.skip(k);
    if i < s.len() {
        assert(t[i - k] == s[i]);
        if s[i] == '\n' {
            lemma_lines_shift(s, k, i + 1, i + 1);
            assert(t.subrange(start - k, i - k) =~= s.subrange(start, i));
        } else {
            lemma_lines_shift(s, k, start, i + 1);
        }
    } else {
        assert(t.skip(start - k) =~= s.skip(start));
    }
}

/// The first line of a text ends at its first line feed.
proof fn lemma_first_line(line: Seq<char>, rest: Seq<char>, i: int)
    requires
        is_one_line(line),
        0 <= i <= line.len(),
    ensures
        lines_from(line + seq!['\n'] + rest, 0, i) == seq![without_return(line)] + lines(rest),
        lines_from(line, 0, i) == (if line.len() > 0 {
            seq![line]
        } else {
            Seq::empty()
        }),
    decreases line.len() - i,
{
    let s = line + seq!['\n'] + rest;
    if i < line.len() {
        assert(line.contains(line[i]));
        assert(s[i] == line[i]);
        lemma_first_line(line, rest, i + 1);
    } else {
        assert(s[i] == '\n');
        assert(s.subrange(0, i) =~= line);
        lemma_lines_shift(s, i + 1, i + 1, i + 1);
        assert(s.skip(i + 1) =~= rest);
        assert(line.skip(0) =~= line);
    }
}

/// How a text is split into lines: one that ends in a line feed, or in a carriage return and a line
/// feed, comes in front of the lines of the rest; at the end the line feed may be missing; and an
/// empty text has no lines.
pub proof fn law_lines(line: Seq<char>, rest: Seq<char>)
    requires
        is_one_line(line),
    ensures
        lines(Seq::empty()) == Seq::<Seq<char>>::empty(),
        line.len() > 0 ==> lines(line) == seq![line],
        line.len() == 0 || line.last() != '\r' ==> lines(line + seq!['\n'] + rest) == seq![line]
            + lines(rest),
        lines(line + seq!['\r', '\n'] + rest) == seq![line] + lines(rest),
{
    lemma_first_line(line, rest, 0);
    let returned = line.push('\r');
    assert(!returned.contains('\n')) by {
        if returned.contains('\n') {
            let k = choose|k: int| 0 <= k < returned.len() && returned[k] == '\n';
            assert(line.contains(line[k]));
        }
    }
    lemma_first_line(returned, rest, 0);
    assert(returned + seq!['\n'] + rest =~= line + seq!['\r', '\n'] + rest);
    assert(returned.drop_last() =~= line);
}

/// What is told of an output are its last two lines on one line, without the white space around
/// them, whatever stands in front; a line feed at the end does not matter. Where the two are blank
/// nothing is told, and a single line is told alone.
pub proof fn law_summary(front: Seq<char>, a: Seq<char>, b: Seq<char>)
    requires
        holds_whole_lines(front),
        is_one_line(a),
        is_one_line(b),
        b.len() > 0,
        a.len() > 0 ==> a.last() != '\r',
        b.last() != '\r',
    ensures
        ({
            let told = trim(a + seq![' '] + b);
            let summary = if told.len() > 0 {
                Some(told)
            } else {
                None
            };
            &&& output_summary(front + (a + seq!['\n'] + b)) == summary
            &&& output_summary(front + (a + seq!['\n'] + (b + seq!['\n']))) == summary
        }),
        output_summary(b) == (if trim(b).len() > 0 {
            Some(trim(b))
        } else {
            None
        }),
        output_summary(Seq::empty()) is None,
{
    let end = b + seq!['\n'];
    let empty = Seq::<char>::empty();
    law_lines(a, b);
    law_lines(a, end);
    law_lines(b, empty);
    assert(b + seq!['\n'] + empty =~= end);
    assert(seq![b] + lines(empty) =~= seq![b]);
    lemma_lines_behind(front, a + seq!['\n'] + b, 0, 0);
    lemma_lines_behind(front, a + seq!['\n'] + end, 0, 0);
    let all = lines(front) + (seq![a] + seq![b]);
    assert(last_two(all) == a + seq![' '] + b);
    assert(last_two(seq![b]) == b);
    assert(trim(Seq::<char>::empty()) == Seq::<char>::empty());
}

/// What the output tells goes before the status. Without it, a status other than zero is named, so
/// no two are told alike, and neither a clean end nor the end by a signal is told like another.
pub proof fn law_exit_reason(
    summary: Seq<char>,
    status: Option<i32>,
    other: Option<i32>,
)
    ensures
        exit_reason(Some(summary), status) == summary,
        exit_reason(None, status) == exit_reason(None, other) ==> status == other,
        status matches Some(code) ==> code != 0 ==> ends_in(
            exit_reason(None, status),
            seq![' '] + signed_decimal(code as int) + seq!['.'],
        ),
{
    lemma_reason(status);
    lemma_reason(other);
    if let (Some(a), Some(b)) = (status, other) {
        if a != 0 && b != 0 && exit_reason(None, status) == exit_reason(None, other) {
            let x = exit_reason(None, status);
            let y = exit_reason(None, other);
            assert(x.subrange(23, x.len() - 1) =~= signed_decimal(a as int));
            assert(y.subrange(23, y.len() - 1) =~= signed_decimal(b as int));
            law_signed_decimal(a as int, b as int);
        }
    }
}

/// Why a process ended is told by the last lines of its output wherever they tell anything,
/// whatever the status, and else by the status alone, whatever the output.
pub proof fn law_exit_message(
    output: Seq<char>,
    other: Seq<char>,
    status: Option<i32>,
    code: Option<i32>,
)
    ensures
        output_summary(output) matches Some(summary) ==> exit_message(output, status) == summary,
        output_summary(output) is Some ==> exit_message(output, status) == exit_message(
            output,
            code,
        ),
        output_summary(output) is None && output_summary(other) is None ==> exit_message(
            output,
            status,
        ) == exit_message(other, status),
        output_summary(output) is None && exit_message(output, status) == exit_message(
            output,
            code,
        ) ==> status == code,
{
    law_exit_reason(Seq::empty(), status, code);
}

proof fn lemma_reason(status: Option<i32>)
    ensures
        ({
            let reason = exit_reason(None, status);
            match status {
                None => reason.len() == 23 && reason[4] == 'p',
                Some(code) => if code == 0 {
                    reason.len() == 22 && reason[4] == 'c'
                } else {
                    &&& reason.len() == 24 + signed_decimal(code as int).len()
                    &&& reason[4] == 'e'
                    &&& reason.subrange(23, reason.len() - 1) == signed_decimal(code as int)
                    &&& ends_in(reason, seq![' '] + signed_decimal(code as int) + seq!['.'])
                },
            }
        }),
{
    reveal_strlit("SSH process terminated.");
    reveal_strlit("SSH connection closed.");
    reveal_strlit("SSH exited with status ");
    reveal_strlit(".");
    let reason = exit_reason(None, status);
    if let Some(code) = status {
        if code != 0 {
            let number = signed_decimal(code as int);
            assert(reason.subrange(23, reason.len() - 1) =~= number);
            let end = seq![' '] + number + seq!['.'];
            assert(reason.skip(reason.len() - end.len()) =~= end);
        }
    }
}

/// What is kept of an error output is its end, all of it up to 16384 bytes and never more.
pub proof fn law_kept_output(stderr: Seq<u8>)
    ensures
        kept_stderr(stderr).len() <= 16384,
        kept_stderr(stderr).len() == stderr.len() || kept_stderr(stderr).len() == 16384,
        kept_stderr(stderr).len() <= stderr.len(),
        stderr.skip(stderr.len() - kept_stderr(stderr).len()) == kept_stderr(stderr),
{
    assert(stderr.skip(0) =~= stderr);
}

/// What is told of a tunnel that is given up begins with its last failure, and says of every
/// failure that ten attempts were made.
pub proof fn law_given_up_message(message: Seq<char>)
    ensures
        exhausted_message(message) == message + " Automatic retry stopped after 10 attempts."@,
        begins_with(exhausted_message(message), message),
{
    reveal_strlit(" Automatic retry stopped after ");
    reveal_strlit(" attempts.");
    reveal_strlit(" Automatic retry stopped after 10 attempts.");
    assert(decimal(10) =~= seq!['1', '0']) by {
        reveal_with_fuel(decimal, 3);
    }
    assert(exhausted_message(message) =~= message
        + " Automatic retry stopped after 10 attempts."@);
    assert(exhausted_message(message).take(message.len() as int) =~= message);
}

} // verus!
