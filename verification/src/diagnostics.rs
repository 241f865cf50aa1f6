//! Locating an error in its source: the line and column of a byte offset,
//! and the one-line report that names them.
use vstd::prelude::*;
use crate::numbers::{decimal_text, push_decimal};
use crate::text::{
    byte_offset, char_width, chars_of, lemma_byte_offset_monotonic, on_boundary, push_str, string_from,
};
use crate::{reported_on_boundary, Error};

verus! {

/// The number of line breaks in `s`.
pub open spec fn newline_count(s: Seq<char>) -> nat
    decreases s.len(),
{
    if s.len() == 0 {
        0
    } else {
        newline_count(s.drop_last()) + if s.last() == '\n' {
            1nat
        } else {
            0nat
        }
    }
}

/// The 1-based column of the character that follows `s`: one more than the
/// characters after the last line break of `s`.
pub open spec fn column_after(s: Seq<char>) -> nat
    decreases s.len(),
{
    if s.len() == 0 {
        1
    } else if s.last() == '\n' {
        1
    } else {
        column_after(s.drop_last()) + 1
    }
}

/// The 1-based line and column of the text before its first `k` characters.
pub open spec fn position_after(cs: Seq<char>, k: int) -> (nat, nat) {
    (newline_count(cs.take(k)) + 1, column_after(cs.take(k)))
}

/// Positions are counted from line 1, column 1 at the start of the text;
/// each character moves one column to the right, and a line break moves to
/// column 1 of the next line.
pub proof fn lemma_position_steps(cs: Seq<char>, k: int)
    requires
        0 <= k < cs.len(),
    ensures
        position_after(cs, 0) == (1nat, 1nat),
        cs[k] == '\n' ==> position_after(cs, k + 1) == (position_after(cs, k).0 + 1, 1nat),
        cs[k] != '\n' ==> position_after(cs, k + 1) == (
            position_after(cs, k).0,
            position_after(cs, k).1 + 1,
        ),
{
    assert(cs.take(0).len() == 0);
    assert(cs.take(k + 1).drop_last() =~= cs.take(k));
    assert(cs.take(k + 1).last() == cs[k]);
}

/// The line and column of byte `offset` of `source`, counted on the text
/// before it; an offset past the end stands for the end.
pub fn line_column(source: &str, offset: usize) -> (r: (usize, usize))
    requires
        on_boundary(source@, offset as nat),
        source@.len() < usize::MAX,
    ensures
        located(source@, offset as nat, r.0 as nat, r.1 as nat),
{
    let cs = chars_of(source);
    let _total = source.as_bytes().len();
    proof {
        crate::lexer::lemma_encoded_len(cs@);
        lemma_byte_offset_monotonic(cs@, 0, cs@.len() as int);
    }
    let ghost end = byte_offset(cs@, cs@.len() as int);
    let mut i: usize = 0;
    let mut b: usize = 0;
    let mut line: usize = 1;
    let mut column: usize = 1;
    while i < cs.len() && char_width(cs[i]) <= offset - b
        invariant
            i <= cs@.len(),
            cs@ == source@,
            end == byte_offset(cs@, cs@.len() as int),
            end <= usize::MAX,
            b == byte_offset(cs@, i as int),
            b <= offset,
            line as nat == newline_count(cs@.take(i as int)) + 1,
            column as nat == column_after(cs@.take(i as int)),
            line <= i + 1,
            column <= i + 1,
            cs@.len() < usize::MAX,
        decreases cs.len() - i,
    {
        proof {
            lemma_byte_offset_monotonic(cs@, i as int + 1, cs@.len() as int);
            assert(cs@.take(i as int + 1).drop_last() =~= cs@.take(i as int));
        }
        if cs[i] == '\n' {
            line = line + 1;
            column = 1;
        } else {
            column = column + 1;
        }
        b = b + char_width(cs[i]);
        i = i + 1;
    }
    proof {
        if i < cs.len() {
            lemma_byte_offset_monotonic(cs@, i as int + 1, cs@.len() as int);
            if offset as nat >= end {
                lemma_byte_offset_monotonic(cs@, i as int, cs@.len() as int);
            } else {
                let k = choose|k: int| 0 <= k <= cs@.len() && byte_offset(cs@, k) == offset as nat;
                if k < i {
                    lemma_byte_offset_monotonic(cs@, k, i as int);
                } else if k > i {
                    lemma_byte_offset_monotonic(cs@, i as int + 1, k);
                }
                assert(k == i);
            }
        }
        assert(byte_offset(cs@, i as int) == if offset as nat >= end {
            end
        } else {
            offset as nat
        });
        assert((line as nat, column as nat) == position_after(cs@, i as int));
    }
    (line, column)
}

/// The one-line report of `error` in the file `path` whose text is `source`:
/// `path:line:column: message`, or, for a runtime error,
/// `path: compile/runtime error: message`.
pub fn render_error(path: &str, source: &str, error: &Error) -> (r: String)
    requires
        reported_on_boundary(source@, *error),
        source@.len() < usize::MAX,
    ensures
        match error {
            Error::Runtime(e) => r@ == path@ + ": compile/runtime error: "@ + e.message@,
            Error::Artifact(e) => exists|line: nat, column: nat|
                #![auto]
                located(source@, e.offset as nat, line, column) && r@ == path@ + ":"@
                    + decimal_text(line) + ":"@ + decimal_text(column) + ": "@ + e.message@,
            Error::Lex(e) => exists|line: nat, column: nat|
                #![auto]
                located(source@, e.span.start as nat, line, column) && r@ == path@ + ":"@
                    + decimal_text(line) + ":"@ + decimal_text(column) + ": "@ + e.message@,
            Error::Parse(e) => exists|line: nat, column: nat|
                #![auto]
                located(source@, e.offset as nat, line, column) && r@ == path@ + ":"@
                    + decimal_text(line) + ":"@ + decimal_text(column) + ": "@ + e.message@,
        },
{
    let (message, offset) = match error {
        Error::Artifact(e) => (e.message.as_str(), e.offset),
        Error::Lex(e) => (e.message.as_str(), e.span.start),
        Error::Parse(e) => (e.message.as_str(), e.offset),
        Error::Runtime(e) => {
            let mut out = chars_of(path);
            push_str(&mut out, ": compile/runtime error: ");
            push_str(&mut out, e.message.as_str());
            return string_from(&out);
        },
    };
    let (line, column) = line_column(source, offset);
    let mut out = chars_of(path);
    push_str(&mut out, ":");
    push_decimal(&mut out, line as u64);
    push_str(&mut out, ":");
    push_decimal(&mut out, column as u64);
    push_str(&mut out, ": ");
    push_str(&mut out, message);
    let r = string_from(&out);
    proof {
        assert(located(source@, offset as nat, line as nat, column as nat));
    }
    r
}

/// Whether `line` and `column` are where byte `offset` of `cs` lies, as
/// `line_column` counts them.
pub open spec fn located(cs: Seq<char>, offset: nat, line: nat, column: nat) -> bool {
    exists|k: int|
        #![auto]
        0 <= k <= cs.len() && byte_offset(cs, k) == if offset >= byte_offset(cs, cs.len() as int) {
            byte_offset(cs, cs.len() as int)
        } else {
            offset
        } && (line, column) == position_after(cs, k)
}

} // verus!
