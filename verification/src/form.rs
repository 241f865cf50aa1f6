//! The S-expression layer of the `VELRA-AST-1` artifact format: forms, their
//! printed text, and a reader for that text.
use vstd::prelude::*;
use crate::lexer::scan_while;
use crate::text::{
    ascii_whitespace, byte_offset, char_width, chars_range, is_whitespace, lemma_byte_offset_monotonic,
    push_all, push_str, unicode_whitespace,
};

verus! {

/// An artifact form: a bare atom, a quoted string, or a parenthesized list.
pub enum FormV {
    Atom(Seq<char>),
    Str(Seq<char>),
    List(Seq<FormV>),
}

#[derive(Debug)]
pub enum Form {
    Atom(Vec<char>),
    Str(Vec<char>),
    List(Vec<Form>),
}

pub open spec fn view_form(f: Form) -> FormV
    decreases f, 0nat,
{
    match f {
        Form::Atom(a) => FormV::Atom(a@),
        Form::Str(s) => FormV::Str(s@),
        Form::List(fs) => FormV::List(view_forms(fs@)),
    }
}

pub open spec fn view_forms(fs: Seq<Form>) -> Seq<FormV>
    decreases fs, 1nat,
{
    if fs.len() == 0 {
        Seq::empty()
    } else {
        seq![view_form(fs[0])] + view_forms(fs.subrange(1, fs.len() as int))
    }
}

pub proof fn lemma_view_forms(fs: Seq<Form>)
    ensures
        view_forms(fs).len() == fs.len(),
        forall|i: int| 0 <= i < fs.len() ==> #[trigger] view_forms(fs)[i] == view_form(fs[i]),
    decreases fs.len(),
{
    if fs.len() > 0 {
        lemma_view_forms(fs.subrange(1, fs.len() as int));
        assert forall|i: int| 0 <= i < fs.len() implies #[trigger] view_forms(fs)[i] == view_form(
            fs[i],
        ) by {
            if i > 0 {
                assert(fs.subrange(1, fs.len() as int)[i - 1] == fs[i]);
            }
        }
    }
}

pub proof fn lemma_view_forms_push(fs: Seq<Form>, f: Form)
    ensures
        view_forms(fs.push(f)) == view_forms(fs).push(view_form(f)),
{
    lemma_view_forms(fs.push(f));
    lemma_view_forms(fs);
    assert(view_forms(fs.push(f)) =~= view_forms(fs).push(view_form(f)));
}

// ---------------------------------------------------------------------------
// Printing.
// ---------------------------------------------------------------------------
/// How a character is written inside a quoted artifact string.
pub open spec fn escape_char(c: char) -> Seq<char> {
    if c == '\n' {
        seq!['\\', 'n']
    } else if c == '\r' {
        seq!['\\', 'r']
    } else if c == '\t' {
        seq!['\\', 't']
    } else if c == '\0' {
        seq!['\\', '0']
    } else if c == '"' {
        seq!['\\', '"']
    } else if c == '\\' {
        seq!['\\', '\\']
    } else {
        seq![c]
    }
}

pub open spec fn escape_text(s: Seq<char>) -> Seq<char>
    decreases s.len(),
{
    if s.len() == 0 {
        Seq::empty()
    } else {
        escape_char(s[0]) + escape_text(s.drop_first())
    }
}

/// The text of a form.
pub open spec fn print_form(f: FormV) -> Seq<char>
    decreases f, 0nat,
{
    match f {
        FormV::Atom(a) => a,
        FormV::Str(s) => seq!['"'] + escape_text(s) + seq!['"'],
        FormV::List(fs) => if fs.len() == 0 {
            seq!['(', ')']
        } else {
            seq!['('] + print_form(fs[0]) + spaced(fs.drop_first()) + seq![')']
        },
    }
}

/// A string form is written between double quotes, a line break, carriage
/// return, tab, null character, quote or backslash in it as a backslash and
/// `n`, `r`, `t`, `0`, `"` or `\`, and every other character as itself.
pub proof fn lemma_printed_strings(c: char)
    ensures
        print_form(FormV::Str(Seq::empty())) == seq!['"', '"'],
        c == '\n' ==> print_form(FormV::Str(seq![c])) == seq!['"', '\\', 'n', '"'],
        c == '\r' ==> print_form(FormV::Str(seq![c])) == seq!['"', '\\', 'r', '"'],
        c == '\t' ==> print_form(FormV::Str(seq![c])) == seq!['"', '\\', 't', '"'],
        c == '\0' ==> print_form(FormV::Str(seq![c])) == seq!['"', '\\', '0', '"'],
        c == '"' ==> print_form(FormV::Str(seq![c])) == seq!['"', '\\', '"', '"'],
        c == '\\' ==> print_form(FormV::Str(seq![c])) == seq!['"', '\\', '\\', '"'],
        !(c == '\n' || c == '\r' || c == '\t' || c == '\0' || c == '"' || c == '\\')
            ==> print_form(FormV::Str(seq![c])) == seq!['"', c, '"'],
{
    assert(escape_text(Seq::<char>::empty()) =~= Seq::<char>::empty());
    assert(seq![c].drop_first() =~= Seq::<char>::empty());
    assert(escape_text(seq![c]) =~= escape_char(c));
}

/// Each form preceded by one space.
pub open spec fn spaced(fs: Seq<FormV>) -> Seq<char>
    decreases fs, 1nat,
{
    if fs.len() == 0 {
        Seq::empty()
    } else {
        seq![' '] + print_form(fs[0]) + spaced(fs.drop_first())
    }
}

pub proof fn lemma_spaced_push(fs: Seq<FormV>, f: FormV)
    ensures
        spaced(fs.push(f)) == spaced(fs) + seq![' '] + print_form(f),
    decreases fs.len(),
{
    if fs.len() == 0 {
        assert(fs.push(f).drop_first() =~= Seq::<FormV>::empty());
        assert(fs.push(f)[0] == f);
        assert(spaced(Seq::<FormV>::empty()) == Seq::<char>::empty());
        assert(spaced(fs.push(f)) =~= seq![' '] + print_form(f) + Seq::<char>::empty());
        assert(spaced(fs) == Seq::<char>::empty());
    } else {
        lemma_spaced_push(fs.drop_first(), f);
        assert(fs.push(f).drop_first() =~= fs.drop_first().push(f));
        assert(fs.push(f)[0] == fs[0]);
    }
}

/// The whitespace of the artifact reader: std's `char::is_whitespace`, which
/// on ASCII is exactly the six ASCII whitespace characters.
pub open spec fn form_ws(c: char) -> bool {
    if (c as u32) < 128 {
        ascii_whitespace(c)
    } else {
        unicode_whitespace(c)
    }
}

pub open spec fn atom_char(c: char) -> bool {
    !form_ws(c) && c != '(' && c != ')'
}

/// A text that reads back as one atom.
pub open spec fn atom_safe(a: Seq<char>) -> bool {
    &&& a.len() > 0
    &&& a[0] != '"'
    &&& forall|i: int| 0 <= i < a.len() ==> #[trigger] atom_char(a[i])
}

/// A form whose printed text reads back as itself: every atom is safe.
pub open spec fn wf_form(f: FormV) -> bool
    decreases f, 0nat,
{
    match f {
        FormV::Atom(a) => atom_safe(a),
        FormV::Str(_) => true,
        FormV::List(fs) => wf_forms(fs),
    }
}

pub open spec fn wf_forms(fs: Seq<FormV>) -> bool
    decreases fs, 1nat,
{
    fs.len() == 0 || (wf_form(fs[0]) && wf_forms(fs.drop_first()))
}

// ---------------------------------------------------------------------------
// Reading.
// ---------------------------------------------------------------------------
/// A reader error: its message and the character position it refers to.
pub struct ReadErr {
    pub message: Seq<char>,
    pub pos: int,
}

pub open spec fn ws_pred() -> spec_fn(char) -> bool {
    |c: char| form_ws(c)
}

pub open spec fn atom_pred() -> spec_fn(char) -> bool {
    |c: char| atom_char(c)
}

pub open spec fn skip_ws(cs: Seq<char>, i: int) -> int {
    scan_while(cs, i, ws_pred())
}

/// The character an artifact string escape `\c` stands for, if any.
pub open spec fn artifact_unescape(c: char) -> Option<char> {
    if c == 'n' {
        Some('\n')
    } else if c == 'r' {
        Some('\r')
    } else if c == 't' {
        Some('\t')
    } else if c == '0' {
        Some('\0')
    } else if c == '"' {
        Some('"')
    } else if c == '\\' {
        Some('\\')
    } else {
        None
    }
}

/// Reads the rest of a quoted string from position `i`, `acc` decoded so far.
pub open spec fn read_string(cs: Seq<char>, i: int, acc: Seq<char>) -> Result<(FormV, int), ReadErr>
    decreases cs.len() - i,
{
    if i < 0 || i >= cs.len() {
        Err(ReadErr { message: "unterminated artifact string"@, pos: i })
    } else if cs[i] == '"' {
        Ok((FormV::Str(acc), i + 1))
    } else if cs[i] == '\\' {
        if i + 1 >= cs.len() {
            Err(ReadErr { message: "unterminated artifact string escape"@, pos: i + 1 })
        } else {
            match artifact_unescape(cs[i + 1]) {
                Some(d) => read_string(cs, i + 2, acc.push(d)),
                None => Err(
                    ReadErr {
                        message: "unsupported artifact string escape '\\"@ + seq![cs[i + 1]]
                            + "'"@,
                        pos: i + 1,
                    },
                ),
            }
        }
    } else {
        read_string(cs, i + 1, acc.push(cs[i]))
    }
}

/// Reads an atom at position `i`.
pub open spec fn read_atom(cs: Seq<char>, i: int) -> Result<(FormV, int), ReadErr> {
    let end = scan_while(cs, i, atom_pred());
    if end == i {
        Err(ReadErr { message: "expected artifact atom"@, pos: i })
    } else {
        Ok((FormV::Atom(cs.subrange(i, end)), end))
    }
}

/// Reads one form at or after position `i` (after whitespace).
pub open spec fn read_form(cs: Seq<char>, i: int) -> Result<(FormV, int), ReadErr>
    decreases cs.len() - i, 1nat,
{
    if i < 0 {
        Err(ReadErr { message: Seq::empty(), pos: i })
    } else {
        let j = skip_ws(cs, i);
        proof {
            lemma_skip_ws(cs, i);
        }
        if j >= cs.len() {
            Err(ReadErr { message: "expected artifact form"@, pos: j })
        } else if cs[j] == '(' {
            read_list(cs, j + 1, Seq::empty())
        } else if cs[j] == '"' {
            read_string(cs, j + 1, Seq::empty())
        } else {
            read_atom(cs, j)
        }
    }
}

/// Reads the rest of a list from position `i`, `acc` read so far.
pub open spec fn read_list(cs: Seq<char>, i: int, acc: Seq<FormV>) -> Result<(FormV, int), ReadErr>
    decreases cs.len() - i, 2nat,
{
    if i < 0 {
        Err(ReadErr { message: Seq::empty(), pos: i })
    } else {
        let j = skip_ws(cs, i);
        proof {
            lemma_skip_ws(cs, i);
        }
        if j >= cs.len() {
            Err(ReadErr { message: "unterminated artifact list"@, pos: j })
        } else if cs[j] == ')' {
            Ok((FormV::List(acc), j + 1))
        } else {
            match read_form(cs, j) {
                Ok((f, k)) => if j < k <= cs.len() {
                    read_list(cs, k, acc.push(f))
                } else {
                    Err(ReadErr { message: Seq::empty(), pos: k })
                },
                Err(e) => Err(e),
            }
        }
    }
}

pub proof fn lemma_skip_ws(cs: Seq<char>, i: int)
    requires
        0 <= i,
    ensures
        i <= skip_ws(cs, i),
        i <= cs.len() ==> skip_ws(cs, i) <= cs.len(),
        skip_ws(cs, i) < cs.len() ==> !form_ws(cs[skip_ws(cs, i)]),
        forall|k: int| i <= k < skip_ws(cs, i) ==> form_ws(#[trigger] cs[k]),
    decreases cs.len() - i,
{
    if 0 <= i < cs.len() && form_ws(cs[i]) {
        lemma_skip_ws(cs, i + 1);
    }
}

pub proof fn lemma_read_string_end(cs: Seq<char>, i: int, acc: Seq<char>)
    requires
        0 <= i,
    ensures
        read_string(cs, i, acc) matches Ok((_, e)) ==> i < e <= cs.len(),
    decreases cs.len() - i,
{
    if 0 <= i < cs.len() && cs[i] != '"' {
        if cs[i] == '\\' {
            if i + 1 < cs.len() {
                if let Some(d) = artifact_unescape(cs[i + 1]) {
                    lemma_read_string_end(cs, i + 2, acc.push(d));
                }
            }
        } else {
            lemma_read_string_end(cs, i + 1, acc.push(cs[i]));
        }
    }
}

pub proof fn lemma_read_form_end(cs: Seq<char>, i: int)
    requires
        0 <= i <= cs.len(),
    ensures
        read_form(cs, i) matches Ok((_, e)) ==> i < e <= cs.len(),
        read_form(cs, i) matches Err(x) ==> i <= x.pos <= cs.len(),
    decreases cs.len() - i, 1nat,
{
    lemma_skip_ws(cs, i);
    let j = skip_ws(cs, i);
    if j < cs.len() {
        if cs[j] == '(' {
            lemma_read_list_end(cs, j + 1, Seq::empty());
        } else if cs[j] == '"' {
            lemma_read_string_end(cs, j + 1, Seq::empty());
            lemma_read_string_err(cs, j + 1, Seq::empty());
        } else {
            lemma_scan_atom(cs, j);
        }
    }
}

pub proof fn lemma_read_list_end(cs: Seq<char>, i: int, acc: Seq<FormV>)
    requires
        0 <= i <= cs.len(),
    ensures
        read_list(cs, i, acc) matches Ok((_, e)) ==> i < e <= cs.len(),
        read_list(cs, i, acc) matches Err(x) ==> i <= x.pos <= cs.len(),
    decreases cs.len() - i, 2nat,
{
    lemma_skip_ws(cs, i);
    let j = skip_ws(cs, i);
    if j < cs.len() && cs[j] != ')' {
        lemma_read_form_end(cs, j);
        if let Ok((f, k)) = read_form(cs, j) {
            if j < k <= cs.len() {
                lemma_read_list_end(cs, k, acc.push(f));
            }
        }
    }
}

pub proof fn lemma_read_string_err(cs: Seq<char>, i: int, acc: Seq<char>)
    requires
        0 <= i <= cs.len(),
    ensures
        read_string(cs, i, acc) matches Err(x) ==> i <= x.pos <= cs.len(),
    decreases cs.len() - i,
{
    if 0 <= i < cs.len() && cs[i] != '"' {
        if cs[i] == '\\' {
            if i + 1 < cs.len() {
                if let Some(d) = artifact_unescape(cs[i + 1]) {
                    if i + 2 <= cs.len() {
                        lemma_read_string_err(cs, i + 2, acc.push(d));
                    }
                }
            }
        } else {
            lemma_read_string_err(cs, i + 1, acc.push(cs[i]));
        }
    }
}

proof fn lemma_scan_atom(cs: Seq<char>, i: int)
    requires
        0 <= i <= cs.len(),
    ensures
        i <= scan_while(cs, i, atom_pred()) <= cs.len(),
{
    crate::lexer::lemma_scan_while(cs, i, atom_pred());
}


// ---------------------------------------------------------------------------
// Reading printed forms gives them back.
// ---------------------------------------------------------------------------
/// Position `k` ends an atom: the end of the text or a non-atom character.
pub open spec fn delim_at(cs: Seq<char>, k: int) -> bool {
    k == cs.len() || (0 <= k < cs.len() && !atom_char(cs[k]))
}

/// `cs` holds `t` at position `i`.
pub open spec fn holds_at(cs: Seq<char>, i: int, t: Seq<char>) -> bool {
    0 <= i && i + t.len() <= cs.len() && cs.subrange(i, i + t.len()) == t
}

pub proof fn lemma_holds_split(cs: Seq<char>, i: int, a: Seq<char>, b: Seq<char>)
    requires
        holds_at(cs, i, a + b),
    ensures
        holds_at(cs, i, a),
        holds_at(cs, i + a.len(), b),
{
    let whole = cs.subrange(i, i + (a + b).len());
    assert(whole == a + b);
    assert(cs.subrange(i, i + a.len()) =~= whole.subrange(0, a.len() as int));
    assert((a + b).subrange(0, a.len() as int) =~= a);
    assert(cs.subrange(i + a.len(), i + a.len() + b.len()) =~= whole.subrange(
        a.len() as int,
        (a.len() + b.len()) as int,
    ));
    assert((a + b).subrange(a.len() as int, (a.len() + b.len()) as int) =~= b);
}

pub proof fn lemma_holds_char(cs: Seq<char>, i: int, t: Seq<char>, k: int)
    requires
        holds_at(cs, i, t),
        0 <= k < t.len(),
    ensures
        cs[i + k] == t[k],
{
    assert(cs.subrange(i, i + t.len())[k] == cs[i + k]);
}

pub proof fn lemma_escape_text_len(s: Seq<char>)
    ensures
        escape_text(s).len() >= s.len(),
    decreases s.len(),
{
    if s.len() > 0 {
        lemma_escape_text_len(s.drop_first());
    }
}

pub proof fn lemma_read_printed_string(cs: Seq<char>, i: int, s: Seq<char>, acc: Seq<char>)
    requires
        holds_at(cs, i, escape_text(s) + seq!['"']),
    ensures
        read_string(cs, i, acc) == Ok::<(FormV, int), ReadErr>(
            (FormV::Str(acc + s), i + escape_text(s).len() + 1),
        ),
    decreases s.len(),
{
    if s.len() == 0 {
        assert(acc + s =~= acc);
        lemma_holds_char(cs, i, escape_text(s) + seq!['"'], 0);
    } else {
        let c = s[0];
        let e = escape_char(c);
        assert(escape_text(s) + seq!['"'] =~= e + (escape_text(s.drop_first()) + seq!['"']));
        lemma_holds_split(cs, i, e, escape_text(s.drop_first()) + seq!['"']);
        lemma_holds_char(cs, i, e, 0);
        assert(acc.push(c) + s.drop_first() =~= acc + s);
        if e.len() == 2 {
            lemma_holds_char(cs, i, e, 1);
            lemma_read_printed_string(cs, i + 2, s.drop_first(), acc.push(c));
        } else {
            lemma_read_printed_string(cs, i + 1, s.drop_first(), acc.push(c));
        }
    }
}

pub open spec fn first_char_ok(f: FormV) -> bool {
    print_form(f).len() > 0 && !form_ws(print_form(f)[0]) && print_form(f)[0] != ')'
}

pub proof fn lemma_first_char(f: FormV)
    requires
        wf_form(f),
    ensures
        first_char_ok(f),
        print_form(f)[0] == '(' <==> f is List,
        print_form(f)[0] == '"' <==> f is Str,
{
    match f {
        FormV::Atom(a) => {
            assert(atom_char(a[0]));
        },
        FormV::Str(s) => {},
        FormV::List(fs) => {},
    }
}

pub proof fn lemma_read_printed_form(cs: Seq<char>, i: int, f: FormV)
    requires
        wf_form(f),
        holds_at(cs, i, print_form(f)),
        delim_at(cs, i + print_form(f).len()),
    ensures
        read_form(cs, i) == Ok::<(FormV, int), ReadErr>((f, i + print_form(f).len())),
    decreases f, 0nat,
{
    lemma_first_char(f);
    lemma_holds_char(cs, i, print_form(f), 0);
    lemma_skip_ws(cs, i);
    assert(skip_ws(cs, i) == i) by {
        reveal_with_fuel(crate::lexer::scan_while, 2);
    }
    match f {
        FormV::Atom(a) => {
            assert forall|k: int| i <= k < i + a.len() implies atom_char(#[trigger] cs[k]) by {
                lemma_holds_char(cs, i, a, k - i);
            }
            lemma_scan_atom_exact(cs, i, i + a.len());
            assert(cs.subrange(i, i + a.len()) == a);
            assert(cs[i] != '(' && cs[i] != '"');
            assert(read_atom(cs, i) == Ok::<(FormV, int), ReadErr>((f, i + a.len())));
            assert(i < cs.len());
            assert(skip_ws(cs, i) == i);
            assert(read_form(cs, i) == read_atom(cs, i));
            assert(print_form(f) == a);
            assert(read_form(cs, i) == Ok::<(FormV, int), ReadErr>((f, i + print_form(f).len())));
        },
        FormV::Str(s) => {
            assert(print_form(f) =~= seq!['"'] + (escape_text(s) + seq!['"']));
            lemma_holds_split(cs, i, seq!['"'], escape_text(s) + seq!['"']);
            lemma_read_printed_string(cs, i + 1, s, Seq::empty());
            assert(Seq::<char>::empty() + s =~= s);
            assert(cs[i] == '"');
            assert(read_form(cs, i) == read_string(cs, i + 1, Seq::empty()));
            assert(read_form(cs, i) == Ok::<(FormV, int), ReadErr>((f, i + print_form(f).len())));
        },
        FormV::List(fs) => {
            if fs.len() == 0 {
                lemma_holds_char(cs, i, print_form(f), 1);
                lemma_skip_ws(cs, i + 1);
                assert(skip_ws(cs, i + 1) == i + 1) by {
                    reveal_with_fuel(crate::lexer::scan_while, 2);
                }
                assert(read_form(cs, i) == read_list(cs, i + 1, Seq::empty()));
                assert(fs =~= Seq::<FormV>::empty());
            } else {
                let first = print_form(fs[0]);
                let rest = spaced(fs.drop_first()) + seq![')'];
                assert(print_form(f) =~= seq!['('] + (first + rest));
                lemma_holds_split(cs, i, seq!['('], first + rest);
                lemma_holds_split(cs, i + 1, first, rest);
                assert(wf_form(fs[0]) && wf_forms(fs.drop_first()));
                lemma_first_char(fs[0]);
                lemma_holds_char(cs, i + 1, first, 0);
                lemma_skip_ws(cs, i + 1);
                assert(skip_ws(cs, i + 1) == i + 1) by {
                    reveal_with_fuel(crate::lexer::scan_while, 2);
                }
                lemma_rest_delim(cs, i + 1 + first.len(), fs.drop_first());
                lemma_read_printed_form(cs, i + 1, fs[0]);
                lemma_read_printed_items(cs, i + 1 + first.len(), fs.drop_first(), seq![fs[0]]);
                assert(seq![fs[0]] + fs.drop_first() =~= fs);
                assert(read_form(cs, i) == read_list(cs, i + 1, Seq::empty()));
                assert(Seq::<FormV>::empty().push(fs[0]) =~= seq![fs[0]]);
                assert(read_list(cs, i + 1, Seq::empty()) == read_list(cs, i + 1 + first.len(), seq![fs[0]]));
                assert(read_form(cs, i) == Ok::<(FormV, int), ReadErr>((f, i + print_form(f).len())));
            }
        },
    }
}

proof fn lemma_rest_delim(cs: Seq<char>, k: int, fs: Seq<FormV>)
    requires
        holds_at(cs, k, spaced(fs) + seq![')']),
    ensures
        delim_at(cs, k),
{
    if fs.len() == 0 {
        lemma_holds_char(cs, k, spaced(fs) + seq![')'], 0);
    } else {
        lemma_holds_char(cs, k, spaced(fs) + seq![')'], 0);
    }
}

pub proof fn lemma_read_printed_items(cs: Seq<char>, i: int, fs: Seq<FormV>, acc: Seq<FormV>)
    requires
        wf_forms(fs),
        holds_at(cs, i, spaced(fs) + seq![')']),
    ensures
        read_list(cs, i, acc) == Ok::<(FormV, int), ReadErr>(
            (FormV::List(acc + fs), i + spaced(fs).len() + 1),
        ),
    decreases fs, 1nat,
{
    lemma_holds_char(cs, i, spaced(fs) + seq![')'], 0);
    lemma_skip_ws(cs, i);
    if fs.len() == 0 {
        assert(skip_ws(cs, i) == i) by {
            reveal_with_fuel(crate::lexer::scan_while, 2);
        }
        assert(acc + fs =~= acc);
    } else {
        let first = print_form(fs[0]);
        let rest = spaced(fs.drop_first()) + seq![')'];
        assert(spaced(fs) + seq![')'] =~= seq![' '] + (first + rest));
        lemma_holds_split(cs, i, seq![' '], first + rest);
        lemma_holds_split(cs, i + 1, first, rest);
        lemma_first_char(fs[0]);
        lemma_holds_char(cs, i + 1, first, 0);
        lemma_skip_ws(cs, i + 1);
        assert(skip_ws(cs, i) == i + 1) by {
            reveal_with_fuel(crate::lexer::scan_while, 3);
        }
        lemma_rest_delim(cs, i + 1 + first.len(), fs.drop_first());
        lemma_read_printed_form(cs, i + 1, fs[0]);
        lemma_read_printed_items(cs, i + 1 + first.len(), fs.drop_first(), acc.push(fs[0]));
        assert(acc.push(fs[0]) + fs.drop_first() =~= acc + fs);
    }
}

proof fn lemma_scan_atom_exact(cs: Seq<char>, i: int, j: int)
    requires
        0 <= i <= j,
        delim_at(cs, j),
        forall|k: int| i <= k < j ==> atom_char(#[trigger] cs[k]),
    ensures
        scan_while(cs, i, atom_pred()) == j,
    decreases j - i,
{
    if i < j {
        lemma_scan_atom_exact(cs, i + 1, j);
    }
}

// ---------------------------------------------------------------------------
// The reader.
// ---------------------------------------------------------------------------
/// A reader error: message, character position and its byte offset.
pub struct ReadFailure {
    pub message: Vec<char>,
    pub pos: usize,
    pub byte: usize,
}

pub open spec fn read_matches(
    cs: Seq<char>,
    r: Result<(Form, usize, usize), ReadFailure>,
    s: Result<(FormV, int), ReadErr>,
) -> bool {
    match (r, s) {
        (Ok((f, e, be)), Ok((sf, se))) => view_form(f) == sf && e == se && be == byte_offset(
            cs,
            e as int,
        ),
        (Err(x), Err(sx)) => x.message@ == sx.message && x.pos == sx.pos && x.byte == byte_offset(
            cs,
            x.pos as int,
        ),
        _ => false,
    }
}

pub open spec fn fits(cs: Seq<char>) -> bool {
    byte_offset(cs, cs.len() as int) <= usize::MAX
}

fn offset_to(cs: &[char], i: usize, b: usize, j: usize) -> (r: usize)
    requires
        i <= j <= cs@.len(),
        b == byte_offset(cs@, i as int),
        fits(cs@),
    ensures
        r == byte_offset(cs@, j as int),
{
    let mut k = i;
    let mut r = b;
    while k < j
        invariant
            i <= k <= j <= cs@.len(),
            r == byte_offset(cs@, k as int),
            fits(cs@),
        decreases j - k,
    {
        proof {
            lemma_byte_offset_monotonic(cs@, k + 1, cs@.len() as int);
        }
        r = r + char_width(cs[k]);
        k = k + 1;
    }
    r
}

fn failure(cs: &[char], message: Vec<char>, pos: usize, i: usize, b: usize) -> (x: ReadFailure)
    requires
        i <= pos <= cs@.len(),
        b == byte_offset(cs@, i as int),
        fits(cs@),
    ensures
        x.message@ == message@,
        x.pos == pos,
        x.byte == byte_offset(cs@, pos as int),
{
    ReadFailure { message, pos, byte: offset_to(cs, i, b, pos) }
}

fn literal(s: &str) -> (v: Vec<char>)
    ensures
        v@ == s@,
{
    let mut v = Vec::new();
    push_str(&mut v, s);
    v
}

fn ws_at(c: char) -> (r: bool)
    ensures
        r == form_ws(c),
{
    is_whitespace(c)
}

pub fn skip_spaces(cs: &[char], i: usize) -> (j: usize)
    requires
        i <= cs@.len(),
    ensures
        j == skip_ws(cs@, i as int),
{
    let mut k = i;
    while k < cs.len() && ws_at(cs[k])
        invariant
            i <= k <= cs@.len(),
            skip_ws(cs@, k as int) == skip_ws(cs@, i as int),
        decreases cs.len() - k,
    {
        k = k + 1;
    }
    k
}

fn read_string_at(cs: &[char], i: usize, b: usize) -> (r: Result<(Form, usize, usize), ReadFailure>)
    requires
        i <= cs@.len(),
        b == byte_offset(cs@, i as int),
        fits(cs@),
    ensures
        read_matches(cs@, r, read_string(cs@, i as int, Seq::empty())),
{
    proof {
        lemma_byte_offset_monotonic(cs@, 0, cs@.len() as int);
    }
    let mut acc: Vec<char> = Vec::new();
    let mut j = i;
    while j < cs.len()
        invariant
            i <= j <= cs@.len(),
            b == byte_offset(cs@, i as int),
            fits(cs@),
            cs@.len() <= usize::MAX,
            read_string(cs@, j as int, acc@) == read_string(cs@, i as int, Seq::empty()),
        decreases cs.len() - j,
    {
        let c = cs[j];
        if c == '"' {
            let be = offset_to(cs, i, b, j + 1);
            return Ok((Form::Str(acc), j + 1, be));
        } else if c == '\\' {
            if j + 1 >= cs.len() {
                let x = failure(cs, literal("unterminated artifact string escape"), j + 1, i, b);
                return Err(x);
            }
            let e = cs[j + 1];
            let decoded = if e == 'n' {
                Some('\n')
            } else if e == 'r' {
                Some('\r')
            } else if e == 't' {
                Some('\t')
            } else if e == '0' {
                Some('\0')
            } else if e == '"' {
                Some('"')
            } else if e == '\\' {
                Some('\\')
            } else {
                None
            };
            match decoded {
                Some(d) => {
                    acc.push(d);
                    j = j + 2;
                },
                None => {
                    let mut message = literal("unsupported artifact string escape '\\");
                    message.push(e);
                    push_str(&mut message, "'");
                    assert(message@ =~= "unsupported artifact string escape '\\"@ + seq![e] + "'"@);
                    let x = failure(cs, message, j + 1, i, b);
                    return Err(x);
                },
            }
        } else {
            acc.push(c);
            j = j + 1;
        }
    }
    let x = failure(cs, literal("unterminated artifact string"), j, i, b);
    Err(x)
}

fn read_atom_at(cs: &[char], i: usize, b: usize) -> (r: Result<(Form, usize, usize), ReadFailure>)
    requires
        i <= cs@.len(),
        b == byte_offset(cs@, i as int),
        fits(cs@),
    ensures
        read_matches(cs@, r, read_atom(cs@, i as int)),
{
    let mut k = i;
    while k < cs.len() && !(ws_at(cs[k]) || cs[k] == '(' || cs[k] == ')')
        invariant
            i <= k <= cs@.len(),
            scan_while(cs@, k as int, atom_pred()) == scan_while(cs@, i as int, atom_pred()),
        decreases cs.len() - k,
    {
        k = k + 1;
    }
    if k == i {
        let x = failure(cs, literal("expected artifact atom"), i, i, b);
        return Err(x);
    }
    let be = offset_to(cs, i, b, k);
    Ok((Form::Atom(chars_range(cs, i, k)), k, be))
}

/// Reads one form at or after position `i`.
pub fn read_form_at(cs: &[char], i: usize, b: usize) -> (r: Result<(Form, usize, usize), ReadFailure>)
    requires
        i <= cs@.len(),
        b == byte_offset(cs@, i as int),
        fits(cs@),
    ensures
        read_matches(cs@, r, read_form(cs@, i as int)),
    decreases cs@.len() - i, 1nat,
{
    proof {
        lemma_skip_ws(cs@, i as int);
        lemma_byte_offset_monotonic(cs@, 0, cs@.len() as int);
    }
    let j = skip_spaces(cs, i);
    let bj = offset_to(cs, i, b, j);
    if j >= cs.len() {
        let x = failure(cs, literal("expected artifact form"), j, j, bj);
        return Err(x);
    }
    let c = cs[j];
    proof {
        lemma_byte_offset_monotonic(cs@, j + 1, cs@.len() as int);
    }
    if c == '(' {
        read_list_at(cs, j + 1, bj + char_width(c))
    } else if c == '"' {
        read_string_at(cs, j + 1, bj + char_width(c))
    } else {
        read_atom_at(cs, j, bj)
    }
}

fn read_list_at(cs: &[char], i: usize, b: usize) -> (r: Result<(Form, usize, usize), ReadFailure>)
    requires
        i <= cs@.len(),
        b == byte_offset(cs@, i as int),
        fits(cs@),
    ensures
        read_matches(cs@, r, read_list(cs@, i as int, Seq::empty())),
    decreases cs@.len() - i, 2nat,
{
    proof {
        lemma_byte_offset_monotonic(cs@, 0, cs@.len() as int);
    }
    let mut forms: Vec<Form> = Vec::new();
    let mut k = i;
    let mut bk = b;
    loop
        invariant
            i <= k <= cs@.len(),
            bk == byte_offset(cs@, k as int),
            fits(cs@),
            cs@.len() <= usize::MAX,
            read_list(cs@, k as int, view_forms(forms@)) == read_list(cs@, i as int, Seq::empty()),
        decreases cs@.len() - k,
    {
        proof {
            lemma_skip_ws(cs@, k as int);
        }
        let j = skip_spaces(cs, k);
        let bj = offset_to(cs, k, bk, j);
        if j >= cs.len() {
            let x = failure(cs, literal("unterminated artifact list"), j, j, bj);
            return Err(x);
        }
        if cs[j] == ')' {
            proof {
                lemma_byte_offset_monotonic(cs@, j + 1, cs@.len() as int);
            }
            let be = bj + char_width(cs[j]);
            return Ok((Form::List(forms), j + 1, be));
        }
        proof {
            lemma_read_form_end(cs@, j as int);
        }
        match read_form_at(cs, j, bj) {
            Ok((f, e, be)) => {
                let ghost before = forms@;
                proof {
                    lemma_view_forms_push(before, f);
                }
                forms.push(f);
                k = e;
                bk = be;
            },
            Err(x) => {
                return Err(x);
            },
        }
    }
}

// ---------------------------------------------------------------------------
// The printer.
// ---------------------------------------------------------------------------
pub proof fn lemma_child(f: Form, l: Vec<Form>, i: int)
    requires
        f == Form::List(l),
        0 <= i < l.len(),
    ensures
        decreases_to!(f => l@[i]),
{
    broadcast use vstd::std_specs::vec::axiom_vec_decreases_to_view;

    assert(decreases_to!(f => f->List_0));
    assert(decreases_to!(l => l@));
    assert(decreases_to!(l@ => l@[i]));
}

pub proof fn lemma_escape_text_append(a: Seq<char>, b: Seq<char>)
    ensures
        escape_text(a + b) == escape_text(a) + escape_text(b),
    decreases a.len(),
{
    if a.len() == 0 {
        assert(a + b =~= b);
    } else {
        lemma_escape_text_append(a.drop_first(), b);
        assert((a + b).drop_first() =~= a.drop_first() + b);
        assert((a + b)[0] == a[0]);
    }
}

/// Appends the escaped text of `s` to `out`.
fn print_escaped(s: &Vec<char>, out: &mut Vec<char>)
    ensures
        final(out)@ == old(out)@ + escape_text(s@),
{
    let ghost start = out@;
    let mut k: usize = 0;
    while k < s.len()
        invariant
            k <= s@.len(),
            out@ == start + escape_text(s@.take(k as int)),
        decreases s.len() - k,
    {
        let c = s[k];
        let ghost before = out@;
        if c == '\n' {
            out.push('\\');
            out.push('n');
        } else if c == '\r' {
            out.push('\\');
            out.push('r');
        } else if c == '\t' {
            out.push('\\');
            out.push('t');
        } else if c == '\0' {
            out.push('\\');
            out.push('0');
        } else if c == '"' {
            out.push('\\');
            out.push('"');
        } else if c == '\\' {
            out.push('\\');
            out.push('\\');
        } else {
            out.push(c);
        }
        proof {
            assert(out@ =~= before + escape_char(c));
            assert(s@.take(k + 1) =~= s@.take(k as int) + seq![c]);
            lemma_escape_text_append(s@.take(k as int), seq![c]);
            assert(seq![c].drop_first() =~= Seq::<char>::empty());
            assert(escape_text(Seq::<char>::empty()) =~= Seq::<char>::empty());
            assert(seq![c][0] == c);
            assert(escape_text(seq![c]) =~= escape_char(c) + escape_text(seq![c].drop_first()));
            assert(escape_text(seq![c]) =~= escape_char(c));
        }
        k = k + 1;
    }
    assert(s@.take(k as int) =~= s@);
}

/// Appends the text of `f` to `out`.
pub fn print_into(f: &Form, out: &mut Vec<char>)
    ensures
        final(out)@ == old(out)@ + print_form(view_form(*f)),
    decreases f,
{
    match f {
        Form::Atom(a) => {
            push_all(out, a);
        },
        Form::Str(s) => {
            let ghost start = out@;
            out.push('"');
            print_escaped(s, out);
            out.push('"');
            assert(out@ =~= start + (seq!['"'] + escape_text(s@) + seq!['"']));
        },
        Form::List(items) => {
            let ghost start = out@;
            let ghost fv = view_forms(items@);
            proof {
                lemma_view_forms(items@);
            }
            out.push('(');
            if items.len() == 0 {
                out.push(')');
                assert(fv =~= Seq::<FormV>::empty());
                assert(out@ =~= start + seq!['(', ')']);
                return;
            }
            proof {
                lemma_child(*f, *items, 0);
            }
            print_into(&items[0], out);
            let mut k: usize = 1;
            while k < items.len()
                invariant
                    1 <= k <= items.len(),
                    *f == Form::List(*items),
                    fv == view_forms(items@),
                    fv.len() == items.len(),
                    forall|i: int| 0 <= i < items.len() ==> #[trigger] fv[i] == view_form(items@[i]),
                    out@ == start + seq!['('] + print_form(fv[0]) + spaced(fv.subrange(1, k as int)),
                decreases items.len() - k,
            {
                proof {
                    lemma_child(*f, *items, k as int);
                    lemma_spaced_push(fv.subrange(1, k as int), fv[k as int]);
                    assert(fv.subrange(1, k + 1) =~= fv.subrange(1, k as int).push(fv[k as int]));
                }
                let ghost before = out@;
                out.push(' ');
                print_into(&items[k], out);
                assert(out@ =~= before + seq![' '] + print_form(fv[k as int]));
                k = k + 1;
            }
            out.push(')');
            assert(fv.subrange(1, k as int) =~= fv.drop_first());
            assert(out@ =~= start + (seq!['('] + print_form(fv[0]) + spaced(fv.drop_first()) + seq![')']));
        },
    }
}

} // verus!
