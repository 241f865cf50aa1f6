//! Decimal text of integers, and the textual grammars of `i64` and `f64`
//! literals that std's `FromStr` implementations accept.
use vstd::prelude::*;
use vstd::arithmetic::div_mod::lemma_fundamental_div_mod;

verus! {

pub open spec fn is_digit(c: char) -> bool {
    '0' <= c && c <= '9'
}

pub open spec fn digit_value(c: char) -> int {
    (c as int) - ('0' as int)
}

pub open spec fn digit_char(d: int) -> char {
    if d <= 0 {
        '0'
    } else if d == 1 {
        '1'
    } else if d == 2 {
        '2'
    } else if d == 3 {
        '3'
    } else if d == 4 {
        '4'
    } else if d == 5 {
        '5'
    } else if d == 6 {
        '6'
    } else if d == 7 {
        '7'
    } else if d == 8 {
        '8'
    } else {
        '9'
    }
}

pub open spec fn all_digits(ds: Seq<char>) -> bool {
    forall|i: int| 0 <= i < ds.len() ==> #[trigger] is_digit(ds[i])
}

/// The value of a string of decimal digits, most significant first.
pub open spec fn digits_value(ds: Seq<char>) -> nat
    decreases ds.len(),
{
    if ds.len() == 0 {
        0
    } else {
        (digits_value(ds.drop_last()) * 10 + digit_value(ds.last())) as nat
    }
}

/// The shortest decimal text of `n`.
pub open spec fn decimal_text(n: nat) -> Seq<char>
    decreases n,
{
    if n < 10 {
        seq![digit_char(n as int)]
    } else {
        decimal_text(n / 10).push(digit_char((n % 10) as int))
    }
}

/// The decimal text of `v`, with a leading `-` when negative.
pub open spec fn int_text(v: int) -> Seq<char> {
    if v < 0 {
        seq!['-'] + decimal_text((-v) as nat)
    } else {
        decimal_text(v as nat)
    }
}

/// What `i64::from_str` returns on `a`: an optional `+` or `-` followed by
/// at least one decimal digit, with a value in range.
pub open spec fn parse_i64_text(a: Seq<char>) -> Option<i64> {
    let negative = a.len() > 0 && a[0] == '-';
    let signed = a.len() > 0 && (a[0] == '-' || a[0] == '+');
    let ds = if signed { a.drop_first() } else { a };
    if ds.len() == 0 || !all_digits(ds) {
        None
    } else if negative {
        if digits_value(ds) <= 0x8000_0000_0000_0000 {
            Some((0 - digits_value(ds)) as i64)
        } else {
            None
        }
    } else {
        if digits_value(ds) <= i64::MAX {
            Some(digits_value(ds) as i64)
        } else {
            None
        }
    }
}

pub proof fn lemma_decimal_text(n: nat)
    ensures
        decimal_text(n).len() > 0,
        all_digits(decimal_text(n)),
        digits_value(decimal_text(n)) == n,
        decimal_text(n)[0] != '-' && decimal_text(n)[0] != '+',
    decreases n,
{
    if n < 10 {
        assert(decimal_text(n).drop_last() =~= Seq::<char>::empty());
        assert(decimal_text(n).last() == digit_char(n as int));
        assert(digit_value(digit_char(n as int)) == n);
        assert(digits_value(Seq::<char>::empty()) == 0);
    } else {
        lemma_decimal_text(n / 10);
        let t = decimal_text(n / 10);
        let u = t.push(digit_char((n % 10) as int));
        assert(u.drop_last() =~= t);
        assert(u.last() == digit_char((n % 10) as int));
        assert(digit_value(digit_char((n % 10) as int)) == n % 10);
        assert(decimal_text(n) == u);
        assert(digits_value(u) == (digits_value(t) * 10 + digit_value(u.last())) as nat);
        assert(digits_value(t) == n / 10);
        assert((n / 10) * 10 + n % 10 == n);
        lemma_fundamental_div_mod(n as int, 10);
        assert forall|i: int| 0 <= i < u.len() implies #[trigger] is_digit(u[i]) by {
            if i < t.len() {
                assert(u[i] == t[i]);
            }
        }
    }
}

pub proof fn lemma_digits_value_prefix(ds: Seq<char>, k: int)
    requires
        0 <= k <= ds.len(),
        all_digits(ds),
    ensures
        digits_value(ds.take(k)) <= digits_value(ds),
    decreases ds.len() - k,
{
    if k < ds.len() {
        lemma_digits_value_prefix(ds, k + 1);
        assert(ds.take(k + 1).drop_last() =~= ds.take(k));
        assert(is_digit(ds[k]));
    } else {
        assert(ds.take(k) =~= ds);
    }
}

pub proof fn lemma_digits_value_step(ds: Seq<char>, k: int)
    requires
        0 <= k < ds.len(),
        is_digit(ds[k]),
    ensures
        digits_value(ds.take(k + 1)) == digits_value(ds.take(k)) * 10 + digit_value(ds[k]),
{
    assert(ds.take(k + 1).drop_last() =~= ds.take(k));
    assert(ds.take(k + 1).last() == ds[k]);
}

/// `i64::from_str` gives back every value from its decimal text.
pub proof fn lemma_parse_int_text(v: i64)
    ensures
        parse_i64_text(int_text(v as int)) == Some(v),
{
    if v < 0 {
        let m = (-(v as int)) as nat;
        lemma_decimal_text(m);
        let a = int_text(v as int);
        assert(a.drop_first() =~= decimal_text(m));
    } else {
        lemma_decimal_text(v as nat);
    }
}

/// Appends the decimal text of `n`.
pub fn push_decimal(out: &mut Vec<char>, n: u64)
    ensures
        final(out)@ == old(out)@ + decimal_text(n as nat),
    decreases n,
{
    if n >= 10 {
        push_decimal(out, n / 10);
    }
    let d = (n % 10) as u32;
    let c = char_of_digit(d);
    out.push(c);
    assert(old(out)@ + decimal_text(n as nat) =~= (if n >= 10 {
        old(out)@ + decimal_text((n / 10) as nat)
    } else {
        old(out)@
    }).push(c));
}

fn char_of_digit(d: u32) -> (c: char)
    requires
        d < 10,
    ensures
        c == digit_char(d as int),
        is_digit(c),
{
    match d {
        0 => '0',
        1 => '1',
        2 => '2',
        3 => '3',
        4 => '4',
        5 => '5',
        6 => '6',
        7 => '7',
        8 => '8',
        _ => '9',
    }
}

/// Appends the decimal text of `v`, with a leading `-` when negative.
pub fn push_int(out: &mut Vec<char>, v: i64)
    ensures
        final(out)@ == old(out)@ + int_text(v as int),
{
    if v < 0 {
        out.push('-');
        let m: u64 = (0i128 - v as i128) as u64;
        push_decimal(out, m);
        assert(old(out)@ + int_text(v as int) =~= old(out)@.push('-') + decimal_text(m as nat));
    } else {
        push_decimal(out, v as u64);
    }
}

/// Parses `a` as `i64::from_str` does.
pub fn parse_i64(a: &[char]) -> (r: Option<i64>)
    ensures
        r == parse_i64_text(a@),
{
    let negative = a.len() > 0 && a[0] == '-';
    let signed = a.len() > 0 && (a[0] == '-' || a[0] == '+');
    let start: usize = if signed { 1 } else { 0 };
    let ghost ds = if signed { a@.drop_first() } else { a@ };
    if start == a.len() {
        return None;
    }
    let limit: u64 = if negative { 0x8000_0000_0000_0000 } else { 0x7fff_ffff_ffff_ffff };
    let mut acc: u64 = 0;
    let mut i = start;
    while i < a.len()
        invariant
            start <= i <= a.len(),
            ds == (if signed { a@.drop_first() } else { a@ }),
            signed == (a@.len() > 0 && (a@[0] == '-' || a@[0] == '+')),
            negative == (a@.len() > 0 && a@[0] == '-'),
            start == (if signed { 1int } else { 0int }),
            limit == (if negative { 0x8000_0000_0000_0000u64 } else { 0x7fff_ffff_ffff_ffffu64 }),
            ds.len() == a@.len() - start,
            forall|j: int| 0 <= j < ds.len() ==> ds[j] == a@[j + start],
            all_digits(ds.take(i - start)),
            acc == digits_value(ds.take(i - start)),
            acc <= limit,
        decreases a.len() - i,
    {
        let c = a[i];
        if !('0' <= c && c <= '9') {
            assert(!is_digit(ds[i - start]));
            assert(!all_digits(ds));
            assert(ds =~= (if signed { a@.drop_first() } else { a@ }));
            return None;
        }
        let d = (c as u32 - '0' as u32) as u64;
        assert(d <= 9);
        assert(d == digit_value(ds[i - start]));
        assert(is_digit(ds[i - start]));
        proof {
            lemma_digits_value_step(ds, i - start);
            assert(ds.take(i - start + 1) =~= ds.take(i - start).push(ds[i - start]));
        }
        if acc > (limit - d) / 10 {
            proof {
                assert(acc * 10 + d > limit) by (nonlinear_arith)
                    requires
                        acc > (limit - d) / 10,
                        d <= limit,
                ;
                assert forall|j: int| 0 <= j < i - start + 1 implies #[trigger] is_digit(
                    ds.take(i - start + 1)[j],
                ) by {
                    if j < i - start {
                        assert(ds.take(i - start + 1)[j] == ds.take(i - start)[j]);
                    }
                }
                if all_digits(ds) {
                    lemma_digits_value_prefix(ds, i - start + 1);
                }
            }
            return None;
        }
        proof {
            assert(acc * 10 + d <= limit) by (nonlinear_arith)
                requires
                    acc <= (limit - d) / 10,
                    d <= limit,
            ;
            assert forall|j: int| 0 <= j < i - start + 1 implies #[trigger] is_digit(
                ds.take(i - start + 1)[j],
            ) by {
                if j < i - start {
                    assert(ds.take(i - start + 1)[j] == ds.take(i - start)[j]);
                }
            }
        }
        acc = acc * 10 + d;
        i = i + 1;
    }
    assert(ds.take(i - start) =~= ds);
    if negative {
        if acc == 0x8000_0000_0000_0000 {
            Some(i64::MIN)
        } else {
            Some(0 - (acc as i64))
        }
    } else {
        Some(acc as i64)
    }
}

// ---------------------------------------------------------------------------
// The grammar of `f64::from_str`:
//   Float  ::= Sign? ( 'inf' | 'infinity' | 'nan' | Number )
//   Number ::= ( Digit+ | Digit+ '.' Digit* | Digit* '.' Digit+ ) Exp?
//   Exp    ::= 'e' Sign? Digit+
// with letters matched without regard to case.
// ---------------------------------------------------------------------------
pub open spec fn ascii_lower(c: char) -> char {
    if 'A' <= c && c <= 'Z' {
        ((c as int) + 32) as char
    } else {
        c
    }
}

pub open spec fn lower_eq(a: Seq<char>, word: Seq<char>) -> bool {
    a.len() == word.len() && forall|i: int| 0 <= i < a.len() ==> #[trigger] ascii_lower(a[i]) == word[i]
}

pub open spec fn is_sign(c: char) -> bool {
    c == '+' || c == '-'
}

/// A mantissa: digits with at most one `.`, and at least one digit.
pub open spec fn mantissa_ok(m: Seq<char>) -> bool {
    &&& forall|i: int| 0 <= i < m.len() ==> (#[trigger] is_digit(m[i]) || m[i] == '.')
    &&& forall|i: int, j: int| #![trigger m[i], m[j]] 0 <= i < j < m.len() && m[i] == '.' ==> m[j] != '.'
    &&& exists|i: int| 0 <= i < m.len() && #[trigger] is_digit(m[i])
}

/// An exponent after its `e`: an optional sign, then at least one digit.
pub open spec fn exponent_ok(x: Seq<char>) -> bool {
    let ds = if x.len() > 0 && is_sign(x[0]) { x.drop_first() } else { x };
    ds.len() > 0 && all_digits(ds)
}

pub open spec fn is_exp_mark(c: char) -> bool {
    c == 'e' || c == 'E'
}

/// A number: a mantissa, optionally followed by `e` and an exponent; the
/// first `e` splits the two.
pub open spec fn number_ok(b: Seq<char>) -> bool {
    ||| (forall|i: int| 0 <= i < b.len() ==> !#[trigger] is_exp_mark(b[i])) && mantissa_ok(b)
    ||| exists|k: int|
        0 <= k < b.len() && #[trigger] is_exp_mark(b[k]) && (forall|i: int|
            0 <= i < k ==> !#[trigger] is_exp_mark(b[i])) && mantissa_ok(b.take(k))
            && exponent_ok(b.skip(k + 1))
}

/// Whether `f64::from_str` accepts `a`.
pub open spec fn float_text_ok(a: Seq<char>) -> bool {
    let b = if a.len() > 0 && is_sign(a[0]) { a.drop_first() } else { a };
    ||| lower_eq(b, seq!['i', 'n', 'f'])
    ||| lower_eq(b, seq!['i', 'n', 'f', 'i', 'n', 'i', 't', 'y'])
    ||| lower_eq(b, seq!['n', 'a', 'n'])
    ||| number_ok(b)
}

fn lower_char(c: char) -> (r: char)
    ensures
        r == ascii_lower(c),
{
    if 'A' <= c && c <= 'Z' {
        ((c as u32) + 32) as u8 as char
    } else {
        c
    }
}

fn lower_matches(b: &[char], start: usize, word: &[char]) -> (r: bool)
    requires
        start <= b@.len(),
    ensures
        r == lower_eq(b@.skip(start as int), word@),
{
    let n = b.len() - start;
    if n != word.len() {
        return false;
    }
    let mut i: usize = 0;
    while i < n
        invariant
            n == b@.len() - start,
            n == word@.len(),
            start + n == b.len(),
            i <= n,
            forall|j: int| 0 <= j < i ==> #[trigger] ascii_lower(b@.skip(start as int)[j]) == word@[j],
        decreases n - i,
    {
        if lower_char(b[start + i]) != word[i] {
            assert(ascii_lower(b@.skip(start as int)[i as int]) != word@[i as int]);
            return false;
        }
        i = i + 1;
    }
    true
}

fn mantissa_check(b: &[char], start: usize, end: usize) -> (r: bool)
    requires
        start <= end <= b@.len(),
    ensures
        r == mantissa_ok(b@.subrange(start as int, end as int)),
{
    let ghost m = b@.subrange(start as int, end as int);
    let mut seen_dot = false;
    let mut seen_digit = false;
    let mut i = start;
    while i < end
        invariant
            start <= i <= end <= b@.len(),
            m == b@.subrange(start as int, end as int),
            forall|j: int| 0 <= j < i - start ==> (#[trigger] is_digit(m[j]) || m[j] == '.'),
            forall|j: int, l: int| #![trigger m[j], m[l]] 0 <= j < l < i - start && m[j] == '.' ==> m[l] != '.',
            seen_dot == (exists|j: int| 0 <= j < i - start && #[trigger] m[j] == '.'),
            seen_digit == (exists|j: int| 0 <= j < i - start && #[trigger] is_digit(m[j])),
        decreases end - i,
    {
        let c = b[i];
        assert(m[i - start] == c);
        if c == '.' {
            assert(!is_digit(m[i - start]));
            if seen_dot {
                let ghost j = choose|j: int| 0 <= j < i - start && #[trigger] m[j] == '.';
                assert(!(forall|x: int, y: int| #![trigger m[x], m[y]]
                    0 <= x < y < m.len() && m[x] == '.' ==> m[y] != '.')) by {
                    assert(m[j] == '.' && m[i - start] == '.');
                }
                return false;
            }
            seen_dot = true;
        } else if '0' <= c && c <= '9' {
            assert(is_digit(m[i - start]));
            seen_digit = true;
        } else {
            assert(!(is_digit(m[i - start]) || m[i - start] == '.'));
            return false;
        }
        i = i + 1;
    }
    seen_digit
}

fn exponent_check(b: &[char], start: usize) -> (r: bool)
    requires
        start <= b@.len(),
    ensures
        r == exponent_ok(b@.skip(start as int)),
{
    let ghost x = b@.skip(start as int);
    let mut p = start;
    if p < b.len() && (b[p] == '+' || b[p] == '-') {
        p = p + 1;
    }
    let ghost ds = if x.len() > 0 && is_sign(x[0]) { x.drop_first() } else { x };
    assert(ds =~= b@.skip(p as int));
    if p == b.len() {
        return false;
    }
    let mut i = p;
    while i < b.len()
        invariant
            start <= p <= i <= b@.len(),
            ds == b@.skip(p as int),
            x == b@.skip(start as int),
            ds == (if x.len() > 0 && is_sign(x[0]) { x.drop_first() } else { x }),
            ds.len() > 0,
            forall|j: int| 0 <= j < i - p ==> #[trigger] is_digit(ds[j]),
        decreases b.len() - i,
    {
        let c = b[i];
        assert(ds[i - p] == c);
        if !('0' <= c && c <= '9') {
            assert(!is_digit(ds[i - p]));
            return false;
        }
        i = i + 1;
    }
    true
}

/// Whether `f64::from_str` accepts `a`.
#[verifier::rlimit(50)]
pub fn float_text_check(a: &[char]) -> (r: bool)
    ensures
        r == float_text_ok(a@),
{
    let start: usize = if a.len() > 0 && (a[0] == '+' || a[0] == '-') { 1 } else { 0 };
    let ghost b = if a@.len() > 0 && is_sign(a@[0]) { a@.drop_first() } else { a@ };
    assert(b =~= a@.skip(start as int));
    let inf = ['i', 'n', 'f'];
    let infinity = ['i', 'n', 'f', 'i', 'n', 'i', 't', 'y'];
    let nan = ['n', 'a', 'n'];
    assert(inf@ =~= seq!['i', 'n', 'f']);
    assert(infinity@ =~= seq!['i', 'n', 'f', 'i', 'n', 'i', 't', 'y']);
    assert(nan@ =~= seq!['n', 'a', 'n']);
    if lower_matches(a, start, &inf) || lower_matches(a, start, &infinity) || lower_matches(
        a,
        start,
        &nan,
    ) {
        return true;
    }
    // find the first exponent mark
    let mut k = start;
    while k < a.len() && !(a[k] == 'e' || a[k] == 'E')
        invariant
            start <= k <= a@.len(),
            b == a@.skip(start as int),
            forall|i: int| 0 <= i < k - start ==> !#[trigger] is_exp_mark(b[i]),
        decreases a.len() - k,
    {
        assert(!is_exp_mark(b[k - start]));
        k = k + 1;
    }
    if k == a.len() {
        let r = mantissa_check(a, start, a.len());
        assert(a@.subrange(start as int, a@.len() as int) =~= b);
        if !r {
            assert(!number_ok(b)) by {
                if exists|k: int| 0 <= k < b.len() && #[trigger] is_exp_mark(b[k]) {
                    let k0 = choose|k: int| 0 <= k < b.len() && #[trigger] is_exp_mark(b[k]);
                    assert(!is_exp_mark(b[k0]));
                }
            }
        }
        r
    } else {
        let ghost kb = (k - start) as int;
        assert(is_exp_mark(b[kb]));
        let r1 = mantissa_check(a, start, k);
        let r2 = exponent_check(a, k + 1);
        assert(a@.subrange(start as int, k as int) =~= b.take(kb));
        assert(a@.skip(k + 1) =~= b.skip(kb + 1));
        if !(r1 && r2) {
            assert(!number_ok(b)) by {
                if exists|k2: int|
                    0 <= k2 < b.len() && #[trigger] is_exp_mark(b[k2]) && (forall|i: int|
                        0 <= i < k2 ==> !#[trigger] is_exp_mark(b[i])) && mantissa_ok(b.take(k2))
                        && exponent_ok(b.skip(k2 + 1)) {
                    let k2 = choose|k2: int|
                        0 <= k2 < b.len() && #[trigger] is_exp_mark(b[k2]) && (forall|i: int|
                            0 <= i < k2 ==> !#[trigger] is_exp_mark(b[i])) && mantissa_ok(
                            b.take(k2),
                        ) && exponent_ok(b.skip(k2 + 1));
                    if k2 < kb {
                        assert(!is_exp_mark(b[k2]));
                    } else if k2 > kb {
                        assert(!is_exp_mark(b[kb]));
                    }
                }
                assert(!is_exp_mark(b[kb]) || !(forall|i: int|
                    0 <= i < b.len() ==> !#[trigger] is_exp_mark(b[i])));
            }
        }
        r1 && r2
    }
}

} // verus!
