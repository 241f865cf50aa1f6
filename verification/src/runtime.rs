//! The runtime's integer and index arithmetic, its type contracts and its
//! errors.  The tree-walking evaluator itself lives with the host program.
use vstd::prelude::*;
use crate::ast::BinaryOp;
use crate::numbers::{decimal_text, int_text, push_decimal, push_int};
use crate::text::{chars_eq_str, chars_of, is_lowercase, push_str, string_from, char_lowercase};

verus! {

/// An error raised while running a program.
#[derive(Debug, Clone, PartialEq, Eq)]
pub struct RuntimeError {
    pub message: String,
}

impl RuntimeError {
    pub fn new(message: &str) -> (e: Self)
        ensures
            e.message@ == message@,
    {
        RuntimeError { message: string_from(&chars_of(message)) }
    }

    /// The error as text.
    pub fn describe(&self) -> (r: String)
        ensures
            r@ == self.message@,
    {
        string_from(&chars_of(self.message.as_str()))
    }
}

fn runtime_error(message: &Vec<char>) -> (e: RuntimeError)
    ensures
        e.message@ == message@,
{
    RuntimeError { message: string_from(message) }
}

// ---------------------------------------------------------------------------
// Integer arithmetic.
// ---------------------------------------------------------------------------
/// What an integer operator gives: an integer or, for comparisons, a truth value.
#[derive(Debug, Clone, Copy, PartialEq, Eq)]
pub enum IntValue {
    Int(i64),
    Bool(bool),
}

/// The operators that `eval_ints` computes.
pub open spec fn numeric_op(op: BinaryOp) -> bool {
    match op {
        BinaryOp::Add | BinaryOp::Subtract | BinaryOp::Multiply | BinaryOp::Divide
        | BinaryOp::Remainder | BinaryOp::Less | BinaryOp::LessEqual | BinaryOp::Greater
        | BinaryOp::GreaterEqual => true,
        _ => false,
    }
}

pub open spec fn checked_result(r: Option<i64>) -> Result<IntValue, Seq<char>> {
    match r {
        Some(v) => Ok(IntValue::Int(v)),
        None => Err("integer overflow"@),
    }
}

/// Checked integer arithmetic: overflow and division by zero are errors,
/// division truncates toward zero.
pub open spec fn int_op(left: i64, op: BinaryOp, right: i64) -> Result<IntValue, Seq<char>> {
    match op {
        BinaryOp::Add => checked_result(left.checked_add(right)),
        BinaryOp::Subtract => checked_result(left.checked_sub(right)),
        BinaryOp::Multiply => checked_result(left.checked_mul(right)),
        BinaryOp::Divide => if right == 0 {
            Err("division by zero"@)
        } else {
            checked_result(left.checked_div(right))
        },
        BinaryOp::Remainder => if right == 0 {
            Err("division by zero"@)
        } else {
            checked_result(left.checked_rem(right))
        },
        BinaryOp::Less => Ok(IntValue::Bool(left < right)),
        BinaryOp::LessEqual => Ok(IntValue::Bool(left <= right)),
        BinaryOp::Greater => Ok(IntValue::Bool(left > right)),
        _ => Ok(IntValue::Bool(left >= right)),
    }
}

fn checked(r: Option<i64>) -> (v: Result<IntValue, RuntimeError>)
    ensures
        v matches Ok(x) ==> checked_result(r) == Ok::<IntValue, Seq<char>>(x),
        v matches Err(e) ==> checked_result(r) == Err::<IntValue, Seq<char>>(e.message@),
{
    match r {
        Some(v) => Ok(IntValue::Int(v)),
        None => Err(RuntimeError::new("integer overflow")),
    }
}

/// Applies a numeric operator to two integers.
pub fn eval_ints(left: i64, op: BinaryOp, right: i64) -> (r: Result<IntValue, RuntimeError>)
    requires
        numeric_op(op),
    ensures
        r matches Ok(x) ==> int_op(left, op, right) == Ok::<IntValue, Seq<char>>(x),
        r matches Err(e) ==> int_op(left, op, right) == Err::<IntValue, Seq<char>>(e.message@),
        op == BinaryOp::Subtract && i64::MIN <= left - right <= i64::MAX ==> (r matches Ok(
            IntValue::Int(v),
        ) && v == left - right),
        op == BinaryOp::Subtract && !(i64::MIN <= left - right <= i64::MAX) ==> (r matches Err(e)
            && e.message@ == "integer overflow"@),
        op == BinaryOp::Add && i64::MIN <= left + right <= i64::MAX ==> (r matches Ok(
            IntValue::Int(v),
        ) && v == left + right),
        op == BinaryOp::Add && !(i64::MIN <= left + right <= i64::MAX) ==> (r matches Err(e)
            && e.message@ == "integer overflow"@),
        op == BinaryOp::Multiply && i64::MIN <= left * right <= i64::MAX ==> (r matches Ok(
            IntValue::Int(v),
        ) && v == left * right),
        op == BinaryOp::Multiply && !(i64::MIN <= left * right <= i64::MAX) ==> (r matches Err(e)
            && e.message@ == "integer overflow"@),
{
    proof {
        lemma_int_arithmetic(left, right);
    }
    match op {
        BinaryOp::Add => checked(left.checked_add(right)),
        BinaryOp::Subtract => checked(left.checked_sub(right)),
        BinaryOp::Multiply => checked(left.checked_mul(right)),
        BinaryOp::Divide => {
            if right == 0 {
                Err(RuntimeError::new("division by zero"))
            } else {
                checked(left.checked_div(right))
            }
        },
        BinaryOp::Remainder => {
            if right == 0 {
                Err(RuntimeError::new("division by zero"))
            } else {
                checked(left.checked_rem(right))
            }
        },
        BinaryOp::Less => Ok(IntValue::Bool(left < right)),
        BinaryOp::LessEqual => Ok(IntValue::Bool(left <= right)),
        BinaryOp::Greater => Ok(IntValue::Bool(left > right)),
        _ => Ok(IntValue::Bool(left >= right)),
    }
}

/// Integer arithmetic, in terms of the mathematical integers: a sum,
/// difference or product is that number when it fits in an `Int` and an
/// overflow error otherwise; comparisons compare; dividing by zero is an
/// error; and a quotient and remainder that exist make up the dividend, the
/// remainder smaller than the divisor and of the dividend's sign, while the
/// one quotient that does not fit (`i64::MIN / -1`) is an overflow.
pub proof fn lemma_int_arithmetic(left: i64, right: i64)
    ensures
        int_op(left, BinaryOp::Add, right) == if i64::MIN <= left + right <= i64::MAX {
            Ok::<IntValue, Seq<char>>(IntValue::Int((left + right) as i64))
        } else {
            Err::<IntValue, Seq<char>>("integer overflow"@)
        },
        int_op(left, BinaryOp::Subtract, right) == if i64::MIN <= left - right <= i64::MAX {
            Ok::<IntValue, Seq<char>>(IntValue::Int((left - right) as i64))
        } else {
            Err::<IntValue, Seq<char>>("integer overflow"@)
        },
        int_op(left, BinaryOp::Multiply, right) == if i64::MIN <= left * right <= i64::MAX {
            Ok::<IntValue, Seq<char>>(IntValue::Int((left * right) as i64))
        } else {
            Err::<IntValue, Seq<char>>("integer overflow"@)
        },
        int_op(left, BinaryOp::Less, right) == Ok::<IntValue, Seq<char>>(IntValue::Bool(left < right)),
        int_op(left, BinaryOp::LessEqual, right) == Ok::<IntValue, Seq<char>>(
            IntValue::Bool(left <= right),
        ),
        int_op(left, BinaryOp::Greater, right) == Ok::<IntValue, Seq<char>>(IntValue::Bool(left > right)),
        int_op(left, BinaryOp::GreaterEqual, right) == Ok::<IntValue, Seq<char>>(
            IntValue::Bool(left >= right),
        ),
        right == 0 ==> int_op(left, BinaryOp::Divide, right) == Err::<IntValue, Seq<char>>(
            "division by zero"@,
        ) && int_op(left, BinaryOp::Remainder, right) == Err::<IntValue, Seq<char>>(
            "division by zero"@,
        ),
        right != 0 && !(left == i64::MIN && right == -1) ==> (int_op(left, BinaryOp::Divide, right) matches Ok(IntValue::Int(q))
            && int_op(left, BinaryOp::Remainder, right) matches Ok(IntValue::Int(m)) && q * right + m
            == left && (if m < 0 { -m } else { m as int }) < (if right < 0 { -right } else { right as int })
            && (m == 0 || (m < 0) == (left < 0))),
        left == i64::MIN && right == -1 ==> int_op(left, BinaryOp::Divide, right) == Err::<
            IntValue,
            Seq<char>,
        >("integer overflow"@) && int_op(left, BinaryOp::Remainder, right) == Err::<
            IntValue,
            Seq<char>,
        >("integer overflow"@),
{
    if right != 0 && !(left == i64::MIN && right == -1) {
        lemma_division_parts(left as int, right as int);
    }
}

proof fn lemma_division_parts(x: int, d: int)
    requires
        d != 0,
        i64::MIN <= x <= i64::MAX,
        i64::MIN <= d <= i64::MAX,
        !(x == i64::MIN && d == -1),
    ensures
        ({
            let q = if x == 0 {
                0
            } else if x > 0 && d > 0 {
                x / d
            } else if x < 0 && d < 0 {
                (x * -1) / (d * -1)
            } else if x < 0 {
                ((x * -1) / d) * -1
            } else {
                (x / (d * -1)) * -1
            };
            let m = if x == 0 {
                0
            } else if x > 0 && d > 0 {
                x % d
            } else if x < 0 && d < 0 {
                ((x * -1) % (d * -1)) * -1
            } else if x < 0 {
                ((x * -1) % d) * -1
            } else {
                x % (d * -1)
            };
            &&& i64::MIN <= q <= i64::MAX
            &&& i64::MIN <= m <= i64::MAX
            &&& q * d + m == x
            &&& (if m < 0 { -m } else { m }) < (if d < 0 { -d } else { d })
            &&& (m == 0 || (m < 0) == (x < 0))
        }),
{
    if x > 0 && d > 0 {
        vstd::arithmetic::div_mod::lemma_fundamental_div_mod(x, d);
        vstd::arithmetic::div_mod::lemma_mod_bound(x, d);
        vstd::arithmetic::div_mod::lemma_div_pos_is_pos(x, d);
        vstd::arithmetic::div_mod::lemma_div_is_ordered_by_denominator(x, 1, d);
    } else if x < 0 && d < 0 {
        vstd::arithmetic::div_mod::lemma_fundamental_div_mod(-x, -d);
        vstd::arithmetic::div_mod::lemma_mod_bound(-x, -d);
        vstd::arithmetic::div_mod::lemma_div_pos_is_pos(-x, -d);
        vstd::arithmetic::div_mod::lemma_div_is_ordered_by_denominator(-x, 1, -d);
        assert((x * -1) == -x);
        assert((d * -1) == -d);
        assert(((-x) / (-d)) * d + ((-x) % (-d)) * -1 == x) by (nonlinear_arith)
            requires
                -x == (-d) * ((-x) / (-d)) + (-x) % (-d),
        ;
    } else if x < 0 {
        vstd::arithmetic::div_mod::lemma_fundamental_div_mod(-x, d);
        vstd::arithmetic::div_mod::lemma_mod_bound(-x, d);
        vstd::arithmetic::div_mod::lemma_div_pos_is_pos(-x, d);
        vstd::arithmetic::div_mod::lemma_div_is_ordered_by_denominator(-x, 1, d);
        assert((x * -1) == -x);
        assert((((-x) / d) * -1) * d + ((-x) % d) * -1 == x) by (nonlinear_arith)
            requires
                -x == d * ((-x) / d) + (-x) % d,
        ;
    } else if x > 0 {
        vstd::arithmetic::div_mod::lemma_fundamental_div_mod(x, -d);
        vstd::arithmetic::div_mod::lemma_mod_bound(x, -d);
        vstd::arithmetic::div_mod::lemma_div_pos_is_pos(x, -d);
        vstd::arithmetic::div_mod::lemma_div_is_ordered_by_denominator(x, 1, -d);
        assert((d * -1) == -d);
        assert(((x / (-d)) * -1) * d + x % (-d) == x) by (nonlinear_arith)
            requires
                x == (-d) * (x / (-d)) + x % (-d),
        ;
    }
}

/// Integer negation, an error where it overflows.
pub fn negate_int(value: i64) -> (r: Result<i64, RuntimeError>)
    ensures
        r matches Ok(v) ==> value != i64::MIN && v == -value,
        r matches Err(e) ==> value == i64::MIN && e.message@ == "integer overflow"@,
{
    if value == i64::MIN {
        Err(RuntimeError::new("integer overflow"))
    } else {
        Ok(-value)
    }
}

// ---------------------------------------------------------------------------
// Indexes and slices; a negative index counts from the end.
// ---------------------------------------------------------------------------
/// The position `index` refers to in a collection of `len` items.
pub open spec fn from_end(index: int, len: int) -> int {
    if index < 0 {
        len + index
    } else {
        index
    }
}

/// The item position `index` refers to, if it is in bounds.
pub fn safe_index(index: i64, len: usize) -> (r: Option<usize>)
    ensures
        r matches Some(i) ==> len <= i64::MAX && i == from_end(index as int, len as int) && i < len,
        r is None ==> len > i64::MAX || !(0 <= from_end(index as int, len as int) < len),
{
    if len as u64 > i64::MAX as u64 {
        return None;
    }
    let n = len as i64;
    let normalized = if index < 0 {
        n + index
    } else {
        index
    };
    if normalized < 0 || normalized >= n {
        return None;
    }
    Some(normalized as usize)
}

pub open spec fn out_of_bounds_msg(what: Seq<char>, index: i64, len: usize) -> Seq<char> {
    what + " "@ + int_text(index as int) + " is out of bounds for length "@ + decimal_text(len as nat)
}

fn out_of_bounds(what: &str, index: i64, len: usize) -> (e: RuntimeError)
    ensures
        e.message@ == out_of_bounds_msg(what@, index, len),
{
    let mut m = chars_of(what);
    push_str(&mut m, " ");
    push_int(&mut m, index);
    push_str(&mut m, " is out of bounds for length ");
    push_decimal(&mut m, len as u64);
    runtime_error(&m)
}

/// A slice bound: from `0` to `len` when the end is allowed, else to
/// `len - 1`, or `0` for an empty collection.
pub fn normalize_slice_bound(index: i64, len: usize, allow_end: bool) -> (r: Result<usize, RuntimeError>)
    ensures
        len > i64::MAX ==> (r matches Err(e) && e.message@ == "collection too large"@),
        len <= i64::MAX ==> {
            let n = from_end(index as int, len as int);
            let upper = if allow_end {
                len as int
            } else if len > 0 {
                len - 1
            } else {
                0
            };
            &&& (0 <= n <= upper) ==> r == Ok::<usize, RuntimeError>(n as usize)
            &&& !(0 <= n <= upper) ==> (r matches Err(e) && e.message@ == out_of_bounds_msg(
                "slice bound"@,
                index,
                len,
            ))
        },
{
    if len as u64 > i64::MAX as u64 {
        return Err(RuntimeError::new("collection too large"));
    }
    let n = len as i64;
    let normalized = if index < 0 {
        n + index
    } else {
        index
    };
    let upper = if allow_end {
        n
    } else if n > 0 {
        n - 1
    } else {
        0
    };
    if normalized < 0 || normalized > upper {
        return Err(out_of_bounds("slice bound", index, len));
    }
    Ok(normalized as usize)
}

/// The positions `start..end` of a slice of a collection of `len` items,
/// `end` included when `inclusive`, or why there is none: a bound outside
/// the collection (the start first), or a start after the end.
pub open spec fn slice_bounds(start: i64, end: i64, len: usize, inclusive: bool) -> Result<
    (int, int),
    Seq<char>,
> {
    let s = from_end(start as int, len as int);
    let e = from_end(end as int, len as int);
    let k: int = if inclusive {
        1
    } else {
        0
    };
    let last: int = if !inclusive {
        len as int
    } else if len > 0 {
        len - 1
    } else {
        0
    };
    if len > i64::MAX {
        Err("collection too large"@)
    } else if !(0 <= s <= len) {
        Err(out_of_bounds_msg("slice bound"@, start, len))
    } else if !(0 <= e <= last) {
        Err(out_of_bounds_msg("slice bound"@, end, len))
    } else if s > e + k {
        Err("slice start must not exceed slice end"@)
    } else {
        Ok((s, e + k))
    }
}

/// The positions `start..end` of a slice, `end` included when `inclusive`;
/// on success `start <= end <= len`, except that an inclusive end of an empty
/// collection gives `0..1`.
pub fn normalize_slice_bounds(start: i64, end: i64, len: usize, inclusive: bool) -> (r: Result<
    (usize, usize),
    RuntimeError,
>)
    ensures
        match r {
            Ok((s, e)) => slice_bounds(start, end, len, inclusive) == Ok::<(int, int), Seq<char>>(
                (s as int, e as int),
            ),
            Err(x) => slice_bounds(start, end, len, inclusive) == Err::<(int, int), Seq<char>>(
                x.message@,
            ),
        },
        r matches Ok((s, e)) ==> s <= e && (e <= len || (len == 0 && inclusive && s == 0 && e == 1)),
{
    let s = match normalize_slice_bound(start, len, true) {
        Ok(s) => s,
        Err(e) => return Err(e),
    };
    let mut e = match normalize_slice_bound(end, len, !inclusive) {
        Ok(e) => e,
        Err(x) => return Err(x),
    };
    if inclusive {
        e = e + 1;
    }
    if s > e {
        return Err(RuntimeError::new("slice start must not exceed slice end"));
    }
    Ok((s, e))
}

/// The item position `index` refers to, or an out-of-bounds error.
pub fn normalize_index(index: i64, len: usize) -> (r: Result<usize, RuntimeError>)
    ensures
        len > i64::MAX ==> (r matches Err(e) && e.message@ == "collection too large"@),
        len <= i64::MAX && 0 <= from_end(index as int, len as int) < len ==> r == Ok::<
            usize,
            RuntimeError,
        >(from_end(index as int, len as int) as usize),
        len <= i64::MAX && !(0 <= from_end(index as int, len as int) < len) ==> (r matches Err(e)
            && e.message@ == out_of_bounds_msg("index"@, index, len)),
{
    if len as u64 > i64::MAX as u64 {
        return Err(RuntimeError::new("collection too large"));
    }
    let n = len as i64;
    let normalized = if index < 0 {
        n + index
    } else {
        index
    };
    if normalized < 0 || normalized >= n {
        return Err(out_of_bounds("index", index, len));
    }
    Ok(normalized as usize)
}

/// A count as an `Int`, if it fits.
pub fn usize_to_int(value: usize) -> (r: Result<i64, RuntimeError>)
    ensures
        value <= i64::MAX ==> r == Ok::<i64, RuntimeError>(value as i64),
        value > i64::MAX ==> (r matches Err(e) && e.message@ == "value exceeds Int range"@),
{
    if value as u64 > i64::MAX as u64 {
        Err(RuntimeError::new("value exceeds Int range"))
    } else {
        Ok(value as i64)
    }
}

// ---------------------------------------------------------------------------
// List patterns, ranges and cursors.
// ---------------------------------------------------------------------------
pub open spec fn list_shape_msg(fixed: nat, has_rest: bool, values: nat) -> Seq<char> {
    "list destructuring expects "@ + decimal_text(fixed) + " values"@ + (if has_rest {
        " or more"@
    } else {
        Seq::<char>::empty()
    }) + ", got "@ + decimal_text(values)
}

/// Whether a list pattern of `patterns` items, the last a rest pattern when
/// `has_rest`, fits a list of `values` items: the number of fixed patterns
/// when it does, else the error that says what it expected.
pub fn list_pattern_shape(patterns: usize, has_rest: bool, values: usize) -> (r: Result<
    usize,
    RuntimeError,
>)
    ensures
        ({
            let fixed: int = if has_rest && patterns > 0 {
                patterns - 1
            } else {
                patterns as int
            };
            &&& r is Ok <==> (if has_rest {
                values >= fixed
            } else {
                values == fixed
            })
            &&& r matches Ok(f) ==> f == fixed
            &&& r matches Err(e) ==> e.message@ == list_shape_msg(fixed as nat, has_rest, values as nat)
        }),
{
    let fixed = if has_rest && patterns > 0 {
        patterns - 1
    } else {
        patterns
    };
    if (!has_rest && fixed != values) || (has_rest && values < fixed) {
        let mut m = chars_of("list destructuring expects ");
        push_decimal(&mut m, fixed as u64);
        push_str(&mut m, " values");
        if has_rest {
            push_str(&mut m, " or more");
        }
        push_str(&mut m, ", got ");
        push_decimal(&mut m, values as u64);
        proof {
            let ghost fixed_n = fixed as nat;
            assert(m@ =~= list_shape_msg(fixed_n, has_rest, values as nat));
        }
        return Err(runtime_error(&m));
    }
    Ok(fixed)
}

/// The integers from `start` up to `end`, `end` included when `inclusive`.
pub fn int_range(start: i64, end: i64, inclusive: bool) -> (r: Vec<i64>)
    requires
        (end - start + if inclusive {
            1int
        } else {
            0int
        }) <= usize::MAX,
    ensures
        ({
            let count: int = end - start + if inclusive {
                1int
            } else {
                0int
            };
            &&& r@.len() == if count > 0 {
                count
            } else {
                0
            }
            &&& forall|i: int| 0 <= i < r@.len() ==> #[trigger] r@[i] == start + i
        }),
{
    let mut out: Vec<i64> = Vec::new();
    if start > end || (start == end && !inclusive) {
        return out;
    }
    let mut v = start;
    loop
        invariant
            start <= v <= end,
            out@.len() == v - start,
            forall|i: int| 0 <= i < out@.len() ==> #[trigger] out@[i] == start + i,
            (end - start + if inclusive {
                1int
            } else {
                0int
            }) <= usize::MAX,
            !inclusive ==> v < end,
        decreases end - v,
    {
        out.push(v);
        if v == end || (!inclusive && v + 1 == end) {
            return out;
        }
        v = v + 1;
    }
}

/// The position `offset` items after `position`, if it holds an item of a
/// sequence of `len` items.
pub fn cursor_peek_index(position: usize, offset: usize, len: usize) -> (r: Option<usize>)
    ensures
        r matches Some(i) ==> i == position + offset && i < len,
        r is None ==> position + offset >= len,
{
    if offset >= len || position >= len - offset {
        None
    } else {
        Some(position + offset)
    }
}

/// The position `count` items after `position`, stopping at the end `len`.
pub fn cursor_advance(position: usize, count: usize, len: usize) -> (r: usize)
    ensures
        r == if position + count <= len {
            (position + count) as int
        } else {
            len as int
        },
{
    if count > len || position > len - count {
        len
    } else {
        position + count
    }
}

/// Among match lengths, the first of the longest: the index of the first
/// `Some` whose length no other exceeds, or `None` when nothing matched.
pub fn longest_match(lengths: &Vec<Option<usize>>) -> (r: Option<usize>)
    ensures
        r is None <==> forall|j: int| 0 <= j < lengths@.len() ==> (#[trigger] lengths@[j]) is None,
        r matches Some(i) ==> i < lengths@.len() && lengths@[i as int] is Some && (forall|j: int|
            0 <= j < lengths@.len() && (#[trigger] lengths@[j]) is Some ==> lengths@[j]->0
                <= lengths@[i as int]->0) && (forall|j: int|
            0 <= j < i && (#[trigger] lengths@[j]) is Some ==> lengths@[j]->0 < lengths@[i as int]->0),
{
    let mut best: Option<usize> = None;
    let mut k: usize = 0;
    while k < lengths.len()
        invariant
            k <= lengths@.len(),
            best is None <==> forall|j: int| 0 <= j < k ==> (#[trigger] lengths@[j]) is None,
            best matches Some(i) ==> i < k && lengths@[i as int] is Some && (forall|j: int|
                0 <= j < k && (#[trigger] lengths@[j]) is Some ==> lengths@[j]->0
                    <= lengths@[i as int]->0) && (forall|j: int|
                0 <= j < i && (#[trigger] lengths@[j]) is Some ==> lengths@[j]->0
                    < lengths@[i as int]->0),
        decreases lengths.len() - k,
    {
        if let Some(len) = lengths[k] {
            let better = match best {
                None => true,
                Some(i) => match lengths[i] {
                    Some(b) => len > b,
                    None => true,
                },
            };
            if better {
                best = Some(k);
            }
        }
        k = k + 1;
    }
    best
}

// ---------------------------------------------------------------------------
// Calls, patterns and type contracts.
// ---------------------------------------------------------------------------
pub open spec fn arity_msg(name: Seq<char>, expected: usize, actual: usize) -> Seq<char> {
    name + " expects "@ + decimal_text(expected as nat) + " argument"@ + (if expected == 1 {
        Seq::<char>::empty()
    } else {
        "s"@
    }) + ", got "@ + decimal_text(actual as nat)
}

/// Checks that a function got the number of arguments it takes.
pub fn require_arity(name: &str, expected: usize, actual: usize) -> (r: Result<(), RuntimeError>)
    ensures
        r is Ok <==> expected == actual,
        r matches Err(e) ==> e.message@ == arity_msg(name@, expected, actual),
{
    if expected == actual {
        return Ok(());
    }
    let mut m = chars_of(name);
    push_str(&mut m, " expects ");
    push_decimal(&mut m, expected as u64);
    push_str(&mut m, " argument");
    if expected != 1 {
        push_str(&mut m, "s");
    }
    push_str(&mut m, ", got ");
    push_decimal(&mut m, actual as u64);
    assert(m@ =~= arity_msg(name@, expected, actual));
    Err(runtime_error(&m))
}

/// A `when` pattern name binds the subject when it starts with `_` or a
/// lowercase letter.
pub fn is_binding_pattern_name(name: &str) -> (r: bool)
    ensures
        r == (name@.len() > 0 && (name@[0] == '_' || char_lowercase(name@[0]))),
{
    let cs = chars_of(name);
    if cs.len() == 0 {
        return false;
    }
    let c = cs[0];
    c == '_' || is_lowercase(c)
}

/// The base type and whether `null` is accepted: `T?` is `T` or `null`.
pub open spec fn split_nullable(expected: Seq<char>) -> (Seq<char>, bool) {
    if expected.len() > 0 && expected.last() == '?' {
        (expected.drop_last(), true)
    } else {
        (expected, false)
    }
}

/// Whether a value whose type is named `actual` meets the annotation
/// `expected`; `is_record` says that the value is a record, named by its data
/// type rather than by a built-in type.
pub open spec fn type_accepts(expected: Seq<char>, actual: Seq<char>, is_record: bool) -> bool {
    let (base, nullable) = split_nullable(expected);
    if nullable && !is_record && actual == "Null"@ {
        true
    } else if base == "Any"@ {
        true
    } else if base == "Number"@ {
        !is_record && (actual == "Int"@ || actual == "Float"@)
    } else {
        actual == base
    }
}

/// A nullable annotation `T?` accepts what `T` accepts, and also `null`
/// unless the value is a record, and nothing else; any other type name is met
/// by exactly the values of that name, and every value meets `Any`.
pub proof fn lemma_nullable_annotations(t: Seq<char>, actual: Seq<char>, is_record: bool)
    requires
        t.len() == 0 || t.last() != '?',
    ensures
        type_accepts(t, actual, is_record) ==> type_accepts(t.push('?'), actual, is_record),
        type_accepts(t.push('?'), "Null"@, false),
        t != "Any"@ && t != "Number"@ ==> type_accepts(t, t, is_record),
        t != "Any"@ && t != "Number"@ ==> type_accepts(t.push('?'), t, is_record),
        type_accepts("Any"@, actual, is_record),
        type_accepts("Number"@, actual, is_record) <==> (!is_record && (actual == "Int"@ || actual
            == "Float"@)),
        t != "Any"@ && t != "Number"@ ==> (type_accepts(t, actual, is_record) <==> actual == t),
        type_accepts(t.push('?'), actual, is_record) <==> ((!is_record && actual == "Null"@)
            || type_accepts(t, actual, is_record)),
{
    assert(t.push('?').drop_last() =~= t);
    assert(t.push('?').last() == '?');
    reveal_strlit("Any");
    reveal_strlit("Number");
    reveal_strlit("Null");
}

pub open spec fn type_msg(name: Seq<char>, expected: Seq<char>, actual: Seq<char>) -> Seq<char> {
    "'"@ + name + "' expects "@ + expected + ", got "@ + actual
}

/// Checks a value, given by its type name and whether it is a record, against
/// a type annotation.
pub fn require_type(name: &str, expected: &str, actual: &str, is_record: bool) -> (r: Result<
    (),
    RuntimeError,
>)
    ensures
        r is Ok <==> type_accepts(expected@, actual@, is_record),
        r matches Err(e) ==> e.message@ == type_msg(name@, expected@, actual@),
{
    let ex = chars_of(expected);
    let act = chars_of(actual);
    let nullable = ex.len() > 0 && ex[ex.len() - 1] == '?';
    let base = if nullable {
        crate::text::chars_range(&ex, 0, ex.len() - 1)
    } else {
        crate::text::chars_range(&ex, 0, ex.len())
    };
    proof {
        assert(ex@.subrange(0, ex@.len() as int) =~= ex@);
        if nullable {
            assert(ex@.subrange(0, ex@.len() - 1) =~= ex@.drop_last());
        }
    }
    let accepted = if nullable && !is_record && chars_eq_str(&act, "Null") {
        true
    } else if chars_eq_str(&base, "Any") {
        true
    } else if chars_eq_str(&base, "Number") {
        !is_record && (chars_eq_str(&act, "Int") || chars_eq_str(&act, "Float"))
    } else {
        crate::text::chars_eq(&act, &base)
    };
    if accepted {
        return Ok(());
    }
    let mut m = chars_of("'");
    push_str(&mut m, name);
    push_str(&mut m, "' expects ");
    push_str(&mut m, expected);
    push_str(&mut m, ", got ");
    push_str(&mut m, actual);
    Err(runtime_error(&m))
}

} // verus!
