//! Dynamically typed values: the contents of a machine's memory, of enum
//! rules and of conditions.
use std::cmp::Ordering;
use vstd::arithmetic::power2::{
    lemma2_to64, lemma_pow2_pos, lemma_pow2_strictly_increases, lemma_pow2_unfold, pow2,
};
use vstd::prelude::*;
use vstd::std_specs::vec::axiom_vec_index_decreases;

verus! {

broadcast use vstd::std_specs::vec::group_vec_axioms, vstd::seq::group_seq_axioms;

/// A JSON number, held as a non-negative integer, a negative integer or the
/// bit pattern of an IEEE-754 double.
#[derive(Clone, Copy, Debug, PartialEq, Eq, Structural)]
pub enum JsonNumber {
    PosInt(u64),
    NegInt(i64),
    Float(u64),
}

/// A dynamically typed value.
#[derive(Debug)]
pub enum JsonValue {
    Null,
    Bool(bool),
    Number(JsonNumber),
    String(String),
    Array(Vec<JsonValue>),
    /// Members in key order, each key once.
    Object(Vec<(String, JsonValue)>),
}

/// The type tag of a value, as `type_check` rules name it.
#[derive(Clone, Copy, Debug, PartialEq, Eq, Structural)]
pub enum JsonType {
    Null,
    Boolean,
    Number,
    String,
    Array,
    Object,
}

pub open spec fn type_of(v: JsonValue) -> JsonType {
    match v {
        JsonValue::Null => JsonType::Null,
        JsonValue::Bool(_) => JsonType::Boolean,
        JsonValue::Number(_) => JsonType::Number,
        JsonValue::String(_) => JsonType::String,
        JsonValue::Array(_) => JsonType::Array,
        JsonValue::Object(_) => JsonType::Object,
    }
}

/// The runtime type tag of a value.
pub fn get_type_name(v: &JsonValue) -> (r: JsonType)
    ensures
        r == type_of(*v),
{
    match v {
        JsonValue::Null => JsonType::Null,
        JsonValue::Bool(_) => JsonType::Boolean,
        JsonValue::Number(_) => JsonType::Number,
        JsonValue::String(_) => JsonType::String,
        JsonValue::Array(_) => JsonType::Array,
        JsonValue::Object(_) => JsonType::Object,
    }
}

/// Number equality as JSON values have it: integers with integers by value,
/// doubles with doubles by value (so `0.0` equals `-0.0`), never an integer
/// with a double.
pub open spec fn same_number(a: JsonNumber, b: JsonNumber) -> bool {
    a == b || (a is Float && b is Float && a->Float_0 % SIGN_BIT == 0 && b->Float_0 % SIGN_BIT == 0)
}

/// Decides [`same_number`].
pub fn numbers_equal(a: JsonNumber, b: JsonNumber) -> (r: bool)
    ensures
        r == same_number(a, b),
{
    match (a, b) {
        (JsonNumber::Float(x), JsonNumber::Float(y)) => x == y || (x % SIGN_BIT == 0 && y % SIGN_BIT
            == 0),
        _ => a == b,
    }
}

/// Value equality: numbers by [`same_number`], strings by characters, arrays
/// element by element, objects member by member.
pub open spec fn json_equal(a: JsonValue, b: JsonValue) -> bool
    decreases a,
{
    match a {
        JsonValue::Null => b is Null,
        JsonValue::Bool(x) => b is Bool && b->Bool_0 == x,
        JsonValue::Number(x) => b is Number && same_number(x, b->Number_0),
        JsonValue::String(x) => b is String && b->String_0@ == x@,
        JsonValue::Array(x) => b is Array && elements_equal(x@, b->Array_0@),
        JsonValue::Object(x) => b is Object && members_equal(x@, b->Object_0@),
    }
}

/// Two sequences of values that are pairwise [`json_equal`].
pub open spec fn elements_equal(xs: Seq<JsonValue>, ys: Seq<JsonValue>) -> bool
    decreases xs,
{
    if xs.len() == 0 {
        ys.len() == 0
    } else {
        &&& ys.len() == xs.len()
        &&& json_equal(xs[0], ys[0])
        &&& elements_equal(xs.drop_first(), ys.drop_first())
    }
}

/// Two member lists with equal keys and [`json_equal`] values, position by position.
pub open spec fn members_equal(xs: Seq<(String, JsonValue)>, ys: Seq<(String, JsonValue)>) -> bool
    decreases xs,
{
    if xs.len() == 0 {
        ys.len() == 0
    } else {
        &&& ys.len() == xs.len()
        &&& xs[0].0@ == ys[0].0@
        &&& json_equal(xs[0].1, ys[0].1)
        &&& members_equal(xs.drop_first(), ys.drop_first())
    }
}

/// [`elements_equal`] compares position by position.
pub proof fn lemma_elements_equal(xs: Seq<JsonValue>, ys: Seq<JsonValue>)
    ensures
        elements_equal(xs, ys) <==> (xs.len() == ys.len() && forall|i: int|
            0 <= i < xs.len() ==> #[trigger] json_equal(xs[i], ys[i])),
    decreases xs.len(),
{
    if xs.len() > 0 && ys.len() == xs.len() {
        lemma_elements_equal(xs.drop_first(), ys.drop_first());
        if forall|i: int| 0 <= i < xs.len() ==> #[trigger] json_equal(xs[i], ys[i]) {
            assert forall|i: int| 0 <= i < xs.len() - 1 implies #[trigger] json_equal(
                xs.drop_first()[i],
                ys.drop_first()[i],
            ) by {
                assert(json_equal(xs[i + 1], ys[i + 1]));
            }
            assert(json_equal(xs[0], ys[0]));
            assert(elements_equal(xs, ys));
        }
        if elements_equal(xs, ys) {
            assert forall|i: int| 0 <= i < xs.len() implies #[trigger] json_equal(xs[i], ys[i]) by {
                if i > 0 {
                    assert(json_equal(xs.drop_first()[i - 1], ys.drop_first()[i - 1]));
                }
            }
        }
    }
}

/// Keys at equal positions have equal characters.
pub open spec fn keys_match(xs: Seq<(String, JsonValue)>, ys: Seq<(String, JsonValue)>, n: int) -> bool {
    forall|i: int| 0 <= i < n ==> #[trigger] xs[i].0@ == ys[i].0@
}

/// Values at equal positions are [`json_equal`].
pub open spec fn values_match(xs: Seq<(String, JsonValue)>, ys: Seq<(String, JsonValue)>, n: int) -> bool {
    forall|i: int| 0 <= i < n ==> #[trigger] json_equal(xs[i].1, ys[i].1)
}

/// [`members_equal`] compares position by position.
pub proof fn lemma_members_equal(xs: Seq<(String, JsonValue)>, ys: Seq<(String, JsonValue)>)
    ensures
        members_equal(xs, ys) <==> (xs.len() == ys.len() && keys_match(xs, ys, xs.len() as int)
            && values_match(xs, ys, xs.len() as int)),
    decreases xs.len(),
{
    if xs.len() > 0 && ys.len() == xs.len() {
        let (xt, yt) = (xs.drop_first(), ys.drop_first());
        lemma_members_equal(xt, yt);
        if keys_match(xs, ys, xs.len() as int) && values_match(xs, ys, xs.len() as int) {
            assert forall|i: int| 0 <= i < xt.len() implies #[trigger] xt[i].0@ == yt[i].0@ by {
                assert(xs[i + 1].0@ == ys[i + 1].0@);
            }
            assert forall|i: int| 0 <= i < xt.len() implies #[trigger] json_equal(xt[i].1, yt[i].1) by {
                assert(json_equal(xs[i + 1].1, ys[i + 1].1));
            }
            assert(xs[0].0@ == ys[0].0@);
            assert(json_equal(xs[0].1, ys[0].1));
        }
        if members_equal(xs, ys) {
            assert forall|i: int| 0 <= i < xs.len() implies #[trigger] xs[i].0@ == ys[i].0@ by {
                if i > 0 {
                    assert(xt[i - 1].0@ == yt[i - 1].0@);
                }
            }
            assert forall|i: int| 0 <= i < xs.len() implies #[trigger] json_equal(xs[i].1, ys[i].1) by {
                if i > 0 {
                    assert(json_equal(xt[i - 1].1, yt[i - 1].1));
                }
            }
        }
    }
}

/// Decides [`json_equal`].
pub fn values_equal(a: &JsonValue, b: &JsonValue) -> (r: bool)
    ensures
        r == json_equal(*a, *b),
    decreases a,
{
    match a {
        JsonValue::Null => match b {
            JsonValue::Null => true,
            _ => false,
        },
        JsonValue::Bool(x) => match b {
            JsonValue::Bool(y) => *x == *y,
            _ => false,
        },
        JsonValue::Number(x) => match b {
            JsonValue::Number(y) => numbers_equal(*x, *y),
            _ => false,
        },
        JsonValue::String(x) => match b {
            JsonValue::String(y) => *x == *y,
            _ => false,
        },
        JsonValue::Array(x) => match b {
            JsonValue::Array(y) => {
                if x.len() != y.len() {
                    proof {
                        lemma_elements_equal(x@, y@);
                    }
                    return false;
                }
                let mut i: usize = 0;
                while i < x.len()
                    invariant
                        *a == JsonValue::Array(*x),
                        *b == JsonValue::Array(*y),
                        x@.len() == y@.len(),
                        0 <= i <= x@.len(),
                        forall|j: int| 0 <= j < i ==> #[trigger] json_equal(x@[j], y@[j]),
                    decreases x@.len() - i,
                {
                    proof {
                        axiom_vec_index_decreases(a->Array_0, i as int);
                    }
                    if !values_equal(&x[i], &y[i]) {
                        proof {
                            lemma_elements_equal(x@, y@);
                        }
                        return false;
                    }
                    i = i + 1;
                }
                proof {
                    lemma_elements_equal(x@, y@);
                }
                true
            },
            _ => false,
        },
        JsonValue::Object(x) => match b {
            JsonValue::Object(y) => {
                if x.len() != y.len() {
                    proof {
                        lemma_members_equal(x@, y@);
                    }
                    return false;
                }
                let mut i: usize = 0;
                while i < x.len()
                    invariant
                        *a == JsonValue::Object(*x),
                        *b == JsonValue::Object(*y),
                        x@.len() == y@.len(),
                        0 <= i <= x@.len(),
                        keys_match(x@, y@, i as int),
                        values_match(x@, y@, i as int),
                    decreases x@.len() - i,
                {
                    proof {
                        axiom_vec_index_decreases(a->Object_0, i as int);
                        assert(decreases_to!(a->Object_0[i as int] => a->Object_0[i as int].1));
                    }
                    if !(x[i].0 == y[i].0) || !values_equal(&x[i].1, &y[i].1) {
                        proof {
                            lemma_members_equal(x@, y@);
                        }
                        return false;
                    }
                    i = i + 1;
                }
                proof {
                    lemma_members_equal(x@, y@);
                }
                true
            },
            _ => false,
        },
    }
}

/// 2^52: the weight of a double's lowest exponent bit.
pub const FRACTION_SPAN: u64 = 4503599627370496;

/// The sign bit of a double.
pub const SIGN_BIT: u64 = 9223372036854775808;

/// 2^53: integers below it are exactly doubles.
pub const DOUBLE_SPAN: u64 = 9007199254740992;

/// The smallest shift `s` (from `from` on) that brings `mag` below 2^53.
pub open spec fn shift_for(mag: nat, s: nat) -> nat
    decreases 64 - s,
{
    if s >= 64 || mag / pow2(s) < DOUBLE_SPAN {
        s
    } else {
        shift_for(mag, s + 1)
    }
}

/// The double nearest to the integer `mag` (ties to even), as a 53-bit
/// significand and a binary exponent.
pub open spec fn round_to_double(mag: nat) -> (nat, int) {
    if mag < DOUBLE_SPAN {
        (mag, 0)
    } else {
        let s = shift_for(mag, 1);
        let q = mag / pow2(s);
        let r = mag % pow2(s);
        let half = pow2((s - 1) as nat);
        (if r > half || (r == half && q % 2 == 1) {
            q + 1
        } else {
            q
        }, s as int)
    }
}

/// A double's bit pattern that is not a number.
pub open spec fn is_nan(n: JsonNumber) -> bool {
    n matches JsonNumber::Float(b) && (b / FRACTION_SPAN) % 2048 == 2047 && b % FRACTION_SPAN != 0
}

/// Sign, magnitude and binary exponent of a number as a double: its value is
/// `(-1)^negative * magnitude * 2^exponent`. An integer is first rounded to
/// the nearest double; a double is read as IEEE-754 binary64 describes it
/// (subnormals included, infinities above every finite value).
pub open spec fn parts(n: JsonNumber) -> (bool, nat, int) {
    match n {
        JsonNumber::PosInt(u) => (false, round_to_double(u as nat).0, round_to_double(u as nat).1),
        JsonNumber::NegInt(i) => {
            let m = (if i < 0 {
                -i
            } else {
                i as int
            }) as nat;
            (i < 0, round_to_double(m).0, round_to_double(m).1)
        },
        JsonNumber::Float(b) => {
            let biased = (b / FRACTION_SPAN) % 2048;
            let frac = b % FRACTION_SPAN;
            if biased == 0 {
                (b >= SIGN_BIT, frac as nat, -1074)
            } else {
                (b >= SIGN_BIT, (frac + FRACTION_SPAN) as nat, biased - 1075)
            }
        },
    }
}

/// -1, 0 or 1 as `a` is below, equal to or above `b`.
pub open spec fn cmp_int(a: int, b: int) -> int {
    if a < b {
        -1
    } else if a == b {
        0
    } else {
        1
    }
}

/// Compares `m1 * 2^e1` with `m2 * 2^e2`.
pub open spec fn magnitude_cmp(m1: nat, e1: int, m2: nat, e2: int) -> int {
    if e1 >= e2 {
        cmp_int((m1 * pow2((e1 - e2) as nat)) as int, m2 as int)
    } else {
        cmp_int(m1 as int, (m2 * pow2((e2 - e1) as nat)) as int)
    }
}

/// -1, 0 or 1: the sign of a number's value.
pub open spec fn sign_of(n: JsonNumber) -> int {
    if parts(n).1 == 0 {
        0
    } else if parts(n).0 {
        -1
    } else {
        1
    }
}

/// Compares two numbers as doubles: -1, 0 or 1 (NaN aside).
pub open spec fn number_cmp(a: JsonNumber, b: JsonNumber) -> int {
    if sign_of(a) != sign_of(b) {
        cmp_int(sign_of(a), sign_of(b))
    } else if sign_of(a) == 0 {
        0
    } else if sign_of(a) > 0 {
        magnitude_cmp(parts(a).1, parts(a).2, parts(b).1, parts(b).2)
    } else {
        magnitude_cmp(parts(b).1, parts(b).2, parts(a).1, parts(a).2)
    }
}

pub open spec fn ordering_of(c: int) -> Ordering {
    if c < 0 {
        Ordering::Less
    } else if c == 0 {
        Ordering::Equal
    } else {
        Ordering::Greater
    }
}

fn round_magnitude(mag: u64) -> (r: (u64, i32))
    ensures
        r.0 as nat == round_to_double(mag as nat).0,
        r.1 as int == round_to_double(mag as nat).1,
{
    if mag < DOUBLE_SPAN {
        return (mag, 0);
    }
    proof {
        lemma2_to64();
    }
    let mut s: u64 = 1;
    let mut p: u64 = 2;
    while mag / p >= DOUBLE_SPAN
        invariant
            1 <= s <= 11,
            p == pow2(s as nat),
            2 <= p <= 2048,
            pow2(11) == 2048,
            shift_for(mag as nat, 1) == shift_for(mag as nat, s as nat),
        decreases 11 - s,
    {
        proof {
            if s == 11 {
                assert(mag / 2048 < DOUBLE_SPAN);
            }
            lemma_pow2_unfold((s + 1) as nat);
            if s + 1 < 11 {
                lemma_pow2_strictly_increases((s + 1) as nat, 11);
            }
        }
        p = p * 2;
        s = s + 1;
    }
    let q = mag / p;
    let r = mag % p;
    proof {
        lemma_pow2_unfold(s as nat);
    }
    let half = p / 2;
    let m = if r > half || (r == half && q % 2 == 1) {
        q + 1
    } else {
        q
    };
    (m, s as i32)
}

fn number_parts(n: JsonNumber) -> (r: (bool, u64, i32))
    ensures
        r.0 == parts(n).0,
        r.1 as nat == parts(n).1,
        r.2 as int == parts(n).2,
{
    match n {
        JsonNumber::PosInt(u) => {
            let (m, e) = round_magnitude(u);
            (false, m, e)
        },
        JsonNumber::NegInt(i) => {
            let (m, e) = round_magnitude(
                if i < 0 {
                    (0 - (i as i128)) as u64
                } else {
                    i as u64
                },
            );
            (i < 0, m, e)
        },
        JsonNumber::Float(b) => {
            let biased = (b / FRACTION_SPAN) % 2048;
            let frac = b % FRACTION_SPAN;
            if biased == 0 {
                (b >= SIGN_BIT, frac, -1074)
            } else {
                (b >= SIGN_BIT, frac + FRACTION_SPAN, biased as i32 - 1075)
            }
        },
    }
}

fn ordering_from(a: u128, b: u128) -> (r: Ordering)
    ensures
        r == ordering_of(cmp_int(a as int, b as int)),
{
    if a < b {
        Ordering::Less
    } else if a == b {
        Ordering::Equal
    } else {
        Ordering::Greater
    }
}

/// Compares `m * 2^d` with `other`.
fn shifted_cmp(m: u64, d: u64, other: u64) -> (r: Ordering)
    ensures
        r == ordering_of(cmp_int((m * pow2(d as nat)) as int, other as int)),
{
    if m == 0 {
        return ordering_from(0, other as u128);
    }
    if d >= 64 {
        proof {
            lemma2_to64();
            if d > 64 {
                lemma_pow2_strictly_increases(64, d as nat);
            }
            assert(m * pow2(d as nat) >= pow2(d as nat)) by (nonlinear_arith)
                requires
                    m >= 1,
                    pow2(d as nat) > 0,
            ;
        }
        return Ordering::Greater;
    }
    let mut p: u128 = 1;
    let mut k: u64 = 0;
    proof {
        lemma2_to64();
    }
    while k < d
        invariant
            k <= d < 64,
            p == pow2(k as nat),
            pow2(64) == 0x10000000000000000,
        decreases d - k,
    {
        proof {
            lemma_pow2_unfold((k + 1) as nat);
            lemma_pow2_strictly_increases(k as nat, 64);
        }
        p = p * 2;
        k = k + 1;
    }
    proof {
        if d < 64 {
            lemma_pow2_strictly_increases(d as nat, 64);
        }
        assert((m as int) * (p as int) < 0x10000000000000000 * 0x10000000000000000) by (nonlinear_arith)
            requires
                m < 0x10000000000000000,
                p < 0x10000000000000000,
        ;
    }
    ordering_from((m as u128) * p, other as u128)
}

fn magnitude_order(m1: u64, e1: i32, m2: u64, e2: i32) -> (r: Ordering)
    ensures
        r == ordering_of(magnitude_cmp(m1 as nat, e1 as int, m2 as nat, e2 as int)),
{
    if e1 >= e2 {
        let d = (e1 as i64 - e2 as i64) as u64;
        shifted_cmp(m1, d, m2)
    } else {
        let d = (e2 as i64 - e1 as i64) as u64;
        match shifted_cmp(m2, d, m1) {
            Ordering::Less => Ordering::Greater,
            Ordering::Equal => Ordering::Equal,
            Ordering::Greater => Ordering::Less,
        }
    }
}

/// A copy of `v`, equal to it as a value.
pub fn copy_value(v: &JsonValue) -> (r: JsonValue)
    ensures
        json_equal(r, *v),
    decreases v,
{
    match v {
        JsonValue::Null => JsonValue::Null,
        JsonValue::Bool(b) => JsonValue::Bool(*b),
        JsonValue::Number(n) => JsonValue::Number(*n),
        JsonValue::String(s) => JsonValue::String(s.clone()),
        JsonValue::Array(x) => {
            let mut out: Vec<JsonValue> = Vec::new();
            let mut i: usize = 0;
            while i < x.len()
                invariant
                    *v == JsonValue::Array(*x),
                    0 <= i <= x@.len(),
                    out@.len() == i,
                    forall|j: int| 0 <= j < i ==> #[trigger] json_equal(out@[j], x@[j]),
                decreases x@.len() - i,
            {
                proof {
                    axiom_vec_index_decreases(v->Array_0, i as int);
                }
                let c = copy_value(&x[i]);
                out.push(c);
                i = i + 1;
            }
            proof {
                lemma_elements_equal(out@, x@);
            }
            JsonValue::Array(out)
        },
        JsonValue::Object(x) => {
            let mut out: Vec<(String, JsonValue)> = Vec::new();
            let mut i: usize = 0;
            while i < x.len()
                invariant
                    *v == JsonValue::Object(*x),
                    0 <= i <= x@.len(),
                    out@.len() == i,
                    keys_match(out@, x@, i as int),
                    values_match(out@, x@, i as int),
                decreases x@.len() - i,
            {
                proof {
                    axiom_vec_index_decreases(v->Object_0, i as int);
                    assert(decreases_to!(v->Object_0[i as int] => v->Object_0[i as int].1));
                }
                let c = copy_value(&x[i].1);
                out.push((x[i].0.clone(), c));
                i = i + 1;
            }
            proof {
                lemma_members_equal(out@, x@);
            }
            JsonValue::Object(out)
        },
    }
}

/// Decides [`is_nan`].
pub fn nan(n: JsonNumber) -> (r: bool)
    ensures
        r == is_nan(n),
{
    match n {
        JsonNumber::Float(b) => (b / FRACTION_SPAN) % 2048 == 2047 && b % FRACTION_SPAN != 0,
        _ => false,
    }
}

/// Orders two numbers as doubles (meaningful when neither is NaN).
pub fn compare_numbers(a: JsonNumber, b: JsonNumber) -> (r: Ordering)
    ensures
        r == ordering_of(number_cmp(a, b)),
{
    let (n1, m1, e1) = number_parts(a);
    let (n2, m2, e2) = number_parts(b);
    let s1: i8 = if m1 == 0 { 0 } else if n1 { -1 } else { 1 };
    let s2: i8 = if m2 == 0 { 0 } else if n2 { -1 } else { 1 };
    if s1 != s2 {
        ordering_from((s1 + 1) as u128, (s2 + 1) as u128)
    } else if s1 == 0 {
        Ordering::Equal
    } else if s1 > 0 {
        magnitude_order(m1, e1, m2, e2)
    } else {
        magnitude_order(m2, e2, m1, e1)
    }
}

/// The text of one decimal digit.
pub open spec fn digit_text(d: int) -> Seq<char> {
    if d == 0 { "0"@ } else if d == 1 { "1"@ } else if d == 2 { "2"@ } else if d == 3 { "3"@ }
    else if d == 4 { "4"@ } else if d == 5 { "5"@ } else if d == 6 { "6"@ } else if d == 7 { "7"@ }
    else if d == 8 { "8"@ } else { "9"@ }
}

fn digit_str(d: u64) -> (r: &'static str)
    requires
        d < 10,
    ensures
        r@ == digit_text(d as int),
{
    if d == 0 { "0" } else if d == 1 { "1" } else if d == 2 { "2" } else if d == 3 { "3" }
    else if d == 4 { "4" } else if d == 5 { "5" } else if d == 6 { "6" } else if d == 7 { "7" }
    else if d == 8 { "8" } else { "9" }
}

/// The decimal digits of `n`.
pub open spec fn decimal_text(n: nat) -> Seq<char>
    decreases n,
{
    if n < 10 {
        digit_text(n as int)
    } else {
        decimal_text(n / 10) + digit_text((n % 10) as int)
    }
}

/// Appends the decimal digits of `n`.
pub fn push_decimal(out: &mut String, n: u64)
    ensures
        final(out)@ == old(out)@ + decimal_text(n as nat),
    decreases n,
{
    if n >= 10 {
        push_decimal(out, n / 10);
    }
    out.append(digit_str(n % 10));
    assert(final(out)@ =~= old(out)@ + decimal_text(n as nat));
}

/// A number's magnitude and exponent with trailing zero bits of the
/// magnitude moved into a negative exponent.
pub open spec fn strip_twos(m: nat, e: int) -> (nat, int)
    decreases m,
{
    if m > 0 && m % 2 == 0 && e < 0 {
        strip_twos(m / 2, e + 1)
    } else {
        (m, e)
    }
}

/// The first `count` decimal digits of the fraction `r / 2^k`.
pub open spec fn fraction_digits(r: nat, k: nat, count: nat) -> Seq<char>
    decreases count,
{
    if count == 0 {
        Seq::empty()
    } else {
        digit_text(((r * 10) / pow2(k)) as int) + fraction_digits((r * 10) % pow2(k), k, (count - 1) as nat)
    }
}

/// The text of a number: integers in decimal; a double exactly in decimal
/// (with `.0` when it is a whole number below 2^64, with its full fraction
/// when that has at most 60 binary digits), else exactly as `m*2^e`; `NaN`,
/// `inf`, `-inf` for the special patterns.
pub open spec fn number_text(n: JsonNumber) -> Seq<char> {
    match n {
        JsonNumber::PosInt(u) => decimal_text(u as nat),
        JsonNumber::NegInt(i) => if i < 0 {
            "-"@ + decimal_text((-i) as nat)
        } else {
            decimal_text(i as nat)
        },
        JsonNumber::Float(b) => {
            let sign = if b >= SIGN_BIT { "-"@ } else { Seq::<char>::empty() };
            if is_nan(n) {
                "NaN"@
            } else if (b / FRACTION_SPAN) % 2048 == 2047 {
                sign + "inf"@
            } else {
                let (m, e) = strip_twos(parts(n).1, parts(n).2);
                if 0 <= e <= 11 {
                    sign + decimal_text(m * pow2(e as nat)) + ".0"@
                } else if e > 0 {
                    sign + decimal_text(m) + "*2^"@ + decimal_text(e as nat)
                } else if -e <= 60 {
                    let k = (-e) as nat;
                    sign + decimal_text(m / pow2(k)) + "."@ + fraction_digits(m % pow2(k), k, k)
                } else {
                    sign + decimal_text(m) + "*2^-"@ + decimal_text((-e) as nat)
                }
            }
        },
    }
}

/// Appends [`number_text`] of `n`.
pub fn push_number(out: &mut String, n: JsonNumber)
    ensures
        final(out)@ == old(out)@ + number_text(n),
{
    let ghost start = out@;
    match n {
        JsonNumber::PosInt(u) => push_decimal(out, u),
        JsonNumber::NegInt(i) => {
            if i < 0 {
                out.append("-");
                push_decimal(out, (0 - (i as i128)) as u64);
            } else {
                push_decimal(out, i as u64);
            }
        },
        JsonNumber::Float(b) => {
            if nan(n) {
                out.append("NaN");
                assert(out@ =~= start + number_text(n));
                return;
            }
            if b >= SIGN_BIT {
                out.append("-");
            }
            if (b / FRACTION_SPAN) % 2048 == 2047 {
                out.append("inf");
                assert(out@ =~= start + number_text(n));
                return;
            }
            let ghost signed = out@;
            let (_, m0, e0) = number_parts(n);
            let mut m: u64 = m0;
            let mut e: i32 = e0;
            while m > 0 && m % 2 == 0 && e < 0
                invariant
                    strip_twos(m0 as nat, e0 as int) == strip_twos(m as nat, e as int),
                    m <= m0,
                    e0 <= e <= 0 || (e == e0 && e0 > 0),
                decreases m,
            {
                m = m / 2;
                e = e + 1;
            }
            assert(strip_twos(m as nat, e as int) == (m as nat, e as int));
            assert(strip_twos(parts(n).1, parts(n).2) == (m as nat, e as int));
            if 0 <= e && e <= 11 {
                let mut v: u64 = m;
                let mut k: i32 = 0;
                proof {
                    lemma2_to64();
                    assert(pow2(0) == 1);
                    assert(m * pow2(0) == m) by (nonlinear_arith)
                        requires
                            pow2(0) == 1,
                    ;
                }
                while k < e
                    invariant
                        0 <= k <= e <= 11,
                        m < 0x20000000000000,
                        v == m * pow2(k as nat),
                        pow2(11) == 2048,
                    decreases e - k,
                {
                    proof {
                        lemma_pow2_unfold((k + 1) as nat);
                        if k + 1 < 11 {
                            lemma_pow2_strictly_increases((k + 1) as nat, 11);
                        }
                        let p = pow2(k as nat);
                        let p1 = pow2((k + 1) as nat);
                        assert(m * p1 < 0x20000000000000 * 2048 && m * p1 == m * p * 2) by (nonlinear_arith)
                            requires
                                m < 0x20000000000000,
                                p1 <= 2048,
                                p1 == 2 * p,
                        ;
                    }
                    v = v * 2;
                    k = k + 1;
                }
                push_decimal(out, v);
                out.append(".0");
            } else if e > 0 {
                push_decimal(out, m);
                out.append("*2^");
                push_decimal(out, e as u64);
            } else if e >= -60 {
                let k: u64 = (0 - e) as u64;
                let mut p: u64 = 1;
                let mut i: u64 = 0;
                proof {
                    lemma2_to64();
                    lemma_pow2_strictly_increases(60, 64);
                    vstd::arithmetic::power2::lemma_pow2_adds(60, 4);
                }
                while i < k
                    invariant
                        i <= k <= 60,
                        p == pow2(i as nat),
                        pow2(60) < pow2(64),
                        pow2(64) == 0x10000000000000000,
                    decreases k - i,
                {
                    proof {
                        lemma_pow2_unfold((i + 1) as nat);
                        if i + 1 < 60 {
                            lemma_pow2_strictly_increases((i + 1) as nat, 60);
                        }
                    }
                    p = p * 2;
                    i = i + 1;
                }
                proof {
                    if k < 60 {
                        lemma_pow2_strictly_increases(k as nat, 60);
                    }
                    lemma_pow2_pos(k as nat);
                }
                push_decimal(out, m / p);
                out.append(".");
                let ghost fixed = out@;
                let mut r: u64 = m % p;
                let mut left: u64 = k;
                while left > 0
                    invariant
                        p == pow2(k as nat),
                        0 < p <= pow2(60),
                        pow2(60) < pow2(64),
                        pow2(64) == 0x10000000000000000,
                        pow2(60) * 16 == pow2(64),
                        r < p,
                        left <= k,
                        out@ + fraction_digits(r as nat, k as nat, left as nat) == fixed
                            + fraction_digits((m % p) as nat, k as nat, k as nat),
                    decreases left,
                {
                    let ghost before = out@;
                    assert(r * 10 < 10 * p && 10 * p <= pow2(64)) by (nonlinear_arith)
                        requires
                            r < p,
                            p <= pow2(60),
                            pow2(60) * 16 == pow2(64),
                    ;
                    let t = r * 10;
                    assert(t / p < 10) by (nonlinear_arith)
                        requires
                            t < 10 * p,
                            p > 0,
                    ;
                    out.append(digit_str(t / p));
                    assert(out@ + fraction_digits((t % p) as nat, k as nat, (left - 1) as nat)
                        =~= before + fraction_digits(r as nat, k as nat, left as nat));
                    r = t % p;
                    left = left - 1;
                }
                assert(out@ =~= fixed + fraction_digits((m % p) as nat, k as nat, k as nat));
            } else {
                push_decimal(out, m);
                out.append("*2^-");
                push_decimal(out, (0 - e) as u64);
            }
        },
    }
    assert(out@ =~= start + number_text(n));
}

/// The text of a value in messages: `null`, `true`, `false`, a number as
/// [`number_text`] gives it, a string in double quotes; an array or an
/// object is shown as `[...]` or `{...}`.
pub open spec fn value_text(v: JsonValue) -> Seq<char> {
    match v {
        JsonValue::Null => "null"@,
        JsonValue::Bool(b) => if b { "true"@ } else { "false"@ },
        JsonValue::Number(n) => number_text(n),
        JsonValue::String(s) => "\""@ + s@ + "\""@,
        JsonValue::Array(_) => "[...]"@,
        JsonValue::Object(_) => "{...}"@,
    }
}

/// Appends [`value_text`] of `v`.
pub fn push_value(out: &mut String, v: &JsonValue)
    ensures
        final(out)@ == old(out)@ + value_text(*v),
{
    let ghost start = out@;
    match v {
        JsonValue::Null => out.append("null"),
        JsonValue::Bool(b) => out.append(if *b { "true" } else { "false" }),
        JsonValue::Number(n) => push_number(out, *n),
        JsonValue::String(s) => {
            out.append("\"");
            out.append(s.as_str());
            out.append("\"");
        },
        JsonValue::Array(_) => out.append("[...]"),
        JsonValue::Object(_) => out.append("{...}"),
    }
    assert(out@ =~= start + value_text(*v));
}

/// The text of a list of values: `[a, b, ...]`.
pub open spec fn values_text(vs: Seq<JsonValue>) -> Seq<char> {
    "["@ + values_joined(vs) + "]"@
}

/// The texts of `vs` joined by `, `.
pub open spec fn values_joined(vs: Seq<JsonValue>) -> Seq<char>
    decreases vs.len(),
{
    if vs.len() == 0 {
        Seq::empty()
    } else if vs.len() == 1 {
        value_text(vs[0])
    } else {
        values_joined(vs.drop_last()) + ", "@ + value_text(vs.last())
    }
}

/// The text of a value, as [`value_text`] gives it.
pub fn render_value(v: &JsonValue) -> (r: String)
    ensures
        r@ == value_text(*v),
{
    let mut out = String::new();
    push_value(&mut out, v);
    assert(out@ =~= value_text(*v));
    out
}

/// The text of a list of values, as [`values_text`] gives it.
pub fn render_values(vs: &Vec<JsonValue>) -> (r: String)
    ensures
        r@ == values_text(vs@),
{
    let mut out = String::new();
    out.append("[");
    let ghost head = out@;
    let mut i: usize = 0;
    while i < vs.len()
        invariant
            0 <= i <= vs@.len(),
            out@ == head + values_joined(vs@.subrange(0, i as int)),
        decreases vs@.len() - i,
    {
        if i > 0 {
            out.append(", ");
        }
        push_value(&mut out, &vs[i]);
        proof {
            let p = vs@.subrange(0, i + 1);
            assert(p.drop_last() =~= vs@.subrange(0, i as int));
        }
        i = i + 1;
    }
    out.append("]");
    assert(vs@.subrange(0, vs@.len() as int) =~= vs@);
    assert(out@ =~= values_text(vs@));
    out
}

} // verus!
