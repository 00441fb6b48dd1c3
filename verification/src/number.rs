//! Decimal numbers as they are written in a script, and their exact
//! conversion to whole ticks.

use vstd::prelude::*;
use vstd::arithmetic::div_mod::lemma_fundamental_div_mod_converse;
use vstd::string::*;
use crate::text::{
    copy_range, eq_ascii, lemma_prefix_len, lemma_prefix_len_bounds, prefix_len, same_name,
    string_of_range,
};

verus! {

/// Whether `c` is a decimal digit.
pub open spec fn is_digit(c: char) -> bool {
    '0' <= c && c <= '9'
}

/// The class of the decimal digits.
pub open spec fn digits() -> spec_fn(char) -> bool {
    |x: char| is_digit(x)
}

/// Whether `s` is made of decimal digits alone.
pub open spec fn all_digits(s: Seq<char>) -> bool {
    forall|i: int| 0 <= i < s.len() ==> is_digit(#[trigger] s[i])
}

/// The number that the digit `c` stands for.
pub open spec fn digit_value(c: char) -> nat {
    (c as u32 - '0' as u32) as nat
}

/// The number that the decimal digits `s` spell.
pub open spec fn dec_value(s: Seq<char>) -> nat
    decreases s.len(),
{
    if s.len() == 0 {
        0
    } else {
        10 * dec_value(s.drop_last()) + digit_value(s.last())
    }
}

/// Ten to the power `e`.
pub open spec fn pow10(e: nat) -> nat
    decreases e,
{
    if e == 0 {
        1
    } else {
        10 * pow10((e - 1) as nat)
    }
}

/// `n * 10^e`, rounded to the nearest whole number, halves upwards.
pub open spec fn round_scaled(n: nat, e: int) -> nat {
    if e >= 0 {
        n * pow10(e as nat)
    } else {
        (2 * n + pow10((-e) as nat)) / (2 * pow10((-e) as nat))
    }
}

/// A number as a script writes it.
pub ghost enum Number {
    /// The digits `digits` times ten to the power `exponent`, negated where
    /// `negative` is set.
    Finite { negative: bool, digits: Seq<char>, exponent: int },
    Infinite { negative: bool },
    NotANumber,
}

/// The text `inf`.
pub open spec fn kw_inf() -> Seq<char> {
    seq!['i', 'n', 'f']
}

/// The text `infinity`.
pub open spec fn kw_infinity() -> Seq<char> {
    seq!['i', 'n', 'f', 'i', 'n', 'i', 't', 'y']
}

/// The text `nan`.
pub open spec fn kw_nan() -> Seq<char> {
    seq!['n', 'a', 'n']
}

/// Whether `s` begins with a sign.
pub open spec fn has_sign(s: Seq<char>) -> bool {
    s.len() > 0 && (s[0] == '+' || s[0] == '-')
}

/// `s` without its sign, if it has one.
pub open spec fn unsigned(s: Seq<char>) -> Seq<char> {
    if has_sign(s) {
        s.skip(1)
    } else {
        s
    }
}

/// Whether `s` begins with a minus sign.
pub open spec fn is_negative(s: Seq<char>) -> bool {
    s.len() > 0 && s[0] == '-'
}

/// The exponent written in `s`: nothing stands for 0, and else the letter
/// `e` in either case, an optional sign, and at least one digit.
pub open spec fn parse_exponent(s: Seq<char>) -> Option<int> {
    if s.len() == 0 {
        Some(0)
    } else if s[0] == 'e' || s[0] == 'E' {
        let ds = unsigned(s.skip(1));
        if ds.len() > 0 && all_digits(ds) {
            if is_negative(s.skip(1)) {
                Some(-(dec_value(ds) as int))
            } else {
                Some(dec_value(ds) as int)
            }
        } else {
            None
        }
    } else {
        None
    }
}

/// The digits before the point of the unsigned number `s`.
pub open spec fn int_digits(s: Seq<char>) -> Seq<char> {
    s.take(prefix_len(s, digits()) as int)
}

/// What follows the digits before the point.
pub open spec fn after_int(s: Seq<char>) -> Seq<char> {
    s.skip(prefix_len(s, digits()) as int)
}

/// Whether the unsigned number `s` has a point.
pub open spec fn has_point(s: Seq<char>) -> bool {
    after_int(s).len() > 0 && after_int(s)[0] == '.'
}

/// The digits behind the point of the unsigned number `s`.
pub open spec fn frac_digits(s: Seq<char>) -> Seq<char> {
    if has_point(s) {
        int_digits(after_int(s).skip(1))
    } else {
        Seq::empty()
    }
}

/// What follows the digits of the unsigned number `s`: its exponent part.
pub open spec fn after_digits(s: Seq<char>) -> Seq<char> {
    if has_point(s) {
        after_int(after_int(s).skip(1))
    } else {
        after_int(s)
    }
}

/// The number that `s` spells, if it spells one: an optional sign, then
/// `inf`, `infinity` or `nan` in any case, or digits with an optional point
/// among them, at least one digit in all, and an optional exponent.
pub open spec fn parse_number(s: Seq<char>) -> Option<Number> {
    let body = unsigned(s);
    if same_name(body, kw_inf()) || same_name(body, kw_infinity()) {
        Some(Number::Infinite { negative: is_negative(s) })
    } else if same_name(body, kw_nan()) {
        Some(Number::NotANumber)
    } else if int_digits(body).len() + frac_digits(body).len() == 0 {
        None
    } else {
        match parse_exponent(after_digits(body)) {
            Some(e) => Some(
                Number::Finite {
                    negative: is_negative(s),
                    digits: int_digits(body) + frac_digits(body),
                    exponent: e - frac_digits(body).len(),
                },
            ),
            None => None,
        }
    }
}

/// `mult` times the number `n` times ten to the power `shift`, as a whole
/// count: rounded to the nearest, halves upwards, and kept within `u32`.
/// Whatever is negative counts as 0, and so does what is not a number.
pub open spec fn scaled(n: Number, mult: nat, shift: int) -> u32 {
    match n {
        Number::NotANumber => 0,
        Number::Infinite { negative } => if negative {
            0
        } else {
            u32::MAX
        },
        Number::Finite { negative, digits, exponent } => {
            let r = round_scaled(mult * dec_value(digits), exponent + shift);
            if negative {
                0
            } else if r > u32::MAX {
                u32::MAX
            } else {
                r as u32
            }
        },
    }
}

/// A power of ten is at least 1.
pub proof fn lemma_pow10_positive(e: nat)
    ensures
        pow10(e) >= 1,
    decreases e,
{
    if e > 0 {
        lemma_pow10_positive((e - 1) as nat);
    }
}

/// Powers of ten multiply by adding their exponents.
pub proof fn lemma_pow10_add(a: nat, b: nat)
    ensures
        pow10(a + b) == pow10(a) * pow10(b),
    decreases a,
{
    if a > 0 {
        lemma_pow10_add((a - 1) as nat, b);
        assert(pow10(a + b) == 10 * pow10((a - 1 + b) as nat));
        assert(10 * (pow10((a - 1) as nat) * pow10(b)) == (10 * pow10((a - 1) as nat)) * pow10(b))
            by (nonlinear_arith);
    } else {
        assert(pow10(a) * pow10(b) == pow10(b)) by (nonlinear_arith)
            requires
                pow10(a) == 1,
        ;
    }
}

/// A higher power of ten is not less.
pub proof fn lemma_pow10_monotone(a: nat, b: nat)
    requires
        a <= b,
    ensures
        pow10(a) <= pow10(b),
{
    lemma_pow10_add(a, (b - a) as nat);
    lemma_pow10_positive((b - a) as nat);
    lemma_pow10_positive(a);
    assert(pow10(a) * pow10((b - a) as nat) >= pow10(a)) by (nonlinear_arith)
        requires
            pow10((b - a) as nat) >= 1,
            pow10(a) >= 1,
    ;
}

/// Digits spell a number below ten to the power of their count.
pub proof fn lemma_dec_value_bound(s: Seq<char>)
    requires
        all_digits(s),
    ensures
        dec_value(s) < pow10(s.len()),
    decreases s.len(),
{
    if s.len() > 0 {
        lemma_dec_value_bound(s.drop_last());
        assert(is_digit(s.last()));
    }
}

/// Digits written one behind the other: the first group counts as many
/// places higher as the second has digits.
pub proof fn lemma_dec_value_concat(a: Seq<char>, b: Seq<char>)
    ensures
        dec_value(a + b) == dec_value(a) * pow10(b.len()) + dec_value(b),
    decreases b.len(),
{
    if b.len() == 0 {
        assert(a + b == a);
        assert(dec_value(a) * 1 == dec_value(a)) by (nonlinear_arith);
    } else {
        assert((a + b).drop_last() == a + b.drop_last());
        assert((a + b).last() == b.last());
        lemma_dec_value_concat(a, b.drop_last());
        let x = dec_value(a);
        let p = pow10((b.len() - 1) as nat);
        let y = dec_value(b.drop_last());
        assert(10 * (x * p + y) == x * (10 * p) + 10 * y) by (nonlinear_arith);
    }
}

/// What multiplying a number carries into the place above its `m` digits,
/// told from its first digit and the carry of the digits below it.
pub proof fn lemma_carry(mult: nat, d: nat, low: nat, m: nat)
    requires
        low < pow10(m),
    ensures
        (mult * (d * pow10(m) + low)) / pow10(m + 1) == (mult * d + (mult * low) / pow10(m)) / 10,
{
    let p = pow10(m) as int;
    lemma_pow10_positive(m);
    let x = (mult * low) as int;
    let c = x / p;
    let r = x % p;
    assert(x == c * p + r && 0 <= r < p) by {
        vstd::arithmetic::div_mod::lemma_fundamental_div_mod(x, p);
        vstd::arithmetic::div_mod::lemma_mod_pos_bound(x, p);
        assert(p * c == c * p) by (nonlinear_arith);
    }
    let t = mult * d + c;
    let a = t / 10;
    let b = t % 10;
    assert(0 <= c) by {
        vstd::arithmetic::div_mod::lemma_div_pos_is_pos(x, p);
    }
    assert((mult * (d * pow10(m) + low)) as int == a * (10 * p) + (b * p + r)) by (nonlinear_arith)
        requires
            x == mult * low,
            x == c * p + r,
            mult * d + c == 10 * a + b,
            p == pow10(m),
    ;
    assert(0 <= b * p + r < 10 * p) by (nonlinear_arith)
        requires
            0 <= b <= 9,
            0 <= r < p,
    ;
    lemma_fundamental_div_mod_converse(
        (mult * (d * pow10(m) + low)) as int,
        10 * p,
        a,
        b * p + r,
    );
}

/// Rounding at a place, told from the digits above it, the digit below it
/// and the carry of the digits below that one.
pub proof fn lemma_round_at(mult: nat, h: nat, d: nat, low: nat, q: nat)
    requires
        low < pow10(q),
    ensures
        round_scaled(mult * ((h * 10 + d) * pow10(q) + low), -(q + 1)) == mult * h + (mult * d + (
        mult * low) / pow10(q) + 5) / 10,
{
    let p = pow10(q) as int;
    lemma_pow10_positive(q);
    let x = (mult * low) as int;
    let c = x / p;
    let r = x % p;
    assert(x == c * p + r && 0 <= r < p) by {
        vstd::arithmetic::div_mod::lemma_fundamental_div_mod(x, p);
        vstd::arithmetic::div_mod::lemma_mod_pos_bound(x, p);
        assert(p * c == c * p) by (nonlinear_arith);
    }
    assert(0 <= c) by {
        vstd::arithmetic::div_mod::lemma_div_pos_is_pos(x, p);
    }
    let t = mult * d + c + 5;
    let a = t / 10;
    let b = t % 10;
    let n = (mult * ((h * 10 + d) * pow10(q) + low)) as int;
    assert(pow10(q + 1) == 10 * p);
    assert(2 * n + 10 * p == (mult * h + a) * (20 * p) + (2 * p * b + 2 * r)) by (nonlinear_arith)
        requires
            n == mult * ((h * 10 + d) * p + low),
            x == mult * low,
            x == c * p + r,
            mult * d + c + 5 == 10 * a + b,
    ;
    assert(0 <= 2 * p * b + 2 * r < 20 * p) by (nonlinear_arith)
        requires
            0 <= b <= 9,
            0 <= r < p,
    ;
    lemma_fundamental_div_mod_converse(2 * n + 10 * p, 20 * p, mult * h + a, 2 * p * b + 2 * r);
}

/// A number that lies wholly below half of the last place rounds to 0.
pub proof fn lemma_round_to_zero(n: nat, j: nat)
    requires
        j > 0,
        2 * n < pow10(j),
    ensures
        round_scaled(n, -(j as int)) == 0,
{
    let p = pow10(j) as int;
    vstd::arithmetic::div_mod::lemma_basic_div(2 * n + p, 2 * p);
}

/// Whether `c` is a decimal digit.
pub fn char_is_digit(c: char) -> (r: bool)
    ensures
        r == is_digit(c),
{
    '0' <= c && c <= '9'
}

/// End of the run of digits that begins at `from`.
fn skip_digits(v: &Vec<char>, from: usize) -> (k: usize)
    requires
        from <= v.len(),
    ensures
        from <= k <= v.len(),
        k == from + prefix_len(v@.skip(from as int), digits()),
        all_digits(v@.subrange(from as int, k as int)),
        k == v.len() <==> all_digits(v@.skip(from as int)),
{
    let mut k: usize = from;
    while k < v.len() && char_is_digit(v[k])
        invariant
            from <= k <= v.len(),
            forall|j: int| from <= j < k ==> is_digit(v@[j]),
        decreases v.len() - k,
    {
        k += 1;
    }
    proof {
        let t = v@.skip(from as int);
        assert forall|j: int| 0 <= j < k - from implies digits()(#[trigger] t[j]) by {
            assert(t[j] == v@[from + j]);
        }
        lemma_prefix_len(t, digits(), k - from);
        if k < v.len() {
            assert(!is_digit(t[k - from]));
        } else {
            assert forall|j: int| 0 <= j < t.len() implies is_digit(#[trigger] t[j]) by {
                assert(digits()(t[j]));
            }
        }
    }
    k
}

/// The number that the digits `v[from..to]` spell, or `cap` if that is less.
fn capped_value(v: &Vec<char>, from: usize, to: usize, cap: u128) -> (r: u128)
    requires
        from <= to <= v.len(),
        all_digits(v@.subrange(from as int, to as int)),
        cap <= 0x1000_0000_0000_0000_0000_0000_0000,
    ensures
        r == if dec_value(v@.subrange(from as int, to as int)) < cap {
            dec_value(v@.subrange(from as int, to as int))
        } else {
            cap as nat
        },
{
    let mut r: u128 = 0;
    let mut k: usize = from;
    if cap == 0 {
        return 0;
    }
    assert(v@.subrange(from as int, from as int) == Seq::<char>::empty());
    while k < to
        invariant
            from <= k <= to <= v.len(),
            all_digits(v@.subrange(from as int, to as int)),
            0 < cap <= 0x1000_0000_0000_0000_0000_0000_0000,
            r == if dec_value(v@.subrange(from as int, k as int)) < cap {
                dec_value(v@.subrange(from as int, k as int))
            } else {
                cap as nat
            },
        decreases to - k,
    {
        proof {
            let s = v@.subrange(from as int, k + 1);
            assert(s.drop_last() == v@.subrange(from as int, k as int));
            assert(s.last() == v@[k as int]);
            assert(v@.subrange(from as int, to as int)[k - from] == v@[k as int]);
        }
        let d = (v[k] as u32 - '0' as u32) as u128;
        r = 10 * r + d;
        if r > cap {
            r = cap;
        }
        k += 1;
    }
    r
}

/// What multiplying the number spelled by the digits from `from` on by
/// `mult` carries into the place above them.
fn carry_of(v: &Vec<char>, from: usize, mult: u128) -> (c: u128)
    requires
        from <= v.len(),
        all_digits(v@),
        1 <= mult <= 6,
    ensures
        c == (mult as nat * dec_value(v@.skip(from as int))) / pow10((v.len() - from) as nat),
        c < mult,
{
    let n = v.len();
    let mut c: u128 = 0;
    let mut k: usize = n;
    proof {
        assert(v@.skip(n as int) == Seq::<char>::empty());
        assert(mult * 0 == 0);
    }
    while k > from
        invariant
            from <= k <= n,
            n == v.len(),
            all_digits(v@),
            1 <= mult <= 6,
            c == (mult as nat * dec_value(v@.skip(k as int))) / pow10((n - k) as nat),
            c < mult,
        decreases k,
    {
        k -= 1;
        assert(is_digit(v@[k as int]));
        let d = (v[k] as u32 - '0' as u32) as u128;
        assert(d <= 9);
        proof {
            let low = v@.skip(k + 1);
            let one = seq![v@[k as int]];
            assert(v@.skip(k as int) == one + low);
            lemma_dec_value_concat(one, low);
            assert(one.drop_last() == Seq::<char>::empty());
            assert(dec_value(Seq::<char>::empty()) == 0);
            assert(dec_value(one) == d);
            assert(all_digits(low)) by {
                assert forall|i: int| 0 <= i < low.len() implies is_digit(#[trigger] low[i]) by {
                    assert(low[i] == v@[k + 1 + i]);
                }
            }
            lemma_dec_value_bound(low);
            lemma_carry(mult as nat, d as nat, dec_value(low), (n - k - 1) as nat);
        }
        assert(mult * d + c < 10 * mult && mult * d <= 54) by (nonlinear_arith)
            requires
                mult <= 6,
                d <= 9,
                c < mult,
        ;
        c = (mult * d + c) / 10;
    }
    c
}

/// The largest count of ticks, as a wide number.
pub const TICKS_MAX: u128 = 0xffff_ffff;

/// A whole number kept within `u32`.
pub open spec fn clamp_u32(n: nat) -> u32 {
    if n > u32::MAX {
        u32::MAX
    } else {
        n as u32
    }
}

/// `mult` times the number spelled by `d`, with its last `j` digits behind
/// the point, rounded and kept within `u32`.
fn round_fraction(d: &Vec<char>, mult: u128, j: usize) -> (r: u32)
    requires
        all_digits(d@),
        mult == 1 || mult == 6,
        1 <= j <= d.len(),
    ensures
        r == clamp_u32(round_scaled(mult as nat * dec_value(d@), -(j as int))),
{
    let n = d.len();
    let p = n - j;
    assert(d@.subrange(0, p as int) =~= d@.take(p as int));
    assert(is_digit(d@[p as int]));
    let h = capped_value(d, 0, p, 0x1_0000_0000);
    let d1 = (d[p] as u32 - '0' as u32) as u128;
    let c = carry_of(d, p + 1, mult);
    let ghost hv = dec_value(d@.take(p as int));
    proof {
        let hi = d@.take(p + 1);
        let lo = d@.skip(p + 1);
        assert(hi.drop_last() == d@.take(p as int));
        assert(hi.last() == d@[p as int]);
        assert(dec_value(hi) == 10 * hv + d1);
        assert(d@ == hi + lo);
        lemma_dec_value_concat(hi, lo);
        assert(all_digits(lo)) by {
            assert forall|i: int| 0 <= i < lo.len() implies is_digit(#[trigger] lo[i]) by {
                assert(lo[i] == d@[p + 1 + i]);
            }
        }
        lemma_dec_value_bound(lo);
        lemma_round_at(mult as nat, hv, d1 as nat, dec_value(lo), (j - 1) as nat);
        assert(mult * hv >= hv) by (nonlinear_arith)
            requires
                mult >= 1,
        ;
    }
    if h >= 0x1_0000_0000 {
        return u32::MAX;
    }
    let r = mult * h + (mult * d1 + c + 5) / 10;
    if r > TICKS_MAX {
        u32::MAX
    } else {
        r as u32
    }
}

/// `mult` times the number spelled by `d`, all of whose digits and one
/// place more lie behind the point, rounded.
fn round_below(d: &Vec<char>, mult: u128) -> (r: u32)
    requires
        all_digits(d@),
        mult == 1 || mult == 6,
    ensures
        r == clamp_u32(round_scaled(mult as nat * dec_value(d@), -(d.len() + 1))),
{
    let c = carry_of(d, 0, mult);
    proof {
        let value = dec_value(d@);
        assert(d@.skip(0) == d@);
        lemma_dec_value_bound(d@);
        lemma_round_at(mult as nat, 0, 0, value, d.len() as nat);
        assert((0 * 10 + 0) * pow10(d.len() as nat) + value == value) by (nonlinear_arith);
        assert(mult as nat * 0 == 0);
    }
    ((c + 5) / 10) as u32
}

/// `mult` times the number spelled by `d` times ten to the power `up`,
/// kept within `u32`; `e` is the true power, which `up` equals unless both
/// are above 10.
fn round_whole(d: &Vec<char>, mult: u128, up: u128, Ghost(e): Ghost<nat>) -> (r: u32)
    requires
        all_digits(d@),
        mult == 1 || mult == 6,
        up == e || (up > 10 && e >= up),
    ensures
        r == clamp_u32(mult as nat * dec_value(d@) * pow10(e)),
{
    let n = d.len();
    let ghost value = dec_value(d@);
    assert(d@.subrange(0, n as int) == d@);
    let v = capped_value(d, 0, n, 0x1_0000_0000);
    proof {
        lemma_pow10_positive(e);
    }
    if v == 0 {
        assert(mult * 0 * pow10(e) == 0) by (nonlinear_arith);
        return 0;
    }
    if v >= 0x1_0000_0000 {
        assert(mult * value * pow10(e) >= value) by (nonlinear_arith)
            requires
                mult >= 1,
                pow10(e) >= 1,
        ;
        return u32::MAX;
    }
    if up > 10 {
        proof {
            lemma_pow10_monotone(10, e);
            assert(pow10(10) == 10_000_000_000) by {
                reveal_with_fuel(pow10, 11);
            }
            assert(mult * value * pow10(e) >= pow10(e)) by (nonlinear_arith)
                requires
                    mult >= 1,
                    value >= 1,
            ;
        }
        return u32::MAX;
    }
    let mut x: u128 = mult * v;
    let mut i: u128 = 0;
    assert(mult * value * pow10(0) == mult * value) by (nonlinear_arith)
        requires
            pow10(0) == 1,
    ;
    while i < up
        invariant
            i <= up <= 10,
            up == e,
            value == dec_value(d@),
            x == mult * value * pow10(i as nat),
            x <= 10 * TICKS_MAX,
        decreases up - i,
    {
        if x > TICKS_MAX {
            proof {
                lemma_pow10_monotone(i as nat, e);
                assert(mult as nat * value * pow10(e) >= mult as nat * value * pow10(i as nat))
                    by (nonlinear_arith)
                    requires
                        pow10(e) >= pow10(i as nat),
                ;
                assert(mult as nat * value * pow10(e) > u32::MAX);
            }
            return u32::MAX;
        }
        proof {
            assert(mult * value * pow10((i + 1) as nat) == 10 * (mult * value * pow10(i as nat)))
                by (nonlinear_arith)
                requires
                    pow10((i + 1) as nat) == 10 * pow10(i as nat),
            ;
        }
        x = x * 10;
        i += 1;
    }
    if x > TICKS_MAX {
        u32::MAX
    } else {
        x as u32
    }
}

/// `mult` times the number spelled by the digits `d`, divided by ten to the
/// power `j`, rounded and kept within `u32`. The true power is `-e`; `j`
/// equals it, or lies on the same side of the range in which the result
/// depends on it.
fn round_digits(d: &Vec<char>, mult: u128, j: i128, Ghost(e): Ghost<int>) -> (r: u32)
    requires
        all_digits(d@),
        mult == 1 || mult == 6,
        -e == j || (j > d.len() + 1 && -e >= j) || (j < -10 && -e <= j),
    ensures
        r == clamp_u32(round_scaled(mult as nat * dec_value(d@), e)),
{
    let n = d.len();
    let ghost value = dec_value(d@);
    if j > n as i128 + 1 {
        proof {
            let jj = (-e) as nat;
            lemma_dec_value_bound(d@);
            lemma_pow10_monotone((n + 2) as nat, jj);
            assert(pow10((n + 2) as nat) == 100 * pow10(n as nat)) by {
                assert(pow10((n + 2) as nat) == 10 * pow10((n + 1) as nat));
                assert(pow10((n + 1) as nat) == 10 * pow10(n as nat));
            }
            assert(2 * (mult * value) < 100 * pow10(n as nat)) by (nonlinear_arith)
                requires
                    value < pow10(n as nat),
                    mult <= 6,
            ;
            lemma_round_to_zero(mult as nat * value, jj);
        }
        0
    } else if j == n as i128 + 1 {
        round_below(d, mult)
    } else if j >= 1 {
        round_fraction(d, mult, j as usize)
    } else if j == i128::MIN {
        round_whole(d, mult, 11, Ghost(e as nat))
    } else {
        round_whole(d, mult, (-j) as u128, Ghost(e as nat))
    }
}

/// The digits `v[a..b]` followed by the digits `v[c..d]`.
fn join_ranges(v: &Vec<char>, a: usize, b: usize, c: usize, d: usize) -> (r: Vec<char>)
    requires
        a <= b <= v.len(),
        c <= d <= v.len(),
    ensures
        r@ == v@.subrange(a as int, b as int) + v@.subrange(c as int, d as int),
{
    let mut r = copy_range(v, a, b);
    let mut i: usize = c;
    assert(v@.subrange(c as int, c as int) == Seq::<char>::empty());
    while i < d
        invariant
            c <= i <= d <= v.len(),
            r@ == v@.subrange(a as int, b as int) + v@.subrange(c as int, i as int),
        decreases d - i,
    {
        r.push(v[i]);
        i += 1;
    }
    r
}

/// The bound beyond which an exponent is no longer told apart.
pub const EXPONENT_CAP: u128 = 0x1000_0000_0000_0000_0000_0000_0000;

/// Whether `e` stands for the exponent `t`: it equals it, or both lie
/// beyond the cap on the same side.
pub open spec fn stands_for(e: i128, t: int) -> bool {
    ||| e == t
    ||| (e == EXPONENT_CAP && t >= EXPONENT_CAP)
    ||| (e == -(EXPONENT_CAP as int) && t <= -(EXPONENT_CAP as int))
}

/// The exponent written from `from` on, where one is written correctly.
fn scan_exponent(v: &Vec<char>, from: usize) -> (r: Option<i128>)
    requires
        from <= v.len(),
    ensures
        match parse_exponent(v@.skip(from as int)) {
            Some(t) => r is Some && stands_for(r->0, t),
            None => r is None,
        },
        r is Some ==> -(EXPONENT_CAP as int) <= r->0 <= EXPONENT_CAP,
{
    let n = v.len();
    let ghost rest = v@.skip(from as int);
    if from == n {
        return Some(0);
    }
    assert(rest[0] == v@[from as int]);
    if v[from] != 'e' && v[from] != 'E' {
        return None;
    }
    let es = from + 1;
    assert(rest.skip(1) == v@.skip(es as int));
    let e_signed = es < n && (v[es] == '+' || v[es] == '-');
    let e_negative = es < n && v[es] == '-';
    let ds: usize = if e_signed {
        es + 1
    } else {
        es
    };
    assert(unsigned(rest.skip(1)) == v@.skip(ds as int));
    assert(is_negative(rest.skip(1)) == e_negative);
    if ds >= n {
        return None;
    }
    let de = skip_digits(v, ds);
    if de < n {
        return None;
    }
    assert(v@.subrange(ds as int, n as int) == v@.skip(ds as int));
    let m = capped_value(v, ds, n, EXPONENT_CAP);
    if e_negative {
        Some(-(m as i128))
    } else {
        Some(m as i128)
    }
}

/// Where the digits of the unsigned number that begins at `a` lie: those
/// before the point in `a..r.0`, those behind it in `r.1..r.2`.
fn scan_digits(v: &Vec<char>, a: usize) -> (r: (usize, usize, usize))
    requires
        a <= v.len(),
    ensures
        a <= r.0 <= r.1 <= r.2 <= v.len(),
        int_digits(v@.skip(a as int)) == v@.subrange(a as int, r.0 as int),
        frac_digits(v@.skip(a as int)) == v@.subrange(r.1 as int, r.2 as int),
        after_digits(v@.skip(a as int)) == v@.skip(r.2 as int),
        all_digits(v@.subrange(a as int, r.0 as int)),
        all_digits(v@.subrange(r.1 as int, r.2 as int)),
{
    let n = v.len();
    let ghost body = v@.skip(a as int);
    let i_end = skip_digits(v, a);
    let has_dot = i_end < n && v[i_end] == '.';
    let f_start: usize = if has_dot {
        i_end + 1
    } else {
        i_end
    };
    let f_end: usize = if has_dot {
        skip_digits(v, f_start)
    } else {
        i_end
    };
    proof {
        assert(int_digits(body) == v@.subrange(a as int, i_end as int));
        assert(after_int(body) == v@.skip(i_end as int));
        assert(has_point(body) == has_dot);
        if has_dot {
            let t = after_int(body).skip(1);
            assert(t == v@.skip(f_start as int));
            assert(int_digits(t) == v@.subrange(f_start as int, f_end as int));
            assert(after_int(t) == v@.skip(f_end as int));
        } else {
            assert(v@.subrange(f_start as int, f_end as int) == Seq::<char>::empty());
        }
    }
    (i_end, f_start, f_end)
}

/// The number that `v` spells, times `mult` and ten to the power `shift`,
/// as a whole count; `None` where `v` spells no number.
pub(crate) fn parse_scaled(v: &Vec<char>, mult: u8, shift: i8) -> (r: Option<u32>)
    requires
        mult == 1 || mult == 6,
        -3 <= shift <= 3,
    ensures
        r == match parse_number(v@) {
            Some(n) => Some(scaled(n, mult as nat, shift as int)),
            None => None,
        },
{
    let n = v.len();
    let signed = n > 0 && (v[0] == '+' || v[0] == '-');
    let negative = n > 0 && v[0] == '-';
    let a: usize = if signed {
        1
    } else {
        0
    };
    let ghost body = unsigned(v@);
    assert(body == v@.skip(a as int));
    let word = string_of_range(v, a, n);
    proof {
        reveal_strlit("inf");
        reveal_strlit("infinity");
        reveal_strlit("nan");
        assert("inf"@ == kw_inf());
        assert("infinity"@ == kw_infinity());
        assert("nan"@ == kw_nan());
        assert(v@.subrange(a as int, n as int) == body);
    }
    if eq_ascii(word.as_str(), "inf") || eq_ascii(word.as_str(), "infinity") {
        return Some(
            if negative {
                0
            } else {
                u32::MAX
            },
        );
    }
    if eq_ascii(word.as_str(), "nan") {
        return Some(0);
    }
    let (i_end, f_start, f_end) = scan_digits(v, a);
    if (i_end - a) + (f_end - f_start) == 0 {
        return None;
    }
    let e = match scan_exponent(v, f_end) {
        Some(e) => e,
        None => {
            return None;
        },
    };
    let ghost true_e = parse_exponent(v@.skip(f_end as int))->0;
    let d = join_ranges(v, a, i_end, f_start, f_end);
    let j: i128 = (f_end - f_start) as i128 - e - shift as i128;
    let r = round_digits(&d, mult as u128, j, Ghost(true_e - (f_end - f_start) + shift));
    Some(
        if negative {
            0
        } else {
            r
        },
    )
}

} // verus!
