//! JSON numbers as text (`-`, integer digits, optional fraction, optional exponent), and
//! exact comparison of their values with ranges given in tenths.
use vstd::prelude::*;

verus! {

pub open spec fn pow10(n: nat) -> nat
    decreases n,
{
    if n == 0 {
        1
    } else {
        10 * pow10((n - 1) as nat)
    }
}

pub open spec fn is_digit(c: char) -> bool {
    '0' <= c && c <= '9'
}

pub open spec fn all_digits(s: Seq<char>) -> bool {
    forall|i: int| 0 <= i < s.len() ==> is_digit(#[trigger] s[i])
}

/// The value of a string of decimal digits.
pub open spec fn dval(s: Seq<char>) -> nat
    decreases s.len(),
{
    if s.len() == 0 {
        0
    } else {
        dval(s.drop_last()) * 10 + (s.last() as nat - '0' as nat) as nat
    }
}

/// The first position at or after `i` that holds `a` or `b`, else the length.
pub open spec fn scan(t: Seq<char>, i: nat, a: char, b: char) -> nat
    decreases t.len() - i,
{
    if i >= t.len() {
        t.len()
    } else if t[i as int] == a || t[i as int] == b {
        i
    } else {
        scan(t, i + 1, a, b)
    }
}

pub open spec fn sign_len(t: Seq<char>) -> nat {
    if t.len() > 0 && t[0] == '-' {
        1
    } else {
        0
    }
}

/// Where the exponent marker is, else the length.
pub open spec fn exp_at(t: Seq<char>) -> nat {
    scan(t, sign_len(t), 'e', 'E')
}

/// Where the decimal point is, else the exponent marker's position.
pub open spec fn dot_at(t: Seq<char>) -> nat {
    scan(t.take(exp_at(t) as int), sign_len(t), '.', '.')
}

pub open spec fn int_digits(t: Seq<char>) -> Seq<char> {
    t.subrange(sign_len(t) as int, dot_at(t) as int)
}

pub open spec fn frac_digits(t: Seq<char>) -> Seq<char> {
    if dot_at(t) < exp_at(t) {
        t.subrange(dot_at(t) as int + 1, exp_at(t) as int)
    } else {
        Seq::empty()
    }
}

pub open spec fn exp_text(t: Seq<char>) -> Seq<char> {
    if exp_at(t) < t.len() {
        t.subrange(exp_at(t) as int + 1, t.len() as int)
    } else {
        Seq::empty()
    }
}

pub open spec fn exp_signed(t: Seq<char>) -> bool {
    exp_text(t).len() > 0 && (exp_text(t)[0] == '-' || exp_text(t)[0] == '+')
}

pub open spec fn exp_digits(t: Seq<char>) -> Seq<char> {
    if exp_signed(t) {
        exp_text(t).skip(1)
    } else {
        exp_text(t)
    }
}

/// `t` is a JSON number: an optional `-`, digits, optionally `.` and digits, optionally `e`
/// or `E`, an optional sign and digits.
pub open spec fn number_text(t: Seq<char>) -> bool {
    &&& int_digits(t).len() > 0 && all_digits(int_digits(t))
    &&& dot_at(t) < exp_at(t) ==> frac_digits(t).len() > 0 && all_digits(frac_digits(t))
    &&& exp_at(t) < t.len() ==> exp_digits(t).len() > 0 && all_digits(exp_digits(t))
}

/// The exponent of ten that scales the mantissa digits to ten times the value.
pub open spec fn tenths_scale(t: Seq<char>) -> int {
    let e: int = if exp_at(t) < t.len() {
        if exp_text(t)[0] == '-' {
            -dval(exp_digits(t))
        } else {
            dval(exp_digits(t)) as int
        }
    } else {
        0
    };
    e - frac_digits(t).len() + 1
}

/// Whether `t` is a JSON number whose value `v` satisfies `lo <= 10 v <= hi`.
pub open spec fn tenths_within(t: Seq<char>, lo: int, hi: int) -> bool {
    number_text(t) && {
        let m = dval(int_digits(t) + frac_digits(t));
        let n: int = if sign_len(t) == 1 {
            -m
        } else {
            m as int
        };
        let p = tenths_scale(t);
        if p >= 0 {
            lo <= n * pow10(p as nat) && n * pow10(p as nat) <= hi
        } else {
            lo * pow10((-p) as nat) <= n && n <= hi * pow10((-p) as nat)
        }
    }
}


proof fn lemma_pow10_positive(n: nat)
    ensures
        pow10(n) >= 1,
    decreases n,
{
    if n > 0 {
        lemma_pow10_positive((n - 1) as nat);
    }
}

proof fn lemma_pow10_monotone(a: nat, b: nat)
    requires
        a <= b,
    ensures
        pow10(a) <= pow10(b),
    decreases b,
{
    if a < b {
        lemma_pow10_monotone(a, (b - 1) as nat);
        lemma_pow10_positive((b - 1) as nat);
    }
}

proof fn lemma_dval_concat(a: Seq<char>, b: Seq<char>)
    ensures
        dval(a + b) == dval(a) * pow10(b.len()) + dval(b),
    decreases b.len(),
{
    if b.len() == 0 {
        assert(a + b =~= a);
        assert(pow10(0) == 1);
        assert(dval(a) * 1 == dval(a));
    } else {
        assert((a + b).drop_last() =~= a + b.drop_last());
        assert((a + b).last() == b.last());
        lemma_dval_concat(a, b.drop_last());
        let x = dval(a);
        let w = pow10((b.len() - 1) as nat);
        let y = dval(b.drop_last());
        let d = (b.last() as nat - '0' as nat) as nat;
        assert(dval(a + b) == dval(a + b.drop_last()) * 10 + d);
        assert(dval(b) == y * 10 + d);
        assert(pow10(b.len()) == 10 * w);
        assert((x * w + y) * 10 + d == x * (10 * w) + (y * 10 + d)) by (nonlinear_arith);
    }
}

proof fn lemma_dval_below(s: Seq<char>)
    requires
        all_digits(s),
    ensures
        dval(s) < pow10(s.len()),
    decreases s.len(),
{
    if s.len() > 0 {
        assert(all_digits(s.drop_last())) by {
            assert forall|i: int| 0 <= i < s.drop_last().len() implies is_digit(#[trigger] s.drop_last()[i]) by {
                assert(s.drop_last()[i] == s[i]);
            }
        }
        lemma_dval_below(s.drop_last());
        assert(is_digit(s[s.len() - 1]));
        let x = dval(s.drop_last());
        let w = pow10((s.len() - 1) as nat);
        let d = (s.last() as nat - '0' as nat) as nat;
        assert(d <= 9);
        assert(x * 10 + d < 10 * w) by (nonlinear_arith)
            requires
                x < w,
                d <= 9,
        ;
    }
}

proof fn lemma_dval_zero(s: Seq<char>)
    requires
        all_digits(s),
    ensures
        dval(s) == 0 <==> forall|i: int| 0 <= i < s.len() ==> #[trigger] s[i] == '0',
    decreases s.len(),
{
    if s.len() > 0 {
        assert(all_digits(s.drop_last())) by {
            assert forall|i: int| 0 <= i < s.drop_last().len() implies is_digit(#[trigger] s.drop_last()[i]) by {
                assert(s.drop_last()[i] == s[i]);
            }
        }
        lemma_dval_zero(s.drop_last());
        assert(is_digit(s[s.len() - 1]));
        if dval(s) == 0 {
            assert forall|i: int| 0 <= i < s.len() implies #[trigger] s[i] == '0' by {
                if i < s.len() - 1 {
                    assert(s.drop_last()[i] == s[i]);
                }
            }
        } else {
            if forall|i: int| 0 <= i < s.len() ==> #[trigger] s[i] == '0' {
                assert forall|i: int| 0 <= i < s.drop_last().len() implies #[trigger] s.drop_last()[i] == '0' by {
                    assert(s.drop_last()[i] == s[i]);
                }
                assert(s[s.len() - 1] == '0');
            }
        }
    }
}

/// Splitting `q * w + r` (with `0 <= r < w`) against multiples of `w`.
proof fn lemma_split_compare(q: int, r: int, w: int, h: int)
    requires
        q >= 0,
        0 <= r < w,
    ensures
        (q * w + r <= h * w) <==> (q < h || (q == h && r == 0)),
        (q * w + r >= h * w) <==> q >= h,
{
    if q < h {
        assert(q * w + r < h * w) by (nonlinear_arith)
            requires
                q < h,
                0 <= r < w,
        ;
    } else if q == h {
    } else {
        assert(q * w >= (h + 1) * w) by (nonlinear_arith)
            requires
                q >= h + 1,
                w > 0,
        ;
        assert((h + 1) * w == h * w + w) by (nonlinear_arith);
    }
}

fn scan_exec(t: &str, from: usize, to: usize, a: char, b: char) -> (r: usize)
    requires
        from <= to <= t@.len(),
    ensures
        r == scan(t@.take(to as int), from as nat, a, b),
        from <= r <= to,
{
    let ghost s = t@.take(to as int);
    let mut j: usize = from;
    while j < to && t.get_char(j) != a && t.get_char(j) != b
        invariant
            from <= j <= to,
            to <= t@.len(),
            s == t@.take(to as int),
            scan(s, from as nat, a, b) == scan(s, j as nat, a, b),
        decreases to - j,
    {
        assert(s[j as int] == t@[j as int]);
        j += 1;
    }
    if j < to {
        assert(s[j as int] == t@[j as int]);
    }
    j
}

fn digits_ok(t: &str, from: usize, to: usize) -> (r: bool)
    requires
        from <= to <= t@.len(),
    ensures
        r == all_digits(t@.subrange(from as int, to as int)),
{
    let ghost s = t@.subrange(from as int, to as int);
    let mut j: usize = from;
    while j < to
        invariant
            from <= j <= to,
            to <= t@.len(),
            s == t@.subrange(from as int, to as int),
            forall|k: int| 0 <= k < j - from ==> is_digit(#[trigger] s[k]),
        decreases to - j,
    {
        let c = t.get_char(j);
        assert(s[j - from] == c);
        if !('0' <= c && c <= '9') {
            return false;
        }
        j += 1;
    }
    true
}

/// The value of the digits `from..to` of `t`, or `cap` if it is larger.
fn capped(t: &str, from: usize, to: usize, cap: u128) -> (r: u128)
    requires
        from <= to <= t@.len(),
        all_digits(t@.subrange(from as int, to as int)),
        1 <= cap <= 0x10_0000_0000_0000_0000_0000_0000,
    ensures
        r == if dval(t@.subrange(from as int, to as int)) < cap {
            dval(t@.subrange(from as int, to as int))
        } else {
            cap as nat
        },
{
    let ghost s = t@.subrange(from as int, to as int);
    let mut acc: u128 = 0;
    let mut j: usize = from;
    assert(s.take(0) =~= Seq::<char>::empty());
    while j < to
        invariant
            from <= j <= to,
            to <= t@.len(),
            s == t@.subrange(from as int, to as int),
            all_digits(s),
            1 <= cap <= 0x10_0000_0000_0000_0000_0000_0000,
            acc == if dval(s.take(j - from)) < cap {
                dval(s.take(j - from))
            } else {
                cap as nat
            },
        decreases to - j,
    {
        let c = t.get_char(j);
        let ghost k = j - from;
        assert(s[k] == c);
        assert(is_digit(s[k]));
        let d = (c as u32 - '0' as u32) as u128;
        assert(s.take(k + 1).drop_last() =~= s.take(k));
        assert(s.take(k + 1).last() == c);
        let ghost v = dval(s.take(k));
        assert(dval(s.take(k + 1)) == v * 10 + d);
        if acc >= cap {
            assert(v >= cap);
            assert(v * 10 + d >= cap) by (nonlinear_arith)
                requires
                    v >= cap,
                    d >= 0,
            ;
        } else {
            let next = acc * 10 + d;
            if next >= cap {
                acc = cap;
            } else {
                acc = next;
            }
        }
        j += 1;
    }
    assert(s.take(to - from) =~= s);
    acc
}


/// The mantissa digits of a number written with its integer digits at `s0..d` and, when
/// `d < e`, its fraction digits at `d+1..e`.
pub open spec fn mant(t: Seq<char>, s0: nat, d: nat, e: nat) -> Seq<char> {
    t.subrange(s0 as int, d as int) + if d < e {
        t.subrange(d as int + 1, e as int)
    } else {
        Seq::empty()
    }
}

fn mant_digit(t: &str, s0: usize, d: usize, e: usize, k: usize) -> (c: char)
    requires
        s0 <= d <= e <= t@.len(),
        k < mant(t@, s0 as nat, d as nat, e as nat).len(),
    ensures
        c == mant(t@, s0 as nat, d as nat, e as nat)[k as int],
{
    if k < d - s0 {
        t.get_char(s0 + k)
    } else {
        t.get_char(d + 1 + (k - (d - s0)))
    }
}

/// The value of the first `l` mantissa digits, or `cap` if it is larger.
fn mant_capped(t: &str, s0: usize, d: usize, e: usize, l: usize, cap: u128) -> (r: u128)
    requires
        s0 <= d <= e <= t@.len(),
        all_digits(mant(t@, s0 as nat, d as nat, e as nat)),
        l <= mant(t@, s0 as nat, d as nat, e as nat).len(),
        1 <= cap <= 0x10_0000_0000_0000_0000_0000_0000,
    ensures
        r == if dval(mant(t@, s0 as nat, d as nat, e as nat).take(l as int)) < cap {
            dval(mant(t@, s0 as nat, d as nat, e as nat).take(l as int))
        } else {
            cap as nat
        },
{
    let ghost s = mant(t@, s0 as nat, d as nat, e as nat);
    let mut acc: u128 = 0;
    let mut j: usize = 0;
    assert(s.take(0) =~= Seq::<char>::empty());
    while j < l
        invariant
            s0 <= d <= e <= t@.len(),
            s == mant(t@, s0 as nat, d as nat, e as nat),
            all_digits(s),
            l <= s.len(),
            j <= l,
            1 <= cap <= 0x10_0000_0000_0000_0000_0000_0000,
            acc == if dval(s.take(j as int)) < cap {
                dval(s.take(j as int))
            } else {
                cap as nat
            },
        decreases l - j,
    {
        let c = mant_digit(t, s0, d, e, j);
        assert(is_digit(s[j as int]));
        let dg = (c as u32 - '0' as u32) as u128;
        assert(s.take(j + 1).drop_last() =~= s.take(j as int));
        assert(s.take(j + 1).last() == c);
        let ghost v = dval(s.take(j as int));
        assert(dval(s.take(j + 1)) == v * 10 + dg);
        if acc >= cap {
            assert(v * 10 + dg >= cap) by (nonlinear_arith)
                requires
                    v >= cap,
                    dg >= 0,
            ;
        } else {
            let next = acc * 10 + dg;
            if next >= cap {
                acc = cap;
            } else {
                acc = next;
            }
        }
        j += 1;
    }
    acc
}

/// Whether some mantissa digit from position `l` on is not zero.
fn mant_nonzero_from(t: &str, s0: usize, d: usize, e: usize, l: usize) -> (r: bool)
    requires
        s0 <= d <= e <= t@.len(),
        all_digits(mant(t@, s0 as nat, d as nat, e as nat)),
        l <= mant(t@, s0 as nat, d as nat, e as nat).len(),
    ensures
        r == (dval(mant(t@, s0 as nat, d as nat, e as nat).skip(l as int)) > 0),
{
    let ghost s = mant(t@, s0 as nat, d as nat, e as nat);
    let ghost rest = s.skip(l as int);
    let total = (d - s0) + if d < e { e - d - 1 } else { 0 };
    assert(total == s.len());
    assert(all_digits(rest)) by {
        assert forall|i: int| 0 <= i < rest.len() implies is_digit(#[trigger] rest[i]) by {
            assert(rest[i] == s[l + i]);
        }
    }
    proof {
        lemma_dval_zero(rest);
    }
    let mut j: usize = l;
    while j < total
        invariant
            s0 <= d <= e <= t@.len(),
            s == mant(t@, s0 as nat, d as nat, e as nat),
            total == s.len(),
            rest == s.skip(l as int),
            all_digits(rest),
            l <= j <= total,
            forall|i: int| 0 <= i < j - l ==> #[trigger] rest[i] == '0',
        decreases total - j,
    {
        let c = mant_digit(t, s0, d, e, j);
        assert(rest[j - l] == c);
        if c != '0' {
            assert(rest.len() == total - l);
            proof {
                lemma_dval_zero(rest);
            }
            assert(!(forall|i: int| 0 <= i < rest.len() ==> #[trigger] rest[i] == '0'));
            return true;
        }
        j += 1;
    }
    false
}


/// Whether the mantissa digits `n` scaled by ten to the `p` lie in `lo..=hi`, decided from
/// a capped integer part `q` and whether the rest is zero.
proof fn lemma_split_decides(n: int, w: int, q: int, r: int, lo: int, hi: int)
    requires
        q >= 0,
        0 <= r < w,
        n == q * w + r,
        -10000 < lo <= hi < 10000,
    ensures
        (lo * w <= n && n <= hi * w) == ((q < hi || (q == hi && r == 0)) && q >= lo),
        (lo * w <= -n && -n <= hi * w) == ((q < -lo || (q == -lo && r == 0)) && q >= -hi),
{
    lemma_split_compare(q, r, w, hi);
    lemma_split_compare(q, r, w, lo);
    lemma_split_compare(q, r, w, -lo);
    lemma_split_compare(q, r, w, -hi);
    assert(-lo * w == -(lo * w)) by (nonlinear_arith);
    assert(-hi * w == -(hi * w)) by (nonlinear_arith);
}

fn small_pow10(p: i128) -> (r: i64)
    requires
        0 <= p <= 4,
    ensures
        r == pow10(p as nat),
        1 <= r <= 10000,
{
    proof {
        reveal_with_fuel(pow10, 5);
    }
    if p == 0 {
        1
    } else if p == 1 {
        10
    } else if p == 2 {
        100
    } else if p == 3 {
        1000
    } else {
        10000
    }
}

/// The decision for a nonnegative scale: `nc` is the mantissa value capped at 100000.
fn decide_up(nc: u128, p: i128, neg: bool, lo: i64, hi: i64, Ghost(big_n): Ghost<nat>, Ghost(p_true): Ghost<int>) -> (r:
    bool)
    requires
        -10000 < lo <= hi < 10000,
        nc == if big_n < 100000 {
            big_n
        } else {
            100000
        },
        p >= 0,
        p_true >= 0,
        p >= 5 ==> p_true >= 5,
        p < 5 ==> p_true == p,
    ensures
        r == ({
            let n: int = if neg {
                -big_n
            } else {
                big_n as int
            };
            lo <= n * pow10(p_true as nat) && n * pow10(p_true as nat) <= hi
        }),
{
    let ghost w = pow10(p_true as nat);
    proof {
        lemma_pow10_positive(p_true as nat);
    }
    if nc == 0 {
        assert(big_n == 0);
        assert((0int) * w == 0);
        assert(-(0int) == 0);
        return lo <= 0 && 0 <= hi;
    }
    if p >= 5 || nc >= 100000 {
        proof {
            if p >= 5 {
                lemma_pow10_monotone(5, p_true as nat);
                assert(pow10(5) == 100000) by {
                    reveal_with_fuel(pow10, 6);
                }
            }
            assert(big_n * w >= 100000) by (nonlinear_arith)
                requires
                    big_n >= 1,
                    w >= 1,
                    big_n >= 100000 || w >= 100000,
            ;
            assert((-big_n) * w == -(big_n * w)) by (nonlinear_arith);
        }
        return false;
    }
    let f = small_pow10(p);
    assert(nc * f <= 100000 * 10000) by (nonlinear_arith)
        requires
            nc < 100000,
            f <= 10000,
            f >= 1,
    ;
    let v = (nc as i64) * f;
    let value = if neg {
        -v
    } else {
        v
    };
    assert((-big_n) * w == -(big_n * w)) by (nonlinear_arith);
    lo <= value && value <= hi
}

/// The decision for a negative scale: the mantissa value is `q_true * w + r_true` with
/// `r_true < w`; `q` is `q_true` capped at 100000 and `rz` whether `r_true` is zero.
fn decide_down(
    q: u128,
    rz: bool,
    neg: bool,
    lo: i64,
    hi: i64,
    Ghost(big_n): Ghost<nat>,
    Ghost(w): Ghost<nat>,
    Ghost(q_true): Ghost<nat>,
    Ghost(r_true): Ghost<nat>,
) -> (r: bool)
    requires
        -10000 < lo <= hi < 10000,
        big_n == q_true * w + r_true,
        r_true < w,
        rz == (r_true == 0),
        q == if q_true < 100000 {
            q_true
        } else {
            100000
        },
    ensures
        r == ({
            let n: int = if neg {
                -big_n
            } else {
                big_n as int
            };
            lo * w <= n && n <= hi * w
        }),
{
    proof {
        lemma_split_decides(big_n as int, w as int, q_true as int, r_true as int, lo as int, hi as int);
    }
    let q = q as i64;
    if !neg {
        (q < hi || (q == hi && rz)) && q >= lo
    } else {
        (q < -lo || (q == -lo && rz)) && q >= -hi
    }
}

/// The parts of a JSON number: sign length, decimal point and exponent marker positions,
/// the exponent (capped in magnitude at 2^100) and whether it was capped.
fn parse_number(t: &str) -> (r: Option<(usize, usize, usize, i128, bool)>)
    ensures
        r is Some <==> number_text(t@),
        r matches Some((s0, d, e, ev, capped_e)) ==> {
            &&& s0 == sign_len(t@) && d == dot_at(t@) && e == exp_at(t@)
            &&& s0 <= d <= e <= t@.len()
            &&& (d < e ==> d + 1 <= e)
            &&& -0x10_0000_0000_0000_0000_0000_0000 <= ev <= 0x10_0000_0000_0000_0000_0000_0000
            &&& mant(t@, s0 as nat, d as nat, e as nat) == int_digits(t@) + frac_digits(t@)
            &&& all_digits(mant(t@, s0 as nat, d as nat, e as nat))
            &&& frac_digits(t@).len() == if d < e { e - d - 1 } else { 0 }
            &&& (capped_e ==> (ev == 0x10_0000_0000_0000_0000_0000_0000 || ev == -0x10_0000_0000_0000_0000_0000_0000))
            &&& (capped_e ==> (ev > 0 <==> tenths_scale(t@) + frac_digits(t@).len() - 1 > 0))
            &&& (capped_e ==> (ev > 0 ==> tenths_scale(t@) + frac_digits(t@).len() - 1 >= ev)
                && (ev < 0 ==> tenths_scale(t@) + frac_digits(t@).len() - 1 <= ev))
            &&& (!capped_e ==> tenths_scale(t@) == ev - frac_digits(t@).len() + 1)
        },
{
    let n = t.unicode_len();
    let s0: usize = if n > 0 && t.get_char(0) == '-' {
        1
    } else {
        0
    };
    assert(s0 == sign_len(t@));
    assert(t@.take(n as int) =~= t@);
    let e = scan_exec(t, s0, n, 'e', 'E');
    assert(e == exp_at(t@));
    let d = scan_exec(t, s0, e, '.', '.');
    assert(d == dot_at(t@));
    assert(int_digits(t@) == t@.subrange(s0 as int, d as int));
    if d == s0 || !digits_ok(t, s0, d) {
        return None;
    }
    if d < e {
        assert(frac_digits(t@) == t@.subrange(d + 1, e as int));
        if d + 1 == e || !digits_ok(t, d + 1, e) {
            return None;
        }
    } else {
        assert(frac_digits(t@) == Seq::<char>::empty());
    }
    let ghost m = mant(t@, s0 as nat, d as nat, e as nat);
    assert(m == int_digits(t@) + frac_digits(t@));
    assert(all_digits(m)) by {
        assert forall|i: int| 0 <= i < m.len() implies is_digit(#[trigger] m[i]) by {
            if i < int_digits(t@).len() {
                assert(m[i] == int_digits(t@)[i]);
            } else {
                assert(m[i] == frac_digits(t@)[i - int_digits(t@).len()]);
            }
        }
    }
    if e >= n {
        return Some((s0, d, e, 0, false));
    }
    let cap_e: u128 = 0x10_0000_0000_0000_0000_0000_0000;
    let es = e + 1;
    assert(exp_text(t@) == t@.subrange(es as int, n as int));
    let signed = es < n && (t.get_char(es) == '-' || t.get_char(es) == '+');
    let neg_e = es < n && t.get_char(es) == '-';
    let ds = if signed {
        es + 1
    } else {
        es
    };
    if ds >= n {
        if signed {
            assert(exp_digits(t@) =~= t@.subrange(ds as int, n as int));
        }
        return None;
    }
    assert(exp_text(t@)[0] == t@[es as int]);
    assert(exp_digits(t@) =~= t@.subrange(ds as int, n as int));
    if !digits_ok(t, ds, n) {
        return None;
    }
    let v = capped(t, ds, n, cap_e);
    let ev: i128 = if neg_e {
        -(v as i128)
    } else {
        v as i128
    };
    Some((s0, d, e, ev, v == cap_e))
}

/// Whether `t` is a JSON number whose value `v` satisfies `lo <= 10 v <= hi`: exactly, for
/// any number of digits and any exponent.
#[verifier::rlimit(40)]
pub fn number_in_tenths(t: &str, lo: i64, hi: i64) -> (r: bool)
    requires
        -10000 < lo <= hi < 10000,
    ensures
        r == tenths_within(t@, lo as int, hi as int),
{
    let (s0, d, e, ev, capped_e) = match parse_number(t) {
        Some(parts) => parts,
        None => return false,
    };
    let ghost m = mant(t@, s0 as nat, d as nat, e as nat);
    let ilen = d - s0;
    let flen: usize = if d < e {
        e - d - 1
    } else {
        0
    };
    let total = ilen + flen;
    assert(total == m.len());
    let p: i128 = ev - flen as i128 + 1;
    let ghost p_true: int = tenths_scale(t@);
    let neg = s0 == 1;
    assert(m.take(total as int) =~= m);
    if p >= 0 {
        let nc = mant_capped(t, s0, d, e, total, 100000);
        decide_up(nc, p, neg, lo, hi, Ghost(dval(m)), Ghost(p_true))
    } else {
        let mm: i128 = -p;
        let ghost m_true: nat = (-p_true) as nat;
        let ghost w = pow10(m_true);
        if mm >= total as i128 {
            let nz = mant_nonzero_from(t, s0, d, e, 0);
            assert(m.skip(0) =~= m);
            proof {
                lemma_dval_below(m);
                lemma_pow10_monotone(total as nat, m_true);
                assert(dval(m) == 0 * w + dval(m));
            }
            decide_down(0, !nz, neg, lo, hi, Ghost(dval(m)), Ghost(w), Ghost(0), Ghost(dval(m)))
        } else {
            let l = (total as i128 - mm) as usize;
            let qc = mant_capped(t, s0, d, e, l, 100000);
            let nz = mant_nonzero_from(t, s0, d, e, l);
            let ghost a = m.take(l as int);
            let ghost b = m.skip(l as int);
            proof {
                assert(a + b =~= m);
                lemma_dval_concat(a, b);
                assert(b.len() == m_true);
                assert(all_digits(b)) by {
                    assert forall|i: int| 0 <= i < b.len() implies is_digit(#[trigger] b[i]) by {
                        assert(b[i] == m[l + i]);
                    }
                }
                lemma_dval_below(b);
            }
            decide_down(qc, !nz, neg, lo, hi, Ghost(dval(m)), Ghost(w), Ghost(dval(a)), Ghost(dval(b)))
        }
    }
}

} // verus!
