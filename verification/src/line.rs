//! Handicap lines as `str::parse::<f64>` reads them: an optional sign, then
//! `inf`, `infinity`, `nan` or a decimal number with an optional exponent,
//! letters in either case. A finite line is kept exactly, as digits and a
//! power of ten, and the handicap outcome compares the adjusted margin with
//! the 0.01 tolerance on that exact value.
use vstd::prelude::*;
use crate::numbers::{all_digits, digit_val, digits_value, lemma_digits_value_bound, lemma_pow10_mono, pow10};
use crate::text::{ascii_lower, ascii_lower_vec, chars_of, eq_vec, is_digit, push_all, slice_of, split, split_vec, views};

verus! {

/// The value of a handicap line: `n · 10^e`, or an infinity, or not a number.
pub enum LineValue {
    Finite(int, int),
    PosInf,
    NegInf,
    NotANumber,
}

/// A sign of an optional `-` or `+` in front of a text, and the rest.
pub open spec fn unsigned(s: Seq<char>) -> Seq<char> {
    if s.len() > 0 && (s[0] == '-' || s[0] == '+') {
        s.drop_first()
    } else {
        s
    }
}

/// The text starts with `-`.
pub open spec fn minus(s: Seq<char>) -> bool {
    s.len() > 0 && s[0] == '-'
}

/// What `str::parse::<f64>` accepts of a text, as an exact value: an
/// optional sign, then (letters in either case) `inf`, `infinity`, `nan`, or
/// digits with at most one point and at least one digit, followed by an
/// optional exponent `e`, an optional sign and one or more digits.
pub open spec fn float_line(s: Seq<char>) -> Option<LineValue> {
    let neg = minus(s);
    let lb = ascii_lower(unsigned(s));
    if lb == "inf"@ || lb == "infinity"@ {
        Some(
            if neg {
                LineValue::NegInf
            } else {
                LineValue::PosInf
            },
        )
    } else if lb == "nan"@ {
        Some(LineValue::NotANumber)
    } else {
        let me = split(lb, seq!['e']);
        let mant = me[0];
        let ex = if me.len() == 2 {
            me[1]
        } else {
            Seq::<char>::empty()
        };
        let mp = split(mant, seq!['.']);
        let ip = mp[0];
        let fp = if mp.len() == 2 {
            mp[1]
        } else {
            Seq::<char>::empty()
        };
        let ed = unsigned(ex);
        if me.len() <= 2 && mp.len() <= 2 && all_digits(ip) && all_digits(fp) && ip.len() + fp.len()
            > 0 && (me.len() == 2 ==> ed.len() > 0 && all_digits(ed)) {
            let g = digits_value(ip + fp) as int;
            let x = digits_value(ed) as int;
            Some(
                LineValue::Finite(
                    if neg {
                        -g
                    } else {
                        g
                    },
                    (if minus(ex) {
                        -x
                    } else {
                        x
                    }) - fp.len(),
                ),
            )
        } else {
            None
        }
    }
}

/// The sign of an integer.
pub open spec fn sign(x: int) -> int {
    if x > 0 {
        1
    } else if x == 0 {
        0
    } else {
        -1
    }
}

/// How `n · 10^e` compares with the integer `c`: 1 above, 0 equal, -1 below.
pub open spec fn scaled_sign(n: int, e: int, c: int) -> int {
    if e >= 0 {
        sign(n * pow10(e as nat) - c)
    } else {
        sign(n - c * pow10((-e) as nat))
    }
}

/// The handicap outcome: `100 · (home - away + line)` compared with ±1, on
/// the exact value of a finite line; an infinite line wins or loses with its
/// sign, and a line that is not a number loses.
///
/// The comparison is exact. Computed in `f64` (the line rounded to a double,
/// the margin added, the sum compared with the double nearest 0.01), a line
/// whose adjusted margin lies within rounding error of ±0.01 can fall on the
/// other side: a line of -0.99 with a one-goal win is a push here, a win in
/// `f64`. Elsewhere the two agree.
pub open spec fn line_outcome(h: u32, a: u32, line: LineValue) -> Seq<char> {
    match line {
        LineValue::Finite(n, e) => if scaled_sign(n, e + 2, 1 - 100 * (h - a)) > 0 {
            "让胜"@
        } else if scaled_sign(n, e + 2, -1 - 100 * (h - a)) >= 0 {
            "让平"@
        } else {
            "让负"@
        },
        LineValue::PosInf => "让胜"@,
        _ => "让负"@,
    }
}

/// A handicap line as read from a market label.
#[derive(Clone, Debug, PartialEq, Eq)]
pub enum HandicapLine {
    /// `±digits · 10^(±exponent - fraction_digits)`: the digits of both
    /// sides of the point, how many came after it, and the exponent.
    Number {
        negative: bool,
        digits: Vec<char>,
        fraction_digits: usize,
        exponent_negative: bool,
        exponent_digits: Vec<char>,
    },
    Infinity { negative: bool },
    NotANumber,
}

/// The value a handicap line stands for.
pub open spec fn line_view(l: HandicapLine) -> LineValue {
    match l {
        HandicapLine::Number {
            negative,
            digits,
            fraction_digits,
            exponent_negative,
            exponent_digits,
        } => {
            let g = digits_value(digits@) as int;
            let x = digits_value(exponent_digits@) as int;
            LineValue::Finite(
                if negative {
                    -g
                } else {
                    g
                },
                (if exponent_negative {
                    -x
                } else {
                    x
                }) - fraction_digits,
            )
        },
        HandicapLine::Infinity { negative } => if negative {
            LineValue::NegInf
        } else {
            LineValue::PosInf
        },
        HandicapLine::NotANumber => LineValue::NotANumber,
    }
}

/// The digits of a line are ASCII digits.
pub open spec fn line_ok(l: HandicapLine) -> bool {
    match l {
        HandicapLine::Number { digits, exponent_digits, .. } => all_digits(digits@) && all_digits(
            exponent_digits@,
        ),
        _ => true,
    }
}

fn all_digits_exec(d: &Vec<char>) -> (b: bool)
    ensures
        b == all_digits(d@),
{
    let mut i: usize = 0;
    while i < d.len()
        invariant
            i <= d.len(),
            forall|j: int| 0 <= j < i ==> is_digit(#[trigger] d@[j]),
        decreases d.len() - i,
    {
        if !('0' <= d[i] && d[i] <= '9') {
            return false;
        }
        i = i + 1;
    }
    true
}

/// The text after an optional sign.
fn unsigned_exec(s: &Vec<char>) -> (r: Vec<char>)
    ensures
        r@ == unsigned(s@),
{
    if s.len() > 0 && (s[0] == '-' || s[0] == '+') {
        let r = slice_of(s, 1, s.len());
        assert(r@ =~= s@.drop_first());
        r
    } else {
        let r = slice_of(s, 0, s.len());
        assert(r@ =~= s@);
        r
    }
}

/// Reads a handicap line as `str::parse::<f64>` accepts it.
pub fn parse_float_line(s: &Vec<char>) -> (r: Option<HandicapLine>)
    ensures
        match float_line(s@) {
            Some(v) => r matches Some(l) && line_ok(l) && line_view(l) == v,
            None => r is None,
        },
{
    let neg = s.len() > 0 && s[0] == '-';
    let body = unsigned_exec(s);
    let lb = ascii_lower_vec(&body);
    if eq_vec(&lb, &chars_of("inf")) || eq_vec(&lb, &chars_of("infinity")) {
        return Some(HandicapLine::Infinity { negative: neg });
    }
    if eq_vec(&lb, &chars_of("nan")) {
        return Some(HandicapLine::NotANumber);
    }
    let esep = vec!['e'];
    assert(esep@ =~= seq!['e']);
    let me = split_vec(&lb, &esep);
    proof {
        crate::text::lemma_split_nonempty(lb@, seq!['e']);
    }
    if me.len() > 2 {
        return None;
    }
    let empty: Vec<char> = Vec::new();
    let mant = &me[0];
    let ex = if me.len() == 2 {
        &me[1]
    } else {
        &empty
    };
    assert(mant@ == split(lb@, seq!['e'])[0]);
    assert(ex@ == (if split(lb@, seq!['e']).len() == 2 {
        split(lb@, seq!['e'])[1]
    } else {
        Seq::<char>::empty()
    }));
    let psep = vec!['.'];
    assert(psep@ =~= seq!['.']);
    let mp = split_vec(mant, &psep);
    proof {
        crate::text::lemma_split_nonempty(mant@, seq!['.']);
    }
    if mp.len() > 2 {
        return None;
    }
    let ip = &mp[0];
    let fp = if mp.len() == 2 {
        &mp[1]
    } else {
        &empty
    };
    assert(ip@ == split(mant@, seq!['.'])[0]);
    assert(fp@ == (if split(mant@, seq!['.']).len() == 2 {
        split(mant@, seq!['.'])[1]
    } else {
        Seq::<char>::empty()
    }));
    let ed = unsigned_exec(ex);
    if !all_digits_exec(ip) || !all_digits_exec(fp) || (ip.len() == 0 && fp.len() == 0) {
        return None;
    }
    if me.len() == 2 && (ed.len() == 0 || !all_digits_exec(&ed)) {
        return None;
    }
    let mut digits = slice_of(ip, 0, ip.len());
    assert(digits@ =~= ip@);
    push_all(&mut digits, fp);
    let eneg = ex.len() > 0 && ex[0] == '-';
    proof {
        if me.len() != 2 {
            assert(ed@ =~= Seq::<char>::empty());
        }
        assert(all_digits(ed@));
        assert(all_digits(digits@)) by {
            assert forall|i: int| 0 <= i < digits@.len() implies is_digit(#[trigger] digits@[i]) by {
                if i >= ip@.len() {
                    assert(digits@[i] == fp@[i - ip@.len()]);
                }
            }
        }
    }
    Some(
        HandicapLine::Number {
            negative: neg,
            digits,
            fraction_digits: fp.len(),
            exponent_negative: eneg,
            exponent_digits: ed,
        },
    )
}

// ---------------------------------------------------------------------------
// Comparing a line with an integer
// ---------------------------------------------------------------------------

/// `x`, at most `cap`.
pub open spec fn capped(x: int, cap: int) -> int {
    if x < cap {
        x
    } else {
        cap
    }
}

/// The value of `d[lo..hi]`, saturated at `cap`.
fn capped_value(d: &Vec<char>, lo: usize, hi: usize, cap: u128) -> (r: u128)
    requires
        lo <= hi <= d.len(),
        all_digits(d@),
        1 <= cap <= 0x1_0000_0000_0000_0000_0000_0000,
    ensures
        r == capped(digits_value(d@.subrange(lo as int, hi as int)) as int, cap as int),
{
    let mut acc: u128 = 0;
    let mut i: usize = lo;
    assert(d@.subrange(lo as int, lo as int) =~= Seq::<char>::empty());
    while i < hi
        invariant
            lo <= i <= hi <= d.len(),
            all_digits(d@),
            1 <= cap <= 0x1_0000_0000_0000_0000_0000_0000,
            acc == capped(digits_value(d@.subrange(lo as int, i as int)) as int, cap as int),
        decreases hi - i,
    {
        let ghost prev = digits_value(d@.subrange(lo as int, i as int)) as int;
        assert(d@.subrange(lo as int, i + 1).drop_last() =~= d@.subrange(lo as int, i as int));
        assert(d@.subrange(lo as int, i + 1).last() == d@[i as int]);
        assert(is_digit(d@[i as int]));
        let dv = (d[i] as u32 - '0' as u32) as u128;
        assert(dv == digit_val(d@[i as int]));
        let next = acc * 10 + dv;
        acc = if next < cap {
            next
        } else {
            cap
        };
        proof {
            assert(digits_value(d@.subrange(lo as int, i + 1)) == prev * 10 + dv);
            if prev >= cap {
                assert(prev * 10 + dv >= cap) by (nonlinear_arith)
                    requires
                        prev >= cap,
                        cap >= 1,
                        dv >= 0,
                ;
            }
        }
        i = i + 1;
    }
    acc
}

/// The value of a concatenation of digit runs.
pub proof fn lemma_digits_concat(a: Seq<char>, b: Seq<char>)
    ensures
        digits_value(a + b) == digits_value(a) * pow10(b.len()) + digits_value(b),
    decreases b.len(),
{
    if b.len() == 0 {
        assert(a + b =~= a);
        assert(pow10(0) == 1);
        assert(digits_value(b) == 0);
        assert(digits_value(a) * 1 == digits_value(a));
    } else {
        lemma_digits_concat(a, b.drop_last());
        assert((a + b).drop_last() =~= a + b.drop_last());
        assert((a + b).last() == b.last());
        let p = pow10(b.drop_last().len());
        let va = digits_value(a) as int;
        let vb1 = digits_value(b.drop_last()) as int;
        let dl = digit_val(b.last()) as int;
        assert(pow10(b.len()) == 10 * p);
        assert(digits_value(b) == vb1 * 10 + dl);
        assert(digits_value(a + b) == digits_value(a + b.drop_last()) * 10 + dl);
        assert((va * p + vb1) * 10 + dl == va * (10 * p) + (vb1 * 10 + dl)) by (nonlinear_arith);
    }
}

/// The sign of `t · p ± f` for `p >= 1` and `0 <= f < p`: that of `t`,
/// or that of `± f` when `t` is zero.
proof fn lemma_sign_split(t: int, p: int, f: int, s: int)
    requires
        p >= 1,
        0 <= f < p,
        s == 1 || s == -1,
    ensures
        sign(t * p + s * f) == if t > 0 {
            1
        } else if t < 0 {
            -1
        } else {
            sign(s * f)
        },
{
    if t > 0 {
        assert(t * p >= p) by (nonlinear_arith)
            requires
                t >= 1,
                p >= 1,
        ;
    } else if t < 0 {
        assert(t * p <= -p) by (nonlinear_arith)
            requires
                t <= -1,
                p >= 1,
        ;
    }
}

/// `10^14`.
proof fn lemma_pow10_14()
    ensures
        pow10(14) == 100_000_000_000_000,
{
    reveal_with_fuel(pow10, 15);
}

/// The signed value of a run of digits.
pub open spec fn signed(negative: bool, g: int) -> int {
    if negative {
        -g
    } else {
        g
    }
}

/// A zero line compares with `c` as zero does.
pub proof fn lemma_zero_line(e: int, c: int)
    ensures
        scaled_sign(0, e, c) == sign(-c),
{
    if e < 0 {
        let p = pow10((-e) as nat) as int;
        lemma_pow10_mono(0, (-e) as nat);
        assert(sign(0 - c * p) == sign(-c)) by (nonlinear_arith)
            requires
                p >= 1,
        ;
    }
}

proof fn lemma_huge_line(g: int, negative: bool, e: int, c: int)
    requires
        g >= 1,
        e >= 14,
        -1_000_000_000_000 < c < 1_000_000_000_000,
    ensures
        scaled_sign(signed(negative, g), e, c) == if negative {
            -1
        } else {
            1
        },
{
    lemma_pow10_mono(14, e as nat);
    lemma_pow10_14();
    let p = pow10(e as nat) as int;
    assert(g * p >= p) by (nonlinear_arith)
        requires
            g >= 1,
            p >= 1,
    ;
    assert(-g * p == -(g * p)) by (nonlinear_arith);
}

proof fn lemma_tiny_line(g: int, len: nat, negative: bool, e: int, c: int)
    requires
        1 <= g < pow10(len),
        e < 0,
        -e >= len,
    ensures
        scaled_sign(signed(negative, g), e, c) == if negative {
            if c <= -1 {
                1int
            } else {
                -1
            }
        } else {
            if c <= 0 {
                1int
            } else {
                -1
            }
        },
{
    let kt = (-e) as nat;
    lemma_pow10_mono(len, kt);
    let p = pow10(kt) as int;
    if c <= 0 {
        assert(c * p <= 0) by (nonlinear_arith)
            requires
                c <= 0,
                p >= 1,
        ;
    } else {
        assert(c * p >= p) by (nonlinear_arith)
            requires
                c >= 1,
                p >= 1,
        ;
    }
    if c <= -1 {
        assert(c * p <= -p) by (nonlinear_arith)
            requires
                c <= -1,
                p >= 1,
        ;
    } else {
        assert(c * p >= 0) by (nonlinear_arith)
            requires
                c >= 0,
                p >= 1,
        ;
    }
}

/// The comparison for a small non-negative power of ten.
fn compare_with_power(negative: bool, digits: &Vec<char>, f: u32, c: i64) -> (r: i8)
    requires
        all_digits(digits@),
        f < 14,
        digits_value(digits@) >= 1,
        -1_000_000_000_000 < c < 1_000_000_000_000,
    ensures
        r as int == scaled_sign(signed(negative, digits_value(digits@) as int), f as int, c as int),
{
    let ghost g = digits_value(digits@) as int;
    let cap: u128 = 10_000_000_000_000;
    assert(digits@.subrange(0, digits.len() as int) =~= digits@);
    let gc = capped_value(digits, 0, digits.len(), cap);
    let mut w: u128 = gc;
    let mut i: u32 = 0;
    assert(pow10(0) == 1);
    assert(g * 1 == g);
    while i < f
        invariant
            0 <= i <= f < 14,
            g >= 1,
            w == capped(g * pow10(i as nat), cap as int),
            cap == 10_000_000_000_000,
        decreases f - i,
    {
        let ghost prev = g * pow10(i as nat);
        assert(g * pow10((i + 1) as nat) == prev * 10) by (nonlinear_arith)
            requires
                pow10((i + 1) as nat) == 10 * pow10(i as nat),
                prev == g * pow10(i as nat),
        ;
        let next = w * 10;
        w = if next < cap {
            next
        } else {
            cap
        };
        i = i + 1;
    }
    let ghost big = g * pow10(f as nat);
    assert(signed(negative, g) * pow10(f as nat) == signed(negative, big)) by (nonlinear_arith)
        requires
            big == g * pow10(f as nat),
    ;
    let wi = w as i128;
    let ci = c as i128;
    if negative {
        if wi >= cap as i128 || -wi < ci {
            -1
        } else if -wi == ci {
            0
        } else {
            1
        }
    } else {
        if wi >= cap as i128 || wi > ci {
            1
        } else if wi == ci {
            0
        } else {
            -1
        }
    }
}

/// The comparison when the point falls `k` digits from the end.
fn compare_with_point(negative: bool, digits: &Vec<char>, k: usize, c: i64) -> (r: i8)
    requires
        all_digits(digits@),
        1 <= k < digits.len(),
        -1_000_000_000_000 < c < 1_000_000_000_000,
    ensures
        r as int == scaled_sign(signed(negative, digits_value(digits@) as int), -(k as int), c as int),
{
    let len = digits.len();
    let q = len - k;
    let cap: u128 = 10_000_000_000_000;
    let ip = capped_value(digits, 0, q, cap);
    let fz = capped_value(digits, q, len, 1);
    let ghost g = digits_value(digits@) as int;
    let ghost n = signed(negative, g);
    let ghost pre = digits@.subrange(0, q as int);
    let ghost suf = digits@.subrange(q as int, len as int);
    let ghost p = pow10(k as nat) as int;
    let ghost big_ip = digits_value(pre) as int;
    let ghost fr = digits_value(suf) as int;
    let ghost s: int = if negative {
        -1
    } else {
        1
    };
    let ghost tg = s * big_ip - c;
    proof {
        assert(pre + suf =~= digits@);
        lemma_digits_concat(pre, suf);
        assert(all_digits(suf)) by {
            assert forall|i: int| 0 <= i < suf.len() implies is_digit(#[trigger] suf[i]) by {
                assert(suf[i] == digits@[q + i]);
            }
        }
        lemma_digits_value_bound(suf);
        assert(suf.len() == k);
        lemma_pow10_mono(0, k as nat);
        assert(g == big_ip * p + fr);
        assert(n - c * p == tg * p + s * fr) by (nonlinear_arith)
            requires
                n == s * g,
                g == big_ip * p + fr,
                tg == s * big_ip - c,
                s == 1 || s == -1,
        ;
        lemma_sign_split(tg, p, fr, s);
        assert(scaled_sign(n, -(k as int), c as int) == sign(tg * p + s * fr));
        assert(ip == capped(big_ip, cap as int));
        assert(fz == capped(fr, 1));
        assert(sign(s * fr) == if fr > 0 { s } else { 0 });
    }
    let ipi = ip as i128;
    let ci = c as i128;
    let t: i128 = if negative {
        -ipi - ci
    } else {
        ipi - ci
    };
    if negative {
        if ipi >= cap as i128 || t < 0 {
            -1
        } else if t > 0 {
            1
        } else if fz > 0 {
            -1
        } else {
            0
        }
    } else {
        if ipi >= cap as i128 || t > 0 {
            1
        } else if t < 0 {
            -1
        } else if fz > 0 {
            1
        } else {
            0
        }
    }
}

/// How `±g · 10^e` compares with `c`, for a line's digits `g` and exponent.
fn compare_line(
    negative: bool,
    digits: &Vec<char>,
    fraction_digits: usize,
    exponent_negative: bool,
    exponent_digits: &Vec<char>,
    c: i64,
) -> (r: i8)
    requires
        all_digits(digits@),
        all_digits(exponent_digits@),
        -1_000_000_000_000 < c < 1_000_000_000_000,
    ensures
        r as int == scaled_sign(
            signed(negative, digits_value(digits@) as int),
            signed(exponent_negative, digits_value(exponent_digits@) as int) - fraction_digits + 2,
            c as int,
        ),
{
    let ghost g = digits_value(digits@) as int;
    let ghost x = digits_value(exponent_digits@) as int;
    let ghost ft = signed(exponent_negative, x) - fraction_digits + 2;
    let len = digits.len();
    assert(digits@.subrange(0, len as int) =~= digits@);
    assert(exponent_digits@.subrange(0, exponent_digits.len() as int) =~= exponent_digits@);
    let z = capped_value(digits, 0, len, 1);
    if z == 0 {
        proof {
            lemma_zero_line(ft, c as int);
            assert(signed(negative, g) == 0);
        }
        return if c < 0 {
            1
        } else if c == 0 {
            0
        } else {
            -1
        };
    }
    let capx: u128 = 0x400_0000_0000_0000_0000;
    let xc = capped_value(exponent_digits, 0, exponent_digits.len(), capx);
    let xi = xc as i128;
    let f: i128 = (if exponent_negative {
        -xi
    } else {
        xi
    }) - (fraction_digits as i128) + 2;
    proof {
        if x >= capx {
            if exponent_negative {
                assert(ft <= f);
                assert(-f >= len);
            } else {
                assert(ft >= f);
                assert(f >= 14);
            }
        }
    }
    if f >= 14 {
        proof {
            lemma_huge_line(g, negative, ft, c as int);
        }
        return if negative {
            -1
        } else {
            1
        };
    }
    if f >= 0 {
        return compare_with_power(negative, digits, f as u32, c);
    }
    let k = -f;
    if k >= len as i128 {
        proof {
            lemma_digits_value_bound(digits@);
            lemma_tiny_line(g, len as nat, negative, ft, c as int);
        }
        return if negative {
            if c <= -1 {
                1
            } else {
                -1
            }
        } else {
            if c <= 0 {
                1
            } else {
                -1
            }
        };
    }
    compare_with_point(negative, digits, k as usize, c)
}

/// The handicap outcome of a score under a line.
pub fn handicap_outcome(h: u32, a: u32, line: &HandicapLine) -> (r: &'static str)
    requires
        line_ok(*line),
    ensures
        r@ == line_outcome(h, a, line_view(*line)),
{
    match line {
        HandicapLine::Infinity { negative } => if *negative {
            "让负"
        } else {
            "让胜"
        },
        HandicapLine::NotANumber => "让负",
        HandicapLine::Number {
            negative,
            digits,
            fraction_digits,
            exponent_negative,
            exponent_digits,
        } => {
            let m = h as i64 - a as i64;
            let up = compare_line(
                *negative,
                digits,
                *fraction_digits,
                *exponent_negative,
                exponent_digits,
                1 - 100 * m,
            );
            if up > 0 {
                return "让胜";
            }
            let down = compare_line(
                *negative,
                digits,
                *fraction_digits,
                *exponent_negative,
                exponent_digits,
                -1 - 100 * m,
            );
            if down >= 0 {
                "让平"
            } else {
                "让负"
            }
        },
    }
}

} // verus!
