//! Exact decimal arithmetic for the provider's numbers.
//!
//! Providers report temperature, wind speed and humidity as decimal text
//! inside JSON. The library holds such a number in micro-units (millionths),
//! which keeps every later step — the 3.6 factor from m/s to km/h, the
//! fraction-to-percent step, rounding to a whole unit for the reply — exact
//! integer arithmetic.

use vstd::prelude::*;
use vstd::string::*;
use crate::strutil::push_char;

verus! {

pub open spec fn is_digit(c: char) -> bool {
    48 <= (c as u32) && (c as u32) <= 57
}

pub open spec fn digit_val(c: char) -> int {
    (c as u32) - 48
}

pub open spec fn all_digits(s: Seq<char>) -> bool {
    forall|k: int| 0 <= k < s.len() ==> is_digit(#[trigger] s[k])
}

/// Value of a digit string, most significant digit first.
pub open spec fn digits_val(s: Seq<char>) -> int
    decreases s.len(),
{
    if s.len() == 0 {
        0
    } else {
        digits_val(s.drop_last()) * 10 + digit_val(s.last())
    }
}

pub open spec fn pow10(n: nat) -> int
    decreases n,
{
    if n == 0 {
        1
    } else {
        10 * pow10((n - 1) as nat)
    }
}

pub proof fn lemma_pow10_pos(n: nat)
    ensures
        pow10(n) >= 1,
    decreases n,
{
    if n > 0 {
        lemma_pow10_pos((n - 1) as nat);
    }
}

pub proof fn lemma_pow10_mono(a: nat, b: nat)
    requires
        a <= b,
    ensures
        pow10(a) <= pow10(b),
    decreases b,
{
    if a < b {
        lemma_pow10_mono(a, (b - 1) as nat);
        lemma_pow10_pos((b - 1) as nat);
    }
}

pub proof fn lemma_digits_val_bound(s: Seq<char>)
    requires
        all_digits(s),
    ensures
        0 <= digits_val(s) < pow10(s.len()),
    decreases s.len(),
{
    if s.len() == 0 {
    } else {
        assert forall|k: int| 0 <= k < s.drop_last().len() implies is_digit(
            #[trigger] s.drop_last()[k],
        ) by {
            assert(s.drop_last()[k] == s[k]);
        }
        lemma_digits_val_bound(s.drop_last());
        assert(is_digit(s.last()));
    }
}

pub proof fn lemma_digits_val_push(s: Seq<char>, c: char)
    ensures
        digits_val(s.push(c)) == digits_val(s) * 10 + digit_val(c),
{
    assert(s.push(c).drop_last() =~= s);
}

/// Index of the first '.' in `s`, or `s.len()` if there is none.
pub open spec fn dot_ix(s: Seq<char>) -> int
    decreases s.len(),
{
    if s.len() == 0 {
        0
    } else if s[0] == '.' {
        0
    } else {
        1 + dot_ix(s.drop_first())
    }
}

pub proof fn lemma_dot_ix_range(s: Seq<char>)
    ensures
        0 <= dot_ix(s) <= s.len(),
        dot_ix(s) < s.len() ==> s[dot_ix(s)] == '.',
        forall|k: int| 0 <= k < dot_ix(s) ==> s[k] != '.',
    decreases s.len(),
{
    if s.len() == 0 {
    } else if s[0] == '.' {
    } else {
        lemma_dot_ix_range(s.drop_first());
        assert forall|k: int| 0 <= k < dot_ix(s) implies s[k] != '.' by {
            if k > 0 {
                assert(s.drop_first()[k - 1] == s[k]);
            }
        }
        if dot_ix(s) < s.len() {
            assert(s.drop_first()[dot_ix(s) - 1] == s[dot_ix(s)]);
        }
    }
}

pub proof fn lemma_dot_ix_is(s: Seq<char>, d: int)
    requires
        0 <= d <= s.len(),
        forall|k: int| 0 <= k < d ==> s[k] != '.',
        d == s.len() || s[d] == '.',
    ensures
        dot_ix(s) == d,
    decreases s.len(),
{
    if s.len() == 0 {
    } else if s[0] == '.' {
        assert(d == 0);
    } else {
        assert(d >= 1);
        assert forall|k: int| 0 <= k < d - 1 implies s.drop_first()[k] != '.' by {
            assert(s.drop_first()[k] == s[k + 1]);
        }
        if d < s.len() {
            assert(s.drop_first()[d - 1] == s[d]);
        }
        lemma_dot_ix_is(s.drop_first(), d - 1);
    }
}

pub open spec fn neg_of(s: Seq<char>) -> bool {
    s.len() > 0 && s[0] == '-'
}

pub open spec fn body_of(s: Seq<char>) -> Seq<char> {
    if neg_of(s) {
        s.drop_first()
    } else {
        s
    }
}

pub open spec fn int_part(b: Seq<char>) -> Seq<char> {
    b.take(dot_ix(b))
}

pub open spec fn frac_part(b: Seq<char>) -> Seq<char> {
    if dot_ix(b) == b.len() {
        Seq::empty()
    } else {
        b.skip(dot_ix(b) + 1)
    }
}

/// Micro-units denoted by a fraction digit string; digits beyond the sixth
/// are below one micro-unit and are dropped.
pub open spec fn frac_micros(f: Seq<char>) -> int {
    if f.len() == 0 {
        0
    } else if f.len() == 1 {
        digits_val(f) * 100000
    } else if f.len() == 2 {
        digits_val(f) * 10000
    } else if f.len() == 3 {
        digits_val(f) * 1000
    } else if f.len() == 4 {
        digits_val(f) * 100
    } else if f.len() == 5 {
        digits_val(f) * 10
    } else {
        digits_val(f.take(6))
    }
}

/// A decimal text the library accepts: an optional minus sign, one to nine
/// integer digits, and optionally a dot followed by at least one digit.
pub open spec fn text_ok(b: Seq<char>) -> bool {
    &&& 1 <= int_part(b).len() <= 9
    &&& all_digits(int_part(b))
    &&& all_digits(frac_part(b))
    &&& (dot_ix(b) == b.len() || frac_part(b).len() >= 1)
}

pub open spec fn abs_micros(b: Seq<char>) -> int {
    digits_val(int_part(b)) * 1000000 + frac_micros(frac_part(b))
}

/// The micro-units denoted by a decimal text, or `None` where the text is
/// not a plain decimal number.
pub open spec fn spec_parse_fixed(s: Seq<char>) -> Option<int> {
    if text_ok(body_of(s)) {
        if neg_of(s) {
            Some(-abs_micros(body_of(s)))
        } else {
            Some(abs_micros(body_of(s)))
        }
    } else {
        None
    }
}

/// A provider number held in micro-units.
#[derive(Clone, Copy, PartialEq, Eq, Structural, Debug)]
pub struct Fixed {
    pub micros: i64,
}

pub open spec fn fixed_wf(f: Fixed) -> bool {
    -1000000000000000 < f.micros < 1000000000000000
}

fn char_is_digit(c: char) -> (r: bool)
    ensures
        r == is_digit(c),
{
    let u = c as u32;
    48 <= u && u <= 57
}

fn digit_of(c: char) -> (r: u8)
    requires
        is_digit(c),
    ensures
        r as int == digit_val(c),
{
    ((c as u32) - 48) as u8
}

/// Read a decimal text into micro-units; `None` exactly where the text is
/// not a plain decimal number of at most nine integer digits.
#[verifier::loop_isolation(false)]
#[verifier::rlimit(80)]
pub fn parse_fixed(s: &str) -> (r: Option<Fixed>)
    ensures
        match r {
            Some(f) => spec_parse_fixed(s@) == Some(f.micros as int) && fixed_wf(f),
            None => spec_parse_fixed(s@) is None,
        },
{
    let n = s.unicode_len();
    let neg = n > 0 && s.get_char(0) == '-';
    let base: usize = if neg { 1 } else { 0 };
    let ghost b = body_of(s@);
    proof {
        assert(b =~= s@.skip(base as int));
        lemma_dot_ix_range(b);
    }
    let mut i = base;
    let mut val: i64 = 0;
    while i < n && char_is_digit(s.get_char(i))
        invariant
            n == s@.len(),
            base <= i <= n,
            base == if neg_of(s@) { 1int } else { 0int },
            b == body_of(s@),
            b =~= s@.skip(base as int),
            i - base <= 9,
            forall|k: int| base <= k < i ==> is_digit(s@[k]),
            val == digits_val(s@.subrange(base as int, i as int)),
            0 <= val < 1000000000,
        decreases n - i,
    {
        if i - base == 9 {
            proof {
                lemma_dot_ix_range(b);
                assert forall|k: int| 0 <= k < 10 implies b[k] != '.' by {
                    assert(b[k] == s@[k + base]);
                    assert(is_digit(s@[k + base]));
                }
                if dot_ix(b) < 10 {
                    assert(b[dot_ix(b)] == '.');
                }
                assert(int_part(b).len() == dot_ix(b) >= 10);
            }
            return None;
        }
        let d = digit_of(s.get_char(i));
        proof {
            let pre = s@.subrange(base as int, i as int);
            assert(s@.subrange(base as int, i + 1) =~= pre.push(s@[i as int]));
            lemma_digits_val_push(pre, s@[i as int]);
            assert forall|k: int| 0 <= k < pre.len() implies is_digit(#[trigger] pre[k]) by {
                assert(pre[k] == s@[k + base]);
            }
            lemma_digits_val_bound(pre);
            lemma_pow10_mono(pre.len(), 8);
            assert(pow10(8) == 100000000) by {
                reveal_with_fuel(pow10, 9);
            }
        }
        val = val * 10 + (d as i64);
        i = i + 1;
    }
    let count = i - base;
    let ghost ip = s@.subrange(base as int, i as int);
    proof {
        assert forall|k: int| 0 <= k < ip.len() implies is_digit(#[trigger] ip[k]) by {
            assert(ip[k] == s@[k + base]);
        }
    }
    if i == n {
        // no dot at all
        proof {
            assert forall|k: int| 0 <= k < b.len() implies b[k] != '.' by {
                assert(b[k] == s@[k + base]);
                assert(is_digit(s@[k + base]));
            }
            lemma_dot_ix_is(b, b.len() as int);
            assert(int_part(b) =~= ip);
            assert(frac_part(b) =~= Seq::<char>::empty());
        }
        if count == 0 {
            return None;
        }
        let m = val * 1000000;
        proof {
            assert(int_part(b).len() == count);
            assert(text_ok(b));
            assert(abs_micros(b) == m);
        }
        if neg {
            Some(Fixed { micros: -m })
        } else {
            Some(Fixed { micros: m })
        }
    } else if s.get_char(i) != '.' {
        // a character that is neither digit nor dot
        proof {
            let ci = i - base;
            assert(b[ci as int] == s@[i as int]);
            assert forall|k: int| 0 <= k < ci implies b[k] != '.' by {
                assert(b[k] == s@[k + base]);
                assert(is_digit(s@[k + base]));
            }
            if dot_ix(b) <= ci {
                assert(dot_ix(b) == ci as int);
                assert(b[dot_ix(b)] == '.');
                assert(false);
            }
            assert(int_part(b)[ci as int] == b[ci as int]);
            assert(!is_digit(int_part(b)[ci as int]));
        }
        None
    } else {
        // fraction after the dot
        let ghost d = (i - base) as int;
        proof {
            assert(b[d] == s@[i as int]);
            assert forall|k: int| 0 <= k < d implies b[k] != '.' by {
                assert(b[k] == s@[k + base]);
                assert(is_digit(s@[k + base]));
            }
            lemma_dot_ix_is(b, d);
            assert(int_part(b) =~= ip);
        }
        if count == 0 {
            return None;
        }
        let fstart = i + 1;
        let mut j = fstart;
        let mut fval: i64 = 0;
        while j < n && char_is_digit(s.get_char(j))
            invariant
                n == s@.len(),
                fstart <= j <= n,
                fstart == i + 1,
                i < n,
                forall|k: int| fstart <= k < j ==> is_digit(s@[k]),
                fval == digits_val(
                    s@.subrange(
                        fstart as int,
                        if j - fstart <= 6 { j as int } else { fstart + 6 },
                    ),
                ),
                0 <= fval < 1000000,
            decreases n - j,
        {
            if j - fstart < 6 {
                let fd = digit_of(s.get_char(j));
                proof {
                    let pre = s@.subrange(fstart as int, j as int);
                    assert(s@.subrange(fstart as int, j + 1) =~= pre.push(s@[j as int]));
                    lemma_digits_val_push(pre, s@[j as int]);
                    assert forall|k: int| 0 <= k < pre.len() implies is_digit(
                        #[trigger] pre[k],
                    ) by {
                        assert(pre[k] == s@[k + fstart]);
                    }
                    lemma_digits_val_bound(pre);
                    lemma_pow10_mono(pre.len(), 5);
                    assert(pow10(5) == 100000) by {
                        reveal_with_fuel(pow10, 6);
                    }
                }
                fval = fval * 10 + (fd as i64);
            }
            j = j + 1;
        }
        let fcount = j - fstart;
        let ghost fp = frac_part(b);
        proof {
            assert(fp =~= s@.subrange(fstart as int, n as int));
        }
        if j < n {
            // a non-digit inside the fraction
            proof {
                assert(fp[(j - fstart) as int] == s@[j as int]);
                assert(!is_digit(fp[(j - fstart) as int]));
            }
            return None;
        }
        if fcount == 0 {
            // a dot with nothing after it
            proof {
                assert(fp.len() == 0);
                assert(dot_ix(b) < b.len());
            }
            return None;
        }
        proof {
            assert forall|k: int| 0 <= k < fp.len() implies is_digit(#[trigger] fp[k]) by {
                assert(fp[k] == s@[k + fstart]);
            }
            if fcount <= 5 {
                assert(fp =~= s@.subrange(fstart as int, j as int));
                lemma_digits_val_bound(fp);
                assert(pow10(1) == 10 && pow10(2) == 100 && pow10(3) == 1000 && pow10(4) == 10000
                    && pow10(5) == 100000) by {
                    reveal_with_fuel(pow10, 6);
                }
            }
        }
        let scaled: i64 = if fcount == 1 {
            fval * 100000
        } else if fcount == 2 {
            fval * 10000
        } else if fcount == 3 {
            fval * 1000
        } else if fcount == 4 {
            fval * 100
        } else if fcount == 5 {
            fval * 10
        } else {
            fval
        };
        proof {
            if fcount <= 5 {
                assert(fp =~= s@.subrange(fstart as int, j as int));
            } else {
                assert(fp.take(6) =~= s@.subrange(fstart as int, fstart + 6));
            }
            assert(scaled == frac_micros(fp));
        }
        let m = val * 1000000 + scaled;
        proof {
            assert(abs_micros(b) == m);
        }
        if neg {
            Some(Fixed { micros: -m })
        } else {
            Some(Fixed { micros: m })
        }
    }
}

/// Nearest whole unit, ties rounded away from zero.
pub open spec fn micros_rounded(m: int) -> int {
    if m >= 0 {
        (m + 500000) / 1000000
    } else {
        -((500000 - m) / 1000000)
    }
}

/// Metres per second to kilometres per hour: the exact 3.6 factor, with any
/// remainder below one micro-unit dropped.
pub open spec fn ms_to_kmh_micros(m: int) -> int {
    if m >= 0 {
        (m * 36) / 10
    } else {
        -(((0 - m) * 36) / 10)
    }
}

/// Round to the nearest whole unit.
pub fn round_to_unit(f: &Fixed) -> (r: i64)
    requires
        -100000000000000000 < f.micros < 100000000000000000,
    ensures
        r == micros_rounded(f.micros as int),
{
    if f.micros >= 0 {
        (((f.micros as u64) + 500000) / 1000000) as i64
    } else {
        let a: i64 = -f.micros;
        -((((a as u64) + 500000) / 1000000) as i64)
    }
}

/// Convert a wind speed from m/s to km/h.
pub fn ms_to_kmh(f: &Fixed) -> (r: Fixed)
    requires
        fixed_wf(*f),
    ensures
        r.micros as int == ms_to_kmh_micros(f.micros as int),
        -100000000000000000 < r.micros < 100000000000000000,
{
    if f.micros >= 0 {
        Fixed { micros: ((((f.micros as u64) * 36) / 10) as i64) }
    } else {
        let a: i64 = -f.micros;
        Fixed { micros: -((((a as u64) * 36) / 10) as i64) }
    }
}

/// Turn a 0..1 fraction into a percentage.
pub fn fraction_to_percent(f: &Fixed) -> (r: Fixed)
    requires
        fixed_wf(*f),
    ensures
        r.micros as int == 100 * f.micros,
        -100000000000000000 < r.micros < 100000000000000000,
{
    Fixed { micros: f.micros * 100 }
}

pub open spec fn digit_char(d: int) -> char {
    if d == 0 {
        '0'
    } else if d == 1 {
        '1'
    } else if d == 2 {
        '2'
    } else if d == 3 {
        '3'
    } else if d == 4 {
        '4'
    } else if d == 5 {
        '5'
    } else if d == 6 {
        '6'
    } else if d == 7 {
        '7'
    } else if d == 8 {
        '8'
    } else {
        '9'
    }
}

/// Decimal digits of a non-negative number, most significant first.
pub open spec fn dec_digits(n: int) -> Seq<char>
    decreases n,
{
    if n < 10 {
        seq![digit_char(n)]
    } else {
        dec_digits(n / 10).push(digit_char(n % 10))
    }
}

/// Decimal text of a whole number, with a minus sign when negative.
pub open spec fn dec_int(v: int) -> Seq<char> {
    if v < 0 {
        seq!['-'] + dec_digits(-v)
    } else {
        dec_digits(v)
    }
}

fn digit_char_of(d: u8) -> (c: char)
    requires
        d < 10,
    ensures
        c == digit_char(d as int),
{
    if d == 0 {
        '0'
    } else if d == 1 {
        '1'
    } else if d == 2 {
        '2'
    } else if d == 3 {
        '3'
    } else if d == 4 {
        '4'
    } else if d == 5 {
        '5'
    } else if d == 6 {
        '6'
    } else if d == 7 {
        '7'
    } else if d == 8 {
        '8'
    } else {
        '9'
    }
}

/// Append the decimal digits of `n` to `s`.
pub fn push_u64(s: &mut String, n: u64)
    ensures
        final(s)@ == old(s)@ + dec_digits(n as int),
    decreases n,
{
    if n >= 10 {
        push_u64(s, n / 10);
    }
    let ghost mid = s@;
    push_char(s, digit_char_of((n % 10) as u8));
    proof {
        if n < 10 {
            assert(mid.push(digit_char(n as int)) =~= old(s)@ + dec_digits(n as int));
        } else {
            assert(mid.push(digit_char((n % 10) as int)) =~= old(s)@ + dec_digits(n as int));
        }
    }
}

/// Append the decimal text of `v` to `s`.
pub fn push_i64(s: &mut String, v: i64)
    requires
        v != i64::MIN,
    ensures
        final(s)@ == old(s)@ + dec_int(v as int),
{
    if v < 0 {
        push_char(s, '-');
        let ghost mid = s@;
        push_u64(s, (-v) as u64);
        proof {
            assert(old(s)@.push('-') + dec_digits(-(v as int)) =~= old(s)@ + dec_int(v as int));
        }
    } else {
        push_u64(s, v as u64);
    }
}

} // verus!
