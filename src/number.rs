//! Permissive number readers for record values, and decimal formatting.

use vstd::prelude::*;

use crate::text::{chars_of, push_char, sub_chars};

verus! {

pub open spec fn is_digit(c: char) -> bool {
    '0' <= c && c <= '9'
}

pub open spec fn digit_value(c: char) -> nat {
    (c as int - '0' as int) as nat
}

pub open spec fn all_digits(s: Seq<char>) -> bool {
    forall|i: int| 0 <= i < s.len() ==> is_digit(#[trigger] s[i])
}

/// The number that a run of decimal digits denotes.
pub open spec fn digits_value(s: Seq<char>) -> nat
    decreases s.len(),
{
    if s.len() == 0 {
        0
    } else {
        digits_value(s.drop_last()) * 10 + digit_value(s.last())
    }
}

/// What `str::parse` reads from `s` as an unsigned integer, before the
/// range of the type is checked: an optional `+`, then one digit or more.
pub open spec fn unsigned_value(s: Seq<char>) -> Option<nat> {
    let body = if s.len() > 0 && s[0] == '+' {
        s.drop_first()
    } else {
        s
    };
    if body.len() > 0 && all_digits(body) {
        Some(digits_value(body))
    } else {
        None
    }
}

/// The unsigned integer in `s` if it is one and at most `max`, else zero.
pub open spec fn unsigned_or_zero(s: Seq<char>, max: nat) -> nat {
    match unsigned_value(s) {
        Some(n) => if n <= max {
            n
        } else {
            0
        },
        None => 0,
    }
}

/// The character of a digit.
pub open spec fn digit_char(d: nat) -> char {
    if d == 0 {
        '0'
    } else if d == 1 {
        '1'
    } else if d == 2 {
        '2'
    } else if d == 3 {
        '3'
    } else if d == 4 {
        '4'
    } else if d == 5 {
        '5'
    } else if d == 6 {
        '6'
    } else if d == 7 {
        '7'
    } else if d == 8 {
        '8'
    } else {
        '9'
    }
}

/// `n` in decimal, without leading zeros.
pub open spec fn decimal_text(n: nat) -> Seq<char>
    decreases n,
{
    if n < 10 {
        seq![digit_char(n)]
    } else {
        decimal_text(n / 10).push(digit_char(n % 10))
    }
}

pub proof fn lemma_digits_prefix_le(s: Seq<char>, k: int)
    requires
        0 <= k <= s.len(),
    ensures
        digits_value(s.subrange(0, k)) <= digits_value(s),
    decreases s.len(),
{
    if k < s.len() {
        assert(s.drop_last() =~= s.subrange(0, s.len() - 1));
        lemma_digits_prefix_le(s.drop_last(), k);
        assert(s.drop_last().subrange(0, k) =~= s.subrange(0, k));
    } else {
        assert(s.subrange(0, k) =~= s);
    }
}

/// Decimal text reads back as the number it was written from.
pub proof fn lemma_decimal_text_reads_back(n: nat)
    ensures
        all_digits(decimal_text(n)),
        decimal_text(n).len() >= 1,
        digits_value(decimal_text(n)) == n,
    decreases n,
{
    let d = n % 10;
    assert(digit_value(digit_char(d)) == d && is_digit(digit_char(d)));
    if n >= 10 {
        lemma_decimal_text_reads_back(n / 10);
        let t = decimal_text(n);
        assert(t.drop_last() =~= decimal_text(n / 10));
        assert(n == (n / 10) * 10 + n % 10);
        assert(t.last() == digit_char(d));
        assert(digits_value(t) == digits_value(t.drop_last()) * 10 + digit_value(t.last()));
    } else {
        let t = decimal_text(n);
        assert(t.drop_last() =~= Seq::<char>::empty());
        assert(digits_value(t) == digits_value(t.drop_last()) * 10 + digit_value(t.last()));
    }
}

pub fn digit_of(c: char) -> (r: Option<u64>)
    ensures
        r == (if is_digit(c) {
            Some(digit_value(c) as u64)
        } else {
            None::<u64>
        }),
{
    if '0' <= c && c <= '9' {
        Some((c as u32 - '0' as u32) as u64)
    } else {
        None
    }
}

/// The number that `cs[lo..hi]` denotes if it is all digits and at most
/// `max`.
pub fn digits_at_most(cs: &Vec<char>, lo: usize, hi: usize, max: u64) -> (r: Option<u64>)
    requires
        lo <= hi <= cs.len(),
    ensures
        ({
            let s = cs@.subrange(lo as int, hi as int);
            r == (if all_digits(s) && digits_value(s) <= max {
                Some(digits_value(s) as u64)
            } else {
                None::<u64>
            })
        }),
{
    let ghost s = cs@.subrange(lo as int, hi as int);
    let mut acc: u64 = 0;
    let mut i: usize = lo;
    assert(s.subrange(0, 0) =~= Seq::<char>::empty());
    while i < hi
        invariant
            lo <= i <= hi <= cs.len(),
            s == cs@.subrange(lo as int, hi as int),
            all_digits(s.subrange(0, i - lo)),
            acc == digits_value(s.subrange(0, i - lo)),
            acc <= max,
        decreases hi - i,
    {
        let ghost pre = s.subrange(0, i - lo);
        let ghost next = s.subrange(0, i - lo + 1);
        assert(next.drop_last() =~= pre);
        match digit_of(cs[i]) {
            None => {
                assert(!is_digit(s[i - lo]));
                return None;
            },
            Some(d) => {
                if d > max {
                    proof {
                        if all_digits(s) {
                            lemma_digits_prefix_le(s, i - lo + 1);
                        }
                    }
                    return None;
                }
                if acc > (max - d) / 10 {
                    assert(acc * 10 + d > max) by (nonlinear_arith)
                        requires
                            acc > (max - d) / 10,
                            d <= max,
                    ;
                    proof {
                        if all_digits(s) {
                            lemma_digits_prefix_le(s, i - lo + 1);
                        }
                    }
                    return None;
                }
                assert(acc * 10 + d <= max) by (nonlinear_arith)
                    requires
                        acc <= (max - d) / 10,
                        d <= max,
                ;
                acc = acc * 10 + d;
            },
        }
        i += 1;
        assert(all_digits(next));
    }
    assert(s.subrange(0, hi - lo) =~= s);
    Some(acc)
}

/// The unsigned integer in `cs` if it is one and at most `max`.
pub fn unsigned_at_most(cs: &Vec<char>, max: u64) -> (r: Option<u64>)
    ensures
        r == (match unsigned_value(cs@) {
            Some(n) => if n <= max {
                Some(n as u64)
            } else {
                None::<u64>
            },
            None => None::<u64>,
        }),
{
    let n = cs.len();
    let lo: usize = if n > 0 && cs[0] == '+' {
        1
    } else {
        0
    };
    if lo >= n {
        return None;
    }
    assert(cs@.subrange(lo as int, n as int) =~= (if n > 0 && cs@[0] == '+' {
        cs@.drop_first()
    } else {
        cs@
    }));
    digits_at_most(cs, lo, n, max)
}

/// The `u8` in `cs`, or zero.
pub fn u8_or_zero(cs: &Vec<char>) -> (r: u8)
    ensures
        r == unsigned_or_zero(cs@, 255),
{
    match unsigned_at_most(cs, 255) {
        Some(v) => v as u8,
        None => 0,
    }
}

/// The `u16` in `cs`, or zero.
pub fn u16_or_zero(cs: &Vec<char>) -> (r: u16)
    ensures
        r == unsigned_or_zero(cs@, 65535),
{
    match unsigned_at_most(cs, 65535) {
        Some(v) => v as u16,
        None => 0,
    }
}

pub fn digit_char_of(d: u64) -> (c: char)
    requires
        d < 10,
    ensures
        c == digit_char(d as nat),
{
    match d {
        0 => '0',
        1 => '1',
        2 => '2',
        3 => '3',
        4 => '4',
        5 => '5',
        6 => '6',
        7 => '7',
        8 => '8',
        _ => '9',
    }
}

/// Appends `n` in decimal to `out`.
pub fn push_decimal(out: &mut String, n: u64)
    ensures
        final(out)@ == old(out)@ + decimal_text(n as nat),
    decreases n,
{
    if n >= 10 {
        push_decimal(out, n / 10);
    }
    push_char(out, digit_char_of(n % 10));
    assert(final(out)@ =~= old(out)@ + decimal_text(n as nat));
}


/// A reading written in decimal notation: `digits / 10^scale`, below zero
/// when `negative`. The device writes its fractional readings (height,
/// weight, percentages) this way.
#[derive(Clone, Copy, Debug, PartialEq, Eq, Structural)]
pub struct Decimal {
    pub negative: bool,
    pub digits: u64,
    pub scale: u8,
}

impl Decimal {
    pub open spec fn zero_spec() -> Decimal {
        Decimal { negative: false, digits: 0, scale: 0 }
    }

    /// The value that an unreadable reading decodes to.
    pub fn zero() -> (r: Decimal)
        ensures
            r == Decimal::zero_spec(),
    {
        Decimal { negative: false, digits: 0, scale: 0 }
    }

    /// The reading in decimal notation, with as many fractional digits as
    /// its scale.
    pub fn to_string(&self) -> (r: String)
        ensures
            r@ == decimal_number_text(*self),
    {
        let mut whole = String::new();
        push_decimal(&mut whole, self.digits);
        let t = chars_of(whole.as_str());
        let w: usize = self.scale as usize + 1;
        let mut padded: Vec<char> = Vec::new();
        let mut k: usize = t.len();
        while k < w
            invariant
                t@ == decimal_text(self.digits as nat),
                t.len() <= k <= w || (k == t.len() && k >= w),
                padded@ == Seq::new((k - t.len()) as nat, |i: int| '0'),
            decreases w - k,
        {
            padded.push('0');
            k += 1;
            assert(padded@ =~= Seq::new((k - t.len()) as nat, |i: int| '0'));
        }
        let mut j: usize = 0;
        let ghost lead = padded@;
        while j < t.len()
            invariant
                j <= t.len(),
                padded@ == lead + t@.subrange(0, j as int),
            decreases t.len() - j,
        {
            padded.push(t[j]);
            j += 1;
            assert(padded@ =~= lead + t@.subrange(0, j as int));
        }
        assert(t@.subrange(0, t.len() as int) =~= t@);
        assert(padded@ == pad_zeros(t@, w as nat));
        let mut r = String::new();
        if self.negative {
            push_char(&mut r, '-');
        }
        let ghost sign = r@;
        let n = padded.len();
        let cut = n - self.scale as usize;
        let mut i: usize = 0;
        while i < n
            invariant
                n == padded.len() >= w,
                cut == n - self.scale,
                i <= n,
                r@ == sign + (if i <= cut || self.scale == 0 {
                    padded@.subrange(0, i as int)
                } else {
                    padded@.subrange(0, cut as int) + seq!['.'] + padded@.subrange(
                        cut as int,
                        i as int,
                    )
                }),
            decreases n - i,
        {
            if i == cut && self.scale > 0 {
                push_char(&mut r, '.');
            }
            push_char(&mut r, padded[i]);
            i += 1;
            assert(r@ =~= sign + (if i <= cut || self.scale == 0 {
                padded@.subrange(0, i as int)
            } else {
                padded@.subrange(0, cut as int) + seq!['.'] + padded@.subrange(cut as int, i as int)
            }));
        }
        assert(padded@.subrange(0, n as int) =~= padded@);
        assert(r@ =~= decimal_number_text(*self));
        r
    }
}

/// `t` with zeros in front, up to `w` characters.
pub open spec fn pad_zeros(t: Seq<char>, w: nat) -> Seq<char> {
    if t.len() < w {
        Seq::new((w - t.len()) as nat, |i: int| '0') + t
    } else {
        t
    }
}

/// A [`Decimal`] in decimal notation: a `-` if it is negative, then its
/// digits with a `.` before the last `scale` of them, zeros in front as
/// needed.
pub open spec fn decimal_number_text(d: Decimal) -> Seq<char> {
    let t = pad_zeros(decimal_text(d.digits as nat), d.scale as nat + 1);
    let cut = t.len() - d.scale;
    let body = if d.scale == 0 {
        t
    } else {
        t.subrange(0, cut) + seq!['.'] + t.subrange(cut, t.len() as int)
    };
    if d.negative {
        seq!['-'] + body
    } else {
        body
    }
}

/// The position of the first `.` in `b`, or its length if there is none.
pub open spec fn dot_index(b: Seq<char>) -> int
    decreases b.len(),
{
    if b.len() == 0 || b[0] == '.' {
        0
    } else {
        1 + dot_index(b.drop_first())
    }
}

/// `s` without a leading sign.
pub open spec fn unsigned_part(s: Seq<char>) -> Seq<char> {
    if s.len() > 0 && (s[0] == '+' || s[0] == '-') {
        s.drop_first()
    } else {
        s
    }
}

/// The digits of `b` before its first `.`.
pub open spec fn int_part(b: Seq<char>) -> Seq<char> {
    b.subrange(0, dot_index(b))
}

/// The characters of `b` after its first `.`.
pub open spec fn frac_part(b: Seq<char>) -> Seq<char> {
    if dot_index(b) < b.len() {
        b.subrange(dot_index(b) + 1, b.len() as int)
    } else {
        Seq::empty()
    }
}

/// The reading in `s`: an optional sign, then digits with at most one `.`
/// among them and at least one digit, whose digits fit in `u64` and of
/// which at most 255 follow the `.`. Anything else reads as zero.
/// Unlike a floating-point parse, exponent notation (`1e3`) and the words
/// `inf` and `NaN` are not readings here and read as zero too.
pub open spec fn decimal_of(s: Seq<char>) -> Decimal {
    let b = unsigned_part(s);
    let i = int_part(b);
    let f = frac_part(b);
    if all_digits(i) && all_digits(f) && i.len() + f.len() >= 1 && digits_value(i + f)
        <= u64::MAX && f.len() <= 255 {
        Decimal {
            negative: s.len() > 0 && s[0] == '-',
            digits: digits_value(i + f) as u64,
            scale: f.len() as u8,
        }
    } else {
        Decimal::zero_spec()
    }
}

pub proof fn lemma_dot_index_at(b: Seq<char>, p: int)
    requires
        0 <= p <= b.len(),
        p < b.len() ==> b[p] == '.',
        forall|j: int| 0 <= j < p ==> b[j] != '.',
    ensures
        dot_index(b) == p,
    decreases b.len(),
{
    if p > 0 {
        assert(b[0] != '.');
        lemma_dot_index_at(b.drop_first(), p - 1);
    }
}

/// The reading in `cs`: see [`decimal_of`].
pub fn decimal_or_zero(cs: &Vec<char>) -> (r: Decimal)
    ensures
        r == decimal_of(cs@),
{
    let n = cs.len();
    let lo: usize = if n > 0 && (cs[0] == '+' || cs[0] == '-') {
        1
    } else {
        0
    };
    let negative = n > 0 && cs[0] == '-';
    let ghost b = unsigned_part(cs@);
    assert(b =~= cs@.subrange(lo as int, n as int));
    let mut p: usize = lo;
    while p < n && cs[p] != '.'
        invariant
            lo <= p <= n == cs.len(),
            forall|j: int| lo <= j < p ==> cs@[j] != '.',
        decreases n - p,
    {
        p += 1;
    }
    proof {
        lemma_dot_index_at(b, p - lo);
    }
    let int_digits = sub_chars(cs, lo, p);
    let frac_start: usize = if p < n {
        p + 1
    } else {
        n
    };
    let frac = sub_chars(cs, frac_start, n);
    assert(int_digits@ =~= int_part(b));
    assert(frac@ =~= frac_part(b));
    let mut joined = int_digits;
    let mut j: usize = 0;
    while j < frac.len()
        invariant
            j <= frac.len(),
            joined@ == int_part(b) + frac@.subrange(0, j as int),
        decreases frac.len() - j,
    {
        joined.push(frac[j]);
        j += 1;
        assert(joined@ =~= int_part(b) + frac@.subrange(0, j as int));
    }
    assert(frac@.subrange(0, frac.len() as int) =~= frac@);
    let ghost whole = int_part(b) + frac_part(b);
    assert(joined@ == whole);
    assert(all_digits(whole) <==> all_digits(int_part(b)) && all_digits(frac_part(b))) by {
        if all_digits(int_part(b)) && all_digits(frac_part(b)) {
            assert forall|k: int| 0 <= k < whole.len() implies is_digit(#[trigger] whole[k]) by {
                if k >= int_part(b).len() {
                    assert(whole[k] == frac_part(b)[k - int_part(b).len()]);
                } else {
                    assert(whole[k] == int_part(b)[k]);
                }
            }
        }
        if all_digits(whole) {
            assert forall|k: int| 0 <= k < int_part(b).len() implies is_digit(
                #[trigger] int_part(b)[k],
            ) by {
                assert(whole[k] == int_part(b)[k]);
            }
            assert forall|k: int| 0 <= k < frac_part(b).len() implies is_digit(
                #[trigger] frac_part(b)[k],
            ) by {
                assert(whole[k + int_part(b).len()] == frac_part(b)[k]);
            }
        }
    }
    assert(joined@.subrange(0, joined.len() as int) =~= joined@);
    if joined.len() == 0 || frac.len() > 255 {
        return Decimal::zero();
    }
    match digits_at_most(&joined, 0, joined.len(), u64::MAX) {
        Some(v) => Decimal { negative, digits: v, scale: frac.len() as u8 },
        None => Decimal::zero(),
    }
}

proof fn lemma_zeros_value(n: nat)
    ensures
        all_digits(Seq::new(n, |i: int| '0')),
        digits_value(Seq::new(n, |i: int| '0')) == 0,
    decreases n,
{
    let z = Seq::new(n, |i: int| '0');
    if n > 0 {
        lemma_zeros_value((n - 1) as nat);
        assert(z.drop_last() =~= Seq::new((n - 1) as nat, |i: int| '0'));
    }
}

/// Leading zeros add nothing to the value of digits.
proof fn lemma_leading_zeros(n: nat, t: Seq<char>)
    ensures
        digits_value(Seq::new(n, |i: int| '0') + t) == digits_value(t),
    decreases t.len(),
{
    let z = Seq::new(n, |i: int| '0');
    if t.len() == 0 {
        assert(z + t =~= z);
        lemma_zeros_value(n);
    } else {
        lemma_leading_zeros(n, t.drop_last());
        assert((z + t).drop_last() =~= z + t.drop_last());
        assert((z + t).last() == t.last());
    }
}

/// A reading written in decimal notation reads back as itself.
pub proof fn lemma_decimal_round_trip(d: Decimal)
    ensures
        decimal_of(decimal_number_text(d)) == d,
{
    let t0 = decimal_text(d.digits as nat);
    lemma_decimal_text_reads_back(d.digits as nat);
    let w = d.scale as nat + 1;
    let t = pad_zeros(t0, w);
    let zn: nat = if t0.len() < w {
        (w - t0.len()) as nat
    } else {
        0
    };
    assert(t =~= Seq::new(zn, |i: int| '0') + t0);
    lemma_leading_zeros(zn, t0);
    lemma_zeros_value(zn);
    assert(all_digits(t)) by {
        assert forall|i: int| 0 <= i < t.len() implies is_digit(#[trigger] t[i]) by {
            if i >= zn {
                assert(t[i] == t0[i - zn]);
            }
        }
    }
    assert(digits_value(t) == d.digits);
    assert(t.len() >= w);
    let cut = t.len() - d.scale;
    let body = if d.scale == 0 {
        t
    } else {
        t.subrange(0, cut) + seq!['.'] + t.subrange(cut, t.len() as int)
    };
    let s = decimal_number_text(d);
    assert(s == if d.negative {
        seq!['-'] + body
    } else {
        body
    });
    assert(is_digit(body[0]));
    if d.negative {
        assert((seq!['-'] + body).drop_first() =~= body);
    }
    assert(unsigned_part(s) == body);
    if d.scale == 0 {
        lemma_dot_index_at(body, body.len() as int);
        assert(int_part(body) =~= t);
        assert(frac_part(body) =~= Seq::<char>::empty());
        assert(t + Seq::<char>::empty() =~= t);
    } else {
        assert forall|j: int| 0 <= j < cut implies body[j] != '.' by {
            assert(body[j] == t[j]);
        }
        lemma_dot_index_at(body, cut);
        assert(int_part(body) =~= t.subrange(0, cut));
        assert(frac_part(body) =~= t.subrange(cut, t.len() as int));
        assert(int_part(body) + frac_part(body) =~= t);
        assert(all_digits(int_part(body)));
        assert(all_digits(frac_part(body))) by {
            assert forall|i: int| 0 <= i < frac_part(body).len() implies is_digit(
                #[trigger] frac_part(body)[i],
            ) by {
                assert(frac_part(body)[i] == t[cut + i]);
            }
        }
    }
}

} // verus!
