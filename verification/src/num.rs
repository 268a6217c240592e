//! Decimal numbers.
//!
//! A `Number` is a signed decimal `mantissa / 10^scale`, kept normalized
//! (no trailing zero in the fraction) with at most [`MAX_SCALE`] fractional
//! digits.  Parsing, formatting, comparison and addition are exact.

use vstd::prelude::*;

verus! {

/// Greatest number of fractional digits a `Number` can carry.
pub const MAX_SCALE: u32 = 9;

/// `10^n` over the mathematical integers.
pub open spec fn pow10(n: nat) -> int
    decreases n,
{
    if n == 0 {
        1
    } else {
        10 * pow10((n - 1) as nat)
    }
}

pub proof fn lemma_pow10_positive(n: nat)
    ensures
        pow10(n) >= 1,
    decreases n,
{
    if n > 0 {
        lemma_pow10_positive((n - 1) as nat);
    }
}

pub proof fn lemma_pow10_increases(m: nat, n: nat)
    requires
        m <= n,
    ensures
        pow10(m) <= pow10(n),
    decreases n,
{
    if m < n {
        lemma_pow10_increases(m, (n - 1) as nat);
        lemma_pow10_positive((n - 1) as nat);
    }
}

/// A decimal number: `mantissa / 10^scale`.
#[derive(Debug, Clone, Copy, PartialEq, Eq)]
pub struct Number {
    mantissa: i64,
    scale: u32,
}

/// The exact value of a mantissa/scale pair, as a pair for spec-level use.
#[verifier::ext_equal]
pub struct NumModel {
    pub m: int,
    pub s: nat,
}

/// Normalized: the fraction never ends in a zero digit, so each value has
/// one representation and structural equality is numeric equality.
pub open spec fn num_wf(n: NumModel) -> bool {
    n.s <= MAX_SCALE && (n.s > 0 ==> n.m % 10 != 0)
}

/// The normal form of a mantissa/scale pair: trailing zero digits of the
/// fraction stripped.
pub open spec fn normalize(m: int, s: nat) -> NumModel
    decreases s,
{
    if s > 0 && m % 10 == 0 {
        normalize(m / 10, (s - 1) as nat)
    } else {
        NumModel { m, s }
    }
}

/// Normalizing keeps the value and never raises the scale.
pub proof fn lemma_normalize_props(m: int, s: nat)
    ensures
        normalize(m, s).s <= s,
        normalize(m, s).s > 0 ==> normalize(m, s).m % 10 != 0,
        num_eq(normalize(m, s), NumModel { m, s }),
    decreases s,
{
    if s > 0 && m % 10 == 0 {
        lemma_normalize_props(m / 10, (s - 1) as nat);
        lemma_num_eq_strip(m, s, m, s);
        let n1 = normalize(m / 10, (s - 1) as nat);
        let a = NumModel { m: m / 10, s: (s - 1) as nat };
        let b = NumModel { m, s };
        // numeric equality is transitive across the strip step
        lemma_num_eq_trans(n1, a, b);
    } else {
        lemma_pow10_positive(s);
    }
}

/// Numeric equality is transitive.
pub proof fn lemma_num_eq_trans(a: NumModel, b: NumModel, c: NumModel)
    requires
        num_eq(a, b),
        num_eq(b, c),
    ensures
        num_eq(a, c),
{
    lemma_pow10_positive(a.s);
    lemma_pow10_positive(b.s);
    lemma_pow10_positive(c.s);
    let pa = pow10(a.s);
    let pb = pow10(b.s);
    let pc = pow10(c.s);
    assert((a.m * pb) * pc == (b.m * pa) * pc) by (nonlinear_arith)
        requires
            a.m * pb == b.m * pa,
    ;
    assert((b.m * pc) * pa == (c.m * pb) * pa) by (nonlinear_arith)
        requires
            b.m * pc == c.m * pb,
    ;
    assert((b.m * pa) * pc == (b.m * pc) * pa) by (nonlinear_arith);
    assert((a.m * pb) * pc == (a.m * pc) * pb) by (nonlinear_arith);
    assert((c.m * pb) * pa == (c.m * pa) * pb) by (nonlinear_arith);
    assert(a.m * pc == c.m * pa) by (nonlinear_arith)
        requires
            (a.m * pc) * pb == (c.m * pa) * pb,
            pb >= 1,
    ;
}

/// Numeric order on two models: compare `a.m / 10^a.s` with `b.m / 10^b.s`
/// by cross-multiplying.
pub open spec fn num_le(a: NumModel, b: NumModel) -> bool {
    a.m * pow10(b.s) <= b.m * pow10(a.s)
}

impl View for Number {
    type V = NumModel;

    closed spec fn view(&self) -> NumModel {
        NumModel { m: self.mantissa as int, s: self.scale as nat }
    }
}

impl Number {
    pub open spec fn wf(self) -> bool {
        num_wf(self@)
    }

    /// The number zero.
    pub fn zero() -> (r: Number)
        ensures
            r@.m == 0 && r@.s == 0,
            r.wf(),
    {
        Number { mantissa: 0, scale: 0 }
    }

    /// A whole number.
    pub fn from_int(i: i64) -> (r: Number)
        ensures
            r@.m == i as int && r@.s == 0,
            r.wf(),
    {
        Number { mantissa: i, scale: 0 }
    }

    /// `mantissa / 10^scale`, normalized; rejects more than [`MAX_SCALE`]
    /// fractional digits after normalization.
    pub fn new(mantissa: i64, scale: u32) -> (r: Option<Number>)
        ensures
            ({
                let nm = normalize(mantissa as int, scale as nat);
                match r {
                    Some(n) => nm.s <= MAX_SCALE && n@ == nm && n.wf(),
                    None => nm.s > MAX_SCALE,
                }
            }),
    {
        let mut m: i64 = mantissa;
        let mut s: u32 = scale;
        while s > 0 && m % 10 == 0
            invariant
                s <= scale,
                normalize(m as int, s as nat) == normalize(mantissa as int, scale as nat),
            decreases s,
        {
            m = m / 10;
            s = s - 1;
        }
        proof {
            lemma_normalize_props(mantissa as int, scale as nat);
        }
        if s <= MAX_SCALE {
            Some(Number { mantissa: m, scale: s })
        } else {
            None
        }
    }

    pub fn mantissa(&self) -> (r: i64)
        ensures
            r as int == self@.m,
    {
        self.mantissa
    }

    pub fn scale(&self) -> (r: u32)
        ensures
            r as nat == self@.s,
    {
        self.scale
    }

    /// Numeric order, `self <= other`.
    pub fn le(&self, other: &Number) -> (r: bool)
        requires
            self.wf(),
            other.wf(),
        ensures
            r == num_le(self@, other@),
    {
        proof {
            lemma_cross_bounded(self.mantissa as int, other.scale as nat);
            lemma_cross_bounded(other.mantissa as int, self.scale as nat);
        }
        let pa = pow10_i128(other.scale);
        let pb = pow10_i128(self.scale);
        (self.mantissa as i128) * pa <= (other.mantissa as i128) * pb
    }

    /// Exact sum; `None` when the result does not fit the representation.
    pub fn checked_add(&self, other: &Number) -> (r: Option<Number>)
        requires
            self.wf(),
            other.wf(),
        ensures
            ({
                let nm = normalize(num_sum(self@, other@).m, num_sum(self@, other@).s);
                match r {
                    Some(n) => n@ == nm && n.wf() && -0x8000_0000_0000_0000 <= nm.m
                        <= 0x7fff_ffff_ffff_ffff,
                    None => !(-0x8000_0000_0000_0000 <= nm.m <= 0x7fff_ffff_ffff_ffff),
                }
            }),
    {
        let t: u32 = if self.scale >= other.scale {
            self.scale
        } else {
            other.scale
        };
        proof {
            lemma_cross_bounded(self.mantissa as int, (t - self.scale) as nat);
            lemma_cross_bounded(other.mantissa as int, (t - other.scale) as nat);
        }
        let wa = (self.mantissa as i128) * pow10_i128(t - self.scale);
        let wb = (other.mantissa as i128) * pow10_i128(t - other.scale);
        let mut w: i128 = wa + wb;
        let mut s: u32 = t;
        proof {
            let total = num_sum(self@, other@);
            assert(w as int == total.m && s as nat == total.s);
        }
        while s > 0 && w % 10 == 0
            invariant
                s <= t,
                normalize(w as int, s as nat) == normalize(
                    num_sum(self@, other@).m,
                    num_sum(self@, other@).s,
                ),
            decreases s,
        {
            w = w / 10;
            s = s - 1;
        }
        if w >= -9_223_372_036_854_775_808i128 && w <= 9_223_372_036_854_775_807i128 {
            Some(Number { mantissa: w as i64, scale: s })
        } else {
            None
        }
    }
}

/// The character for one decimal digit.
pub open spec fn digit_char(d: int) -> char {
    if d == 0 {
        '0'
    } else if d == 1 {
        '1'
    } else if d == 2 {
        '2'
    } else if d == 3 {
        '3'
    } else if d == 4 {
        '4'
    } else if d == 5 {
        '5'
    } else if d == 6 {
        '6'
    } else if d == 7 {
        '7'
    } else if d == 8 {
        '8'
    } else {
        '9'
    }
}

/// The decimal digits of a natural number, most significant first.
pub open spec fn dec_digits(n: nat) -> Seq<char>
    decreases n,
{
    if n < 10 {
        seq![digit_char(n as int)]
    } else {
        dec_digits(n / 10).push(digit_char((n % 10) as int))
    }
}

/// Exactly `s` decimal digits of `n`, leading zeroes kept.
pub open spec fn frac_digits(n: nat, s: nat) -> Seq<char>
    decreases s,
{
    if s == 0 {
        Seq::<char>::empty()
    } else {
        frac_digits(n / 10, (s - 1) as nat).push(digit_char((n % 10) as int))
    }
}

/// The text form of a decimal number: an optional minus sign, the integer
/// digits, and for a fractional scale a dot and exactly `s` fraction digits.
pub open spec fn num_str(m: int, s: nat) -> Seq<char> {
    if m < 0 {
        seq!['-'] + mag_str((-m) as nat, s)
    } else {
        mag_str(m as nat, s)
    }
}

/// The text form of a nonnegative mantissa at a scale.
pub open spec fn mag_str(n: nat, s: nat) -> Seq<char> {
    if s == 0 {
        dec_digits(n)
    } else {
        dec_digits(n / (pow10(s) as nat)) + seq!['.'] + frac_digits(n % (pow10(s) as nat), s)
    }
}

fn digit_char_exec(d: u64) -> (r: char)
    requires
        d < 10,
    ensures
        r == digit_char(d as int),
{
    match d {
        0 => '0',
        1 => '1',
        2 => '2',
        3 => '3',
        4 => '4',
        5 => '5',
        6 => '6',
        7 => '7',
        8 => '8',
        _ => '9',
    }
}

fn push_dec_digits(out: &mut Vec<char>, n: u64)
    ensures
        final(out)@ == old(out)@ + dec_digits(n as nat),
    decreases n,
{
    if n < 10 {
        out.push(digit_char_exec(n));
        proof {
            assert(final(out)@ =~= old(out)@ + dec_digits(n as nat));
        }
    } else {
        push_dec_digits(out, n / 10);
        out.push(digit_char_exec(n % 10));
        proof {
            assert(final(out)@ =~= old(out)@ + dec_digits(n as nat));
        }
    }
}

fn push_frac_digits(out: &mut Vec<char>, n: u64, s: u32)
    ensures
        final(out)@ == old(out)@ + frac_digits(n as nat, s as nat),
    decreases s,
{
    if s == 0 {
        proof {
            assert(final(out)@ =~= old(out)@ + frac_digits(n as nat, 0));
        }
    } else {
        push_frac_digits(out, n / 10, s - 1);
        out.push(digit_char_exec(n % 10));
        proof {
            assert(final(out)@ =~= old(out)@ + frac_digits(n as nat, s as nat));
        }
    }
}

/// The decimal digits of a number, most significant first.
pub fn u64_to_chars(n: u64) -> (r: Vec<char>)
    ensures
        r@ == dec_digits(n as nat),
{
    let mut out: Vec<char> = Vec::new();
    push_dec_digits(&mut out, n);
    proof {
        assert(out@ =~= dec_digits(n as nat));
    }
    out
}

impl Number {
    /// The text form of the number.
    pub fn to_chars(&self) -> (r: Vec<char>)
        requires
            self.wf(),
        ensures
            r@ == num_str(self@.m, self@.s),
    {
        let mut out: Vec<char> = Vec::new();
        let mag: u64 = if self.mantissa < 0 {
            out.push('-');
            (-(self.mantissa as i128)) as u64
        } else {
            self.mantissa as u64
        };
        if self.scale == 0 {
            push_dec_digits(&mut out, mag);
            proof {
                if self.mantissa < 0 {
                    assert(out@ =~= seq!['-'] + dec_digits(mag as nat));
                }
            }
        } else {
            proof {
                lemma_pow10_increases(self.scale as nat, MAX_SCALE as nat);
                lemma_pow10_positive(self.scale as nat);
                assert(pow10(9) == 1_000_000_000) by {
                    reveal_with_fuel(pow10, 10);
                }
            }
            let p = pow10_i128(self.scale) as u64;
            let ip = mag / p;
            let fr = mag % p;
            push_dec_digits(&mut out, ip);
            out.push('.');
            push_frac_digits(&mut out, fr, self.scale);
            proof {
                let pre: Seq<char> = if self.mantissa < 0 {
                    seq!['-']
                } else {
                    Seq::<char>::empty()
                };
                assert(out@ =~= pre + (dec_digits(ip as nat) + seq!['.'] + frac_digits(
                    fr as nat,
                    self.scale as nat,
                )));
            }
        }
        out
    }
}

/// A decimal digit.
pub open spec fn is_digit(c: char) -> bool {
    48 <= c as u32 <= 57
}

/// The value of one decimal digit.
pub open spec fn digit_val(c: char) -> int {
    c as u32 - 48
}

/// The value of a run of decimal digits, most significant first.
pub open spec fn digits_val(s: Seq<char>) -> int
    decreases s.len(),
{
    if s.len() == 0 {
        0
    } else {
        digits_val(s.drop_last()) * 10 + digit_val(s.last())
    }
}

/// Where the run of decimal digits starting at `i` ends.
pub open spec fn digit_run_end(s: Seq<char>, i: int) -> int
    decreases s.len() - i,
{
    if 0 <= i < s.len() && is_digit(s[i]) {
        digit_run_end(s, i + 1)
    } else {
        i
    }
}

/// Greatest number of decimal digits a parsed number can carry.
pub const MAX_DIGITS: u32 = 18;

/// What parsing a decimal numeral yields: an optional sign, integer digits,
/// and an optional dot with fraction digits, at least one digit in all;
/// rejected when over [`MAX_DIGITS`] digits or, normalized, over
/// [`MAX_SCALE`] fraction digits.
pub open spec fn parse_num(s: Seq<char>) -> Option<NumModel> {
    let neg = s.len() > 0 && s[0] == '-';
    let t = if s.len() > 0 && (s[0] == '-' || s[0] == '+') {
        s.drop_first()
    } else {
        s
    };
    let a = digit_run_end(t, 0);
    if t.len() == 0 {
        None
    } else if a == t.len() {
        parse_num_digits(neg, t, 0)
    } else if t[a] == '.' {
        let b = digit_run_end(t, a + 1);
        if b == t.len() {
            parse_num_digits(neg, t.subrange(0, a) + t.subrange(a + 1, b), (b - a - 1) as nat)
        } else {
            None
        }
    } else {
        None
    }
}

/// The number a digit run and a scale stand for, signed and normalized.
pub open spec fn parse_num_digits(neg: bool, digits: Seq<char>, scale: nat) -> Option<NumModel> {
    if digits.len() == 0 || digits.len() > MAX_DIGITS {
        None
    } else {
        let raw = digits_val(digits);
        let m0 = if neg {
            -raw
        } else {
            raw
        };
        let nm = normalize(m0, scale);
        if nm.s > MAX_SCALE {
            None
        } else {
            Some(nm)
        }
    }
}

/// Every position of a digit run holds a digit, and the run is maximal.
pub proof fn lemma_digit_run_end(s: Seq<char>, i: int)
    requires
        0 <= i <= s.len(),
    ensures
        i <= digit_run_end(s, i) <= s.len(),
        forall|k: int| i <= k < digit_run_end(s, i) ==> is_digit(#[trigger] s[k]),
        digit_run_end(s, i) < s.len() ==> !is_digit(s[digit_run_end(s, i)]),
    decreases s.len() - i,
{
    if i < s.len() && is_digit(s[i]) {
        lemma_digit_run_end(s, i + 1);
    }
}

/// A digit run's value is nonnegative and below `10^len`.
pub proof fn lemma_digits_val_bound(s: Seq<char>)
    requires
        forall|k: int| 0 <= k < s.len() ==> is_digit(#[trigger] s[k]),
    ensures
        0 <= digits_val(s) < pow10(s.len()),
    decreases s.len(),
{
    if s.len() > 0 {
        lemma_digits_val_bound(s.drop_last());
        let h = digits_val(s.drop_last());
        let p = pow10((s.len() - 1) as nat);
        assert(h * 10 + digit_val(s.last()) < p * 10) by (nonlinear_arith)
            requires
                0 <= h < p,
                0 <= digit_val(s.last()) < 10,
        ;
    }
}

fn is_digit_exec(c: char) -> (r: bool)
    ensures
        r == is_digit(c),
{
    let u = c as u32;
    48 <= u && u <= 57
}

/// The end of the run of decimal digits starting at `from`.
pub fn digit_run_end_exec(s: &Vec<char>, from: usize) -> (r: usize)
    requires
        from <= s@.len(),
    ensures
        r as int == digit_run_end(s@, from as int),
        from <= r <= s@.len(),
{
    let mut j = from;
    while j < s.len()
        invariant
            from <= j <= s@.len(),
            digit_run_end(s@, from as int) == digit_run_end(s@, j as int),
        decreases s@.len() - j,
    {
        if !is_digit_exec(s[j]) {
            return j;
        }
        j = j + 1;
    }
    j
}

/// The value of the digits `s[from..to]`, continuing from `acc`.
fn accumulate_digits(s: &Vec<char>, from: usize, to: usize, acc: u64, ghost_pre: Ghost<Seq<char>>) -> (r: u64)
    requires
        from <= to <= s@.len(),
        forall|k: int| from <= k < to ==> is_digit(#[trigger] s@[k]),
        forall|k: int| 0 <= k < ghost_pre@.len() ==> is_digit(#[trigger] ghost_pre@[k]),
        acc == digits_val(ghost_pre@),
        ghost_pre@.len() + (to - from) <= MAX_DIGITS,
    ensures
        r == digits_val(ghost_pre@ + s@.subrange(from as int, to as int)),
        0 <= r < pow10((ghost_pre@.len() + (to - from)) as nat),
{
    let mut acc = acc;
    let mut j = from;
    proof {
        assert(ghost_pre@ + s@.subrange(from as int, from as int) =~= ghost_pre@);
        lemma_digits_val_bound(ghost_pre@);
        assert(pow10(18) == 1_000_000_000_000_000_000) by {
            reveal_with_fuel(pow10, 19);
        }
    }
    while j < to
        invariant
            from <= j <= to <= s@.len(),
            forall|k: int| from <= k < to ==> is_digit(#[trigger] s@[k]),
            forall|k: int| 0 <= k < ghost_pre@.len() ==> is_digit(#[trigger] ghost_pre@[k]),
            ghost_pre@.len() + (to - from) <= MAX_DIGITS,
            acc == digits_val(ghost_pre@ + s@.subrange(from as int, j as int)),
            0 <= acc < pow10((ghost_pre@.len() + (j - from)) as nat),
            pow10(18) == 1_000_000_000_000_000_000,
        decreases to - j,
    {
        let ghost cur = ghost_pre@ + s@.subrange(from as int, j as int);
        let d = (s[j] as u32 - 48) as u64;
        proof {
            lemma_pow10_increases((ghost_pre@.len() + (j - from) + 1) as nat, 18);
            assert(acc * 10 + d < pow10((ghost_pre@.len() + (j - from) + 1) as nat))
                by (nonlinear_arith)
                requires
                    0 <= acc < pow10((ghost_pre@.len() + (j - from)) as nat),
                    0 <= d < 10,
                    pow10((ghost_pre@.len() + (j - from) + 1) as nat) == 10 * pow10(
                        (ghost_pre@.len() + (j - from)) as nat,
                    ),
            ;
            let nxt = ghost_pre@ + s@.subrange(from as int, j + 1);
            assert(nxt.drop_last() =~= cur);
            assert(nxt.last() == s@[j as int]);
        }
        acc = acc * 10 + d;
        j = j + 1;
    }
    acc
}

/// Parse a decimal numeral: an optional sign, integer digits, and an
/// optional dot with fraction digits.
#[verifier::rlimit(80)]
pub fn parse_decimal(s: &Vec<char>) -> (r: Option<Number>)
    ensures
        match r {
            Some(n) => parse_num(s@) == Some(n@) && n.wf(),
            None => parse_num(s@) is None,
        },
{
    let n = s.len();
    let neg = n > 0 && s[0] == '-';
    let signed = n > 0 && (s[0] == '-' || s[0] == '+');
    let start: usize = if signed {
        1
    } else {
        0
    };
    let ghost t = if signed {
        s@.drop_first()
    } else {
        s@
    };
    proof {
        assert(t =~= s@.subrange(start as int, n as int));
        lemma_run_end_shift(s@, start as int);
    }
    if start >= n {
        return None;
    }
    let a = digit_run_end_exec(s, start);
    proof {
        lemma_digit_run_end(s@, start as int);
    }
    if a == n {
        if a == start || a - start > MAX_DIGITS as usize {
            proof {
                assert(digit_run_end(t, 0) == a - start);
            }
            return None;
        }
        let raw = accumulate_digits(s, start, a, 0, Ghost(Seq::empty()));
        proof {
            assert(Seq::<char>::empty() + s@.subrange(start as int, a as int) =~= s@.subrange(
                start as int,
                a as int,
            ));
            assert(digit_run_end(t, 0) == a - start);
            assert(t =~= s@.subrange(start as int, a as int));
            assert(pow10(18) == 1_000_000_000_000_000_000) by {
                reveal_with_fuel(pow10, 19);
            }
            lemma_pow10_increases((a - start) as nat, 18);
        }
        let m: i64 = if neg {
            -(raw as i64)
        } else {
            raw as i64
        };
        proof {
            assert(parse_num(s@) == parse_num_digits(neg, t, 0));
            assert(digits_val(t) == raw as int);
        }
        Number::new(m, 0)
    } else {
        if s[a] != '.' {
            proof {
                assert(digit_run_end(t, 0) == a - start);
                assert(t[(a - start) as int] == s@[a as int]);
            }
            return None;
        }
        let b = digit_run_end_exec(s, a + 1);
        proof {
            lemma_digit_run_end(s@, a + 1);
            lemma_run_end_shift(s@, start as int);
            assert(digit_run_end(t, 0) == a - start);
            assert(digit_run_end(t, (a - start + 1) as int) == b - start);
        }
        if b != n {
            proof {
                assert(t[(a - start) as int] == s@[a as int]);
            }
            return None;
        }
        let total = (a - start) + (b - a - 1);
        let ghost digits = t.subrange(0, (a - start) as int) + t.subrange(
            (a - start + 1) as int,
            (b - start) as int,
        );
        proof {
            assert(t[(a - start) as int] == s@[a as int]);
            assert(t.subrange(0, (a - start) as int) =~= s@.subrange(start as int, a as int));
            assert(t.subrange((a - start + 1) as int, (b - start) as int) =~= s@.subrange(
                a + 1,
                b as int,
            ));
        }
        if total == 0 || total > MAX_DIGITS as usize {
            return None;
        }
        let acc1 = accumulate_digits(s, start, a, 0, Ghost(Seq::empty()));
        proof {
            assert(Seq::<char>::empty() + s@.subrange(start as int, a as int) =~= s@.subrange(
                start as int,
                a as int,
            ));
        }
        let raw = accumulate_digits(s, a + 1, b, acc1, Ghost(s@.subrange(start as int, a as int)));
        proof {
            assert(s@.subrange(start as int, a as int) + s@.subrange(a + 1, b as int) =~= digits);
            assert(pow10(18) == 1_000_000_000_000_000_000) by {
                reveal_with_fuel(pow10, 19);
            }
            lemma_pow10_increases(total as nat, 18);
        }
        let m: i64 = if neg {
            -(raw as i64)
        } else {
            raw as i64
        };
        proof {
            assert(parse_num(s@) == parse_num_digits(neg, digits, (b - a - 1) as nat));
            assert(digits.len() == total);
            assert(digits_val(digits) == raw as int);
        }
        Number::new(m, (b - a - 1) as u32)
    }
}

/// A digit run inside the unsigned tail sits where it sits in the whole
/// numeral, shifted by the sign's width.
proof fn lemma_run_end_shift(s: Seq<char>, d: int)
    requires
        0 <= d <= s.len(),
    ensures
        forall|i: int|
            0 <= i <= s.len() - d ==> digit_run_end(s.subrange(d, s.len() as int), i) == #[trigger]
            digit_run_end(s, i + d) - d,
    decreases s.len(),
{
    let t = s.subrange(d, s.len() as int);
    assert forall|i: int| 0 <= i <= s.len() - d implies digit_run_end(t, i) == #[trigger]
    digit_run_end(s, i + d) - d by {
        lemma_run_end_shift_one(s, d, i);
    }
}

proof fn lemma_run_end_shift_one(s: Seq<char>, d: int, i: int)
    requires
        0 <= d <= s.len(),
        0 <= i <= s.len() - d,
    ensures
        digit_run_end(s.subrange(d, s.len() as int), i) == digit_run_end(s, i + d) - d,
    decreases s.len() - d - i,
{
    let t = s.subrange(d, s.len() as int);
    if i < t.len() && is_digit(t[i]) {
        lemma_run_end_shift_one(s, d, i + 1);
    }
}

/// Numeric equality of two models.
pub open spec fn num_eq(a: NumModel, b: NumModel) -> bool {
    a.m * pow10(b.s) == b.m * pow10(a.s)
}

/// Three-way numeric comparison of two models.
pub open spec fn num_cmp(a: NumModel, b: NumModel) -> int {
    let x = a.m * pow10(b.s);
    let y = b.m * pow10(a.s);
    if x < y {
        -1
    } else if x == y {
        0
    } else {
        1
    }
}

impl Number {
    /// Three-way numeric comparison.
    pub fn cmp_with(&self, other: &Number) -> (r: i8)
        requires
            self.wf(),
            other.wf(),
        ensures
            r as int == num_cmp(self@, other@),
    {
        proof {
            lemma_cross_bounded(self.mantissa as int, other.scale as nat);
            lemma_cross_bounded(other.mantissa as int, self.scale as nat);
        }
        let x = (self.mantissa as i128) * pow10_i128(other.scale);
        let y = (other.mantissa as i128) * pow10_i128(self.scale);
        if x < y {
            -1
        } else if x == y {
            0
        } else {
            1
        }
    }
}

/// The exact sum of two models, aligned to the larger scale.
pub open spec fn num_sum(a: NumModel, b: NumModel) -> NumModel {
    let t = if a.s >= b.s {
        a.s
    } else {
        b.s
    };
    NumModel { m: a.m * pow10((t - a.s) as nat) + b.m * pow10((t - b.s) as nat), s: t }
}

/// Dividing a mantissa that ends in zero by ten and dropping one scale step
/// keeps the value.
proof fn lemma_num_eq_strip(m: int, s: nat, m0: int, s0: nat)
    requires
        s > 0,
        m % 10 == 0,
        num_eq(NumModel { m: m, s: s }, NumModel { m: m0, s: s0 }),
    ensures
        num_eq(NumModel { m: m / 10, s: (s - 1) as nat }, NumModel { m: m0, s: s0 }),
{
    let md = m / 10;
    assert(m == 10 * md);
    assert(pow10(s) == 10 * pow10((s - 1) as nat));
    assert((10 * md) * pow10(s0) == 10 * (md * pow10(s0))) by (nonlinear_arith);
    assert(m0 * pow10(s) == m0 * (10 * pow10((s - 1) as nat)));
    assert(m0 * (10 * pow10((s - 1) as nat)) == 10 * (m0 * pow10((s - 1) as nat)))
        by (nonlinear_arith);
}

/// `|m| * 10^s` stays well inside `i128` for an `i64` mantissa and a small
/// scale.
proof fn lemma_cross_bounded(m: int, s: nat)
    requires
        -0x8000_0000_0000_0000 <= m <= 0x7fff_ffff_ffff_ffff,
        s <= MAX_SCALE,
    ensures
        -0x8000_0000_0000_0000_0000_0000_0000_0000int / 4 <= m * pow10(s)
            <= 0x7fff_ffff_ffff_ffff_ffff_ffff_ffff_ffffint / 4,
{
    lemma_pow10_positive(s);
    lemma_pow10_increases(s, MAX_SCALE as nat);
    assert(pow10(9) == 1_000_000_000) by {
        reveal_with_fuel(pow10, 10);
    }
    let p = pow10(s);
    assert(1 <= p <= 1_000_000_000);
    assert(m * p <= 0x7fff_ffff_ffff_ffff * 1_000_000_000 || m * p <= 0) by (nonlinear_arith)
        requires
            m <= 0x7fff_ffff_ffff_ffff,
            1 <= p <= 1_000_000_000,
    ;
    assert(m * p >= -0x8000_0000_0000_0000 * 1_000_000_000 || m * p >= 0) by (nonlinear_arith)
        requires
            m >= -0x8000_0000_0000_0000,
            1 <= p <= 1_000_000_000,
    ;
}

/// `10^s` as an `i128`.
fn pow10_i128(s: u32) -> (r: i128)
    requires
        s <= MAX_SCALE,
    ensures
        r == pow10(s as nat),
{
    let mut r: i128 = 1;
    let mut j: u32 = 0;
    proof {
        lemma_pow10_increases(s as nat, MAX_SCALE as nat);
        assert(pow10(9) == 1_000_000_000) by {
            reveal_with_fuel(pow10, 10);
        }
    }
    while j < s
        invariant
            j <= s,
            s <= MAX_SCALE,
            r == pow10(j as nat),
            pow10(s as nat) <= 1_000_000_000,
        decreases s - j,
    {
        proof {
            lemma_pow10_increases((j + 1) as nat, s as nat);
            lemma_pow10_positive(j as nat);
        }
        r = r * 10;
        j = j + 1;
    }
    r
}

} // verus!
