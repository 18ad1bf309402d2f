//! Kubernetes quantity strings as exact decimal values.
//!
//! A quantity is a signed decimal number followed by an optional suffix from
//! a fixed table: the binary suffixes `Ki Mi Gi Ti Pi Ei` (powers of 1024),
//! the decimal suffixes `k M G T P E` (powers of 1000), and `m` (one
//! thousandth). A quantity is represented exactly as an integer mantissa
//! divided by a power of ten, so parsing, summing and re-formatting values
//! never rounds. The numeric grammar is a plain decimal number: an optional
//! sign, digits, and at most one decimal point; exponent forms are not part
//! of the grammar this library accepts.
//!
//! The representation is bounded: a mantissa must stay below
//! [`MANTISSA_LIMIT`] and at most [`SCALE_MAX`] decimal places are kept
//! (suffix `m` contributes three of them). Values outside those bounds are
//! rejected as out of range rather than rounded.

use vstd::prelude::*;
use vstd::string::StrSliceExecFns;

verus! {

/// Upper bound (exclusive) on a quantity's mantissa: 10^26.
pub const MANTISSA_LIMIT: u128 = 100_000_000_000_000_000_000_000_000;

/// Largest number of decimal places a quantity keeps.
pub const SCALE_MAX: u32 = 12;

/// 10^n.
pub open spec fn pow10(n: nat) -> nat
    decreases n,
{
    if n == 0 {
        1
    } else {
        10 * pow10((n - 1) as nat)
    }
}

/// An exact decimal value: `mantissa / 10^scale`, negated when `negative`.
#[derive(Clone, Copy, Debug, PartialEq, Eq, Structural)]
pub struct Quantity {
    pub negative: bool,
    pub mantissa: u128,
    pub scale: u32,
}

impl Quantity {
    /// Well-formed: the scale is within range and zero is never negative.
    pub open spec fn wf(self) -> bool {
        &&& self.scale <= SCALE_MAX
        &&& (self.negative ==> self.mantissa > 0)
    }

    /// The mantissa with its sign applied.
    pub open spec fn signed(self) -> int {
        if self.negative {
            -(self.mantissa as int)
        } else {
            self.mantissa as int
        }
    }

    /// The value expressed in units of 10^-SCALE_MAX, the library's common
    /// fixed-point grid. Two quantities denote the same number exactly when
    /// their scaled values agree.
    pub open spec fn scaled(self) -> int {
        self.signed() * pow10((SCALE_MAX - self.scale) as nat)
    }
}

/// How a quantity string can fail to parse.
#[derive(Clone, Copy, Debug, PartialEq, Eq, Structural)]
pub enum ParseError {
    /// The string ends in a one- or two-letter run that is not in the
    /// suffix table.
    UnknownSuffix,
    /// The part before the suffix is not a plain decimal number.
    MalformedNumber,
    /// The number is valid but needs a mantissa or scale beyond what this
    /// representation holds.
    OutOfRange,
}

// ---------------------------------------------------------------------------
// The grammar, as spec functions over character sequences.
// ---------------------------------------------------------------------------

pub open spec fn is_ascii_digit(c: char) -> bool {
    '0' <= c && c <= '9'
}

pub open spec fn is_ascii_alpha(c: char) -> bool {
    ('a' <= c && c <= 'z') || ('A' <= c && c <= 'Z')
}

pub open spec fn digit_value(c: char) -> nat {
    (c as u32 - '0' as u32) as nat
}

/// Length of the maximal run of ASCII letters at the end of the string.
pub open spec fn trailing_alpha_len(s: Seq<char>) -> nat
    decreases s.len(),
{
    if s.len() == 0 || !is_ascii_alpha(s.last()) {
        0
    } else {
        1 + trailing_alpha_len(s.drop_last())
    }
}

/// How many characters the suffix takes: a trailing run of one or two
/// letters is a suffix candidate; no run, or a longer run, leaves the whole
/// string to the number grammar.
pub open spec fn suffix_len(s: Seq<char>) -> nat {
    let t = trailing_alpha_len(s);
    if 1 <= t && t <= 2 {
        t
    } else {
        0
    }
}

pub open spec fn suffix_part(s: Seq<char>) -> Seq<char> {
    s.subrange(s.len() - suffix_len(s), s.len() as int)
}

pub open spec fn number_part(s: Seq<char>) -> Seq<char> {
    s.subrange(0, s.len() - suffix_len(s))
}

/// The suffix table. A multiplier is a pair `(num, dpow)` standing for
/// `num / 10^dpow`; the empty suffix multiplies by one, and `m` divides by
/// a thousand. Unknown suffixes have no entry.
pub open spec fn suffix_multiplier(s: Seq<char>) -> Option<(nat, nat)> {
    if s.len() == 0 {
        Some(((1 as nat), (0 as nat)))
    } else if s.len() == 1 {
        if s[0] == 'k' {
            Some(((1000 as nat), (0 as nat)))
        } else if s[0] == 'M' {
            Some(((1000000 as nat), (0 as nat)))
        } else if s[0] == 'G' {
            Some(((1000000000 as nat), (0 as nat)))
        } else if s[0] == 'T' {
            Some(((1000000000000 as nat), (0 as nat)))
        } else if s[0] == 'P' {
            Some(((1000000000000000 as nat), (0 as nat)))
        } else if s[0] == 'E' {
            Some(((1000000000000000000 as nat), (0 as nat)))
        } else if s[0] == 'm' {
            Some(((1 as nat), (3 as nat)))
        } else {
            None
        }
    } else if s.len() == 2 && s[1] == 'i' {
        if s[0] == 'K' {
            Some(((1024 as nat), (0 as nat)))
        } else if s[0] == 'M' {
            Some(((1048576 as nat), (0 as nat)))
        } else if s[0] == 'G' {
            Some(((1073741824 as nat), (0 as nat)))
        } else if s[0] == 'T' {
            Some(((1099511627776 as nat), (0 as nat)))
        } else if s[0] == 'P' {
            Some(((1125899906842624 as nat), (0 as nat)))
        } else if s[0] == 'E' {
            Some(((1152921504606846976 as nat), (0 as nat)))
        } else {
            None
        }
    } else {
        None
    }
}

/// Does the number token start with a sign character?
pub open spec fn has_sign(t: Seq<char>) -> bool {
    t.len() > 0 && (t[0] == '+' || t[0] == '-')
}

pub open spec fn is_negative_token(t: Seq<char>) -> bool {
    t.len() > 0 && t[0] == '-'
}

/// The number token with its sign removed.
pub open spec fn number_body(t: Seq<char>) -> Seq<char> {
    if has_sign(t) {
        t.drop_first()
    } else {
        t
    }
}

pub open spec fn digit_count(b: Seq<char>) -> nat
    decreases b.len(),
{
    if b.len() == 0 {
        0
    } else {
        digit_count(b.drop_last()) + if is_ascii_digit(b.last()) {
            1 as nat
        } else {
            0 as nat
        }
    }
}

pub open spec fn dot_count(b: Seq<char>) -> nat
    decreases b.len(),
{
    if b.len() == 0 {
        0
    } else {
        dot_count(b.drop_last()) + if b.last() == '.' {
            1 as nat
        } else {
            0 as nat
        }
    }
}

/// A valid unsigned number body: at least one digit, at most one decimal
/// point, and nothing else.
pub open spec fn valid_number_body(b: Seq<char>) -> bool {
    &&& digit_count(b) >= 1
    &&& dot_count(b) <= 1
    &&& digit_count(b) + dot_count(b) == b.len()
}

/// A valid signed number token.
pub open spec fn valid_number(t: Seq<char>) -> bool {
    valid_number_body(number_body(t))
}

/// The value of the digits read in order, the decimal point skipped.
pub open spec fn digits_value(b: Seq<char>) -> nat
    decreases b.len(),
{
    if b.len() == 0 {
        0
    } else if is_ascii_digit(b.last()) {
        digits_value(b.drop_last()) * 10 + digit_value(b.last())
    } else {
        digits_value(b.drop_last())
    }
}

/// How many digits stand after the decimal point (zero when there is none).
pub open spec fn frac_len(b: Seq<char>) -> nat
    decreases b.len(),
{
    if b.len() == 0 {
        0
    } else if b.last() == '.' {
        0
    } else if dot_count(b) == 0 {
        0
    } else {
        1 + frac_len(b.drop_last())
    }
}

/// Do a mantissa and scale fit the representation?
pub open spec fn in_range(mantissa: nat, scale: nat) -> bool {
    mantissa < MANTISSA_LIMIT && scale <= SCALE_MAX
}

/// What `parse` returns, as a function of the input characters.
///
/// An unrecognized one- or two-letter suffix fails before the number is
/// looked at; with the suffix settled, the rest must be a plain decimal
/// number; and the resulting mantissa and scale must fit the representation.
pub open spec fn parse_result(s: Seq<char>) -> Result<Quantity, ParseError> {
    match suffix_multiplier(suffix_part(s)) {
        None => Err(ParseError::UnknownSuffix),
        Some(mult) => {
            let t = number_part(s);
            if !valid_number(t) {
                Err(ParseError::MalformedNumber)
            } else {
                let b = number_body(t);
                let mantissa = digits_value(b) * mult.0;
                let scale = frac_len(b) + mult.1;
                if in_range(mantissa, scale) {
                    Ok(
                        Quantity {
                            negative: is_negative_token(t) && mantissa > 0,
                            mantissa: mantissa as u128,
                            scale: scale as u32,
                        },
                    )
                } else {
                    Err(ParseError::OutOfRange)
                }
            }
        },
    }
}

// ---------------------------------------------------------------------------
// Helper lemmas about the grammar.
// ---------------------------------------------------------------------------

/// Extending a body by one character steps every counter the way the
/// single-pass scanner does.
pub proof fn lemma_body_push(b: Seq<char>, c: char)
    ensures
        digit_count(b.push(c)) == digit_count(b) + if is_ascii_digit(c) {
            1 as nat
        } else {
            0 as nat
        },
        dot_count(b.push(c)) == dot_count(b) + if c == '.' {
            1 as nat
        } else {
            0 as nat
        },
        digits_value(b.push(c)) == if is_ascii_digit(c) {
            digits_value(b) * 10 + digit_value(c)
        } else {
            digits_value(b)
        },
        frac_len(b.push(c)) == if c == '.' {
            0 as nat
        } else if dot_count(b.push(c)) == 0 {
            0 as nat
        } else {
            frac_len(b) + 1
        },
{
    assert(b.push(c).drop_last() =~= b);
    assert(b.push(c).last() == c);
}

/// The digit and dot counters never exceed the length together.
pub proof fn lemma_counts_le_len(b: Seq<char>)
    ensures
        digit_count(b) + dot_count(b) <= b.len(),
    decreases b.len(),
{
    if b.len() > 0 {
        lemma_counts_le_len(b.drop_last());
    }
}

/// A scan from the end that stopped at the first non-letter has measured
/// the trailing alpha run.
pub proof fn lemma_trailing_alpha_from_scan(s: Seq<char>, run: nat)
    requires
        run <= s.len(),
        forall|j: int| s.len() - run <= j < s.len() ==> is_ascii_alpha(#[trigger] s[j]),
        run == s.len() || !is_ascii_alpha(s[s.len() - run - 1]),
    ensures
        trailing_alpha_len(s) == run,
    decreases run,
{
    if run == 0 {
    } else {
        assert(is_ascii_alpha(s.last()));
        let d = s.drop_last();
        assert(forall|j: int|
            d.len() - (run - 1) <= j < d.len() ==> is_ascii_alpha(#[trigger] d[j]));
        lemma_trailing_alpha_from_scan(d, (run - 1) as nat);
    }
}

// ---------------------------------------------------------------------------
// The parser.
// ---------------------------------------------------------------------------

fn char_is_alpha(c: char) -> (r: bool)
    ensures
        r == is_ascii_alpha(c),
{
    ('a' <= c && c <= 'z') || ('A' <= c && c <= 'Z')
}

fn char_is_digit(c: char) -> (r: bool)
    ensures
        r == is_ascii_digit(c),
{
    '0' <= c && c <= '9'
}

/// Decodes a Kubernetes quantity string into an exact decimal value.
///
/// The outcome is fixed by [`parse_result`]: a trailing run of one or two
/// letters must name a suffix from the table, the rest must be a plain
/// decimal number, and the value must fit the bounded representation.
pub fn parse(quantity: &str) -> (r: Result<Quantity, ParseError>)
    ensures
        r == parse_result(quantity@),
{
    let len = quantity.unicode_len();

    // Measure the maximal trailing run of ASCII letters.
    let mut run: usize = 0;
    while run < len && char_is_alpha(quantity.get_char(len - 1 - run))
        invariant
            run <= len,
            len == quantity@.len(),
            forall|j: int| len - run <= j < len ==> is_ascii_alpha(#[trigger] quantity@[j]),
        decreases len - run,
    {
        run = run + 1;
    }
    proof {
        lemma_trailing_alpha_from_scan(quantity@, run as nat);
    }

    // A run of one or two letters is the suffix; anything else leaves the
    // whole string to the number grammar.
    let k: usize = if 1 <= run && run <= 2 {
        run
    } else {
        0
    };
    proof {
        assert(suffix_len(quantity@) == k as nat);
    }

    let mut mnum: u128 = 1;
    let mut mdpow: u32 = 0;
    if k == 1 {
        let c0 = quantity.get_char(len - 1);
        proof {
            assert(suffix_part(quantity@) =~= seq![c0]);
        }
        if c0 == 'k' {
            mnum = 1000;
        } else if c0 == 'M' {
            mnum = 1000000;
        } else if c0 == 'G' {
            mnum = 1000000000;
        } else if c0 == 'T' {
            mnum = 1000000000000;
        } else if c0 == 'P' {
            mnum = 1000000000000000;
        } else if c0 == 'E' {
            mnum = 1000000000000000000;
        } else if c0 == 'm' {
            mnum = 1;
            mdpow = 3;
        } else {
            return Err(ParseError::UnknownSuffix);
        }
    } else if k == 2 {
        let c0 = quantity.get_char(len - 2);
        let c1 = quantity.get_char(len - 1);
        proof {
            assert(suffix_part(quantity@) =~= seq![c0, c1]);
        }
        if c1 == 'i' && c0 == 'K' {
            mnum = 1024;
        } else if c1 == 'i' && c0 == 'M' {
            mnum = 1048576;
        } else if c1 == 'i' && c0 == 'G' {
            mnum = 1073741824;
        } else if c1 == 'i' && c0 == 'T' {
            mnum = 1099511627776;
        } else if c1 == 'i' && c0 == 'P' {
            mnum = 1125899906842624;
        } else if c1 == 'i' && c0 == 'E' {
            mnum = 1152921504606846976;
        } else {
            return Err(ParseError::UnknownSuffix);
        }
    } else {
        proof {
            assert(suffix_part(quantity@) =~= Seq::<char>::empty());
        }
    }
    proof {
        assert(suffix_multiplier(suffix_part(quantity@)) == Some((mnum as nat, mdpow as nat)));
    }

    // The number token is everything before the suffix.
    let nlen = len - k;
    proof {
        assert(number_part(quantity@) =~= quantity@.subrange(0, nlen as int));
    }
    let ghost t = number_part(quantity@);

    let mut start: usize = 0;
    let mut neg = false;
    if nlen > 0 {
        let c = quantity.get_char(0);
        if c == '-' {
            neg = true;
            start = 1;
        } else if c == '+' {
            start = 1;
        }
    }
    proof {
        assert(is_negative_token(t) == neg);
        assert(number_body(t) =~= quantity@.subrange(start as int, nlen as int));
    }
    let ghost b = number_body(t);

    // One pass over the body: validate the shape and accumulate the digits.
    let mut i = start;
    let mut digits_seen = false;
    let mut dots: usize = 0;
    let mut bad = false;
    let mut over = false;
    let mut mantissa: u128 = 0;
    let mut frac: usize = 0;
    while i < nlen
        invariant
            start <= i <= nlen,
            nlen <= len,
            len == quantity@.len(),
            b =~= quantity@.subrange(start as int, nlen as int),
            digits_seen == (digit_count(quantity@.subrange(start as int, i as int)) >= 1),
            dots == dot_count(quantity@.subrange(start as int, i as int)),
            bad == (digit_count(quantity@.subrange(start as int, i as int)) + dot_count(
                quantity@.subrange(start as int, i as int),
            ) != i - start),
            frac == frac_len(quantity@.subrange(start as int, i as int)),
            frac <= i - start,
            dots <= i - start,
            !over ==> mantissa == digits_value(quantity@.subrange(start as int, i as int))
                && mantissa < MANTISSA_LIMIT,
            over ==> digits_value(quantity@.subrange(start as int, i as int)) >= MANTISSA_LIMIT,
        decreases nlen - i,
    {
        let c = quantity.get_char(i);
        let ghost p = quantity@.subrange(start as int, i as int);
        proof {
            lemma_body_push(p, c);
            lemma_counts_le_len(p);
            assert(quantity@.subrange(start as int, i + 1) =~= p.push(c));
        }
        if c == '.' {
            dots = dots + 1;
            frac = 0;
        } else {
            if dots > 0 {
                frac = frac + 1;
            }
            if char_is_digit(c) {
                digits_seen = true;
                if !over {
                    let d = (c as u32 - '0' as u32) as u128;
                    let m2 = mantissa * 10 + d;
                    if m2 >= MANTISSA_LIMIT {
                        over = true;
                    } else {
                        mantissa = m2;
                    }
                }
            } else {
                bad = true;
            }
        }
        i = i + 1;
    }
    proof {
        assert(quantity@.subrange(start as int, nlen as int) =~= b);
    }

    if bad || !digits_seen || dots >= 2 {
        proof {
            assert(!valid_number_body(b));
        }
        return Err(ParseError::MalformedNumber);
    }
    proof {
        assert(valid_number(t));
    }

    if over {
        proof {
            assert(digits_value(b) * mnum >= MANTISSA_LIMIT) by (nonlinear_arith)
                requires
                    digits_value(b) >= MANTISSA_LIMIT,
                    mnum >= 1,
            ;
        }
        return Err(ParseError::OutOfRange);
    }

    // mantissa == digits_value(b) < MANTISSA_LIMIT; apply the multiplier
    // without overflowing by testing against the quotient first.
    if mantissa > (MANTISSA_LIMIT - 1) / mnum {
        proof {
            let q = (MANTISSA_LIMIT - 1) as int / mnum as int;
            let rm = (MANTISSA_LIMIT - 1) as int % mnum as int;
            vstd::arithmetic::div_mod::lemma_fundamental_div_mod(
                (MANTISSA_LIMIT - 1) as int,
                mnum as int,
            );
            assert(mantissa as int * mnum as int >= MANTISSA_LIMIT) by (nonlinear_arith)
                requires
                    mantissa as int >= q + 1,
                    (MANTISSA_LIMIT - 1) as int == q * mnum as int + rm,
                    0 <= rm < mnum as int,
                    mnum as int >= 1,
            ;
        }
        return Err(ParseError::OutOfRange);
    }
    proof {
        let q = (MANTISSA_LIMIT - 1) as int / mnum as int;
        let rm = (MANTISSA_LIMIT - 1) as int % mnum as int;
        vstd::arithmetic::div_mod::lemma_fundamental_div_mod(
            (MANTISSA_LIMIT - 1) as int,
            mnum as int,
        );
        assert(mantissa as int * mnum as int <= (MANTISSA_LIMIT - 1) as int) by (nonlinear_arith)
            requires
                mantissa as int <= q,
                (MANTISSA_LIMIT - 1) as int == q * mnum as int + rm,
                0 <= rm < mnum as int,
                mnum as int >= 1,
        ;
    }
    let product = mantissa * mnum;

    if frac > SCALE_MAX as usize {
        return Err(ParseError::OutOfRange);
    }
    let scale_total = frac + (mdpow as usize);
    if scale_total > SCALE_MAX as usize {
        return Err(ParseError::OutOfRange);
    }

    Ok(
        Quantity {
            negative: neg && product > 0,
            mantissa: product,
            scale: scale_total as u32,
        },
    )
}


/// When the two counters cover the whole body, every character is a digit
/// or the dot.
pub proof fn lemma_counts_full(b: Seq<char>)
    requires
        digit_count(b) + dot_count(b) == b.len(),
    ensures
        forall|i: int| 0 <= i < b.len() ==> is_ascii_digit(#[trigger] b[i]) || b[i] == '.',
    decreases b.len(),
{
    if b.len() > 0 {
        lemma_counts_le_len(b.drop_last());
        assert(is_ascii_digit(b.last()) || b.last() == '.');
        assert(digit_count(b.drop_last()) + dot_count(b.drop_last()) == b.drop_last().len());
        lemma_counts_full(b.drop_last());
        assert forall|i: int| 0 <= i < b.len() implies is_ascii_digit(#[trigger] b[i]) || b[i]
            == '.' by {
            if i < b.len() - 1 {
                assert(b[i] == b.drop_last()[i]);
            } else {
                assert(b[i] == b.last());
            }
        }
    }
}

/// A valid number token has no trailing letters: its last character is a
/// digit or the dot.
pub proof fn lemma_number_token_no_suffix(t: Seq<char>)
    requires
        valid_number(t),
    ensures
        trailing_alpha_len(t) == 0,
        suffix_len(t) == 0,
{
    let b = number_body(t);
    lemma_counts_full(b);
    assert(b.len() > 0);
    assert(t.len() > 0);
    assert(t.last() == b.last());
    assert(is_ascii_digit(b.last()) || b.last() == '.');
    assert(!is_ascii_alpha(t.last()));
}

/// Law: a quantity with a recognized suffix denotes the plain numeric
/// part times the suffix's multiplier.
///
/// Whenever a suffixed string parses, the bare numeric part parses too,
/// and on the fixed-point grid the suffixed value times the multiplier's
/// denominator equals the plain value times its numerator — that is, the
/// suffixed quantity is the plain number multiplied by `num / 10^dpow`.
#[verifier::rlimit(50)]
pub proof fn lemma_suffix_scales(s: Seq<char>, mnum: nat, mdpow: nat)
    requires
        suffix_len(s) > 0,
        suffix_multiplier(suffix_part(s)) == Some((mnum, mdpow)),
        parse_result(s) is Ok,
    ensures
        parse_result(number_part(s)) is Ok,
        parse_result(s)->Ok_0.scaled() * pow10(mdpow) == parse_result(number_part(s))->Ok_0.scaled()
            * mnum,
{
    let t = number_part(s);
    let b = number_body(t);
    let dv = digits_value(b);
    let fr = frac_len(b);
    assert(valid_number(t));
    assert(mnum >= 1 && mdpow <= 3);

    // The bare numeric part parses on its own.
    lemma_number_token_no_suffix(t);
    assert(suffix_part(t) =~= Seq::<char>::empty());
    assert(suffix_multiplier(suffix_part(t)) == Some(((1 as nat), (0 as nat))));
    assert(number_part(t) =~= t);
    assert(dv * mnum >= dv * 1) by (nonlinear_arith)
        requires
            mnum >= 1,
    ;
    assert(dv < MANTISSA_LIMIT);
    assert(fr <= SCALE_MAX);
    assert(dv * 1 == dv);
    assert(in_range(dv, fr));
    assert(parse_result(t) is Ok);

    let qs = parse_result(s)->Ok_0;
    let qt = parse_result(t)->Ok_0;
    assert(qs.mantissa == dv * mnum && qs.scale == fr + mdpow);
    assert(qt.mantissa == dv && qt.scale == fr);
    assert(qs.negative == (is_negative_token(t) && dv * mnum > 0));
    assert(qt.negative == (is_negative_token(t) && dv > 0));
    assert(dv * mnum > 0 <==> dv > 0) by (nonlinear_arith)
        requires
            mnum >= 1,
    ;
    assert(qs.negative == qt.negative);

    // The magnitudes: mantissa times grid factor, on both sides.
    let ps = pow10((SCALE_MAX - qs.scale) as nat);
    let pt = pow10((SCALE_MAX - qt.scale) as nat);
    assert(pt == ps * pow10(mdpow)) by {
        crate::decimal::lemma_pow10_mul((SCALE_MAX - qs.scale) as nat, mdpow);
    }
    assert((dv * mnum) * ps * pow10(mdpow) == (dv * pt) * mnum) by (nonlinear_arith)
        requires
            pt == ps * pow10(mdpow),
    ;
    if qs.negative {
        assert((-((dv * mnum) as int)) * (ps as int) == -(((dv * mnum) * ps) as int))
            by (nonlinear_arith);
        assert((-(dv as int)) * (pt as int) == -((dv * pt) as int)) by (nonlinear_arith);
        assert((-(((dv * mnum) * ps) as int)) * (pow10(mdpow) as int) == -((((dv * mnum) * ps)
            * pow10(mdpow)) as int)) by (nonlinear_arith);
        assert((-((dv * pt) as int)) * (mnum as int) == -(((dv * pt) * mnum) as int))
            by (nonlinear_arith);
    }
    assert(qs.scaled() * pow10(mdpow) == qt.scaled() * mnum);
}

} // verus!
