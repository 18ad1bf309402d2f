//! Rendering quantities as plain decimal strings.
//!
//! A pod-level total is published as a bare decimal with no suffix:
//! trailing fractional zeros are dropped, a fractional part keeps its
//! leading zeros, and an integral value shows no decimal point at all, so
//! `3072` and `0.5` come out exactly in that shape.

use vstd::prelude::*;
use vstd::string::StringExecFns;
use crate::quantity::{
    digit_count, digit_value, digits_value, dot_count, frac_len, has_sign, in_range,
    is_ascii_alpha, is_ascii_digit, is_negative_token, number_body, number_part, parse_result,
    pow10, suffix_len, suffix_multiplier, suffix_part, trailing_alpha_len, valid_number,
    valid_number_body, Quantity, MANTISSA_LIMIT, SCALE_MAX,
};

verus! {

/// The character for a single decimal digit.
pub open spec fn digit_char(d: nat) -> char {
    if d == 0 {
        '0'
    } else if d == 1 {
        '1'
    } else if d == 2 {
        '2'
    } else if d == 3 {
        '3'
    } else if d == 4 {
        '4'
    } else if d == 5 {
        '5'
    } else if d == 6 {
        '6'
    } else if d == 7 {
        '7'
    } else if d == 8 {
        '8'
    } else {
        '9'
    }
}

/// The decimal digits of `n`, most significant first, with no leading zero
/// except for `n == 0` itself.
pub open spec fn dec_digits(n: nat) -> Seq<char>
    decreases n,
{
    if n < 10 {
        seq![digit_char(n)]
    } else {
        dec_digits(n / 10).push(digit_char(n % 10))
    }
}

/// `n` zero characters.
pub open spec fn zero_chars(n: nat) -> Seq<char>
    decreases n,
{
    if n == 0 {
        Seq::empty()
    } else {
        zero_chars((n - 1) as nat).push('0')
    }
}

/// The mantissa after dropping trailing fractional zeros.
pub open spec fn trim_mantissa(m: nat, s: nat) -> nat
    decreases s,
{
    if s > 0 && m % 10 == 0 {
        trim_mantissa(m / 10, (s - 1) as nat)
    } else {
        m
    }
}

/// The scale after dropping trailing fractional zeros.
pub open spec fn trim_scale(m: nat, s: nat) -> nat
    decreases s,
{
    if s > 0 && m % 10 == 0 {
        trim_scale(m / 10, (s - 1) as nat)
    } else {
        s
    }
}

/// The decimal string a quantity is formatted as: optional minus sign, the
/// integral digits, and — when decimal places remain after trimming — a
/// point followed by the zero-padded fractional digits.
pub open spec fn format_spec(q: Quantity) -> Seq<char> {
    let m = trim_mantissa(q.mantissa as nat, q.scale as nat);
    let sc = trim_scale(q.mantissa as nat, q.scale as nat);
    let sign: Seq<char> = if q.negative {
        seq!['-']
    } else {
        Seq::empty()
    };
    if sc == 0 {
        sign + dec_digits(m)
    } else {
        let ip = m / pow10(sc);
        let fp = m % pow10(sc);
        sign + dec_digits(ip) + seq!['.'] + zero_chars((sc - dec_digits(fp).len()) as nat)
            + dec_digits(fp)
    }
}

/// The small powers of ten, spelled out for direct use in proofs.
pub proof fn lemma_pow10_values()
    ensures
        pow10(0) == 1,
        pow10(1) == 10,
        pow10(2) == 100,
        pow10(3) == 1000,
        pow10(4) == 10000,
        pow10(5) == 100000,
        pow10(6) == 1000000,
        pow10(7) == 10000000,
        pow10(8) == 100000000,
        pow10(9) == 1000000000,
        pow10(10) == 10000000000,
        pow10(11) == 100000000000,
        pow10(12) == 1000000000000,
{
    assert(pow10(0) == 1);
    assert(pow10(1) == 10);
    assert(pow10(2) == 100);
    assert(pow10(3) == 1000);
    assert(pow10(4) == 10000);
    assert(pow10(5) == 100000);
    assert(pow10(6) == 1000000);
    assert(pow10(7) == 10000000);
    assert(pow10(8) == 100000000);
    assert(pow10(9) == 1000000000);
    assert(pow10(10) == 10000000000);
    assert(pow10(11) == 100000000000);
    assert(pow10(12) == 1000000000000);
}

/// Ten to a larger power is no smaller.
pub proof fn lemma_pow10_monotone(a: nat, b: nat)
    requires
        a <= b,
    ensures
        pow10(a) <= pow10(b),
    decreases b,
{
    if a < b {
        lemma_pow10_monotone(a, (b - 1) as nat);
        assert(pow10(b) == 10 * pow10((b - 1) as nat));
    }
}

/// A number below 10^k prints in at most k digits (k at least one).
pub proof fn lemma_dec_digits_len_le(n: nat, k: nat)
    requires
        k >= 1,
        n < pow10(k),
    ensures
        dec_digits(n).len() <= k,
    decreases n,
{
    if n < 10 {
    } else {
        assert(pow10(k) == 10 * pow10((k - 1) as nat));
        assert(n / 10 < pow10((k - 1) as nat));
        if k == 1 {
            assert(pow10(0) == 1);
            assert(false);
        } else {
            lemma_dec_digits_len_le(n / 10, (k - 1) as nat);
        }
    }
}

fn digit_str(d: u128) -> (r: &'static str)
    requires
        d < 10,
    ensures
        r@ == seq![digit_char(d as nat)],
{
    if d == 0 {
        proof {
            reveal_strlit("0");
            assert(("0")@ =~= seq![digit_char(0)]);
        }
        "0"
    } else if d == 1 {
        proof {
            reveal_strlit("1");
            assert(("1")@ =~= seq![digit_char(1)]);
        }
        "1"
    } else if d == 2 {
        proof {
            reveal_strlit("2");
            assert(("2")@ =~= seq![digit_char(2)]);
        }
        "2"
    } else if d == 3 {
        proof {
            reveal_strlit("3");
            assert(("3")@ =~= seq![digit_char(3)]);
        }
        "3"
    } else if d == 4 {
        proof {
            reveal_strlit("4");
            assert(("4")@ =~= seq![digit_char(4)]);
        }
        "4"
    } else if d == 5 {
        proof {
            reveal_strlit("5");
            assert(("5")@ =~= seq![digit_char(5)]);
        }
        "5"
    } else if d == 6 {
        proof {
            reveal_strlit("6");
            assert(("6")@ =~= seq![digit_char(6)]);
        }
        "6"
    } else if d == 7 {
        proof {
            reveal_strlit("7");
            assert(("7")@ =~= seq![digit_char(7)]);
        }
        "7"
    } else if d == 8 {
        proof {
            reveal_strlit("8");
            assert(("8")@ =~= seq![digit_char(8)]);
        }
        "8"
    } else {
        proof {
            reveal_strlit("9");
            assert(("9")@ =~= seq![digit_char(9)]);
        }
        "9"
    }
}

/// Appends the decimal digits of `n` to `out`.
pub(crate) fn push_digits(out: &mut String, n: u128)
    ensures
        final(out)@ == old(out)@ + dec_digits(n as nat),
    decreases n,
{
    if n < 10 {
        out.append(digit_str(n));
    } else {
        push_digits(out, n / 10);
        out.append(digit_str(n % 10));
        proof {
            assert(old(out)@ + dec_digits((n / 10) as nat) + seq![digit_char((n % 10) as nat)]
                =~= old(out)@ + dec_digits(n as nat));
        }
    }
}

/// 10^e as a machine integer, for the scales a quantity can carry.
pub(crate) fn pow10_u128(e: u32) -> (r: u128)
    requires
        e <= SCALE_MAX,
    ensures
        r as nat == pow10(e as nat),
{
    proof {
        lemma_pow10_values();
    }
    let mut r: u128 = 1;
    let mut i: u32 = 0;
    while i < e
        invariant
            i <= e <= SCALE_MAX,
            r as nat == pow10(i as nat),
        decreases e - i,
    {
        proof {
            lemma_pow10_values();
            lemma_pow10_monotone(i as nat, (SCALE_MAX - 1) as nat);
        }
        r = r * 10;
        i = i + 1;
    }
    r
}

/// How many decimal digits `n` prints as.
fn num_digits(n: u128) -> (r: u32)
    ensures
        r as nat == dec_digits(n as nat).len(),
        1 <= r <= 39,
    decreases n,
{
    if n < 10 {
        1
    } else {
        let rest = num_digits(n / 10);
        proof {
            assert(dec_digits(n as nat).len() == dec_digits((n / 10) as nat).len() + 1);
            assert(dec_digits((n / 10) as nat).len() <= 38) by {
                lemma_pow10_38_large();
                lemma_dec_digits_len_le((n / 10) as nat, 38);
            }
        }
        rest + 1
    }
}

/// 10^38 exceeds any value a u128 divided by ten can take.
proof fn lemma_pow10_38_large()
    ensures
        pow10(38) > u128::MAX as nat / 10,
{
    lemma_pow10_values();
    assert(pow10(24) == pow10(12) * pow10(12)) by {
        lemma_pow10_mul(12, 12);
    }
    assert(pow10(36) == pow10(24) * pow10(12)) by {
        lemma_pow10_mul(24, 12);
    }
    assert(pow10(38) == pow10(36) * 100) by {
        lemma_pow10_mul(36, 2);
    }
}

/// Powers of ten multiply by adding exponents.
pub proof fn lemma_pow10_mul(a: nat, b: nat)
    ensures
        pow10(a + b) == pow10(a) * pow10(b),
    decreases b,
{
    if b == 0 {
        assert(pow10(b) == 1);
        assert(a + b == a);
        assert(pow10(a) * 1 == pow10(a));
    } else {
        lemma_pow10_mul(a, (b - 1) as nat);
        let c = pow10((b - 1) as nat);
        assert((a + b - 1) as nat == a + (b - 1) as nat);
        assert(pow10(a + b) == 10 * pow10((a + b - 1) as nat));
        assert(pow10(a + b) == 10 * (pow10(a) * c));
        assert(pow10(b) == 10 * c);
        assert(pow10(a) * (10 * c) == 10 * (pow10(a) * c)) by (nonlinear_arith);
        assert(pow10(a) * pow10(b) == pow10(a) * (10 * c));
    }
}

/// Formats a quantity as a plain decimal string with no suffix.
pub fn format_quantity(q: &Quantity) -> (r: String)
    requires
        q.wf(),
    ensures
        r@ == format_spec(*q),
{
    let mut m: u128 = q.mantissa;
    let mut sc: u32 = q.scale;
    while sc > 0 && m % 10 == 0
        invariant
            sc <= q.scale,
            trim_mantissa(m as nat, sc as nat) == trim_mantissa(
                q.mantissa as nat,
                q.scale as nat,
            ),
            trim_scale(m as nat, sc as nat) == trim_scale(q.mantissa as nat, q.scale as nat),
        decreases sc,
    {
        m = m / 10;
        sc = sc - 1;
    }
    proof {
        assert(trim_mantissa(m as nat, sc as nat) == m as nat);
        assert(trim_scale(m as nat, sc as nat) == sc as nat);
    }

    let mut out = String::new();
    if q.negative {
        out.append("-");
        proof {
            reveal_strlit("-");
            assert(out@ =~= seq!['-']);
        }
    }
    let ghost sign: Seq<char> = if q.negative {
        seq!['-']
    } else {
        Seq::empty()
    };
    proof {
        assert(out@ =~= sign);
    }

    if sc == 0 {
        push_digits(&mut out, m);
        proof {
            assert(out@ =~= format_spec(*q));
        }
    } else {
        let p = pow10_u128(sc);
        proof {
            lemma_pow10_values();
            lemma_pow10_monotone(sc as nat, SCALE_MAX as nat);
        }
        let ip = m / p;
        let fp = m % p;
        push_digits(&mut out, ip);
        out.append(".");
        proof {
            reveal_strlit(".");
            assert(out@ =~= sign + dec_digits(ip as nat) + seq!['.']);
        }
        let fp_digits = num_digits(fp);
        proof {
            assert(fp < p);
            lemma_dec_digits_len_le(fp as nat, sc as nat);
        }
        let pad = sc - fp_digits;
        let mut j: u32 = 0;
        while j < pad
            invariant
                j <= pad,
                out@ == sign + dec_digits(ip as nat) + seq!['.'] + zero_chars(j as nat),
            decreases pad - j,
        {
            out.append("0");
            proof {
                reveal_strlit("0");
                assert(out@ =~= sign + dec_digits(ip as nat) + seq!['.'] + zero_chars(
                    (j + 1) as nat,
                ));
            }
            j = j + 1;
        }
        push_digits(&mut out, fp);
        proof {
            assert(out@ =~= format_spec(*q));
        }
    }
    out
}


// ---------------------------------------------------------------------------
// Formatted strings re-parse: the supporting facts.
// ---------------------------------------------------------------------------

/// Trimming preserves the value on the fixed-point grid, only divides the
/// mantissa, and stops at a mantissa with no further trailing zero.
pub proof fn lemma_trim(m0: nat, s0: nat)
    requires
        s0 <= SCALE_MAX,
    ensures
        trim_scale(m0, s0) <= s0,
        trim_mantissa(m0, s0) <= m0,
        trim_mantissa(m0, s0) * pow10((SCALE_MAX - trim_scale(m0, s0)) as nat) == m0 * pow10(
            (SCALE_MAX - s0) as nat,
        ),
        m0 > 0 ==> trim_mantissa(m0, s0) > 0,
        trim_scale(m0, s0) == 0 || trim_mantissa(m0, s0) % 10 != 0,
    decreases s0,
{
    if s0 > 0 && m0 % 10 == 0 {
        let m1 = m0 / 10;
        let s1 = (s0 - 1) as nat;
        lemma_trim(m1, s1);
        assert(m0 == 10 * m1);
        assert(pow10((SCALE_MAX - s1) as nat) == 10 * pow10((SCALE_MAX - s0) as nat));
        assert(m1 * (10 * pow10((SCALE_MAX - s0) as nat)) == (10 * m1) * pow10(
            (SCALE_MAX - s0) as nat,
        )) by (nonlinear_arith);
        assert(trim_mantissa(m0, s0) == trim_mantissa(m1, s1));
        assert(trim_scale(m0, s0) == trim_scale(m1, s1));
    }
}

/// Every character that `dec_digits` produces is a decimal digit, and the
/// digits read back as the number.
pub proof fn lemma_dec_digits_facts(n: nat)
    ensures
        dec_digits(n).len() >= 1,
        forall|i: int|
            0 <= i < dec_digits(n).len() ==> is_ascii_digit(#[trigger] dec_digits(n)[i]),
        digits_value(dec_digits(n)) == n,
        digit_count(dec_digits(n)) == dec_digits(n).len(),
        dot_count(dec_digits(n)) == 0,
    decreases n,
{
    assert(is_ascii_digit(digit_char(0)));
    assert(is_ascii_digit(digit_char(1)));
    assert(is_ascii_digit(digit_char(2)));
    assert(is_ascii_digit(digit_char(3)));
    assert(is_ascii_digit(digit_char(4)));
    assert(is_ascii_digit(digit_char(5)));
    assert(is_ascii_digit(digit_char(6)));
    assert(is_ascii_digit(digit_char(7)));
    assert(is_ascii_digit(digit_char(8)));
    assert(is_ascii_digit(digit_char(9)));
    assert(digit_count(Seq::<char>::empty()) == 0);
    assert(dot_count(Seq::<char>::empty()) == 0);
    assert(!is_ascii_digit('.'));
    if n < 10 {
        assert(digit_value(digit_char(n)) == n);
        assert(dec_digits(n).drop_last() =~= Seq::<char>::empty());
        assert(dec_digits(n).last() == digit_char(n));
        assert(digit_char(n) != '.');
        assert(is_ascii_digit(digit_char(n)));
        assert(digits_value(dec_digits(n)) == digits_value(Seq::<char>::empty()) * 10
            + digit_value(digit_char(n)));
    } else {
        lemma_dec_digits_facts(n / 10);
        let d = dec_digits(n);
        assert(d.drop_last() =~= dec_digits(n / 10));
        assert(d.last() == digit_char(n % 10));
        assert(is_ascii_digit(digit_char(n % 10)));
        assert(digit_char(n % 10) != '.');
        assert(digit_value(digit_char(n % 10)) == n % 10);
        assert(digits_value(d) == digits_value(dec_digits(n / 10)) * 10 + n % 10);
        assert(forall|i: int|
            0 <= i < d.len() ==> is_ascii_digit(#[trigger] d[i])) by {
            assert(forall|i: int|
                0 <= i < d.len() - 1 ==> d[i] == #[trigger] dec_digits(n / 10)[i]);
        }
    }
}

/// Zero characters: all digits, each worth nothing.
pub proof fn lemma_zero_chars_facts(n: nat)
    ensures
        zero_chars(n).len() == n,
        forall|i: int| 0 <= i < n ==> is_ascii_digit(#[trigger] zero_chars(n)[i]),
        digits_value(zero_chars(n)) == 0,
        digit_count(zero_chars(n)) == n,
        dot_count(zero_chars(n)) == 0,
    decreases n,
{
    if n > 0 {
        lemma_zero_chars_facts((n - 1) as nat);
        let z = zero_chars(n);
        assert(z.drop_last() =~= zero_chars((n - 1) as nat));
        assert(z.last() == '0');
        assert(digit_value('0') == 0);
        assert(forall|i: int|
            0 <= i < n ==> is_ascii_digit(#[trigger] z[i])) by {
            assert(forall|i: int|
                0 <= i < n - 1 ==> z[i] == #[trigger] zero_chars((n - 1) as nat)[i]);
        }
    }
}

/// The digit and dot counters distribute over concatenation.
pub proof fn lemma_counts_concat(a: Seq<char>, b: Seq<char>)
    ensures
        digit_count(a + b) == digit_count(a) + digit_count(b),
        dot_count(a + b) == dot_count(a) + dot_count(b),
    decreases b.len(),
{
    if b.len() == 0 {
        assert(a + b =~= a);
    } else {
        lemma_counts_concat(a, b.drop_last());
        assert((a + b).drop_last() =~= a + b.drop_last());
        assert((a + b).last() == b.last());
    }
}

/// The value of concatenated digits: the left part is shifted by the
/// number of digits on the right.
pub proof fn lemma_digits_value_concat(a: Seq<char>, b: Seq<char>)
    ensures
        digits_value(a + b) == digits_value(a) * pow10(digit_count(b)) + digits_value(b),
    decreases b.len(),
{
    if b.len() == 0 {
        assert(a + b =~= a);
        assert(pow10(0) == 1);
        assert(digit_count(Seq::<char>::empty()) == 0);
        assert(digits_value(Seq::<char>::empty()) == 0);
        assert(digits_value(a) * 1 == digits_value(a));
    } else {
        lemma_digits_value_concat(a, b.drop_last());
        lemma_counts_concat(a, b.drop_last());
        assert((a + b).drop_last() =~= a + b.drop_last());
        assert((a + b).last() == b.last());
        let db = digit_count(b.drop_last());
        if is_ascii_digit(b.last()) {
            assert(digit_count(b) == db + 1);
            assert(pow10(db + 1) == 10 * pow10(db));
            assert(digits_value(a + b) == (digits_value(a) * pow10(db) + digits_value(
                b.drop_last(),
            )) * 10 + digit_value(b.last()));
            assert((digits_value(a) * pow10(db) + digits_value(b.drop_last())) * 10
                == digits_value(a) * (10 * pow10(db)) + digits_value(b.drop_last()) * 10)
                by (nonlinear_arith);
            assert(digits_value(b) == digits_value(b.drop_last()) * 10 + digit_value(b.last()));
            assert(digits_value(a + b) == digits_value(a + b.drop_last()) * 10 + digit_value(
                b.last(),
            ));
            assert(digits_value(a + b) == digits_value(a) * pow10(digit_count(b))
                + digits_value(b));
        } else {
            assert(digits_value(a + b) == digits_value(a + b.drop_last()));
            assert(digits_value(b) == digits_value(b.drop_last()));
            assert(digit_count(b) == db);
        }
    }
}

/// Behind the single dot, the fractional length is the length of what
/// follows, as long as only digits follow.
pub proof fn lemma_frac_after_dot(a: Seq<char>, b: Seq<char>)
    requires
        forall|i: int| 0 <= i < b.len() ==> is_ascii_digit(#[trigger] b[i]),
    ensures
        frac_len(a + seq!['.'] + b) == b.len(),
    decreases b.len(),
{
    let x = a + seq!['.'] + b;
    if b.len() == 0 {
        assert(x =~= a + seq!['.']);
        assert(x.last() == '.');
    } else {
        assert(forall|i: int|
            0 <= i < b.len() - 1 ==> is_ascii_digit(#[trigger] b.drop_last()[i])) by {
            assert(forall|i: int|
                0 <= i < b.len() - 1 ==> b.drop_last()[i] == #[trigger] b[i]);
        }
        lemma_frac_after_dot(a, b.drop_last());
        assert(x.drop_last() =~= a + seq!['.'] + b.drop_last());
        assert(x.last() == b.last());
        assert(is_ascii_digit(x.last()));
        assert(x.last() != '.');
        lemma_counts_concat(a + seq!['.'], b);
        lemma_counts_concat(a, seq!['.']);
        assert(dot_count(seq!['.']) == 1) by {
            let dot = seq!['.'];
            assert(dot.drop_last() =~= Seq::<char>::empty());
            assert(dot.last() == '.');
            assert(dot_count(Seq::<char>::empty()) == 0);
        }
        assert(dot_count(x) >= 1) by {
            assert(x =~= (a + seq!['.']) + b);
        }
    }
}


/// Ten to any power is positive.
pub proof fn lemma_pow10_pos(n: nat)
    ensures
        pow10(n) >= 1,
    decreases n,
{
    if n > 0 {
        lemma_pow10_pos((n - 1) as nat);
    }
}

/// The fractional body of a formatted quantity: integral digits, the
/// dot, the zero padding and the fractional digits read back as the
/// mantissa with the scale behind the dot.
#[verifier::rlimit(100)]
proof fn lemma_fraction_body(m: nat, sc: nat)
    requires
        sc >= 1,
    ensures
        ({
            let p = pow10(sc);
            let xi = dec_digits(m / p);
            let fd = dec_digits(m % p);
            let z = zero_chars((sc - fd.len()) as nat);
            let body = xi + seq!['.'] + z + fd;
            &&& digits_value(body) == m
            &&& frac_len(body) == sc
            &&& digit_count(body) >= 1
            &&& dot_count(body) == 1
            &&& digit_count(body) + dot_count(body) == body.len()
            &&& is_ascii_digit(body[0])
            &&& is_ascii_digit(body.last())
        }),
{
    lemma_pow10_pos(sc);
    let p = pow10(sc);
    let ip = m / p;
    let fp = m % p;
    vstd::arithmetic::div_mod::lemma_fundamental_div_mod(m as int, p as int);
    assert(m == p * ip + fp);
    let xi = dec_digits(ip);
    let fd = dec_digits(fp);
    lemma_dec_digits_facts(ip);
    lemma_dec_digits_facts(fp);
    lemma_dec_digits_len_le(fp, sc);
    let pad = (sc - fd.len()) as nat;
    let z = zero_chars(pad);
    lemma_zero_chars_facts(pad);
    let body = xi + seq!['.'] + z + fd;

    // Counts: exactly one dot, everything else digits.
    assert(dot_count(seq!['.']) == 1 && digit_count(seq!['.']) == 0 && digits_value(seq!['.'])
        == 0) by {
        let dot = seq!['.'];
        assert(dot.drop_last() =~= Seq::<char>::empty());
        assert(dot.last() == '.');
        assert(!is_ascii_digit('.'));
        assert(dot_count(Seq::<char>::empty()) == 0);
        assert(digit_count(Seq::<char>::empty()) == 0);
        assert(digits_value(Seq::<char>::empty()) == 0);
    }
    lemma_counts_concat(xi, seq!['.']);
    lemma_counts_concat(xi + seq!['.'], z);
    lemma_counts_concat(xi + seq!['.'] + z, fd);
    assert(digit_count(body) == xi.len() + pad + fd.len());
    assert(dot_count(body) == 1);

    // The digits read back as the mantissa.
    lemma_digits_value_concat(z, fd);
    assert(digits_value(z) * pow10(digit_count(fd)) == 0) by (nonlinear_arith)
        requires
            digits_value(z) == 0,
    ;
    assert(digits_value(z + fd) == fp);
    lemma_counts_concat(z, fd);
    lemma_digits_value_concat(seq!['.'], z + fd);
    assert(digits_value(seq!['.'] + (z + fd)) == fp);
    lemma_counts_concat(seq!['.'], z + fd);
    assert(digit_count(seq!['.'] + (z + fd)) == sc);
    lemma_digits_value_concat(xi, seq!['.'] + (z + fd));
    assert(xi + (seq!['.'] + (z + fd)) =~= body);
    assert(digits_value(body) == ip * pow10(sc) + fp);
    assert(ip * pow10(sc) == pow10(sc) * ip) by (nonlinear_arith);
    assert(digits_value(body) == m);

    // The fractional length is the scale.
    assert(forall|i: int| 0 <= i < (z + fd).len() ==> is_ascii_digit(#[trigger] (z + fd)[i]))
        by {
        assert forall|i: int| 0 <= i < (z + fd).len() implies is_ascii_digit(
            #[trigger] (z + fd)[i],
        ) by {
            if i < z.len() {
                assert((z + fd)[i] == z[i]);
            } else {
                assert((z + fd)[i] == fd[i - z.len()]);
            }
        }
    }
    lemma_frac_after_dot(xi, z + fd);
    assert(xi + seq!['.'] + (z + fd) =~= body);
    assert(frac_len(body) == sc);

    assert(body.last() == fd.last());
    assert(body[0] == xi[0]);
}

/// Law: a formatted quantity re-parses, and to the same value.
///
/// Any string this library produces by formatting a quantity — a pod
/// total, say — is accepted by the quantity parser again and denotes
/// exactly the value it was formatted from. The mantissa bound is the
/// parser's own range; a total beyond it formats fine but would be
/// rejected as out of range on the way back.
#[verifier::rlimit(100)]
pub proof fn lemma_format_parse_round_trip(q: Quantity)
    requires
        q.wf(),
        q.mantissa < MANTISSA_LIMIT,
    ensures
        parse_result(format_spec(q)) is Ok,
        parse_result(format_spec(q))->Ok_0.scaled() == q.scaled(),
{
    let m0 = q.mantissa as nat;
    let s0 = q.scale as nat;
    lemma_trim(m0, s0);
    let m = trim_mantissa(m0, s0);
    let sc = trim_scale(m0, s0);
    let f = format_spec(q);
    let sign: Seq<char> = if q.negative {
        seq!['-']
    } else {
        Seq::empty()
    };

    // The body after the sign: all digits with at most one dot, reading
    // back as the trimmed mantissa with the trimmed scale behind the dot.
    let body: Seq<char> = if sc == 0 {
        dec_digits(m)
    } else {
        dec_digits(m / pow10(sc)) + seq!['.'] + zero_chars(
            (sc - dec_digits(m % pow10(sc)).len()) as nat,
        ) + dec_digits(m % pow10(sc))
    };
    assert(f =~= sign + body);

    if sc == 0 {
        lemma_dec_digits_facts(m);
        assert(dot_count(body) == 0);
        assert(body.last() != '.');
        assert(frac_len(body) == 0);
        assert(is_ascii_digit(body[0]));
        assert(is_ascii_digit(body.last()));
    } else {
        lemma_fraction_body(m, sc);
    }
    assert(digits_value(body) == m);
    assert(frac_len(body) == sc);
    assert(digit_count(body) >= 1);
    assert(dot_count(body) <= 1);
    assert(digit_count(body) + dot_count(body) == body.len());
    assert(valid_number_body(body));
    assert(is_ascii_digit(body.last()));
    assert(is_ascii_digit(body[0]));

    // No trailing letters: the string ends in a digit.
    assert(f.last() == body.last());
    assert(!is_ascii_alpha(f.last()));
    assert(trailing_alpha_len(f) == 0);
    assert(suffix_len(f) == 0);
    assert(suffix_part(f) =~= Seq::<char>::empty());
    assert(suffix_multiplier(suffix_part(f)) == Some(((1 as nat), (0 as nat))));
    assert(number_part(f) =~= f);

    // The sign is the quantity's sign.
    if q.negative {
        assert(f[0] == '-');
        assert(has_sign(f));
        assert(is_negative_token(f));
        assert(number_body(f) =~= body);
    } else {
        assert(f =~= body);
        assert(f[0] == body[0]);
        assert(!is_ascii_digit('-') && !is_ascii_digit('+'));
        assert(f[0] != '-' && f[0] != '+');
        assert(!has_sign(f));
        assert(number_body(f) =~= body);
    }
    assert(valid_number(number_part(f)));

    // In range: trimming only shrinks the mantissa and the scale.
    assert(m * 1 == m);
    assert(in_range(m, sc));
    let qq = parse_result(f)->Ok_0;
    assert(parse_result(f) is Ok);
    assert(qq.mantissa == m && qq.scale == sc);
    assert(qq.negative == (q.negative && m > 0));

    // Same value on the fixed-point grid.
    assert(m * pow10((SCALE_MAX - sc) as nat) == m0 * pow10((SCALE_MAX - s0) as nat));
    if q.negative {
        assert(m0 > 0);
        assert(m > 0);
        assert(qq.negative);
        assert((-(m as int)) * pow10((SCALE_MAX - sc) as nat) == -((m as int) * pow10(
            (SCALE_MAX - sc) as nat,
        ))) by (nonlinear_arith);
        assert((-(m0 as int)) * pow10((SCALE_MAX - s0) as nat) == -((m0 as int) * pow10(
            (SCALE_MAX - s0) as nat,
        ))) by (nonlinear_arith);
    }
    assert(qq.scaled() == q.scaled());
}

} // verus!
