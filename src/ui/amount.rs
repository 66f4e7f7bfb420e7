//! Reading a [`TargetAmount`] from decimal text.
use vstd::prelude::*;
use vstd::string::StringSliceAdditionalSpecFns;

use crate::ui::{ParseTargetAmountError, TargetAmount};

verus! {

/// An ASCII decimal digit.
pub open spec fn is_digit(c: u8) -> bool {
    48 <= c <= 57
}

pub open spec fn all_digits(s: Seq<u8>) -> bool {
    forall|i: int| 0 <= i < s.len() ==> is_digit(#[trigger] s[i])
}

/// The number that the digits `s` write in base ten.
pub open spec fn digits_value(s: Seq<u8>) -> nat
    decreases s.len(),
{
    if s.len() == 0 {
        0
    } else {
        digits_value(s.drop_last()) * 10 + (s.last() - 48) as nat
    }
}

pub open spec fn pow10(n: nat) -> nat
    decreases n,
{
    if n == 0 {
        1
    } else {
        10 * pow10((n - 1) as nat)
    }
}

/// The text without a leading `+` or `-`.
pub open spec fn unsigned_part(s: Seq<u8>) -> Seq<u8> {
    if s.len() > 0 && (s[0] == 43 || s[0] == 45) {
        s.drop_first()
    } else {
        s
    }
}

/// The text starts with `-`.
pub open spec fn is_negative_text(s: Seq<u8>) -> bool {
    s.len() > 0 && s[0] == 45
}

/// `u` is the digits `u[..k]`, then either nothing or a point followed by the
/// digits `u[k+1..]`; there is at least one digit in all.
pub open spec fn decimal_split(u: Seq<u8>, k: int) -> bool {
    &&& 0 <= k <= u.len()
    &&& all_digits(u.take(k))
    &&& if k == u.len() {
        k >= 1
    } else {
        u[k] == 46 && all_digits(u.skip(k + 1)) && u.len() >= 2
    }
}

/// The digits of the number, without the point.
pub open spec fn decimal_digits(u: Seq<u8>, k: int) -> Seq<u8> {
    if k == u.len() {
        u
    } else {
        u.take(k) + u.skip(k + 1)
    }
}

/// How many digits follow the point.
pub open spec fn decimal_scale(u: Seq<u8>, k: int) -> nat {
    if k == u.len() {
        0
    } else {
        (u.len() - k - 1) as nat
    }
}

/// What reading the text `s` gives: `Ok((numer, denom))`, or the error.
///
/// The text is an optional sign, digits, and optionally a point and more
/// digits, with at least one digit in all (`12`, `-0.5`, `+3.`, `.25`). The
/// amount is the digits read as an integer over ten to the number of digits
/// after the point. A negative sign with a nonzero value is
/// [`ParseTargetAmountError::Negative`]; a numerator or denominator past `u64`
/// is [`ParseTargetAmountError::OutOfRange`].
pub open spec fn parse_amount(s: Seq<u8>) -> Result<(nat, nat), ParseTargetAmountError> {
    let u = unsigned_part(s);
    if exists|k: int| decimal_split(u, k) {
        let k = choose|k: int| decimal_split(u, k);
        let n = digits_value(decimal_digits(u, k));
        let d = pow10(decimal_scale(u, k));
        if is_negative_text(s) && n > 0 {
            Err(ParseTargetAmountError::Negative)
        } else if n > u64::MAX || d > u64::MAX {
            Err(ParseTargetAmountError::OutOfRange)
        } else {
            Ok((n, d))
        }
    } else {
        Err(ParseTargetAmountError::Parse)
    }
}

proof fn lemma_split_unique(u: Seq<u8>, k1: int, k2: int)
    requires
        decimal_split(u, k1),
        decimal_split(u, k2),
    ensures
        k1 == k2,
{
    if k1 < k2 {
        assert(u.take(k2)[k1] == u[k1]);
    } else if k2 < k1 {
        assert(u.take(k1)[k2] == u[k2]);
    }
}

proof fn lemma_pow10_positive(n: nat)
    ensures
        pow10(n) >= 1,
    decreases n,
{
    if n > 0 {
        lemma_pow10_positive((n - 1) as nat);
    }
}

/// Running state of the digits read so far: their value, unless it passed `u64`.
pub open spec fn tracks(numer: u64, overflow: bool, nonzero: bool, digits: Seq<u8>) -> bool {
    &&& (!overflow ==> numer == digits_value(digits))
    &&& (overflow ==> digits_value(digits) > u64::MAX)
    &&& (nonzero <==> digits_value(digits) > 0)
}

/// Appends one digit to the running state.
fn push_digit(numer: u64, overflow: bool, nonzero: bool, c: u8, Ghost(digits): Ghost<Seq<u8>>) -> (r: (u64, bool, bool))
    requires
        is_digit(c),
        tracks(numer, overflow, nonzero, digits),
    ensures
        tracks(r.0, r.1, r.2, digits.push(c)),
{
    assert(digits.push(c).drop_last() =~= digits);
    let d = (c - 48) as u64;
    let nz = nonzero || d > 0;
    if overflow {
        return (numer, true, nz);
    }
    match numer.checked_mul(10) {
        Some(m) => match m.checked_add(d) {
            Some(x) => (x, false, nz),
            None => (numer, true, nz),
        },
        None => (numer, true, nz),
    }
}

/// A split at `k` is the only one possible when `u[..k]` are digits and `u[k]`
/// is not a digit.
proof fn lemma_split_at_first_non_digit(u: Seq<u8>, k: int, k2: int)
    requires
        0 <= k < u.len(),
        all_digits(u.take(k)),
        !is_digit(u[k]),
        decimal_split(u, k2),
    ensures
        k2 == k,
{
    if k2 > k {
        assert(u.take(k2)[k] == u[k]);
    } else if k2 < k {
        assert(u.take(k)[k2] == u[k2]);
    }
}

/// Reads the digits of `b` from `from` on, until the end or a non-digit.
fn scan_digits(
    b: &[u8],
    from: usize,
    numer: u64,
    overflow: bool,
    nonzero: bool,
    Ghost(prefix): Ghost<Seq<u8>>,
) -> (r: (usize, u64, bool, bool))
    requires
        from <= b@.len(),
        tracks(numer, overflow, nonzero, prefix),
    ensures
        from <= r.0 <= b@.len(),
        r.0 < b@.len() ==> !is_digit(b@[r.0 as int]),
        all_digits(b@.subrange(from as int, r.0 as int)),
        tracks(r.1, r.2, r.3, prefix + b@.subrange(from as int, r.0 as int)),
{
    let mut numer = numer;
    let mut overflow = overflow;
    let mut nonzero = nonzero;
    let mut i = from;
    assert(prefix + b@.subrange(from as int, i as int) =~= prefix);
    while i < b.len() && 48 <= b[i] && b[i] <= 57
        invariant
            from <= i <= b@.len(),
            all_digits(b@.subrange(from as int, i as int)),
            tracks(numer, overflow, nonzero, prefix + b@.subrange(from as int, i as int)),
        decreases b@.len() - i,
    {
        let ghost before = prefix + b@.subrange(from as int, i as int);
        let r = push_digit(numer, overflow, nonzero, b[i], Ghost(before));
        numer = r.0;
        overflow = r.1;
        nonzero = r.2;
        assert(prefix + b@.subrange(from as int, i + 1) =~= before.push(b@[i as int]));
        assert(b@.subrange(from as int, i + 1) =~= b@.subrange(from as int, i as int).push(
            b@[i as int],
        ));
        i += 1;
    }
    (i, numer, overflow, nonzero)
}

/// `10^n`, and whether it passed `u64`.
fn scale_of(n: usize) -> (r: (u64, bool))
    ensures
        !r.1 ==> r.0 == pow10(n as nat),
        r.1 ==> pow10(n as nat) > u64::MAX,
{
    let mut denom: u64 = 1;
    let mut i: usize = 0;
    while i < n
        invariant
            0 <= i <= n,
            denom == pow10(i as nat),
        decreases n - i,
    {
        assert(pow10((i + 1) as nat) == 10 * pow10(i as nat));
        match denom.checked_mul(10) {
            Some(x) => {
                denom = x;
            },
            None => {
                proof {
                    lemma_pow10_grows(i as nat, n as nat);
                }
                return (denom, true);
            },
        }
        i += 1;
    }
    (denom, false)
}

proof fn lemma_pow10_grows(a: nat, b: nat)
    requires
        a < b,
    ensures
        pow10(b) >= 10 * pow10(a),
    decreases b - a,
{
    lemma_pow10_positive(a);
    if a + 1 < b {
        lemma_pow10_grows((a + 1) as nat, b);
    }
}

/// What reading the text `s` as a small whole number gives: an optional `+`,
/// then one or more digits whose value is at most 255.
pub open spec fn small_number(s: Seq<u8>) -> Option<u8> {
    let d = if s.len() > 0 && s[0] == 43 {
        s.drop_first()
    } else {
        s
    };
    if d.len() >= 1 && all_digits(d) && digits_value(d) <= 255 {
        Some(digits_value(d) as u8)
    } else {
        None
    }
}

/// Reads a small whole number; see [`small_number`].
pub fn parse_small_number(s: &str) -> (r: Option<u8>)
    ensures
        r == small_number(s.spec_bytes()),
{
    let b = s.as_bytes();
    let len = b.len();
    let ghost sb = b@;
    let mut start: usize = 0;
    if len > 0 && b[0] == 43 {
        start = 1;
    }
    let ghost d = if sb.len() > 0 && sb[0] == 43 {
        sb.drop_first()
    } else {
        sb
    };
    assert(d =~= sb.skip(start as int));
    assert(Seq::<u8>::empty() + sb.subrange(start as int, start as int) =~= Seq::<u8>::empty());
    let (end, value, overflow, _nonzero) = scan_digits(b, start, 0, false, false, Ghost(Seq::empty()));
    assert(Seq::<u8>::empty() + sb.subrange(start as int, end as int) =~= sb.subrange(
        start as int,
        end as int,
    ));
    if end < len {
        assert(d[end - start] == sb[end as int]);
        return None;
    }
    assert(d =~= sb.subrange(start as int, end as int));
    if end == start || overflow || value > 255 {
        return None;
    }
    Some(value as u8)
}

impl TargetAmount {
    /// Reads an amount from decimal text; see [`parse_amount`] for the grammar.
    /// Exponents, `inf` and `NaN` are not accepted.
    #[verifier::rlimit(60)]
    pub fn parse(s: &str) -> (r: Result<TargetAmount, ParseTargetAmountError>)
        ensures
            match parse_amount(s.spec_bytes()) {
                Ok((n, d)) => r matches Ok(a) && a.numer == n && a.denom == d && a.wf(),
                Err(e) => r matches Err(e2) && e2 == e,
            },
    {
        let b = s.as_bytes();
        let len = b.len();
        let ghost sb = b@;
        let mut start: usize = 0;
        if len > 0 && (b[0] == 43 || b[0] == 45) {
            start = 1;
        }
        let negative = len > 0 && b[0] == 45;
        let ghost u = unsigned_part(sb);
        assert(u =~= sb.skip(start as int));
        assert(Seq::<u8>::empty() + sb.subrange(start as int, start as int) =~= Seq::<u8>::empty());
        let (dot, numer, overflow, nonzero) = scan_digits(b, start, 0, false, false, Ghost(Seq::empty()));
        let ghost int_digits = sb.subrange(start as int, dot as int);
        assert(Seq::<u8>::empty() + int_digits =~= int_digits);
        let ghost k = dot - start;
        assert(u.take(k) =~= int_digits);
        if dot == len {
            if dot == start {
                assert forall|k2: int| !decimal_split(u, k2) by {}
                return Err(ParseTargetAmountError::Parse);
            }
            assert(decimal_split(u, k));
            assert(decimal_digits(u, k) =~= int_digits);
            assert forall|k2: int| decimal_split(u, k2) implies k2 == k by {
                lemma_split_unique(u, k, k2);
            }
            return TargetAmount::finish(negative, numer, overflow, nonzero, 1, false, Ghost(sb), Ghost(u), Ghost(k));
        }
        assert(u[k] == b@[dot as int]);
        if b[dot] != 46 {
            assert forall|k2: int| !decimal_split(u, k2) by {
                if decimal_split(u, k2) {
                    lemma_split_at_first_non_digit(u, k, k2);
                }
            }
            return Err(ParseTargetAmountError::Parse);
        }
        let (end, numer, overflow, nonzero) = scan_digits(b, dot + 1, numer, overflow, nonzero, Ghost(int_digits));
        let ghost frac = sb.subrange(dot + 1, end as int);
        if end < len {
            assert forall|k2: int| !decimal_split(u, k2) by {
                if decimal_split(u, k2) {
                    lemma_split_at_first_non_digit(u, k, k2);
                    assert(u.skip(k + 1)[end - dot - 1] == sb[end as int]);
                }
            }
            return Err(ParseTargetAmountError::Parse);
        }
        if len - start < 2 {
            assert forall|k2: int| !decimal_split(u, k2) by {
                if decimal_split(u, k2) {
                    lemma_split_at_first_non_digit(u, k, k2);
                }
            }
            return Err(ParseTargetAmountError::Parse);
        }
        assert(u.skip(k + 1) =~= frac);
        assert(decimal_split(u, k));
        assert(decimal_digits(u, k) =~= int_digits + frac);
        assert forall|k2: int| decimal_split(u, k2) implies k2 == k by {
            lemma_split_unique(u, k, k2);
        }
        let (denom, scale_overflow) = scale_of(len - dot - 1);
        TargetAmount::finish(negative, numer, overflow, nonzero, denom, scale_overflow, Ghost(sb), Ghost(u), Ghost(k))
    }

    /// The result of [`TargetAmount::parse`] once the text is known to be well formed.
    fn finish(
        negative: bool,
        numer: u64,
        overflow: bool,
        nonzero: bool,
        denom: u64,
        scale_overflow: bool,
        Ghost(s): Ghost<Seq<u8>>,
        Ghost(u): Ghost<Seq<u8>>,
        Ghost(k): Ghost<int>,
    ) -> (r: Result<TargetAmount, ParseTargetAmountError>)
        requires
            u == unsigned_part(s),
            negative == is_negative_text(s),
            decimal_split(u, k),
            forall|k2: int| decimal_split(u, k2) ==> k2 == k,
            tracks(numer, overflow, nonzero, decimal_digits(u, k)),
            !scale_overflow ==> denom == pow10(decimal_scale(u, k)),
            scale_overflow ==> pow10(decimal_scale(u, k)) > u64::MAX,
        ensures
            match parse_amount(s) {
                Ok((n, d)) => r matches Ok(a) && a.numer == n && a.denom == d && a.wf(),
                Err(e) => r matches Err(e2) && e2 == e,
            },
    {
        proof {
            let c = choose|k2: int| decimal_split(u, k2);
            assert(c == k);
            lemma_pow10_positive(decimal_scale(u, k));
        }
        if negative && nonzero {
            Err(ParseTargetAmountError::Negative)
        } else if overflow || scale_overflow {
            Err(ParseTargetAmountError::OutOfRange)
        } else {
            Ok(TargetAmount { numer, denom })
        }
    }
}

} // verus!
