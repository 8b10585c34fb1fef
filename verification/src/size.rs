//! The human-readable size parser.
//!
//! A size string is a decimal magnitude (optionally with a fractional part),
//! optional spaces, and an optional unit suffix: `B` for bytes, `K`/`KB`,
//! `M`/`MB`, `G`/`GB`, `T`/`TB`, `P`/`PB`, `E`/`EB` for powers of 1000, and
//! `Ki`/`KiB`, `Mi`/`MiB`, and so on for powers of 1024, all case-insensitive.
//! A missing unit means bytes. Leading and trailing ASCII whitespace is
//! ignored. A fractional part is limited to eighteen digits; the resulting
//! byte count is truncated toward zero and must fit in 64 bits.

use vstd::prelude::*;
use crate::digits::{is_digit, digit_val, digits_val, all_digits, dec_spec};
use crate::strutil::push_char;

verus! {

/// Whitespace stripped from the ends of the input.
pub open spec fn is_trim_ws(c: char) -> bool {
    c == ' ' || c == '\t' || c == '\n' || c == '\r'
}

/// `b` or `B`.
pub open spec fn is_b(c: char) -> bool {
    c == 'b' || c == 'B'
}

/// `i` or `I`.
pub open spec fn is_i(c: char) -> bool {
    c == 'i' || c == 'I'
}

/// The decimal multiplier of a unit prefix letter, or zero if the character
/// is no prefix.
pub open spec fn dec_mult(c: char) -> int {
    if c == 'k' || c == 'K' {
        1000
    } else if c == 'm' || c == 'M' {
        1000000
    } else if c == 'g' || c == 'G' {
        1000000000
    } else if c == 't' || c == 'T' {
        1000000000000
    } else if c == 'p' || c == 'P' {
        1000000000000000
    } else if c == 'e' || c == 'E' {
        1000000000000000000
    } else {
        0
    }
}

/// The binary multiplier of a unit prefix letter, or zero if the character
/// is no prefix.
pub open spec fn bin_mult(c: char) -> int {
    if c == 'k' || c == 'K' {
        0x400
    } else if c == 'm' || c == 'M' {
        0x100000
    } else if c == 'g' || c == 'G' {
        0x40000000
    } else if c == 't' || c == 'T' {
        0x10000000000
    } else if c == 'p' || c == 'P' {
        0x4000000000000
    } else if c == 'e' || c == 'E' {
        0x1000000000000000
    } else {
        0
    }
}

/// A unit prefix letter: kilo, mega, giga, tera, peta or exa.
pub open spec fn is_prefix_char(c: char) -> bool {
    dec_mult(c) != 0
}

/// The characters accepted at the first position of a unit suffix.
pub open spec fn unit_expected_start() -> Seq<char> {
    seq!['B', 'K', 'M', 'G', 'T', 'P', 'E']
}

/// What reading a unit suffix yields: a byte multiplier, or the first
/// offending character together with the characters that would have been
/// accepted in its place.
#[verifier::ext_equal]
pub enum UnitOutcome {
    Mult(int),
    Bad { found: char, expected: Seq<char> },
}

/// Reads a whole unit suffix. The suffix may be empty (bytes), `B`, a prefix
/// letter alone or followed by `B` (decimal), or a prefix letter followed by
/// `i` or `iB` (binary), all case-insensitive; nothing may follow.
pub open spec fn parse_unit(u: Seq<char>) -> UnitOutcome {
    if u.len() == 0 {
        UnitOutcome::Mult(1)
    } else if is_b(u[0]) {
        if u.len() == 1 {
            UnitOutcome::Mult(1)
        } else {
            UnitOutcome::Bad { found: u[1], expected: seq![] }
        }
    } else if is_prefix_char(u[0]) {
        if u.len() == 1 {
            UnitOutcome::Mult(dec_mult(u[0]))
        } else if is_i(u[1]) {
            if u.len() == 2 {
                UnitOutcome::Mult(bin_mult(u[0]))
            } else if is_b(u[2]) {
                if u.len() == 3 {
                    UnitOutcome::Mult(bin_mult(u[0]))
                } else {
                    UnitOutcome::Bad { found: u[3], expected: seq![] }
                }
            } else {
                UnitOutcome::Bad { found: u[2], expected: seq!['B'] }
            }
        } else if is_b(u[1]) {
            if u.len() == 2 {
                UnitOutcome::Mult(dec_mult(u[0]))
            } else {
                UnitOutcome::Bad { found: u[2], expected: seq![] }
            }
        } else {
            UnitOutcome::Bad { found: u[1], expected: seq!['i', 'B'] }
        }
    } else {
        UnitOutcome::Bad { found: u[0], expected: unit_expected_start() }
    }
}

/// The index of the first non-digit at or after `from`.
pub open spec fn digits_end(s: Seq<char>, from: int) -> int
    recommends
        0 <= from <= s.len(),
    decreases s.len() - from,
{
    if from < s.len() && is_digit(s[from]) {
        digits_end(s, from + 1)
    } else {
        from
    }
}

/// The index of the first non-space at or after `from`.
pub open spec fn spaces_end(s: Seq<char>, from: int) -> int
    recommends
        0 <= from <= s.len(),
    decreases s.len() - from,
{
    if from < s.len() && s[from] == ' ' {
        spaces_end(s, from + 1)
    } else {
        from
    }
}

/// The input with trailing whitespace removed.
pub open spec fn trim_back(s: Seq<char>) -> Seq<char>
    decreases s.len(),
{
    if s.len() > 0 && is_trim_ws(s.last()) {
        trim_back(s.drop_last())
    } else {
        s
    }
}

/// The index of the first non-whitespace character.
pub open spec fn trim_front_idx(s: Seq<char>, from: int) -> int
    recommends
        0 <= from <= s.len(),
    decreases s.len() - from,
{
    if from < s.len() && is_trim_ws(s[from]) {
        trim_front_idx(s, from + 1)
    } else {
        from
    }
}

/// The input with whitespace removed from both ends.
pub open spec fn trim_spec(s: Seq<char>) -> Seq<char> {
    trim_back(s.subrange(trim_front_idx(s, 0), s.len() as int))
}

/// Ten to the given power.
pub open spec fn pow10(k: int) -> int
    decreases k,
{
    if k <= 0 {
        1
    } else {
        10 * pow10(k - 1)
    }
}

/// What parsing a size string yields.
#[verifier::ext_equal]
pub enum ParseOutcome {
    /// The byte count.
    Value(int),
    /// The string holds no magnitude.
    MissingValue,
    /// A decimal point not followed by a digit.
    NotNumber { found: char },
    /// The unit suffix is not recognized.
    BadUnit { found: char, expected: Seq<char> },
    /// More than eighteen fractional digits.
    FractionTooLong,
    /// The byte count does not fit in 64 bits.
    Overflow,
}

/// The most fractional digits the parser accepts.
pub open spec fn max_frac_digits() -> int {
    18
}

/// Reads what follows the magnitude: optional spaces and the unit, then
/// combines magnitude and multiplier into a byte count.
///
/// `ival` is the value of the integer digits, `fval` and `flen` the value and
/// length of the fractional digits, and `pos` the index just past the
/// magnitude. The byte count is `(ival + fval / 10^flen) * mult`, truncated
/// toward zero.
pub open spec fn after_magnitude(
    t: Seq<char>,
    ival: int,
    fval: int,
    flen: int,
    pos: int,
) -> ParseOutcome {
    let u = t.subrange(spaces_end(t, pos), t.len() as int);
    match parse_unit(u) {
        UnitOutcome::Bad { found, expected } => (ParseOutcome::BadUnit { found, expected }),
        UnitOutcome::Mult(m) => {
            if flen > max_frac_digits() {
                ParseOutcome::FractionTooLong
            } else {
                let n = (ival * pow10(flen) + fval) * m / pow10(flen);
                if n > u64::MAX {
                    ParseOutcome::Overflow
                } else {
                    ParseOutcome::Value(n)
                }
            }
        },
    }
}

/// Parses a size string whose ends are already free of whitespace. The string
/// must open with at least one digit: one that does not is rejected at its
/// first character, which names the characters a unit suffix could open with.
pub open spec fn parse_trimmed(t: Seq<char>) -> ParseOutcome {
    if t.len() == 0 {
        ParseOutcome::MissingValue
    } else {
        let d_end = digits_end(t, 0);
        if d_end == 0 {
            ParseOutcome::BadUnit { found: t[0], expected: unit_expected_start() }
        } else if d_end < t.len() && t[d_end] == '.' {
            let f_end = digits_end(t, d_end + 1);
            if f_end == d_end + 1 {
                if d_end + 1 < t.len() {
                    ParseOutcome::NotNumber { found: t[d_end + 1] }
                } else {
                    ParseOutcome::NotNumber { found: '.' }
                }
            } else {
                after_magnitude(
                    t,
                    digits_val(t.subrange(0, d_end)),
                    digits_val(t.subrange(d_end + 1, f_end)),
                    f_end - d_end - 1,
                    f_end,
                )
            }
        } else {
            after_magnitude(t, digits_val(t.subrange(0, d_end)), 0, 0, d_end)
        }
    }
}

/// Parses a size string into a byte count.
pub open spec fn parse_spec(s: Seq<char>) -> ParseOutcome {
    parse_trimmed(trim_spec(s))
}

/// Where the digit scan stops: right before the first non-digit.
pub proof fn lemma_digits_end_is(s: Seq<char>, from: int, k: int)
    requires
        0 <= from <= k <= s.len(),
        forall|i: int| from <= i < k ==> is_digit(#[trigger] s[i]),
        k < s.len() ==> !is_digit(s[k]),
    ensures
        digits_end(s, from) == k,
    decreases k - from,
{
    if from < k {
        lemma_digits_end_is(s, from + 1, k);
    }
}

/// Where the space scan stops: right before the first non-space.
pub proof fn lemma_spaces_end_is(s: Seq<char>, from: int, k: int)
    requires
        0 <= from <= k <= s.len(),
        forall|i: int| from <= i < k ==> #[trigger] s[i] == ' ',
        k < s.len() ==> s[k] != ' ',
    ensures
        spaces_end(s, from) == k,
    decreases k - from,
{
    if from < k {
        lemma_spaces_end_is(s, from + 1, k);
    }
}

/// Where the leading-whitespace scan stops.
pub proof fn lemma_trim_front_idx_is(s: Seq<char>, from: int, k: int)
    requires
        0 <= from <= k <= s.len(),
        forall|i: int| from <= i < k ==> is_trim_ws(#[trigger] s[i]),
        k < s.len() ==> !is_trim_ws(s[k]),
    ensures
        trim_front_idx(s, from) == k,
    decreases k - from,
{
    if from < k {
        lemma_trim_front_idx_is(s, from + 1, k);
    }
}

/// What dropping trailing whitespace leaves: the prefix that ends at the last
/// non-whitespace character.
pub proof fn lemma_trim_back_is(s: Seq<char>, k: int)
    requires
        0 <= k <= s.len(),
        forall|i: int| k <= i < s.len() ==> is_trim_ws(#[trigger] s[i]),
        k > 0 ==> !is_trim_ws(s[k - 1]),
    ensures
        trim_back(s) == s.subrange(0, k),
    decreases s.len(),
{
    if s.len() > 0 && is_trim_ws(s.last()) {
        lemma_trim_back_is(s.drop_last(), k);
        assert(s.drop_last().subrange(0, k) =~= s.subrange(0, k));
    } else {
        assert(s.subrange(0, k) =~= s);
    }
}

/// The trimmed string, given the first and one-past-last non-whitespace
/// positions.
pub proof fn lemma_trim_spec_is(s: Seq<char>, a: int, b: int)
    requires
        0 <= a <= b <= s.len(),
        forall|i: int| 0 <= i < a ==> is_trim_ws(#[trigger] s[i]),
        forall|i: int| b <= i < s.len() ==> is_trim_ws(#[trigger] s[i]),
        a < b ==> !is_trim_ws(s[a]) && !is_trim_ws(s[b - 1]),
        a == b ==> a == s.len(),
    ensures
        trim_spec(s) == s.subrange(a, b),
{
    if a == b {
        lemma_trim_front_idx_is(s, 0, s.len() as int);
        let rest = s.subrange(s.len() as int, s.len() as int);
        assert(rest =~= Seq::<char>::empty());
        assert(trim_back(rest) =~= s.subrange(a, b));
    } else {
        lemma_trim_front_idx_is(s, 0, a);
        let rest = s.subrange(a, s.len() as int);
        lemma_trim_back_is(rest, b - a);
        assert(rest.subrange(0, b - a) =~= s.subrange(a, b));
    }
}

/// Ten to any power is positive.
pub proof fn lemma_pow10_pos(k: int)
    ensures
        pow10(k) >= 1,
    decreases k,
{
    if k > 0 {
        lemma_pow10_pos(k - 1);
    }
}

/// The parsed byte count is at least the integer magnitude times the
/// multiplier.
pub proof fn lemma_value_lower_bound(iv: int, fv: int, ll: int, m: int)
    requires
        iv >= 0,
        fv >= 0,
        ll >= 0,
        m >= 1,
    ensures
        (iv * pow10(ll) + fv) * m / pow10(ll) >= iv * m,
        iv * m >= iv,
{
    let p = pow10(ll);
    lemma_pow10_pos(ll);
    assert((iv * p + fv) * m >= (iv * m) * p) by (nonlinear_arith)
        requires
            iv >= 0,
            fv >= 0,
            m >= 1,
            p >= 1,
    ;
    vstd::arithmetic::div_mod::lemma_div_is_ordered((iv * m) * p, (iv * p + fv) * m, p);
    vstd::arithmetic::div_mod::lemma_div_multiples_vanish(iv * m, p);
    assert((iv * m) * p == p * (iv * m)) by (nonlinear_arith);
    assert(iv * m >= iv * 1) by (nonlinear_arith)
        requires
            iv >= 0,
            m >= 1,
    ;
}

/// How a size string can fail to parse.
#[derive(Debug)]
pub enum SizeError {
    /// The string holds no magnitude.
    MissingValue,
    /// A decimal point not followed by a digit.
    NotNumber { found: char },
    /// The unit suffix is not recognized: the offending character, and the
    /// characters that would have been accepted in its place.
    BadUnit { found: char, expected: Vec<char> },
    /// More than eighteen fractional digits.
    FractionTooLong,
    /// The byte count does not fit in 64 bits.
    Overflow,
}

/// The diagnostic line of each parse failure.
pub open spec fn size_error_message(e: SizeError) -> Seq<char> {
    match e {
        SizeError::MissingValue => "no size value found"@,
        SizeError::NotNumber { found } => "the size character '"@ + seq![found]
            + "' is not a number"@,
        SizeError::BadUnit { found, expected } => "invalid size unit '"@ + seq![found]
            + "'; accepted here: "@ + expected@,
        SizeError::FractionTooLong => "the size has too many fractional digits"@,
        SizeError::Overflow => "the size does not fit in 64 bits"@,
    }
}

impl SizeError {
    /// Renders the diagnostic line: it names the offending character and, for
    /// a bad unit, the characters accepted in its place.
    pub fn message(&self) -> (s: String)
        ensures
            s@ == size_error_message(*self),
    {
        match self {
            SizeError::MissingValue => String::from_str("no size value found"),
            SizeError::NotNumber { found } => {
                let mut s = String::from_str("the size character '");
                push_char(&mut s, *found);
                s.append("' is not a number");
                proof {
                    assert(s@ =~= size_error_message(*self));
                }
                s
            },
            SizeError::BadUnit { found, expected } => {
                let mut s = String::from_str("invalid size unit '");
                push_char(&mut s, *found);
                s.append("'; accepted here: ");
                let ghost pre = s@;
                proof {
                    assert(pre + expected@.take(0) =~= pre);
                }
                let mut k: usize = 0;
                while k < expected.len()
                    invariant
                        0 <= k <= expected@.len(),
                        s@ == pre + expected@.take(k as int),
                    decreases expected@.len() - k,
                {
                    let c = expected[k];
                    push_char(&mut s, c);
                    proof {
                        assert(s@ =~= pre + expected@.take(k + 1));
                    }
                    k = k + 1;
                }
                proof {
                    assert(expected@.take(expected@.len() as int) =~= expected@);
                    assert(s@ =~= size_error_message(*self));
                }
                s
            },
            SizeError::FractionTooLong => String::from_str("the size has too many fractional digits"),
            SizeError::Overflow => String::from_str("the size does not fit in 64 bits"),
        }
    }
}

/// The outcome that an executable parse result stands for.
pub open spec fn outcome_of(r: Result<u64, SizeError>) -> ParseOutcome {
    match r {
        Ok(n) => ParseOutcome::Value(n as int),
        Err(SizeError::MissingValue) => ParseOutcome::MissingValue,
        Err(SizeError::NotNumber { found }) => (ParseOutcome::NotNumber { found }),
        Err(SizeError::BadUnit { found, expected }) => (ParseOutcome::BadUnit {
            found,
            expected: expected@,
        }),
        Err(SizeError::FractionTooLong) => ParseOutcome::FractionTooLong,
        Err(SizeError::Overflow) => ParseOutcome::Overflow,
    }
}

fn is_digit_exec(c: char) -> (b: bool)
    ensures
        b == is_digit(c),
{
    let u: u32 = c as u32;
    48 <= u && u <= 57
}

fn digit_val_exec(c: char) -> (d: u64)
    requires
        is_digit(c),
    ensures
        d as int == digit_val(c),
        d <= 9,
{
    ((c as u32) - 48) as u64
}

fn is_trim_ws_exec(c: char) -> (b: bool)
    ensures
        b == is_trim_ws(c),
{
    c == ' ' || c == '\t' || c == '\n' || c == '\r'
}

fn is_b_exec(c: char) -> (b: bool)
    ensures
        b == is_b(c),
{
    c == 'b' || c == 'B'
}

fn is_i_exec(c: char) -> (b: bool)
    ensures
        b == is_i(c),
{
    c == 'i' || c == 'I'
}

fn is_prefix_exec(c: char) -> (b: bool)
    ensures
        b == is_prefix_char(c),
{
    c == 'k' || c == 'K' || c == 'm' || c == 'M' || c == 'g' || c == 'G' || c == 't' || c == 'T'
        || c == 'p' || c == 'P' || c == 'e' || c == 'E'
}

fn dec_mult_exec(c: char) -> (m: u64)
    requires
        is_prefix_char(c),
    ensures
        m as int == dec_mult(c),
{
    if c == 'k' || c == 'K' {
        1000
    } else if c == 'm' || c == 'M' {
        1000000
    } else if c == 'g' || c == 'G' {
        1000000000
    } else if c == 't' || c == 'T' {
        1000000000000
    } else if c == 'p' || c == 'P' {
        1000000000000000
    } else {
        1000000000000000000
    }
}

fn bin_mult_exec(c: char) -> (m: u64)
    requires
        is_prefix_char(c),
    ensures
        m as int == bin_mult(c),
{
    if c == 'k' || c == 'K' {
        0x400
    } else if c == 'm' || c == 'M' {
        0x100000
    } else if c == 'g' || c == 'G' {
        0x40000000
    } else if c == 't' || c == 'T' {
        0x10000000000
    } else if c == 'p' || c == 'P' {
        0x4000000000000
    } else {
        0x1000000000000000
    }
}

fn expected_start_vec() -> (v: Vec<char>)
    ensures
        v@ == unit_expected_start(),
{
    let mut v: Vec<char> = Vec::new();
    v.push('B');
    v.push('K');
    v.push('M');
    v.push('G');
    v.push('T');
    v.push('P');
    v.push('E');
    proof {
        assert(v@ =~= unit_expected_start());
    }
    v
}

fn expected_ib_vec() -> (v: Vec<char>)
    ensures
        v@ == seq!['i', 'B'],
{
    let mut v: Vec<char> = Vec::new();
    v.push('i');
    v.push('B');
    proof {
        assert(v@ =~= seq!['i', 'B']);
    }
    v
}

fn expected_b_vec() -> (v: Vec<char>)
    ensures
        v@ == seq!['B'],
{
    let mut v: Vec<char> = Vec::new();
    v.push('B');
    proof {
        assert(v@ =~= seq!['B']);
    }
    v
}

fn expected_none_vec() -> (v: Vec<char>)
    ensures
        v@ == Seq::<char>::empty(),
{
    let v: Vec<char> = Vec::new();
    proof {
        assert(v@ =~= Seq::<char>::empty());
    }
    v
}

/// Reads the unit suffix found at `s[from..end]`.
fn parse_unit_exec(s: &str, from: usize, end: usize) -> (r: Result<u64, SizeError>)
    requires
        from <= end,
        end as int <= s@.len(),
    ensures
        (match r {
            Ok(m) => parse_unit(s@.subrange(from as int, end as int)) == UnitOutcome::Mult(
                m as int,
            ) && 1 <= m && m <= 0x1000000000000000,
            Err(e) => match e {
                SizeError::BadUnit { found, expected } => parse_unit(
                    s@.subrange(from as int, end as int),
                ) == (UnitOutcome::Bad { found, expected: expected@ }),
                _ => false,
            },
        }),
{
    let ghost u = s@.subrange(from as int, end as int);
    if end - from == 0 {
        assert(u.len() == 0);
        Ok(1)
    } else {
        let c0 = s.get_char(from);
        assert(u[0] == c0);
        if is_b_exec(c0) {
            if end - from == 1 {
                Ok(1)
            } else {
                let c1 = s.get_char(from + 1);
                assert(u[1] == c1);
                let v = expected_none_vec();
                proof {
                    assert(parse_unit(u) =~= (UnitOutcome::Bad { found: c1, expected: v@ }));
                }
                Err(SizeError::BadUnit { found: c1, expected: v })
            }
        } else if is_prefix_exec(c0) {
            if end - from == 1 {
                Ok(dec_mult_exec(c0))
            } else {
                let c1 = s.get_char(from + 1);
                assert(u[1] == c1);
                if is_i_exec(c1) {
                    if end - from == 2 {
                        Ok(bin_mult_exec(c0))
                    } else {
                        let c2 = s.get_char(from + 2);
                        assert(u[2] == c2);
                        if is_b_exec(c2) {
                            if end - from == 3 {
                                Ok(bin_mult_exec(c0))
                            } else {
                                let c3 = s.get_char(from + 3);
                                assert(u[3] == c3);
                                let v = expected_none_vec();
                                proof {
                                    assert(parse_unit(u) =~= (UnitOutcome::Bad {
                                        found: c3,
                                        expected: v@,
                                    }));
                                }
                                Err(SizeError::BadUnit { found: c3, expected: v })
                            }
                        } else {
                            let v = expected_b_vec();
                            proof {
                                assert(parse_unit(u) =~= (UnitOutcome::Bad {
                                    found: c2,
                                    expected: v@,
                                }));
                            }
                            Err(SizeError::BadUnit { found: c2, expected: v })
                        }
                    }
                } else if is_b_exec(c1) {
                    if end - from == 2 {
                        Ok(dec_mult_exec(c0))
                    } else {
                        let c2 = s.get_char(from + 2);
                        assert(u[2] == c2);
                        let v = expected_none_vec();
                        proof {
                            assert(parse_unit(u) =~= (UnitOutcome::Bad {
                                found: c2,
                                expected: v@,
                            }));
                        }
                        Err(SizeError::BadUnit { found: c2, expected: v })
                    }
                } else {
                    let v = expected_ib_vec();
                    proof {
                        assert(parse_unit(u) =~= (UnitOutcome::Bad { found: c1, expected: v@ }));
                    }
                    Err(SizeError::BadUnit { found: c1, expected: v })
                }
            }
        } else {
            let v = expected_start_vec();
            proof {
                assert(parse_unit(u) =~= (UnitOutcome::Bad { found: c0, expected: v@ }));
            }
            Err(SizeError::BadUnit { found: c0, expected: v })
        }
    }
}

/// What a size string made of digits, optional spaces and a unit parses to:
/// the digits' value times the unit's multiplier, or the unit's own error.
pub proof fn lemma_parse_decomposed(d: Seq<char>, w: Seq<char>, u: Seq<char>)
    requires
        d.len() > 0,
        all_digits(d),
        forall|i: int| 0 <= i < w.len() ==> #[trigger] w[i] == ' ',
        u.len() > 0 ==> !is_digit(u[0]) && u[0] != '.' && u[0] != ' ' && !is_trim_ws(u.last()),
    ensures
        parse_spec(d + w + u) == (match parse_unit(u) {
            UnitOutcome::Bad { found, expected } => (ParseOutcome::BadUnit { found, expected }),
            UnitOutcome::Mult(m) => {
                if digits_val(d) * m > u64::MAX {
                    ParseOutcome::Overflow
                } else {
                    ParseOutcome::Value(digits_val(d) * m)
                }
            },
        }),
{
    let s = d + w + u;
    let dl = d.len() as int;
    let wl = w.len() as int;
    let ul = u.len() as int;
    let sl = s.len() as int;
    assert(forall|i: int| 0 <= i < dl ==> s[i] == d[i]);
    assert(forall|i: int| dl <= i < dl + wl ==> s[i] == w[i - dl]);
    assert(forall|i: int| dl + wl <= i < sl ==> s[i] == u[i - dl - wl]);
    assert(is_digit(s[0]) && !is_trim_ws(s[0]));
    // where the trim lands
    let t: Seq<char> = if ul > 0 {
        s
    } else {
        d
    };
    if ul > 0 {
        assert(!is_trim_ws(s[sl - 1]));
        lemma_trim_spec_is(s, 0, sl);
        assert(s.subrange(0, sl) =~= s);
    } else {
        assert(forall|i: int| dl <= i < sl ==> is_trim_ws(#[trigger] s[i]));
        lemma_trim_spec_is(s, 0, dl);
        assert(s.subrange(0, dl) =~= d);
    }
    assert(parse_spec(s) == parse_trimmed(t));
    let tl = t.len() as int;
    // the magnitude
    assert(forall|i: int| 0 <= i < dl ==> is_digit(#[trigger] t[i]));
    if dl < tl {
        assert(!is_digit(t[dl]));
    }
    lemma_digits_end_is(t, 0, dl);
    if dl < tl {
        assert(t[dl] != '.');
    }
    assert(t.subrange(0, dl) =~= d);
    assert(parse_trimmed(t) == after_magnitude(t, digits_val(d), 0, 0, dl));
    // the spaces
    if ul > 0 {
        assert(forall|i: int| dl <= i < dl + wl ==> #[trigger] t[i] == ' ');
        if dl + wl < tl {
            assert(t[dl + wl] == u[0]);
        }
        lemma_spaces_end_is(t, dl, dl + wl);
        assert(t.subrange(dl + wl, tl) =~= u);
    } else {
        lemma_spaces_end_is(t, dl, dl);
        assert(t.subrange(dl, tl) =~= u);
    }
    // the value
    match parse_unit(u) {
        UnitOutcome::Bad { found, expected } => {
        },
        UnitOutcome::Mult(m) => {
            let iv = digits_val(d);
            assert(pow10(0) == 1);
            assert((iv * 1 + 0) * m == iv * m);
            assert(iv * m / 1 == iv * m);
        },
    }
}

/// Law: spaces between the magnitude and the unit suffix do not change what a
/// size string parses to.
pub proof fn lemma_spaces_ignored(d: Seq<char>, w: Seq<char>, u: Seq<char>)
    requires
        d.len() > 0,
        all_digits(d),
        forall|i: int| 0 <= i < w.len() ==> #[trigger] w[i] == ' ',
        u.len() > 0 ==> !is_digit(u[0]) && u[0] != '.' && u[0] != ' ' && !is_trim_ws(u.last()),
    ensures
        parse_spec(d + w + u) == parse_spec(d + u),
{
    lemma_parse_decomposed(d, w, u);
    lemma_parse_decomposed(d, Seq::empty(), u);
    assert(d + Seq::<char>::empty() + u =~= d + u);
}

/// Two characters that are equal up to ASCII letter case.
pub open spec fn ci_eq_char(a: char, b: char) -> bool {
    ||| a == b
    ||| (65 <= a as u32 <= 90 && b as u32 == a as u32 + 32)
    ||| (65 <= b as u32 <= 90 && a as u32 == b as u32 + 32)
}

/// Two strings that are equal up to ASCII letter case.
pub open spec fn ci_eq(u: Seq<char>, v: Seq<char>) -> bool {
    u.len() == v.len() && (forall|i: int| 0 <= i < u.len() ==> ci_eq_char(#[trigger] u[i], v[i]))
}

/// Characters equal up to case mean the same thing in a unit suffix.
pub proof fn lemma_ci_unit_char(a: char, b: char)
    requires
        ci_eq_char(a, b),
    ensures
        is_b(a) == is_b(b),
        is_i(a) == is_i(b),
        dec_mult(a) == dec_mult(b),
        bin_mult(a) == bin_mult(b),
{
    let au = a as u32;
    let bu = b as u32;
    if a != b {
        if 65 <= au && au <= 90 && bu == au + 32 {
            assert(au == 66 ==> b == 'b');
            assert(au == 73 ==> b == 'i');
            assert(au == 75 ==> b == 'k');
            assert(au == 77 ==> b == 'm');
            assert(au == 71 ==> b == 'g');
            assert(au == 84 ==> b == 't');
            assert(au == 80 ==> b == 'p');
            assert(au == 69 ==> b == 'e');
            assert(!(is_b(a) || is_i(a) || is_prefix_char(a)) ==> !(is_b(b) || is_i(b)
                || is_prefix_char(b))) by {
                assert(is_b(b) ==> bu == 98 || bu == 66);
                assert(is_i(b) ==> bu == 105 || bu == 73);
            }
        } else {
            assert(bu == 66 ==> a == 'b');
            assert(bu == 73 ==> a == 'i');
            assert(bu == 75 ==> a == 'k');
            assert(bu == 77 ==> a == 'm');
            assert(bu == 71 ==> a == 'g');
            assert(bu == 84 ==> a == 't');
            assert(bu == 80 ==> a == 'p');
            assert(bu == 69 ==> a == 'e');
            assert(!(is_b(b) || is_i(b) || is_prefix_char(b)) ==> !(is_b(a) || is_i(a)
                || is_prefix_char(a))) by {
                assert(is_b(a) ==> au == 98 || au == 66);
                assert(is_i(a) ==> au == 105 || au == 73);
            }
        }
    }
}

/// Law: the unit suffix is case-insensitive: a suffix that reads as a
/// multiplier reads as the same multiplier in any letter case, and size
/// strings built from the two suffixes parse alike.
pub proof fn lemma_parse_case_insensitive(d: Seq<char>, u: Seq<char>, v: Seq<char>, m: int)
    requires
        d.len() > 0,
        all_digits(d),
        ci_eq(u, v),
        parse_unit(u) == UnitOutcome::Mult(m),
    ensures
        parse_unit(v) == UnitOutcome::Mult(m),
        parse_spec(d + u) == parse_spec(d + v),
{
    assert(u.len() <= 3);
    if u.len() > 0 {
        assert(ci_eq_char(u[0], v[0]));
        lemma_ci_unit_char(u[0], v[0]);
    }
    if u.len() > 1 {
        assert(ci_eq_char(u[1], v[1]));
        lemma_ci_unit_char(u[1], v[1]);
    }
    if u.len() > 2 {
        assert(ci_eq_char(u[2], v[2]));
        lemma_ci_unit_char(u[2], v[2]);
    }
    assert(parse_unit(v) == UnitOutcome::Mult(m));
    lemma_parse_decomposed(d, Seq::empty(), u);
    lemma_parse_decomposed(d, Seq::empty(), v);
    assert(d + Seq::<char>::empty() + u =~= d + u);
    assert(d + Seq::<char>::empty() + v =~= d + v);
}

/// Law: formatting a byte count in decimal and parsing it back with a `B`
/// suffix returns the byte count.
pub proof fn lemma_parse_format_round_trip(n: u64)
    ensures
        parse_spec(dec_spec(n as int) + "B"@) == ParseOutcome::Value(n as int),
{
    reveal_strlit("B");
    let d = dec_spec(n as int);
    let u = "B"@;
    crate::digits::lemma_dec_spec_wf(n as int);
    crate::digits::lemma_digits_val_dec_spec(n as int);
    assert(u.len() == 1 && u[0] == 'B');
    assert(parse_unit(u) == UnitOutcome::Mult(1));
    lemma_parse_decomposed(d, Seq::empty(), u);
    assert(d + Seq::<char>::empty() + u =~= d + u);
    assert(digits_val(d) * 1 == n as int);
}

fn is_space_exec(c: char) -> (b: bool)
    ensures
        b == (c == ' '),
{
    c == ' '
}

/// The powers of ten up to ten to the eighteenth.
pub proof fn lemma_pow10_vals()
    ensures
        pow10(0) == 1,
        pow10(1) == 10,
        pow10(17) == 0x16345785D8A0000,
        pow10(18) == 0xDE0B6B3A7640000,
{
    assert(pow10(0) == 1);
    assert(pow10(1) == 10);
    assert(pow10(2) == 100);
    assert(pow10(3) == 1000);
    assert(pow10(4) == 10000);
    assert(pow10(5) == 100000);
    assert(pow10(6) == 1000000);
    assert(pow10(7) == 10000000);
    assert(pow10(8) == 100000000);
    assert(pow10(9) == 1000000000);
    assert(pow10(10) == 10000000000);
    assert(pow10(11) == 100000000000);
    assert(pow10(12) == 1000000000000);
    assert(pow10(13) == 10000000000000);
    assert(pow10(14) == 100000000000000);
    assert(pow10(15) == 1000000000000000);
    assert(pow10(16) == 10000000000000000);
    assert(pow10(17) == 100000000000000000);
    assert(pow10(18) == 1000000000000000000);
}

/// Ten to a higher power is no smaller.
pub proof fn lemma_pow10_le(a: int, b: int)
    requires
        a <= b,
    ensures
        pow10(a) <= pow10(b),
    decreases b - a,
{
    if a < b {
        lemma_pow10_le(a, b - 1);
        lemma_pow10_pos(b - 1);
    }
}

/// Ten to the given power, for exponents up to eighteen.
fn pow10_exec(k: usize) -> (r: u64)
    requires
        k <= 18,
    ensures
        r as int == pow10(k as int),
{
    proof {
        lemma_pow10_vals();
        assert(pow10(2) == 100);
        assert(pow10(3) == 1000);
        assert(pow10(4) == 10000);
        assert(pow10(5) == 100000);
        assert(pow10(6) == 1000000);
        assert(pow10(7) == 10000000);
        assert(pow10(8) == 100000000);
        assert(pow10(9) == 1000000000);
        assert(pow10(10) == 10000000000);
        assert(pow10(11) == 100000000000);
        assert(pow10(12) == 1000000000000);
        assert(pow10(13) == 10000000000000);
        assert(pow10(14) == 100000000000000);
        assert(pow10(15) == 1000000000000000);
        assert(pow10(16) == 10000000000000000);
    }
    if k == 0 {
        1
    } else if k == 1 {
        10
    } else if k == 2 {
        100
    } else if k == 3 {
        1000
    } else if k == 4 {
        10000
    } else if k == 5 {
        100000
    } else if k == 6 {
        1000000
    } else if k == 7 {
        10000000
    } else if k == 8 {
        100000000
    } else if k == 9 {
        1000000000
    } else if k == 10 {
        10000000000
    } else if k == 11 {
        100000000000
    } else if k == 12 {
        1000000000000
    } else if k == 13 {
        10000000000000
    } else if k == 14 {
        100000000000000
    } else if k == 15 {
        1000000000000000
    } else if k == 16 {
        10000000000000000
    } else if k == 17 {
        100000000000000000
    } else {
        1000000000000000000
    }
}

/// Parses a human-readable size string into a byte count.
///
/// On success the result is the magnitude times the unit's multiplier,
/// truncated toward zero; each failure reports exactly where and why the
/// string was rejected.
#[verifier::rlimit(100)]
pub fn parse_size(s: &str) -> (r: Result<u64, SizeError>)
    ensures
        outcome_of(r) == parse_spec(s@),
{
    let n = s.unicode_len();
    let mut start: usize = 0;
    while start < n && is_trim_ws_exec(s.get_char(start))
        invariant
            n as int == s@.len(),
            0 <= start <= n,
            forall|x: int| 0 <= x < start ==> is_trim_ws(#[trigger] s@[x]),
        decreases n - start,
    {
        start = start + 1;
    }
    let mut end: usize = n;
    while end > start && is_trim_ws_exec(s.get_char(end - 1))
        invariant
            n as int == s@.len(),
            start <= end <= n,
            forall|x: int| end <= x < n ==> is_trim_ws(#[trigger] s@[x]),
        decreases end,
    {
        end = end - 1;
    }
    proof {
        if start == end && start < n {
            assert(is_trim_ws(s@[start as int]));
            assert(false);
        }
        lemma_trim_spec_is(s@, start as int, end as int);
    }
    let ghost t = s@.subrange(start as int, end as int);
    if start == end {
        proof {
            assert(t.len() == 0);
        }
        return Err(SizeError::MissingValue);
    }
    // integer magnitude
    let mut i: usize = start;
    let mut ival: u128 = 0;
    let mut ival_big: bool = false;
    while i < end && is_digit_exec(s.get_char(i))
        invariant
            n as int == s@.len(),
            start <= i <= end <= n,
            t == s@.subrange(start as int, end as int),
            forall|x: int| start <= x < i ==> is_digit(#[trigger] s@[x]),
            !ival_big ==> ival as int == digits_val(t.take(i - start)) && ival <= u64::MAX as u128,
            ival_big ==> digits_val(t.take(i - start)) > u64::MAX as int,
        decreases end - i,
    {
        let c = s.get_char(i);
        let d = digit_val_exec(c);
        proof {
            assert(t[i - start] == s@[i as int]);
            crate::digits::lemma_digits_val_step(t, i - start);
        }
        if !ival_big {
            ival = ival * 10 + (d as u128);
            if ival > (u64::MAX as u128) {
                ival_big = true;
            }
        }
        i = i + 1;
    }
    proof {
        assert forall|x: int| 0 <= x < i - start implies is_digit(#[trigger] t[x]) by {
            assert(t[x] == s@[start + x]);
        }
        lemma_digits_end_is(t, 0, i - start);
    }
    let ghost d_end: int = i - start;
    let ghost iv: int = digits_val(t.take(d_end));
    proof {
        assert(all_digits(t.take(d_end)));
        crate::digits::lemma_digits_val_nonneg(t.take(d_end));
    }
    if i == start {
        let c0 = s.get_char(start);
        let v = expected_start_vec();
        proof {
            assert(t[0] == s@[start as int]);
        }
        return Err(SizeError::BadUnit { found: c0, expected: v });
    }
    // optional fraction
    let mut pos: usize = i;
    let mut fval: u64 = 0;
    let mut flen: usize = 0;
    let mut has_frac: bool = false;
    if i < end {
        let c = s.get_char(i);
        if c == '.' {
            has_frac = true;
            let mut j: usize = i + 1;
            while j < end && is_digit_exec(s.get_char(j))
                invariant
                    n as int == s@.len(),
                    start <= i,
                    i + 1 <= j <= end <= n,
                    t == s@.subrange(start as int, end as int),
                    forall|x: int| i + 1 <= x < j ==> is_digit(#[trigger] s@[x]),
                    flen == j - (i + 1),
                    flen <= 18 ==> fval as int == digits_val(
                        t.subrange(i - start + 1, j - start),
                    ) && (fval as int) < pow10(flen as int),
                decreases end - j,
            {
                let c2 = s.get_char(j);
                let d = digit_val_exec(c2);
                proof {
                    assert(t[j - start] == s@[j as int]);
                    assert(t.subrange(i - start + 1, j - start + 1).drop_last() =~= t.subrange(
                        i - start + 1,
                        j - start,
                    ));
                    assert(t.subrange(i - start + 1, j - start + 1).last() == t[j - start]);
                    lemma_pow10_vals();
                    if flen < 18 {
                        lemma_pow10_le(flen as int, 17);
                    }
                }
                if flen < 18 {
                    fval = fval * 10 + d;
                }
                flen = flen + 1;
                j = j + 1;
            }
            if j == i + 1 {
                if i + 1 < end {
                    let c2 = s.get_char(i + 1);
                    proof {
                        assert(t[d_end + 1] == s@[i + 1]);
                        lemma_digits_end_is(t, d_end + 1, d_end + 1);
                    }
                    return Err(SizeError::NotNumber { found: c2 });
                } else {
                    proof {
                        lemma_digits_end_is(t, d_end + 1, d_end + 1);
                    }
                    return Err(SizeError::NotNumber { found: '.' });
                }
            }
            proof {
                assert forall|x: int| d_end + 1 <= x < j - start implies is_digit(
                    #[trigger] t[x],
                ) by {
                    assert(t[x] == s@[start + x]);
                }
                lemma_digits_end_is(t, d_end + 1, j - start);
                assert(all_digits(t.subrange(d_end + 1, j - start)));
                crate::digits::lemma_digits_val_nonneg(t.subrange(d_end + 1, j - start));
            }
            pos = j;
        }
    }
    let ghost f_end: int = pos - start;
    let ghost fv: int = if has_frac {
        digits_val(t.subrange(d_end + 1, f_end))
    } else {
        0int
    };
    let ghost ll: int = flen as int;
    // spaces before the unit
    let mut k: usize = pos;
    while k < end && is_space_exec(s.get_char(k))
        invariant
            n as int == s@.len(),
            start <= pos <= k <= end <= n,
            t == s@.subrange(start as int, end as int),
            forall|x: int| pos <= x < k ==> #[trigger] s@[x] == ' ',
        decreases end - k,
    {
        k = k + 1;
    }
    proof {
        assert forall|x: int| f_end <= x < k - start implies #[trigger] t[x] == ' ' by {
            assert(t[x] == s@[start + x]);
        }
        if (k as int) - (start as int) < t.len() {
            assert(t[k - start] == s@[k as int]);
        }
        lemma_spaces_end_is(t, f_end, k - start);
    }
    // the unit
    let um = parse_unit_exec(s, k, end);
    proof {
        assert(t.subrange(k - start, t.len() as int) =~= s@.subrange(k as int, end as int));
    }
    let ghost u = t.subrange(spaces_end(t, f_end), t.len() as int);
    proof {
        if d_end < t.len() {
            assert(t[d_end] == s@[i as int]);
        }
        if has_frac {
            assert(parse_trimmed(t) == after_magnitude(t, iv, fv, ll, f_end));
        } else {
            assert(parse_trimmed(t) == after_magnitude(t, iv, 0, 0, d_end));
        }
    }
    let m: u64 = match um {
        Ok(m) => m,
        Err(e) => {
            proof {
                assert(outcome_of(Err(e)) == parse_trimmed(t));
            }
            return Err(e);
        },
    };
    proof {
        lemma_pow10_pos(ll);
        lemma_pow10_vals();
    }
    if flen > 18 {
        return Err(SizeError::FractionTooLong);
    }
    proof {
        lemma_pow10_le(ll, 18);
    }
    if ival_big {
        proof {
            lemma_value_lower_bound(iv, fv, ll, m as int);
        }
        return Err(SizeError::Overflow);
    }
    let im: u128 = {
        proof {
            assert(ival as int * (m as int) <= 0xFFFFFFFFFFFFFFFF * 0x1000000000000000)
                by (nonlinear_arith)
                requires
                    0 <= ival as int <= 0xFFFFFFFFFFFFFFFF,
                    0 <= m as int <= 0x1000000000000000,
            ;
        }
        ival * (m as u128)
    };
    if im > (u64::MAX as u128) {
        proof {
            lemma_value_lower_bound(iv, fv, ll, m as int);
        }
        return Err(SizeError::Overflow);
    }
    let p10: u64 = pow10_exec(flen);
    let fm: u128 = {
        proof {
            assert(fval as int * (m as int) <= 0xFFFFFFFFFFFFFFFF * 0x1000000000000000)
                by (nonlinear_arith)
                requires
                    0 <= fval as int <= 0xFFFFFFFFFFFFFFFF,
                    0 <= m as int <= 0x1000000000000000,
            ;
        }
        (fval as u128) * (m as u128)
    };
    let total: u128 = {
        proof {
            assert(im as int * (p10 as int) <= 0xFFFFFFFFFFFFFFFF * 0xDE0B6B3A7640000)
                by (nonlinear_arith)
                requires
                    0 <= im as int <= 0xFFFFFFFFFFFFFFFF,
                    0 <= p10 as int <= 0xDE0B6B3A7640000,
            ;
        }
        im * (p10 as u128) + fm
    };
    let q: u128 = total / (p10 as u128);
    proof {
        assert((iv * pow10(ll) + fv) * (m as int) == (iv * (m as int)) * pow10(ll) + fv * (m
            as int)) by (nonlinear_arith);
        assert(total as int == (iv * pow10(ll) + fv) * (m as int));
        assert(q as int == (iv * pow10(ll) + fv) * (m as int) / pow10(ll));
    }
    if q > (u64::MAX as u128) {
        return Err(SizeError::Overflow);
    }
    let out: u64 = q as u64;
    Ok(out)
}

} // verus!
