//! Exact decimal numbers for the calibration table.
//!
//! Calibration files carry plain decimal text: an optional sign, an integer
//! part, and an optional fraction. Such a number is held exactly as a signed
//! count of micro-units (millionths), so frequencies and dB responses can be
//! parsed, compared and ordered without any rounding. The grammar accepted
//! here is `[+-]digits[.digits]` with at most twelve integer digits and at
//! most six fraction digits; anything else is a parse failure.

use vstd::prelude::*;

verus! {

/// ASCII decimal digit.
pub open spec fn is_digit(b: u8) -> bool {
    48 <= b && b <= 57
}

/// Length of the maximal all-digit prefix of `s`.
pub open spec fn digit_prefix_len(s: Seq<u8>) -> int
    decreases s.len(),
{
    if s.len() == 0 || !is_digit(s[0]) {
        0
    } else {
        1 + digit_prefix_len(s.drop_first())
    }
}

/// Value of an all-digit sequence read in base ten.
pub open spec fn digits_val(s: Seq<u8>) -> int
    decreases s.len(),
{
    if s.len() == 0 {
        0
    } else {
        10 * digits_val(s.drop_last()) + (s.last() - 48)
    }
}

/// Ten to the power `k` (one for `k <= 0`).
pub open spec fn pow10(k: int) -> int
    decreases k,
{
    if k <= 0 {
        1
    } else {
        10 * pow10(k - 1)
    }
}

/// The unsigned part of a number: what follows an optional leading sign.
pub open spec fn spec_unsigned_part(s: Seq<u8>) -> Seq<u8> {
    if s.len() > 0 && (s[0] == 45 || s[0] == 43) {
        s.drop_first()
    } else {
        s
    }
}

/// Grammar of an unsigned decimal: one to twelve integer digits, then
/// optionally a dot and one to six fraction digits, and nothing else.
pub open spec fn spec_valid_unsigned(s: Seq<u8>) -> bool {
    let d = digit_prefix_len(s);
    &&& 1 <= d <= 12
    &&& (d == s.len() || {
        &&& s[d] == 46
        &&& digit_prefix_len(s.skip(d + 1)) == s.len() - d - 1
        &&& 1 <= s.len() - d - 1 <= 6
    })
}

/// Value in micro-units of a valid unsigned decimal.
pub open spec fn spec_unsigned_micros(s: Seq<u8>) -> int {
    let d = digit_prefix_len(s);
    if d == s.len() {
        digits_val(s.take(d)) * 1_000_000
    } else {
        digits_val(s.take(d)) * 1_000_000 + digits_val(s.skip(d + 1)) * pow10(
            6 - (s.len() - d - 1),
        )
    }
}

/// Grammar of a signed decimal.
pub open spec fn spec_valid_number(s: Seq<u8>) -> bool {
    spec_valid_unsigned(spec_unsigned_part(s))
}

/// Value in micro-units of a valid signed decimal.
pub open spec fn spec_number_micros(s: Seq<u8>) -> int {
    if s.len() > 0 && s[0] == 45 {
        -spec_unsigned_micros(s.drop_first())
    } else {
        spec_unsigned_micros(spec_unsigned_part(s))
    }
}

/// A signed count of micro-units: the exact value of one decimal field of a
/// calibration file.
#[derive(Clone, Copy, Debug, PartialEq, Eq, Structural)]
pub struct Micros {
    pub neg: bool,
    pub magnitude: u64,
}

impl Micros {
    /// The signed value, in micro-units.
    pub open spec fn value(self) -> int {
        if self.neg {
            -(self.magnitude as int)
        } else {
            self.magnitude as int
        }
    }
}

/// Strict order on exact decimal values.
pub fn micros_lt(a: &Micros, b: &Micros) -> (r: bool)
    ensures
        r == (a.value() < b.value()),
{
    if a.neg && b.neg {
        b.magnitude < a.magnitude
    } else if a.neg && !b.neg {
        a.magnitude > 0 || b.magnitude > 0
    } else if !a.neg && b.neg {
        false
    } else {
        a.magnitude < b.magnitude
    }
}

proof fn lemma_digit_prefix(s: Seq<u8>, k: int)
    requires
        0 <= k <= s.len(),
        forall|i: int| 0 <= i < k ==> is_digit(s[i]),
        k == s.len() || !is_digit(s[k]),
    ensures
        digit_prefix_len(s) == k,
    decreases k,
{
    if k == 0 {
    } else {
        assert(is_digit(s[0]));
        lemma_digit_prefix(s.drop_first(), k - 1);
    }
}

proof fn lemma_pow10_pos(k: int)
    requires
        0 <= k,
    ensures
        1 <= pow10(k),
    decreases k,
{
    if k > 0 {
        lemma_pow10_pos(k - 1);
    }
}

proof fn lemma_pow10_bounds(a: int, b: int)
    requires
        0 <= a <= b,
    ensures
        1 <= pow10(a) <= pow10(b),
    decreases b - a,
{
    lemma_pow10_pos(a);
    if a < b {
        lemma_pow10_bounds(a, b - 1);
        lemma_pow10_pos(b - 1);
    }
}

/// First index at or after `from` that is not a digit (the slice length if
/// the digits run to the end).
fn scan_digits(s: &[u8], from: usize) -> (end: usize)
    requires
        from <= s@.len(),
    ensures
        from <= end <= s@.len(),
        end - from == digit_prefix_len(s@.skip(from as int)),
        forall|k: int| from <= k < end ==> is_digit(s@[k]),
        end == s@.len() || !is_digit(s@[end as int]),
{
    let mut i: usize = from;
    while i < s.len() && 48 <= s[i] && s[i] <= 57
        invariant
            from <= i <= s@.len(),
            forall|k: int| from <= k < i ==> is_digit(s@[k]),
        decreases s@.len() - i,
    {
        i = i + 1;
    }
    proof {
        assert(forall|j: int|
            0 <= j < i - from ==> is_digit(s@.skip(from as int)[j]));
        lemma_digit_prefix(s@.skip(from as int), i - from);
    }
    i
}

/// Exact exec value of small powers of ten.
fn pow10_u64(k: usize) -> (r: u64)
    requires
        k <= 6,
    ensures
        r == pow10(k as int),
{
    proof {
        reveal_with_fuel(pow10, 8);
    }
    if k == 0 {
        1
    } else if k == 1 {
        10
    } else if k == 2 {
        100
    } else if k == 3 {
        1_000
    } else if k == 4 {
        10_000
    } else if k == 5 {
        100_000
    } else {
        1_000_000
    }
}

/// Reads the base-ten value of the digits `s[from..to]`, which the caller has
/// already scanned.
fn read_digits(s: &[u8], from: usize, to: usize) -> (val: u64)
    requires
        from <= to <= s@.len(),
        to - from <= 12,
        forall|k: int| from <= k < to ==> is_digit(s@[k]),
    ensures
        val == digits_val(s@.subrange(from as int, to as int)),
        val < pow10((to - from) as int),
{
    proof {
        reveal_with_fuel(pow10, 14);
    }
    let mut val: u64 = 0;
    let mut j: usize = from;
    proof {
        assert(s@.subrange(from as int, from as int) =~= Seq::<u8>::empty());
    }
    while j < to
        invariant
            from <= j <= to <= s@.len(),
            to - from <= 12,
            forall|k: int| from <= k < to ==> is_digit(s@[k]),
            val == digits_val(s@.subrange(from as int, j as int)),
            val < pow10((j - from) as int),
            pow10(12) == 1_000_000_000_000,
        decreases to - j,
    {
        proof {
            lemma_pow10_bounds((j - from) as int, 11);
            reveal_with_fuel(pow10, 14);
            assert(s@.subrange(from as int, j + 1).drop_last() =~= s@.subrange(
                from as int,
                j as int,
            ));
            assert(s@.subrange(from as int, j + 1).last() == s@[j as int]);
        }
        val = val * 10 + (s[j] - 48) as u64;
        j = j + 1;
    }
    val
}

/// Parses one decimal field into its exact value in micro-units. Returns
/// `None` exactly when the field does not fit the grammar; on success the
/// value is exactly the decimal the text denotes.
pub fn parse_micros(s: &[u8]) -> (r: Option<Micros>)
    ensures
        r is Some <==> spec_valid_number(s@),
        r is Some ==> r.unwrap().value() == spec_number_micros(s@),
{
    proof {
        reveal_with_fuel(pow10, 14);
    }
    let n = s.len();
    let mut start: usize = 0;
    let mut neg = false;
    if n > 0 && (s[0] == 45 || s[0] == 43) {
        neg = s[0] == 45;
        start = 1;
    }
    let ghost u = spec_unsigned_part(s@);
    proof {
        assert(u =~= s@.skip(start as int));
    }
    let d_end = scan_digits(s, start);
    let d_len = d_end - start;
    if d_len < 1 || d_len > 12 {
        return None;
    }
    let int_val = read_digits(s, start, d_end);
    proof {
        assert(u.take(digit_prefix_len(u)) =~= s@.subrange(start as int, d_end as int));
        lemma_pow10_bounds(d_len as int, 12);
    }
    if d_end == n {
        let magnitude = int_val * 1_000_000;
        return Some(Micros { neg, magnitude });
    }
    if s[d_end] != 46 {
        return None;
    }
    let f_start = d_end + 1;
    let f_end = scan_digits(s, f_start);
    proof {
        assert(u.skip(digit_prefix_len(u) + 1) =~= s@.skip(f_start as int));
    }
    if f_end != n {
        return None;
    }
    let f_len = f_end - f_start;
    if f_len < 1 || f_len > 6 {
        return None;
    }
    let frac_val = read_digits(s, f_start, f_end);
    proof {
        assert(s@.skip(f_start as int).take(digit_prefix_len(s@.skip(f_start as int)))
            =~= s@.subrange(f_start as int, f_end as int));
        assert(digits_val(s@.skip(f_start as int)) == digits_val(
            s@.subrange(f_start as int, f_end as int),
        )) by {
            assert(s@.skip(f_start as int) =~= s@.subrange(f_start as int, f_end as int));
        }
        lemma_pow10_bounds((6 - f_len) as int, 6);
    }
    let scale = pow10_u64(6 - f_len);
    proof {
        assert(frac_val * scale < pow10(f_len as int) * pow10((6 - f_len) as int)) by (nonlinear_arith)
            requires
                frac_val < pow10(f_len as int),
                scale == pow10((6 - f_len) as int),
                scale >= 1,
                frac_val >= 0,
        ;
        assert(pow10(f_len as int) * pow10((6 - f_len) as int) == pow10(6)) by {
            lemma_pow10_mul(f_len as int, (6 - f_len) as int);
        }
    }
    let magnitude = int_val * 1_000_000 + frac_val * scale;
    Some(Micros { neg, magnitude })
}

proof fn lemma_pow10_mul(a: int, b: int)
    requires
        0 <= a,
        0 <= b,
    ensures
        pow10(a) * pow10(b) == pow10(a + b),
    decreases a,
{
    if a == 0 {
    } else {
        lemma_pow10_mul(a - 1, b);
        assert(pow10(a) * pow10(b) == 10 * (pow10(a - 1) * pow10(b))) by (nonlinear_arith)
            requires
                pow10(a) == 10 * pow10(a - 1),
        ;
    }
}

} // verus!
