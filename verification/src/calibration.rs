//! The microphone calibration file.
//!
//! The first line carries a comma-separated field `Sens Factor =<value>dB`
//! whose number is the sensitivity offset in dB. Every later line with
//! exactly two whitespace-separated fields is a `<frequency> <response-dB>`
//! table entry; lines of any other shape are skipped. A field that is not a
//! plain decimal is a fatal parse error, as is a missing sensitivity field.
//! A usable table needs at least two entries whose frequencies strictly
//! increase. Values are kept exactly, in micro-units; the dB-to-linear
//! conversion of the response is floating point and stays outside this crate.

use vstd::prelude::*;
use vstd::slice::slice_subrange;

use crate::numbers::Micros;
use crate::numbers::micros_lt;
use crate::numbers::parse_micros;
use crate::numbers::spec_number_micros;
use crate::numbers::spec_valid_number;
use crate::text::is_ws;
use crate::text::scan_until;
use crate::text::spec_strip_db;
use crate::text::spec_trim;
use crate::text::spec_two_fields;
use crate::text::strip_db_range;
use crate::text::trim_range;
use crate::text::two_fields;
use crate::text::until_byte_len;

verus! {

/// Why a calibration file was rejected at startup.
#[derive(Clone, Copy, Debug, PartialEq, Eq, Structural)]
pub enum CalError {
    /// The file has no lines at all.
    EmptyFile,
    /// No part of the first line holds `Sens Factor`.
    SensitivityMissing,
    /// The sensitivity field has no `=` before the next comma.
    SensitivityFormat,
    /// A numeric field is not a plain decimal.
    BadNumber,
    /// Fewer than two table entries.
    TooFewEntries,
    /// Table frequencies are not strictly increasing.
    NonIncreasing,
}

/// The bytes of `Sens Factor`.
pub open spec fn sens_pattern() -> Seq<u8> {
    seq![83u8, 101u8, 110u8, 115u8, 32u8, 70u8, 97u8, 99u8, 116u8, 111u8, 114u8]
}

/// Whether `s` begins with `Sens Factor`.
pub open spec fn starts_with_sens(s: Seq<u8>) -> bool {
    s.len() >= 11 && s.take(11) == sens_pattern()
}

/// Index of the first occurrence of `Sens Factor` in `s`, or `s.len()` if
/// there is none.
pub open spec fn sens_pos(s: Seq<u8>) -> int
    decreases s.len(),
{
    if starts_with_sens(s) {
        0
    } else if s.len() == 0 {
        0
    } else {
        1 + sens_pos(s.drop_first())
    }
}

/// Whether the line holds `Sens Factor` at all.
pub open spec fn sens_found(s: Seq<u8>) -> bool {
    starts_with_sens(s.skip(sens_pos(s)))
}

/// End of the sensitivity field: the first comma at or after the pattern, or
/// the end of the line.
pub open spec fn spec_sens_comma(s: Seq<u8>) -> int {
    sens_pos(s) + until_byte_len(s.skip(sens_pos(s)), 44)
}

/// The first `=` at or after the pattern (possibly past the field's comma,
/// which makes the field malformed).
pub open spec fn spec_sens_eq(s: Seq<u8>) -> int {
    sens_pos(s) + until_byte_len(s.skip(sens_pos(s)), 61)
}

/// The text of the sensitivity value: what stands between the `=` and the
/// field's end, trimmed, with every trailing `dB` removed.
pub open spec fn spec_sens_text(s: Seq<u8>) -> Seq<u8> {
    spec_strip_db(spec_trim(s.subrange(spec_sens_eq(s) + 1, spec_sens_comma(s))))
}

/// A well-formed sensitivity field: pattern present, `=` inside the field,
/// value a plain decimal.
pub open spec fn spec_sens_ok(s: Seq<u8>) -> bool {
    &&& sens_found(s)
    &&& spec_sens_eq(s) < spec_sens_comma(s)
    &&& spec_valid_number(spec_sens_text(s))
}

/// The sensitivity offset in micro-dB.
pub open spec fn spec_sens_value(s: Seq<u8>) -> int {
    spec_number_micros(spec_sens_text(s))
}

proof fn lemma_sens_pos_at(s: Seq<u8>, j: int)
    requires
        0 <= j <= s.len(),
        forall|i: int| 0 <= i < j ==> !starts_with_sens(s.skip(i)),
        starts_with_sens(s.skip(j)),
    ensures
        sens_pos(s) == j,
        sens_found(s),
    decreases j,
{
    assert(s.skip(0) =~= s);
    if j == 0 {
    } else {
        assert(!starts_with_sens(s));
        let t = s.drop_first();
        assert(t =~= s.skip(1));
        assert forall|i: int| 0 <= i < j - 1 implies !starts_with_sens(t.skip(i)) by {
            assert(t.skip(i) =~= s.skip(i + 1));
        }
        assert(t.skip(j - 1) =~= s.skip(j));
        lemma_sens_pos_at(t, j - 1);
    }
}

proof fn lemma_sens_none(s: Seq<u8>)
    requires
        forall|i: int| 0 <= i <= s.len() ==> !starts_with_sens(s.skip(i)),
    ensures
        sens_pos(s) == s.len(),
        !sens_found(s),
    decreases s.len(),
{
    assert(s.skip(0) =~= s);
    if s.len() == 0 {
    } else {
        let t = s.drop_first();
        assert(t =~= s.skip(1));
        assert forall|i: int| 0 <= i <= t.len() implies !starts_with_sens(t.skip(i)) by {
            assert(t.skip(i) =~= s.skip(i + 1));
        }
        lemma_sens_none(t);
    }
}

/// First occurrence of `Sens Factor` in the line, if any.
#[verifier::loop_isolation(false)]
fn find_sens(s: &[u8]) -> (r: Option<usize>)
    ensures
        r is Some <==> sens_found(s@),
        r matches Some(j) ==> j == sens_pos(s@) && j + 11 <= s@.len(),
{
    let pat: Vec<u8> = vec![83u8, 101u8, 110u8, 115u8, 32u8, 70u8, 97u8, 99u8, 116u8, 111u8, 114u8];
    proof {
        assert(pat@ =~= sens_pattern());
    }
    if s.len() < 11 {
        proof {
            assert forall|i: int| 0 <= i <= s@.len() implies !starts_with_sens(s@.skip(i)) by {
                assert(s@.skip(i).len() == s@.len() - i);
            }
            lemma_sens_none(s@);
        }
        return None;
    }
    let mut j: usize = 0;
    while j <= s.len() - 11
        invariant
            11 <= s@.len(),
            j + 10 <= s@.len(),
            pat@ == sens_pattern(),
            forall|i: int| 0 <= i < j ==> !starts_with_sens(s@.skip(i)),
        decreases s@.len() - j,
    {
        let mut k: usize = 0;
        let mut matched = true;
        while k < 11
            invariant
                k <= 11,
                j + 11 <= s@.len(),
                pat@ == sens_pattern(),
                matched ==> forall|m: int| 0 <= m < k ==> s@[j + m] == sens_pattern()[m],
                !matched ==> !starts_with_sens(s@.skip(j as int)),
            decreases 11 - k,
        {
            if s[j + k] != pat[k] {
                proof {
                    if starts_with_sens(s@.skip(j as int)) {
                        assert(s@.skip(j as int).take(11)[k as int] == sens_pattern()[k as int]);
                        assert(s@.skip(j as int)[k as int] == s@[j + k]);
                    }
                }
                matched = false;
            }
            k = k + 1;
        }
        if matched {
            proof {
                assert(s@.skip(j as int).take(11) =~= sens_pattern());
                lemma_sens_pos_at(s@, j as int);
            }
            return Some(j);
        }
        proof {
            assert(!starts_with_sens(s@.skip(j as int)));
        }
        j = j + 1;
    }
    proof {
        assert forall|i: int| 0 <= i <= s@.len() implies !starts_with_sens(s@.skip(i)) by {
            if i >= j {
                assert(s@.skip(i).len() == s@.len() - i);
            }
        }
        lemma_sens_none(s@);
    }
    None
}

/// Reads the sensitivity offset from the first line of a calibration file:
/// the number of the comma-separated field `Sens Factor =<value>dB`.
pub fn extract_sensitivity(line: &[u8]) -> (r: Result<Micros, CalError>)
    ensures
        !sens_found(line@) ==> r == Err::<Micros, CalError>(CalError::SensitivityMissing),
        sens_found(line@) && spec_sens_eq(line@) >= spec_sens_comma(line@) ==> r == Err::<
            Micros,
            CalError,
        >(CalError::SensitivityFormat),
        sens_found(line@) && spec_sens_eq(line@) < spec_sens_comma(line@) && !spec_valid_number(
            spec_sens_text(line@),
        ) ==> r == Err::<Micros, CalError>(CalError::BadNumber),
        spec_sens_ok(line@) ==> (r matches Ok(m) && m.value() == spec_sens_value(line@)),
{
    let j = match find_sens(line) {
        None => {
            return Err(CalError::SensitivityMissing);
        },
        Some(j) => j,
    };
    let c = scan_until(line, j, 44);
    let e = scan_until(line, j, 61);
    if e >= c {
        return Err(CalError::SensitivityFormat);
    }
    let (t1, t2) = trim_range(line, e + 1, c);
    let t3 = strip_db_range(line, t1, t2);
    proof {
        assert(line@.subrange(t1 as int, t3 as int) == spec_sens_text(line@));
    }
    match parse_micros(slice_subrange(line, t1, t3)) {
        Some(m) => Ok(m),
        None => Err(CalError::BadNumber),
    }
}

/// Whether the line has the two-field table shape.
pub open spec fn spec_line_is_pair(l: Seq<u8>) -> bool {
    spec_two_fields(l) is Some
}

/// A two-field line whose fields are both plain decimals.
pub open spec fn spec_pair_ok(l: Seq<u8>) -> bool {
    &&& spec_line_is_pair(l)
    &&& spec_valid_number(spec_two_fields(l).unwrap().0)
    &&& spec_valid_number(spec_two_fields(l).unwrap().1)
}

/// The frequency of a table line, in micro-Hz.
pub open spec fn spec_pair_freq(l: Seq<u8>) -> int {
    spec_number_micros(spec_two_fields(l).unwrap().0)
}

/// The dB response of a table line, in micro-dB.
pub open spec fn spec_pair_resp(l: Seq<u8>) -> int {
    spec_number_micros(spec_two_fields(l).unwrap().1)
}

/// Whether some line has the two-field shape but a field that is not a plain
/// decimal — a fatal parse error.
pub open spec fn spec_any_bad(lines: Seq<Seq<u8>>) -> bool
    decreases lines.len(),
{
    if lines.len() == 0 {
        false
    } else {
        spec_any_bad(lines.drop_last()) || (spec_line_is_pair(lines.last()) && !spec_pair_ok(
            lines.last(),
        ))
    }
}

/// The frequencies of the well-formed table lines, in file order.
pub open spec fn spec_freqs(lines: Seq<Seq<u8>>) -> Seq<int>
    decreases lines.len(),
{
    if lines.len() == 0 {
        Seq::<int>::empty()
    } else if spec_pair_ok(lines.last()) {
        spec_freqs(lines.drop_last()).push(spec_pair_freq(lines.last()))
    } else {
        spec_freqs(lines.drop_last())
    }
}

/// The dB responses of the well-formed table lines, in file order.
pub open spec fn spec_resps(lines: Seq<Seq<u8>>) -> Seq<int>
    decreases lines.len(),
{
    if lines.len() == 0 {
        Seq::<int>::empty()
    } else if spec_pair_ok(lines.last()) {
        spec_resps(lines.drop_last()).push(spec_pair_resp(lines.last()))
    } else {
        spec_resps(lines.drop_last())
    }
}

/// Strictly increasing sequence of values.
pub open spec fn strictly_increasing(xs: Seq<int>) -> bool {
    forall|i: int| 0 <= i && i + 1 < xs.len() ==> (#[trigger] xs[i]) < xs[i + 1]
}

/// The views of a sequence of byte lines.
pub open spec fn views_of(lines: Seq<Vec<u8>>) -> Seq<Seq<u8>> {
    lines.map_values(|l: Vec<u8>| l@)
}

/// The sparse factory calibration of one microphone: a sensitivity offset
/// and `(frequency, response-dB)` entries with strictly increasing
/// frequencies, all as exact decimals in micro-units.
pub struct MicCalibrationData {
    pub sensitivity: Micros,
    pub frequency: Vec<Micros>,
    pub response_db: Vec<Micros>,
}

impl MicCalibrationData {
    /// Frequencies as values, in table order.
    pub open spec fn freq_values(&self) -> Seq<int> {
        self.frequency@.map_values(|m: Micros| m.value())
    }

    /// Responses as values, in table order.
    pub open spec fn resp_values(&self) -> Seq<int> {
        self.response_db@.map_values(|m: Micros| m.value())
    }

    /// A usable table: parallel columns, at least two entries, strictly
    /// increasing frequency.
    pub open spec fn wf(&self) -> bool {
        &&& self.frequency@.len() == self.response_db@.len()
        &&& self.frequency@.len() >= 2
        &&& strictly_increasing(self.freq_values())
    }
}

/// Parses a whole calibration file, given as its lines: the sensitivity from
/// the first line, one table entry per well-formed later line, and the
/// startup validation that the table has at least two entries in strictly
/// increasing frequency order.
#[verifier::loop_isolation(false)]
pub fn parse_calibration(lines: &Vec<Vec<u8>>) -> (r: Result<MicCalibrationData, CalError>)
    ensures
        lines@.len() == 0 ==> r == Err::<MicCalibrationData, CalError>(CalError::EmptyFile),
        lines@.len() > 0 ==> {
            let l0 = lines@[0]@;
            let body = views_of(lines@.skip(1));
            &&& (!sens_found(l0) ==> r == Err::<MicCalibrationData, CalError>(
                CalError::SensitivityMissing,
            ))
            &&& (sens_found(l0) && spec_sens_eq(l0) >= spec_sens_comma(l0) ==> r == Err::<
                MicCalibrationData,
                CalError,
            >(CalError::SensitivityFormat))
            &&& (sens_found(l0) && spec_sens_eq(l0) < spec_sens_comma(l0) && !spec_valid_number(
                spec_sens_text(l0),
            ) ==> r == Err::<MicCalibrationData, CalError>(CalError::BadNumber))
            &&& (spec_sens_ok(l0) && spec_any_bad(body) ==> r == Err::<
                MicCalibrationData,
                CalError,
            >(CalError::BadNumber))
            &&& (spec_sens_ok(l0) && !spec_any_bad(body) && spec_freqs(body).len() < 2 ==> r
                == Err::<MicCalibrationData, CalError>(CalError::TooFewEntries))
            &&& (spec_sens_ok(l0) && !spec_any_bad(body) && spec_freqs(body).len() >= 2
                && !strictly_increasing(spec_freqs(body)) ==> r == Err::<
                MicCalibrationData,
                CalError,
            >(CalError::NonIncreasing))
            &&& (spec_sens_ok(l0) && !spec_any_bad(body) && spec_freqs(body).len() >= 2
                && strictly_increasing(spec_freqs(body)) ==> (r matches Ok(t) && {
                &&& t.wf()
                &&& t.sensitivity.value() == spec_sens_value(l0)
                &&& t.freq_values() == spec_freqs(body)
                &&& t.resp_values() == spec_resps(body)
            }))
        },
{
    if lines.len() == 0 {
        return Err(CalError::EmptyFile);
    }
    let sensitivity = match extract_sensitivity(lines[0].as_slice()) {
        Ok(m) => m,
        Err(e) => {
            return Err(e);
        },
    };
    let ghost body = views_of(lines@.skip(1));
    let mut frequency: Vec<Micros> = Vec::new();
    let mut response_db: Vec<Micros> = Vec::new();
    let mut i: usize = 1;
    proof {
        assert(views_of(lines@.skip(1).take(0)) =~= Seq::<Seq<u8>>::empty());
    }
    while i < lines.len()
        invariant
            1 <= i <= lines@.len(),
            body == views_of(lines@.skip(1)),
            !spec_any_bad(views_of(lines@.skip(1).take(i - 1))),
            frequency@.map_values(|m: Micros| m.value()) == spec_freqs(
                views_of(lines@.skip(1).take(i - 1)),
            ),
            response_db@.map_values(|m: Micros| m.value()) == spec_resps(
                views_of(lines@.skip(1).take(i - 1)),
            ),
            frequency@.len() == response_db@.len(),
        decreases lines@.len() - i,
    {
        let ghost prefix = views_of(lines@.skip(1).take(i - 1));
        let ghost l = lines@[i as int]@;
        proof {
            let next = views_of(lines@.skip(1).take(i as int));
            assert(next.drop_last() =~= prefix);
            assert(next.last() == l);
        }
        match two_fields(lines[i].as_slice()) {
            Some((f, g)) => {
                let fm = parse_micros(slice_subrange(lines[i].as_slice(), f.0, f.1));
                let gm = parse_micros(slice_subrange(lines[i].as_slice(), g.0, g.1));
                match (fm, gm) {
                    (Some(fv), Some(gv)) => {
                        frequency.push(fv);
                        response_db.push(gv);
                        proof {
                            assert(frequency@.map_values(|m: Micros| m.value()) =~= spec_freqs(
                                views_of(lines@.skip(1).take(i as int)),
                            ));
                            assert(response_db@.map_values(|m: Micros| m.value()) =~= spec_resps(
                                views_of(lines@.skip(1).take(i as int)),
                            ));
                        }
                    },
                    _ => {
                        proof {
                            assert(spec_any_bad(body)) by {
                                lemma_any_bad_extends(body, i - 1);
                            }
                        }
                        return Err(CalError::BadNumber);
                    },
                }
            },
            None => {
            },
        }
        i = i + 1;
    }
    proof {
        assert(lines@.skip(1).take(i - 1) =~= lines@.skip(1));
    }
    if frequency.len() < 2 {
        return Err(CalError::TooFewEntries);
    }
    let mut k: usize = 1;
    while k < frequency.len()
        invariant
            1 <= k <= frequency@.len(),
            frequency@.len() == response_db@.len(),
            forall|q: int|
                0 <= q && q + 1 < k ==> (#[trigger] frequency@[q]).value() < frequency@[q
                    + 1].value(),
        decreases frequency@.len() - k,
    {
        if !micros_lt(&frequency[k - 1], &frequency[k]) {
            proof {
                let vals = frequency@.map_values(|m: Micros| m.value());
                assert(vals[k - 1] == frequency@[k - 1].value());
                assert(vals[k as int] == frequency@[k as int].value());
                assert(!strictly_increasing(vals)) by {
                    if strictly_increasing(vals) {
                        assert(vals[k - 1] < vals[k as int]);
                    }
                }
            }
            return Err(CalError::NonIncreasing);
        }
        k = k + 1;
    }
    proof {
        let vals = frequency@.map_values(|m: Micros| m.value());
        assert forall|q: int| 0 <= q && q + 1 < vals.len() implies (#[trigger] vals[q]) < vals[q
            + 1] by {
            assert(vals[q] == frequency@[q].value());
            assert(vals[q + 1] == frequency@[q + 1].value());
        }
    }
    Ok(MicCalibrationData { sensitivity, frequency, response_db })
}

proof fn lemma_any_bad_extends(lines: Seq<Seq<u8>>, upto: int)
    requires
        0 <= upto < lines.len(),
        spec_line_is_pair(lines[upto]),
        !spec_pair_ok(lines[upto]),
    ensures
        spec_any_bad(lines),
    decreases lines.len(),
{
    if upto == lines.len() - 1 {
        assert(lines.last() == lines[upto]);
    } else {
        assert(lines.drop_last()[upto] == lines[upto]);
        lemma_any_bad_extends(lines.drop_last(), upto);
    }
}

} // verus!
