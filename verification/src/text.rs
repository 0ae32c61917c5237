//! Byte-level text scanning for the calibration file grammar: whitespace
//! runs, delimiter searches, trimming, the `dB` suffix, and the two-field
//! shape of a table line. Each scan has a matching specification function, so
//! the calibration parser's contract pins down exactly which lines are
//! accepted and what they denote.

use vstd::prelude::*;

verus! {

/// Horizontal whitespace inside a line: space, tab, or a stray carriage
/// return left by a CRLF line ending.
pub open spec fn is_ws(b: u8) -> bool {
    b == 32 || b == 9 || b == 13
}

/// Length of the maximal whitespace prefix of `s`.
pub open spec fn ws_prefix_len(s: Seq<u8>) -> int
    decreases s.len(),
{
    if s.len() == 0 || !is_ws(s[0]) {
        0
    } else {
        1 + ws_prefix_len(s.drop_first())
    }
}

/// Length of the maximal non-whitespace prefix of `s`.
pub open spec fn nonws_prefix_len(s: Seq<u8>) -> int
    decreases s.len(),
{
    if s.len() == 0 || is_ws(s[0]) {
        0
    } else {
        1 + nonws_prefix_len(s.drop_first())
    }
}

/// Length of the maximal prefix of `s` free of the byte `x`.
pub open spec fn until_byte_len(s: Seq<u8>, x: u8) -> int
    decreases s.len(),
{
    if s.len() == 0 || s[0] == x {
        0
    } else {
        1 + until_byte_len(s.drop_first(), x)
    }
}

/// Length of the maximal whitespace suffix of `s`.
pub open spec fn ws_suffix_len(s: Seq<u8>) -> int
    decreases s.len(),
{
    if s.len() == 0 || !is_ws(s.last()) {
        0
    } else {
        1 + ws_suffix_len(s.drop_last())
    }
}

/// `s` with leading and trailing whitespace removed.
pub open spec fn spec_trim(s: Seq<u8>) -> Seq<u8> {
    if ws_prefix_len(s) == s.len() {
        Seq::<u8>::empty()
    } else {
        s.subrange(ws_prefix_len(s), s.len() - ws_suffix_len(s))
    }
}

/// `s` with every trailing `dB` pair removed.
pub open spec fn spec_strip_db(s: Seq<u8>) -> Seq<u8>
    decreases s.len(),
{
    if s.len() >= 2 && s[s.len() - 2] == 100 && s[s.len() - 1] == 66 {
        spec_strip_db(s.take(s.len() - 2))
    } else {
        s
    }
}

/// The two whitespace-separated fields of a table line, if the line has
/// exactly two; `None` for any other field count.
pub open spec fn spec_two_fields(s: Seq<u8>) -> Option<(Seq<u8>, Seq<u8>)> {
    let a = ws_prefix_len(s);
    let b = a + nonws_prefix_len(s.skip(a));
    let c = b + ws_prefix_len(s.skip(b));
    let d = c + nonws_prefix_len(s.skip(c));
    let e = d + ws_prefix_len(s.skip(d));
    if a < b && c < d && e == s.len() {
        Some((s.subrange(a, b), s.subrange(c, d)))
    } else {
        None
    }
}

proof fn lemma_ws_prefix(s: Seq<u8>, k: int)
    requires
        0 <= k <= s.len(),
        forall|i: int| 0 <= i < k ==> is_ws(s[i]),
        k == s.len() || !is_ws(s[k]),
    ensures
        ws_prefix_len(s) == k,
    decreases k,
{
    if k > 0 {
        lemma_ws_prefix(s.drop_first(), k - 1);
    }
}

proof fn lemma_nonws_prefix(s: Seq<u8>, k: int)
    requires
        0 <= k <= s.len(),
        forall|i: int| 0 <= i < k ==> !is_ws(s[i]),
        k == s.len() || is_ws(s[k]),
    ensures
        nonws_prefix_len(s) == k,
    decreases k,
{
    if k > 0 {
        lemma_nonws_prefix(s.drop_first(), k - 1);
    }
}

proof fn lemma_until_byte(s: Seq<u8>, x: u8, k: int)
    requires
        0 <= k <= s.len(),
        forall|i: int| 0 <= i < k ==> s[i] != x,
        k == s.len() || s[k] == x,
    ensures
        until_byte_len(s, x) == k,
    decreases k,
{
    if k > 0 {
        lemma_until_byte(s.drop_first(), x, k - 1);
    }
}

proof fn lemma_ws_suffix(s: Seq<u8>, k: int)
    requires
        0 <= k <= s.len(),
        forall|i: int| k <= i < s.len() ==> is_ws(s[i]),
        k == 0 || !is_ws(s[k - 1]),
    ensures
        ws_suffix_len(s) == s.len() - k,
    decreases s.len() - k,
{
    if k < s.len() {
        assert(is_ws(s.last()));
        assert(forall|i: int|
            k <= i < s.drop_last().len() ==> is_ws(s.drop_last()[i]));
        lemma_ws_suffix(s.drop_last(), k);
    }
}

/// First index at or after `from` holding a non-whitespace byte.
pub fn scan_ws(s: &[u8], from: usize) -> (end: usize)
    requires
        from <= s@.len(),
    ensures
        from <= end <= s@.len(),
        end - from == ws_prefix_len(s@.skip(from as int)),
        forall|k: int| from <= k < end ==> is_ws(s@[k]),
        end == s@.len() || !is_ws(s@[end as int]),
{
    let mut i: usize = from;
    while i < s.len() && (s[i] == 32 || s[i] == 9 || s[i] == 13)
        invariant
            from <= i <= s@.len(),
            forall|k: int| from <= k < i ==> is_ws(s@[k]),
        decreases s@.len() - i,
    {
        i = i + 1;
    }
    proof {
        assert(forall|j: int| 0 <= j < i - from ==> is_ws(s@.skip(from as int)[j]));
        lemma_ws_prefix(s@.skip(from as int), i - from);
    }
    i
}

/// First index at or after `from` holding a whitespace byte.
pub fn scan_nonws(s: &[u8], from: usize) -> (end: usize)
    requires
        from <= s@.len(),
    ensures
        from <= end <= s@.len(),
        end - from == nonws_prefix_len(s@.skip(from as int)),
        forall|k: int| from <= k < end ==> !is_ws(s@[k]),
        end == s@.len() || is_ws(s@[end as int]),
{
    let mut i: usize = from;
    while i < s.len() && s[i] != 32 && s[i] != 9 && s[i] != 13
        invariant
            from <= i <= s@.len(),
            forall|k: int| from <= k < i ==> !is_ws(s@[k]),
        decreases s@.len() - i,
    {
        i = i + 1;
    }
    proof {
        assert(forall|j: int| 0 <= j < i - from ==> !is_ws(s@.skip(from as int)[j]));
        lemma_nonws_prefix(s@.skip(from as int), i - from);
    }
    i
}

/// First index at or after `from` holding the byte `x`, or the length.
pub fn scan_until(s: &[u8], from: usize, x: u8) -> (end: usize)
    requires
        from <= s@.len(),
    ensures
        from <= end <= s@.len(),
        end - from == until_byte_len(s@.skip(from as int), x),
        forall|k: int| from <= k < end ==> s@[k] != x,
        end == s@.len() || s@[end as int] == x,
{
    let mut i: usize = from;
    while i < s.len() && s[i] != x
        invariant
            from <= i <= s@.len(),
            forall|k: int| from <= k < i ==> s@[k] != x,
        decreases s@.len() - i,
    {
        i = i + 1;
    }
    proof {
        assert(forall|j: int| 0 <= j < i - from ==> s@.skip(from as int)[j] != x);
        lemma_until_byte(s@.skip(from as int), x, i - from);
    }
    i
}

/// Trims whitespace from both ends of `s[from..to]` and returns the trimmed
/// bounds.
pub fn trim_range(s: &[u8], from: usize, to: usize) -> (r: (usize, usize))
    requires
        from <= to <= s@.len(),
        to == s@.len() || !is_ws(s@[to as int]),
    ensures
        from <= r.0 <= r.1 <= to,
        s@.subrange(r.0 as int, r.1 as int) == spec_trim(s@.subrange(from as int, to as int)),
{
    let ghost v = s@.subrange(from as int, to as int);
    let t1 = scan_ws(s, from);
    proof {
        assert(v.skip(0) =~= s@.subrange(from as int, to as int));
        if t1 < to {
            assert(forall|j: int| 0 <= j < t1 - from ==> is_ws(v[j]));
            lemma_ws_prefix(v, t1 - from);
        } else {
            assert(t1 == to) by {
                if t1 > to {
                    assert(is_ws(s@[to as int]));
                }
            }
            assert(forall|j: int| 0 <= j < v.len() ==> is_ws(v[j]));
            lemma_ws_prefix(v, v.len() as int);
        }
    }
    if t1 == to {
        proof {
            assert(spec_trim(v) =~= Seq::<u8>::empty());
            assert(s@.subrange(t1 as int, t1 as int) =~= Seq::<u8>::empty());
        }
        return (t1, t1);
    }
    let mut t2: usize = to;
    while t2 > t1 && (s[t2 - 1] == 32 || s[t2 - 1] == 9 || s[t2 - 1] == 13)
        invariant
            from <= t1 <= t2 <= to <= s@.len(),
            forall|k: int| t2 <= k < to ==> is_ws(s@[k]),
        decreases t2,
    {
        t2 = t2 - 1;
    }
    proof {
        assert(!is_ws(s@[t1 as int]));
        assert(t2 > t1) by {
            if t2 == t1 {
                assert(is_ws(s@[t1 as int]));
            }
        }
        assert(!is_ws(s@[t2 - 1]));
        assert(forall|i: int| t2 - from <= i < v.len() ==> is_ws(v[i]));
        assert(!is_ws(v[t2 - from - 1]));
        lemma_ws_suffix(v, t2 - from);
        assert(s@.subrange(t1 as int, t2 as int) =~= v.subrange(
            ws_prefix_len(v),
            v.len() - ws_suffix_len(v),
        ));
    }
    (t1, t2)
}

/// Removes every trailing `dB` pair from `s[from..to]` and returns the new
/// upper bound.
pub fn strip_db_range(s: &[u8], from: usize, to: usize) -> (t: usize)
    requires
        from <= to <= s@.len(),
    ensures
        from <= t <= to,
        s@.subrange(from as int, t as int) == spec_strip_db(s@.subrange(from as int, to as int)),
{
    let mut t: usize = to;
    while t - from >= 2 && s[t - 2] == 100 && s[t - 1] == 66
        invariant
            from <= t <= to <= s@.len(),
            spec_strip_db(s@.subrange(from as int, t as int)) == spec_strip_db(
                s@.subrange(from as int, to as int),
            ),
        decreases t,
    {
        proof {
            let cur = s@.subrange(from as int, t as int);
            assert(cur.take(cur.len() - 2) =~= s@.subrange(from as int, t - 2));
        }
        t = t - 2;
    }
    proof {
        let cur = s@.subrange(from as int, t as int);
        assert(spec_strip_db(cur) == cur);
    }
    t
}

/// Splits a table line into its exactly-two whitespace-separated fields, or
/// reports that the line has some other shape.
pub fn two_fields(s: &[u8]) -> (r: Option<((usize, usize), (usize, usize))>)
    ensures
        r is Some <==> spec_two_fields(s@) is Some,
        r matches Some((f, g)) ==> {
            &&& f.0 <= f.1 <= s@.len()
            &&& g.0 <= g.1 <= s@.len()
            &&& s@.subrange(f.0 as int, f.1 as int) == spec_two_fields(s@).unwrap().0
            &&& s@.subrange(g.0 as int, g.1 as int) == spec_two_fields(s@).unwrap().1
        },
{
    let a = scan_ws(s, 0);
    let b = scan_nonws(s, a);
    let c = scan_ws(s, b);
    let d = scan_nonws(s, c);
    let e = scan_ws(s, d);
    proof {
        assert(s@.skip(0) =~= s@);
        lemma_skip_prefix_ws(s@, 0, a as int);
        lemma_skip_prefix_nonws(s@, a as int, b as int);
        lemma_skip_prefix_ws(s@, b as int, c as int);
        lemma_skip_prefix_nonws(s@, c as int, d as int);
        lemma_skip_prefix_ws(s@, d as int, e as int);
    }
    if a < b && c < d && e == s.len() {
        Some(((a, b), (c, d)))
    } else {
        None
    }
}

proof fn lemma_skip_prefix_ws(s: Seq<u8>, a: int, b: int)
    requires
        0 <= a <= b <= s.len(),
        forall|k: int| a <= k < b ==> is_ws(s[k]),
        b == s.len() || !is_ws(s[b]),
    ensures
        ws_prefix_len(s.skip(a)) == b - a,
{
    assert(forall|j: int| 0 <= j < b - a ==> is_ws(s.skip(a)[j]));
    lemma_ws_prefix(s.skip(a), b - a);
}

proof fn lemma_skip_prefix_nonws(s: Seq<u8>, a: int, b: int)
    requires
        0 <= a <= b <= s.len(),
        forall|k: int| a <= k < b ==> !is_ws(s[k]),
        b == s.len() || is_ws(s[b]),
    ensures
        nonws_prefix_len(s.skip(a)) == b - a,
{
    assert(forall|j: int| 0 <= j < b - a ==> !is_ws(s.skip(a)[j]));
    lemma_nonws_prefix(s.skip(a), b - a);
}

} // verus!
