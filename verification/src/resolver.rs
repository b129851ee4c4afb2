use vstd::prelude::*;

verus! {

use crate::errors::ResolveError;

// The listing page is scanned for references of the form "/episode/<digits>/":
// the marker "/episode/", one or more decimal digits, then another '/'. Each
// digit group whose value fits in a u32 is a candidate; the latest index is
// the maximum candidate. Digit groups too large for a u32 are silently
// discarded, as is anything that merely resembles a reference.

/// ASCII decimal digit.
pub open spec fn is_digit(b: u8) -> bool {
    48 <= b && b <= 57
}

/// The bytes of the marker "/episode/" stand at position `i`.
pub open spec fn marker_at(s: Seq<u8>, i: int) -> bool {
    &&& 0 <= i
    &&& i + 9 <= s.len()
    &&& s[i] == 47u8
    &&& s[i + 1] == 101u8
    &&& s[i + 2] == 112u8
    &&& s[i + 3] == 105u8
    &&& s[i + 4] == 115u8
    &&& s[i + 5] == 111u8
    &&& s[i + 6] == 100u8
    &&& s[i + 7] == 101u8
    &&& s[i + 8] == 47u8
}

/// Numeric value of a string of ASCII digits, most significant first.
pub open spec fn digits_value(s: Seq<u8>) -> int
    decreases s.len(),
{
    if s.len() == 0 {
        0
    } else {
        digits_value(s.drop_last()) * 10 + (s.last() - 48)
    }
}

/// An index reference starts at `i` and its digit group ends just before `j`:
/// the marker occupies [i, i+9), decimal digits fill [i+9, j) (at least one),
/// and a path separator stands at `j`.
pub open spec fn reference_at(s: Seq<u8>, i: int, j: int) -> bool {
    &&& marker_at(s, i)
    &&& i + 10 <= j
    &&& j < s.len()
    &&& (forall|k: int| i + 9 <= k < j ==> is_digit(#[trigger] s[k]))
    &&& s[j] == 47u8
}

/// `v` is the value of some reference's digit group, and fits in a u32.
pub open spec fn is_candidate(s: Seq<u8>, v: int) -> bool {
    exists|i: int, j: int|
        #[trigger] reference_at(s, i, j)
        && digits_value(s.subrange(i + 9, j)) == v
        && 0 <= v <= u32::MAX
}

/// `v` is a candidate whose reference starts before position `p`.
spec fn candidate_before(s: Seq<u8>, v: int, p: int) -> bool {
    exists|i: int, j: int|
        i < p
        && #[trigger] reference_at(s, i, j)
        && digits_value(s.subrange(i + 9, j)) == v
        && 0 <= v <= u32::MAX
}

/// No reference starting at `i` yields a candidate (none exists, or its
/// digit group overflows a u32).
spec fn no_candidate_at(s: Seq<u8>, i: int) -> bool {
    forall|j: int| #[trigger] reference_at(s, i, j) ==> digits_value(s.subrange(i + 9, j)) > u32::MAX
}

proof fn lemma_digits_nonneg(s: Seq<u8>)
    requires
        forall|i: int| 0 <= i < s.len() ==> is_digit(#[trigger] s[i]),
    ensures
        digits_value(s) >= 0,
    decreases s.len(),
{
    if s.len() > 0 {
        assert(forall|i: int| 0 <= i < s.drop_last().len() ==> is_digit(#[trigger] s.drop_last()[i]));
        lemma_digits_nonneg(s.drop_last());
    }
}

/// The value of a digit string only grows as digits are appended.
proof fn lemma_digits_take_le(s: Seq<u8>, k: int)
    requires
        0 <= k <= s.len(),
        forall|i: int| 0 <= i < s.len() ==> is_digit(#[trigger] s[i]),
    ensures
        digits_value(s.take(k)) <= digits_value(s),
    decreases s.len() - k,
{
    if k == s.len() {
        assert(s.take(k) =~= s);
    } else {
        lemma_digits_take_le(s, k + 1);
        assert(s.take(k + 1).drop_last() =~= s.take(k));
        assert(s.take(k + 1).last() == s[k]);
        assert(forall|i: int| 0 <= i < s.take(k).len() ==> is_digit(#[trigger] s.take(k)[i]));
        lemma_digits_nonneg(s.take(k));
    }
}

/// A reference at a given start position has exactly one digit-group end:
/// digits and the path separator are disjoint.
proof fn lemma_reference_unique(s: Seq<u8>, i: int, j1: int, j2: int)
    requires
        reference_at(s, i, j1),
        reference_at(s, i, j2),
    ensures
        j1 == j2,
{
    if j1 < j2 {
        assert(is_digit(s[j1]));
        assert(s[j1] == 47u8);
    } else if j2 < j1 {
        assert(is_digit(s[j2]));
        assert(s[j2] == 47u8);
    }
}

/// A malformed reference is ignored: anything holding a non-digit between
/// the marker and the separator is no reference at all, so it contributes no
/// candidate, and the maximum is computed from well-formed references alone.
pub proof fn lemma_malformed_reference_ignored(s: Seq<u8>, i: int, j: int, k: int)
    requires
        i + 9 <= k < j,
        0 <= k < s.len(),
        !is_digit(s[k]),
    ensures
        !reference_at(s, i, j),
{
}

proof fn lemma_candidate_before_mono(s: Seq<u8>, v: int, p1: int, p2: int)
    requires
        candidate_before(s, v, p1),
        p1 <= p2,
    ensures
        candidate_before(s, v, p2),
{
    let (i, j) = choose|i: int, j: int|
        i < p1
        && #[trigger] reference_at(s, i, j)
        && digits_value(s.subrange(i + 9, j)) == v
        && 0 <= v <= u32::MAX;
    assert(i < p2
        && reference_at(s, i, j)
        && digits_value(s.subrange(i + 9, j)) == v
        && 0 <= v <= u32::MAX);
}

/// Scanning past a position with no candidate leaves the candidate set as it
/// was.
proof fn lemma_step_no_candidate(s: Seq<u8>, p: int)
    requires
        no_candidate_at(s, p),
    ensures
        forall|w: int| #[trigger] candidate_before(s, w, p + 1) <==> candidate_before(s, w, p),
{
    assert forall|w: int| #[trigger] candidate_before(s, w, p + 1) implies candidate_before(s, w, p) by {
        let (i, j) = choose|i: int, j: int|
            i < p + 1
            && #[trigger] reference_at(s, i, j)
            && digits_value(s.subrange(i + 9, j)) == w
            && 0 <= w <= u32::MAX;
        if i == p {
            assert(digits_value(s.subrange(i + 9, j)) > u32::MAX);
        } else {
            assert(i < p
                && reference_at(s, i, j)
                && digits_value(s.subrange(i + 9, j)) == w
                && 0 <= w <= u32::MAX);
        }
    }
    assert forall|w: int| #[trigger] candidate_before(s, w, p) implies candidate_before(s, w, p + 1) by {
        lemma_candidate_before_mono(s, w, p, p + 1);
    }
}

/// Scanning past a position whose reference yields the candidate `v` adds
/// exactly `v` to the candidate set.
proof fn lemma_step_candidate(s: Seq<u8>, p: int, j: int, v: int)
    requires
        reference_at(s, p, j),
        digits_value(s.subrange(p + 9, j)) == v,
        0 <= v <= u32::MAX,
    ensures
        candidate_before(s, v, p + 1),
        forall|w: int| #[trigger] candidate_before(s, w, p + 1) ==> (candidate_before(s, w, p) || w == v),
        forall|w: int| #[trigger] candidate_before(s, w, p) ==> candidate_before(s, w, p + 1),
{
    assert(p < p + 1
        && reference_at(s, p, j)
        && digits_value(s.subrange(p + 9, j)) == v
        && 0 <= v <= u32::MAX);
    assert forall|w: int| #[trigger] candidate_before(s, w, p + 1) implies (candidate_before(s, w, p)
        || w == v) by {
        let (i, jj) = choose|i: int, jj: int|
            i < p + 1
            && #[trigger] reference_at(s, i, jj)
            && digits_value(s.subrange(i + 9, jj)) == w
            && 0 <= w <= u32::MAX;
        if i == p {
            lemma_reference_unique(s, p, jj, j);
        } else {
            assert(i < p
                && reference_at(s, i, jj)
                && digits_value(s.subrange(i + 9, jj)) == w
                && 0 <= w <= u32::MAX);
        }
    }
    assert forall|w: int| #[trigger] candidate_before(s, w, p) implies candidate_before(s, w, p + 1) by {
        lemma_candidate_before_mono(s, w, p, p + 1);
    }
}

fn is_digit_b(b: u8) -> (r: bool)
    ensures
        r == is_digit(b),
{
    b >= 48 && b <= 57
}

fn has_marker_at(s: &Vec<u8>, i: usize) -> (b: bool)
    requires
        i + 9 <= s@.len(),
    ensures
        b <==> marker_at(s@, i as int),
{
    // Binding the length as a usize bounds `i + 8` for the indexing below.
    let _len: usize = s.len();
    s[i] == 47 && s[i + 1] == 101 && s[i + 2] == 112 && s[i + 3] == 105 && s[i + 4] == 115
        && s[i + 5] == 111 && s[i + 6] == 100 && s[i + 7] == 101 && s[i + 8] == 47
}

/// First position at or after `start` that does not hold a digit.
fn digit_run_end(s: &Vec<u8>, start: usize) -> (j: usize)
    requires
        start <= s@.len(),
    ensures
        start <= j <= s@.len(),
        forall|k: int| start <= k < j ==> is_digit(#[trigger] s@[k]),
        j < s@.len() ==> !is_digit(s@[j as int]),
{
    let n = s.len();
    let mut j: usize = start;
    while j < n && is_digit_b(s[j])
        invariant
            start <= j <= n,
            n == s@.len(),
            forall|k: int| start <= k < j ==> is_digit(#[trigger] s@[k]),
        decreases n - j,
    {
        j = j + 1;
    }
    j
}

/// Parses the digit group [start, end) as a u32; `None` exactly when its
/// value does not fit.
fn parse_digits(s: &Vec<u8>, start: usize, end: usize) -> (r: Option<u32>)
    requires
        start <= end,
        end <= s@.len(),
        forall|k: int| start <= k < end ==> is_digit(#[trigger] s@[k]),
    ensures
        ({
            let d = s@.subrange(start as int, end as int);
            match r {
                Some(v) => v as int == digits_value(d),
                None => digits_value(d) > u32::MAX,
            }
        }),
{
    let ghost d = s@.subrange(start as int, end as int);
    proof {
        assert(forall|t: int| 0 <= t < d.len() ==> is_digit(#[trigger] d[t]));
        assert(d.take(0) =~= Seq::<u8>::empty());
    }
    let mut acc: u32 = 0;
    let mut k: usize = start;
    while k < end
        invariant
            start <= k <= end,
            end <= s@.len(),
            d == s@.subrange(start as int, end as int),
            forall|t: int| start <= t < end ==> is_digit(#[trigger] s@[t]),
            forall|t: int| 0 <= t < d.len() ==> is_digit(#[trigger] d[t]),
            acc as int == digits_value(d.take(k - start)),
        decreases end - k,
    {
        let b = s[k];
        let digit: u32 = (b - 48) as u32;
        proof {
            assert(d[k - start] == s@[k as int]);
            assert(d.take(k - start + 1).drop_last() =~= d.take(k - start));
            assert(d.take(k - start + 1).last() == d[k - start]);
        }
        if acc > 429496729 || (acc == 429496729 && digit > 5) {
            proof {
                assert(digits_value(d.take(k - start + 1)) == acc * 10 + digit);
                lemma_digits_take_le(d, k - start + 1);
            }
            return None;
        }
        acc = acc * 10 + digit;
        k = k + 1;
    }
    proof {
        assert(d.take(k - start) =~= d);
    }
    Some(acc)
}

/// Scans the listing page for index references and returns the largest
/// candidate, or `NotFound` when the page holds none.
pub fn resolve_latest_from(source: &Vec<u8>) -> (r: Result<u32, ResolveError>)
    ensures
        match r {
            Ok(m) => is_candidate(source@, m as int)
                && (forall|v: int| #[trigger] is_candidate(source@, v) ==> v <= m as int),
            Err(e) => e == ResolveError::NotFound
                && (forall|v: int| !(#[trigger] is_candidate(source@, v))),
        },
{
    let ghost s = source@;
    let n = source.len();
    let mut best: Option<u32> = None;
    let mut pos: usize = 0;
    while pos < n
        invariant
            s == source@,
            n == s.len(),
            pos <= n,
            match best {
                Some(m) => candidate_before(s, m as int, pos as int)
                    && (forall|v: int| #[trigger] candidate_before(s, v, pos as int) ==> v <= m as int),
                None => forall|v: int| !(#[trigger] candidate_before(s, v, pos as int)),
            },
        decreases n - pos,
    {
        let ghost p = pos as int;
        // The candidate whose reference starts at `pos`, if there is one.
        let mut found: Option<u32> = None;
        if n - pos >= 10 && has_marker_at(source, pos) {
            let j = digit_run_end(source, pos + 9);
            if j > pos + 9 && j < n && source[j] == 47 {
                proof {
                    assert(reference_at(s, p, j as int));
                }
                match parse_digits(source, pos + 9, j) {
                    Some(v) => {
                        found = Some(v);
                        proof {
                            lemma_digits_nonneg(s.subrange(p + 9, j as int));
                            lemma_step_candidate(s, p, j as int, v as int);
                        }
                    },
                    None => {
                        proof {
                            assert forall|jj: int| #[trigger] reference_at(s, p, jj)
                                implies digits_value(s.subrange(p + 9, jj)) > u32::MAX by {
                                lemma_reference_unique(s, p, jj, j as int);
                            }
                            lemma_step_no_candidate(s, p);
                        }
                    },
                }
            } else {
                proof {
                    // The digit run is empty, unterminated, or not followed
                    // by a path separator: no reference starts here.
                    assert forall|jj: int| !(#[trigger] reference_at(s, p, jj)) by {
                        if reference_at(s, p, jj) {
                            if jj < j as int {
                                assert(is_digit(s[jj]));
                                assert(s[jj] == 47u8);
                            } else if jj > j as int {
                                assert(is_digit(s[j as int]));
                            }
                        }
                    }
                    lemma_step_no_candidate(s, p);
                }
            }
        } else {
            proof {
                // Either too close to the end of the page, or no marker.
                assert forall|jj: int| !(#[trigger] reference_at(s, p, jj)) by {
                    if reference_at(s, p, jj) {
                        assert(marker_at(s, p));
                        assert(p + 10 <= jj && jj < n as int);
                    }
                }
                lemma_step_no_candidate(s, p);
            }
        }
        match found {
            Some(v) => {
                let newbest: u32 = match best {
                    Some(m) => if v > m {
                        v
                    } else {
                        m
                    },
                    None => v,
                };
                proof {
                    if let Some(m) = best {
                        lemma_candidate_before_mono(s, m as int, p, p + 1);
                    }
                    assert(candidate_before(s, newbest as int, p + 1));
                }
                best = Some(newbest);
            },
            None => {
                proof {
                    if let Some(m) = best {
                        lemma_candidate_before_mono(s, m as int, p, p + 1);
                    }
                }
            },
        }
        pos = pos + 1;
    }
    proof {
        assert forall|v: int| #[trigger] is_candidate(s, v) implies candidate_before(s, v, n as int) by {
            let (i, j) = choose|i: int, j: int|
                #[trigger] reference_at(s, i, j)
                && digits_value(s.subrange(i + 9, j)) == v
                && 0 <= v <= u32::MAX;
            assert(i < n as int
                && reference_at(s, i, j)
                && digits_value(s.subrange(i + 9, j)) == v
                && 0 <= v <= u32::MAX);
        }
        assert forall|v: int| #[trigger] candidate_before(s, v, n as int) implies is_candidate(s, v) by {
            let (i, j) = choose|i: int, j: int|
                i < n as int
                && #[trigger] reference_at(s, i, j)
                && digits_value(s.subrange(i + 9, j)) == v
                && 0 <= v <= u32::MAX;
            assert(reference_at(s, i, j)
                && digits_value(s.subrange(i + 9, j)) == v
                && 0 <= v <= u32::MAX);
        }
    }
    match best {
        Some(m) => Ok(m),
        None => Err(ResolveError::NotFound),
    }
}

} // verus!
