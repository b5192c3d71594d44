//! Pairing of detected peaks with expected references.
//!
//! Peaks and references are known here only by their position in the caller's
//! lists and by their location on the comparison axis, which may be absent.
//! The pairing is greedy: the nearest free pair is accepted again and again
//! until the nearest one lies beyond the tolerance. It is not the pairing of
//! least total distance, and is not meant to be.

use vstd::prelude::*;
use crate::fixed::{abs_diff, distance};

verus! {

/// Which reference each peak is paired with, and which peak each reference.
pub struct Matching {
    /// For each peak, the reference paired with it.
    pub partner: Seq<Option<usize>>,
    /// For each reference, the peak paired with it.
    pub owner: Seq<Option<usize>>,
}

/// The matching in which nothing is paired.
pub open spec fn empty_matching(peaks: nat, references: nat) -> Matching {
    Matching {
        partner: Seq::new(peaks, |k: int| None::<usize>),
        owner: Seq::new(references, |k: int| None::<usize>),
    }
}

/// Reference `i` and peak `j` are both free and both have a location.
pub open spec fn candidate(
    ploc: Seq<Option<i64>>,
    rloc: Seq<Option<i64>>,
    m: Matching,
    i: int,
    j: int,
) -> bool {
    &&& 0 <= i < rloc.len()
    &&& 0 <= j < ploc.len()
    &&& m.owner[i] is None
    &&& m.partner[j] is None
    &&& rloc[i] is Some
    &&& ploc[j] is Some
}

/// Distance between the locations of reference `i` and peak `j`.
pub open spec fn gap(ploc: Seq<Option<i64>>, rloc: Seq<Option<i64>>, i: int, j: int) -> int {
    distance(ploc[j].unwrap() as int, rloc[i].unwrap() as int)
}

/// `(i, j)` improves on the best pair found so far.
pub open spec fn improves(
    ploc: Seq<Option<i64>>,
    rloc: Seq<Option<i64>>,
    i: int,
    j: int,
    best: Option<(int, int)>,
) -> bool {
    match best {
        None => true,
        Some((bi, bj)) => gap(ploc, rloc, i, j) < gap(ploc, rloc, bi, bj),
    }
}

/// Best pair after reference `i` has been held against the first `n` peaks,
/// starting from `acc`.
pub open spec fn scan_row(
    ploc: Seq<Option<i64>>,
    rloc: Seq<Option<i64>>,
    m: Matching,
    i: int,
    n: int,
    acc: Option<(int, int)>,
) -> Option<(int, int)>
    decreases n,
{
    if n <= 0 {
        acc
    } else {
        let prev = scan_row(ploc, rloc, m, i, n - 1, acc);
        if candidate(ploc, rloc, m, i, n - 1) && improves(ploc, rloc, i, n - 1, prev) {
            Some((i, n - 1))
        } else {
            prev
        }
    }
}

/// Best pair among the first `n` references and all peaks.
pub open spec fn scan_rows(
    ploc: Seq<Option<i64>>,
    rloc: Seq<Option<i64>>,
    m: Matching,
    n: int,
) -> Option<(int, int)>
    decreases n,
{
    if n <= 0 {
        None
    } else {
        scan_row(ploc, rloc, m, n - 1, ploc.len() as int, scan_rows(ploc, rloc, m, n - 1))
    }
}

/// The free pair with the smallest gap; among equals, the one whose
/// reference comes first, then the one whose peak comes first.
pub open spec fn nearest_pair(
    ploc: Seq<Option<i64>>,
    rloc: Seq<Option<i64>>,
    m: Matching,
) -> Option<(int, int)> {
    scan_rows(ploc, rloc, m, rloc.len() as int)
}

/// `m` with reference `i` and peak `j` paired.
pub open spec fn accept(m: Matching, i: int, j: int) -> Matching {
    Matching {
        partner: m.partner.update(j, Some(i as usize)),
        owner: m.owner.update(i, Some(j as usize)),
    }
}

/// One round: the nearest free pair is accepted unless its gap exceeds the
/// tolerance.
pub open spec fn step(
    ploc: Seq<Option<i64>>,
    rloc: Seq<Option<i64>>,
    tolerance: int,
    m: Matching,
) -> Matching {
    match nearest_pair(ploc, rloc, m) {
        Some((i, j)) => if gap(ploc, rloc, i, j) <= tolerance {
            accept(m, i, j)
        } else {
            m
        },
        None => m,
    }
}

/// The matching after `n` rounds.
pub open spec fn rounds(
    ploc: Seq<Option<i64>>,
    rloc: Seq<Option<i64>>,
    tolerance: int,
    n: nat,
) -> Matching
    decreases n,
{
    if n == 0 {
        empty_matching(ploc.len(), rloc.len())
    } else {
        step(ploc, rloc, tolerance, rounds(ploc, rloc, tolerance, (n - 1) as nat))
    }
}

/// The greedy matching: one round for each peak, after which no round can
/// change anything.
pub open spec fn greedy_matching(
    ploc: Seq<Option<i64>>,
    rloc: Seq<Option<i64>>,
    tolerance: int,
) -> Matching {
    rounds(ploc, rloc, tolerance, ploc.len())
}

/// The pair that a search result names.
pub open spec fn found_pair(best: Option<(usize, usize, i128)>) -> Option<(int, int)> {
    match best {
        Some((i, j, d)) => Some((i as int, j as int)),
        None => None,
    }
}

/// The search result names two listed items that have locations, with their gap.
pub open spec fn found_ok(
    ploc: Seq<Option<i64>>,
    rloc: Seq<Option<i64>>,
    best: Option<(usize, usize, i128)>,
) -> bool {
    match best {
        Some((i, j, d)) => {
            &&& i < rloc.len()
            &&& j < ploc.len()
            &&& rloc[i as int] is Some
            &&& ploc[j as int] is Some
            &&& d == gap(ploc, rloc, i as int, j as int)
        },
        None => true,
    }
}

/// Searches all free pairs for the nearest one.
pub fn find_nearest(
    ploc: &Vec<Option<i64>>,
    rloc: &Vec<Option<i64>>,
    partner: &Vec<Option<usize>>,
    owner: &Vec<Option<usize>>,
) -> (best: Option<(usize, usize, i128)>)
    requires
        partner.len() == ploc.len(),
        owner.len() == rloc.len(),
    ensures
        found_pair(best) == nearest_pair(
            ploc@,
            rloc@,
            Matching { partner: partner@, owner: owner@ },
        ),
        found_ok(ploc@, rloc@, best),
{
    let ghost m = Matching { partner: partner@, owner: owner@ };
    let mut best: Option<(usize, usize, i128)> = None;
    let mut i: usize = 0;
    while i < rloc.len()
        invariant
            i <= rloc.len(),
            partner.len() == ploc.len(),
            owner.len() == rloc.len(),
            m == (Matching { partner: partner@, owner: owner@ }),
            found_pair(best) == scan_rows(ploc@, rloc@, m, i as int),
            found_ok(ploc@, rloc@, best),
        decreases rloc.len() - i,
    {
        let ghost start = found_pair(best);
        let mut j: usize = 0;
        while j < ploc.len()
            invariant
                i < rloc.len(),
                j <= ploc.len(),
                partner.len() == ploc.len(),
                owner.len() == rloc.len(),
                m == (Matching { partner: partner@, owner: owner@ }),
                found_pair(best) == scan_row(ploc@, rloc@, m, i as int, j as int, start),
                found_ok(ploc@, rloc@, best),
            decreases ploc.len() - j,
        {
            if owner[i].is_none() && partner[j].is_none() {
                match (rloc[i], ploc[j]) {
                    (Some(expected), Some(found)) => {
                        let d = abs_diff(found, expected);
                        let better = match best {
                            None => true,
                            Some((bi, bj, bd)) => d < bd,
                        };
                        if better {
                            best = Some((i, j, d));
                        }
                    },
                    _ => {},
                }
            }
            j += 1;
        }
        i += 1;
    }
    best
}

/// Pairs peaks with references greedily by nearest location.
///
/// Returns, for each peak, the reference paired with it and, for each
/// reference, the peak paired with it.
pub fn greedy_match(ploc: &Vec<Option<i64>>, rloc: &Vec<Option<i64>>, tolerance: i64) -> (r: (
    Vec<Option<usize>>,
    Vec<Option<usize>>,
))
    ensures
        (Matching { partner: r.0@, owner: r.1@ }) == greedy_matching(
            ploc@,
            rloc@,
            tolerance as int,
        ),
{
    let mut partner: Vec<Option<usize>> = Vec::new();
    let mut k: usize = 0;
    while k < ploc.len()
        invariant
            k <= ploc.len(),
            partner@ =~= Seq::new(k as nat, |k: int| None::<usize>),
        decreases ploc.len() - k,
    {
        partner.push(None);
        k += 1;
    }
    let mut owner: Vec<Option<usize>> = Vec::new();
    let mut k: usize = 0;
    while k < rloc.len()
        invariant
            k <= rloc.len(),
            owner@ =~= Seq::new(k as nat, |k: int| None::<usize>),
        decreases rloc.len() - k,
    {
        owner.push(None);
        k += 1;
    }
    let mut round: usize = 0;
    while round < ploc.len()
        invariant
            round <= ploc.len(),
            partner.len() == ploc.len(),
            owner.len() == rloc.len(),
            (Matching { partner: partner@, owner: owner@ }) == rounds(
                ploc@,
                rloc@,
                tolerance as int,
                round as nat,
            ),
        decreases ploc.len() - round,
    {
        let ghost before = Matching { partner: partner@, owner: owner@ };
        let best = find_nearest(ploc, rloc, &partner, &owner);
        match best {
            Some((i, j, d)) => {
                if d > tolerance as i128 {
                    proof {
                        lemma_rounds_stay(ploc@, rloc@, tolerance as int, round as nat, ploc.len() as nat);
                    }
                    return (partner, owner);
                }
                partner.set(j, Some(i));
                owner.set(i, Some(j));
                assert((Matching { partner: partner@, owner: owner@ }) == accept(before, i as int, j as int));
            },
            None => {
                proof {
                    lemma_rounds_stay(ploc@, rloc@, tolerance as int, round as nat, ploc.len() as nat);
                }
                return (partner, owner);
            },
        }
        round += 1;
    }
    (partner, owner)
}

/// Once a round changes nothing, no later round does.
pub proof fn lemma_rounds_stay(
    ploc: Seq<Option<i64>>,
    rloc: Seq<Option<i64>>,
    tolerance: int,
    n: nat,
    later: nat,
)
    requires
        n <= later,
        step(ploc, rloc, tolerance, rounds(ploc, rloc, tolerance, n)) == rounds(
            ploc,
            rloc,
            tolerance,
            n,
        ),
    ensures
        rounds(ploc, rloc, tolerance, later) == rounds(ploc, rloc, tolerance, n),
    decreases later,
{
    if later > n {
        lemma_rounds_stay(ploc, rloc, tolerance, n, (later - 1) as nat);
    }
}


/// `best` is a free pair with the smallest gap among the free pairs whose
/// reference comes before `row`, or is `row` with a peak before `col`; it is
/// absent when there is no such pair.
pub open spec fn best_so_far(
    ploc: Seq<Option<i64>>,
    rloc: Seq<Option<i64>>,
    m: Matching,
    best: Option<(int, int)>,
    row: int,
    col: int,
) -> bool {
    match best {
        Some((i, j)) => {
            &&& candidate(ploc, rloc, m, i, j)
            &&& forall|i2: int, j2: int|
                #![trigger candidate(ploc, rloc, m, i2, j2)]
                candidate(ploc, rloc, m, i2, j2) && (i2 < row || (i2 == row && j2 < col))
                    ==> gap(ploc, rloc, i, j) <= gap(ploc, rloc, i2, j2)
        },
        None => forall|i2: int, j2: int|
            #![trigger candidate(ploc, rloc, m, i2, j2)]
            candidate(ploc, rloc, m, i2, j2) ==> !(i2 < row || (i2 == row && j2 < col)),
    }
}

proof fn lemma_scan_row(
    ploc: Seq<Option<i64>>,
    rloc: Seq<Option<i64>>,
    m: Matching,
    i: int,
    n: int,
    acc: Option<(int, int)>,
)
    requires
        0 <= n,
        best_so_far(ploc, rloc, m, acc, i, 0),
    ensures
        best_so_far(ploc, rloc, m, scan_row(ploc, rloc, m, i, n, acc), i, n),
    decreases n,
{
    if n > 0 {
        lemma_scan_row(ploc, rloc, m, i, n - 1, acc);
    }
}

proof fn lemma_scan_rows(ploc: Seq<Option<i64>>, rloc: Seq<Option<i64>>, m: Matching, n: int)
    requires
        0 <= n,
    ensures
        best_so_far(ploc, rloc, m, scan_rows(ploc, rloc, m, n), n, 0),
    decreases n,
{
    if n > 0 {
        lemma_scan_rows(ploc, rloc, m, n - 1);
        let acc = scan_rows(ploc, rloc, m, n - 1);
        lemma_scan_row(ploc, rloc, m, n - 1, ploc.len() as int, acc);
    }
}

/// The nearest pair is free and no free pair is nearer; there is none exactly
/// when no pair is free.
pub proof fn lemma_nearest_pair(ploc: Seq<Option<i64>>, rloc: Seq<Option<i64>>, m: Matching)
    ensures
        match nearest_pair(ploc, rloc, m) {
            Some((i, j)) => {
                &&& candidate(ploc, rloc, m, i, j)
                &&& forall|i2: int, j2: int|
                    #![trigger candidate(ploc, rloc, m, i2, j2)]
                    candidate(ploc, rloc, m, i2, j2) ==> gap(ploc, rloc, i, j) <= gap(
                        ploc,
                        rloc,
                        i2,
                        j2,
                    )
            },
            None => forall|i2: int, j2: int|
                #![trigger candidate(ploc, rloc, m, i2, j2)]
                !candidate(ploc, rloc, m, i2, j2),
        },
{
    lemma_scan_rows(ploc, rloc, m, rloc.len() as int);
}

/// Every pairing in `m` is mutual, joins two listed items that have
/// locations, and spans a gap within the tolerance.
pub open spec fn consistent(
    ploc: Seq<Option<i64>>,
    rloc: Seq<Option<i64>>,
    tolerance: int,
    m: Matching,
) -> bool {
    &&& m.partner.len() == ploc.len()
    &&& m.owner.len() == rloc.len()
    &&& forall|j: int|
        0 <= j < ploc.len() ==> match #[trigger] m.partner[j] {
            Some(i) => {
                &&& i < rloc.len()
                &&& m.owner[i as int] == Some(j as usize)
                &&& ploc[j] is Some
                &&& rloc[i as int] is Some
                &&& gap(ploc, rloc, i as int, j) <= tolerance
            },
            None => true,
        }
    &&& forall|i: int|
        0 <= i < rloc.len() ==> match #[trigger] m.owner[i] {
            Some(j) => j < ploc.len() && m.partner[j as int] == Some(i as usize),
            None => true,
        }
}

/// A round keeps a matching consistent.
pub proof fn lemma_step_consistent(
    ploc: Seq<Option<i64>>,
    rloc: Seq<Option<i64>>,
    tolerance: int,
    m: Matching,
)
    requires
        ploc.len() <= usize::MAX,
        rloc.len() <= usize::MAX,
        consistent(ploc, rloc, tolerance, m),
    ensures
        consistent(ploc, rloc, tolerance, step(ploc, rloc, tolerance, m)),
{
    lemma_nearest_pair(ploc, rloc, m);
    match nearest_pair(ploc, rloc, m) {
        Some((i, j)) => {
            assert(candidate(ploc, rloc, m, i, j));
            if gap(ploc, rloc, i, j) <= tolerance {
                let after = accept(m, i, j);
                assert forall|j2: int| 0 <= j2 < ploc.len() implies match #[trigger] after.partner[j2] {
                    Some(i2) => {
                        &&& i2 < rloc.len()
                        &&& after.owner[i2 as int] == Some(j2 as usize)
                        &&& ploc[j2] is Some
                        &&& rloc[i2 as int] is Some
                        &&& gap(ploc, rloc, i2 as int, j2) <= tolerance
                    },
                    None => true,
                } by {
                    if j2 != j {
                        assert(after.partner[j2] == m.partner[j2]);
                    }
                }
                assert forall|i2: int| 0 <= i2 < rloc.len() implies match #[trigger] after.owner[i2] {
                    Some(j2) => j2 < ploc.len() && after.partner[j2 as int] == Some(i2 as usize),
                    None => true,
                } by {
                    if i2 != i {
                        assert(after.owner[i2] == m.owner[i2]);
                    }
                }
            }
        },
        None => {},
    }
}

/// The matching after any number of rounds is consistent.
pub proof fn lemma_rounds_consistent(
    ploc: Seq<Option<i64>>,
    rloc: Seq<Option<i64>>,
    tolerance: int,
    n: nat,
)
    requires
        ploc.len() <= usize::MAX,
        rloc.len() <= usize::MAX,
    ensures
        consistent(ploc, rloc, tolerance, rounds(ploc, rloc, tolerance, n)),
    decreases n,
{
    if n > 0 {
        lemma_rounds_consistent(ploc, rloc, tolerance, (n - 1) as nat);
        lemma_step_consistent(ploc, rloc, tolerance, rounds(ploc, rloc, tolerance, (n - 1) as nat));
    }
}


/// Number of paired peaks among the first `n`.
pub open spec fn paired_count(partner: Seq<Option<usize>>, n: int) -> int
    decreases n,
{
    if n <= 0 {
        0
    } else {
        paired_count(partner, n - 1) + if partner[n - 1] is Some {
            1int
        } else {
            0int
        }
    }
}

proof fn lemma_paired_count_none(len: nat, n: int)
    requires
        0 <= n <= len,
    ensures
        paired_count(Seq::new(len, |k: int| None::<usize>), n) == 0,
    decreases n,
{
    if n > 0 {
        lemma_paired_count_none(len, n - 1);
    }
}

proof fn lemma_paired_count_update(partner: Seq<Option<usize>>, j: int, v: usize, n: int)
    requires
        0 <= j < partner.len(),
        0 <= n <= partner.len(),
        partner[j] is None,
    ensures
        paired_count(partner.update(j, Some(v)), n) == paired_count(partner, n) + if j < n {
            1int
        } else {
            0int
        },
    decreases n,
{
    if n > 0 {
        lemma_paired_count_update(partner, j, v, n - 1);
    }
}

proof fn lemma_paired_count_full(partner: Seq<Option<usize>>, n: int)
    requires
        0 <= n <= partner.len(),
    ensures
        0 <= paired_count(partner, n) <= n,
        paired_count(partner, n) == n ==> forall|k: int| 0 <= k < n ==> partner[k] is Some,
    decreases n,
{
    if n > 0 {
        lemma_paired_count_full(partner, n - 1);
    }
}

proof fn lemma_rounds_progress(
    ploc: Seq<Option<i64>>,
    rloc: Seq<Option<i64>>,
    tolerance: int,
    n: nat,
)
    requires
        ploc.len() <= usize::MAX,
        rloc.len() <= usize::MAX,
    ensures
        ({
            let m = rounds(ploc, rloc, tolerance, n);
            step(ploc, rloc, tolerance, m) == m || paired_count(m.partner, ploc.len() as int) == n
        }),
    decreases n,
{
    if n == 0 {
        lemma_paired_count_none(ploc.len(), ploc.len() as int);
    } else {
        let before = rounds(ploc, rloc, tolerance, (n - 1) as nat);
        lemma_rounds_progress(ploc, rloc, tolerance, (n - 1) as nat);
        lemma_rounds_consistent(ploc, rloc, tolerance, (n - 1) as nat);
        lemma_nearest_pair(ploc, rloc, before);
        if step(ploc, rloc, tolerance, before) != before {
            match nearest_pair(ploc, rloc, before) {
                Some((i, j)) => {
                    assert(candidate(ploc, rloc, before, i, j));
                    lemma_paired_count_update(before.partner, j, i as usize, ploc.len() as int);
                },
                None => {},
            }
        }
    }
}

/// A further round leaves the greedy matching as it is.
pub proof fn lemma_greedy_is_settled(
    ploc: Seq<Option<i64>>,
    rloc: Seq<Option<i64>>,
    tolerance: int,
)
    requires
        ploc.len() <= usize::MAX,
        rloc.len() <= usize::MAX,
    ensures
        step(ploc, rloc, tolerance, greedy_matching(ploc, rloc, tolerance)) == greedy_matching(
            ploc,
            rloc,
            tolerance,
        ),
{
    let m = greedy_matching(ploc, rloc, tolerance);
    lemma_rounds_progress(ploc, rloc, tolerance, ploc.len());
    lemma_rounds_consistent(ploc, rloc, tolerance, ploc.len());
    if step(ploc, rloc, tolerance, m) != m {
        lemma_paired_count_full(m.partner, ploc.len() as int);
        lemma_nearest_pair(ploc, rloc, m);
        match nearest_pair(ploc, rloc, m) {
            Some((i, j)) => {
                assert(candidate(ploc, rloc, m, i, j));
                assert(m.partner[j] is Some);
            },
            None => {},
        }
    }
}

/// The tolerance is the boundary of the greedy matching, on both sides: every
/// accepted pair spans at most the tolerance, and any reference and peak that
/// are both left free and both have a location lie farther apart than the
/// tolerance. So does a reference that is farther than the tolerance from
/// every peak stay unmatched, and one within the tolerance of a peak that
/// nothing else took is matched.
pub proof fn lemma_tolerance_boundary(
    ploc: Seq<Option<i64>>,
    rloc: Seq<Option<i64>>,
    tolerance: int,
)
    requires
        ploc.len() <= usize::MAX,
        rloc.len() <= usize::MAX,
    ensures
        consistent(ploc, rloc, tolerance, greedy_matching(ploc, rloc, tolerance)),
        forall|i: int, j: int|
            #![trigger candidate(ploc, rloc, greedy_matching(ploc, rloc, tolerance), i, j)]
            candidate(ploc, rloc, greedy_matching(ploc, rloc, tolerance), i, j) ==> gap(
                ploc,
                rloc,
                i,
                j,
            ) > tolerance,
{
    let m = greedy_matching(ploc, rloc, tolerance);
    lemma_rounds_consistent(ploc, rloc, tolerance, ploc.len());
    lemma_greedy_is_settled(ploc, rloc, tolerance);
    lemma_nearest_pair(ploc, rloc, m);
    assert forall|i: int, j: int| #![trigger candidate(ploc, rloc, m, i, j)] candidate(ploc, rloc, m, i, j)
    implies gap(ploc, rloc, i, j) > tolerance by {
        match nearest_pair(ploc, rloc, m) {
            Some((bi, bj)) => {
                assert(candidate(ploc, rloc, m, bi, bj));
                if gap(ploc, rloc, bi, bj) <= tolerance {
                    assert(accept(m, bi, bj).partner[bj] is Some);
                    assert(false);
                }
            },
            None => {},
        }
    }
}

} // verus!
