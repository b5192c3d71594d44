//! The ordered list of what matching found: every peak and every reference
//! once, in order of location. The free peaks, the paired peaks and the free
//! references are each put in order of location and then merged.

use vstd::prelude::*;
use crate::matcher::{greedy_match, greedy_matching, lemma_rounds_consistent, Matching};

verus! {

/// One entry of the merged result, naming peaks and references by their
/// position in the caller's lists.
#[derive(Clone, Copy, Debug, PartialEq, Eq)]
pub enum Slot {
    /// A peak that no reference was paired with.
    Unknown(usize),
    /// A peak and the reference paired with it.
    Located(usize, usize),
    /// A reference that no peak was paired with.
    Missing(usize),
}

/// The entry names a peak below `peaks` and a reference below `references`.
pub open spec fn slot_in_range(slot: Slot, peaks: nat, references: nat) -> bool {
    match slot {
        Slot::Unknown(p) => p < peaks,
        Slot::Located(p, r) => p < peaks && r < references,
        Slot::Missing(r) => r < references,
    }
}

/// Positions below `n`, ascending, whose entry is paired (`paired`) or free.
pub open spec fn positions(flags: Seq<Option<usize>>, paired: bool, n: int) -> Seq<usize>
    decreases n,
{
    if n <= 0 {
        Seq::empty()
    } else if (flags[n - 1] is Some) == paired {
        positions(flags, paired, n - 1).push((n - 1) as usize)
    } else {
        positions(flags, paired, n - 1)
    }
}

/// `a` is at or before `b`; an absent location lies after every present one.
pub open spec fn key_le(a: Option<i64>, b: Option<i64>) -> bool {
    b is None || (a is Some && a.unwrap() <= b.unwrap())
}

/// `a` is strictly before `b`; an absent location lies after every present one.
pub open spec fn key_lt(a: Option<i64>, b: Option<i64>) -> bool {
    a is Some && (b is None || a.unwrap() < b.unwrap())
}

/// `stream` with `x` put in behind every entry that is at or before it.
pub open spec fn placed(stream: Seq<usize>, x: usize, loc: Seq<Option<i64>>) -> Seq<usize>
    decreases stream.len(),
{
    if stream.len() == 0 {
        seq![x]
    } else if key_le(loc[stream.last() as int], loc[x as int]) {
        stream.push(x)
    } else {
        placed(stream.drop_last(), x, loc).push(stream.last())
    }
}

/// The entries of `stream` in order of location; entries at one location
/// keep their order.
pub open spec fn by_location(stream: Seq<usize>, loc: Seq<Option<i64>>) -> Seq<usize>
    decreases stream.len(),
{
    if stream.len() == 0 {
        Seq::empty()
    } else {
        placed(by_location(stream.drop_last(), loc), stream.last(), loc)
    }
}

/// The three streams that the merge draws from, each in order of location.
pub struct Streams {
    /// Peaks left free.
    pub unknown: Seq<usize>,
    /// Paired peaks.
    pub located: Seq<usize>,
    /// References left free.
    pub missing: Seq<usize>,
}

/// The streams of a matching.
pub open spec fn streams_of(m: Matching, ploc: Seq<Option<i64>>, rloc: Seq<Option<i64>>) -> Streams {
    Streams {
        unknown: by_location(positions(m.partner, false, m.partner.len() as int), ploc),
        located: by_location(positions(m.partner, true, m.partner.len() as int), ploc),
        missing: by_location(positions(m.owner, false, m.owner.len() as int), rloc),
    }
}

/// Which stream gives the next entry.
pub enum Turn {
    Unknown,
    Located,
    Missing,
}

/// The stream whose head has the smallest location. On equal locations a
/// paired peak goes before anything else, and a free reference before a free
/// peak. `None` stands for an exhausted stream.
pub open spec fn next_turn(
    unknown: Option<Option<i64>>,
    located: Option<Option<i64>>,
    missing: Option<Option<i64>>,
) -> Turn {
    if located is Some && (unknown is None || key_le(located.unwrap(), unknown.unwrap())) && (
    missing is None || key_le(located.unwrap(), missing.unwrap())) {
        Turn::Located
    } else if unknown is Some && (missing is None || key_lt(unknown.unwrap(), missing.unwrap())) {
        Turn::Unknown
    } else {
        Turn::Missing
    }
}

/// Location of the head of a stream, if the stream is not exhausted.
pub open spec fn head_key(stream: Seq<usize>, at: int, loc: Seq<Option<i64>>) -> Option<
    Option<i64>,
> {
    if 0 <= at < stream.len() {
        Some(loc[stream[at] as int])
    } else {
        None
    }
}

/// The merged entries from the stream positions `u`, `l`, `m` on.
pub open spec fn merge_from(
    ploc: Seq<Option<i64>>,
    rloc: Seq<Option<i64>>,
    partner: Seq<Option<usize>>,
    st: Streams,
    u: int,
    l: int,
    m: int,
) -> Seq<Slot>
    decreases (st.unknown.len() - u) + (st.located.len() - l) + (st.missing.len() - m),
{
    if !(0 <= u <= st.unknown.len() && 0 <= l <= st.located.len() && 0 <= m <= st.missing.len())
        || (u == st.unknown.len() && l == st.located.len() && m == st.missing.len()) {
        Seq::empty()
    } else {
        match next_turn(
            head_key(st.unknown, u, ploc),
            head_key(st.located, l, ploc),
            head_key(st.missing, m, rloc),
        ) {
            Turn::Located => seq![
                Slot::Located(st.located[l], partner[st.located[l] as int].unwrap()),
            ] + merge_from(ploc, rloc, partner, st, u, l + 1, m),
            Turn::Unknown => seq![Slot::Unknown(st.unknown[u])] + merge_from(
                ploc,
                rloc,
                partner,
                st,
                u + 1,
                l,
                m,
            ),
            Turn::Missing => seq![Slot::Missing(st.missing[m])] + merge_from(
                ploc,
                rloc,
                partner,
                st,
                u,
                l,
                m + 1,
            ),
        }
    }
}

/// The components of a sample as positions: the greedy matching, merged by
/// location.
pub open spec fn match_slots(
    ploc: Seq<Option<i64>>,
    rloc: Seq<Option<i64>>,
    tolerance: int,
) -> Seq<Slot> {
    let m = greedy_matching(ploc, rloc, tolerance);
    merge_from(ploc, rloc, m.partner, streams_of(m, ploc, rloc), 0, 0, 0)
}

/// Every entry of the stream is a position below `n` whose flag is as asked.
pub proof fn lemma_positions(flags: Seq<Option<usize>>, paired: bool, n: int)
    requires
        0 <= n <= flags.len(),
        n <= usize::MAX,
    ensures
        positions(flags, paired, n).len() <= n,
        forall|k: int|
            0 <= k < positions(flags, paired, n).len() ==> {
                let e = #[trigger] positions(flags, paired, n)[k];
                e < n && (flags[e as int] is Some) == paired
            },
        forall|a: int, b: int|
            0 <= a < b < positions(flags, paired, n).len() ==> positions(flags, paired, n)[a]
                < positions(flags, paired, n)[b],
    decreases n,
{
    if n > 0 {
        lemma_positions(flags, paired, n - 1);
    }
}

/// What holds of `x` and of every entry of a stream holds of every entry of
/// the stream with `x` put in.
pub proof fn lemma_placed_keeps(
    stream: Seq<usize>,
    x: usize,
    loc: Seq<Option<i64>>,
    holds: spec_fn(usize) -> bool,
)
    requires
        holds(x),
        forall|k: int| 0 <= k < stream.len() ==> holds(#[trigger] stream[k]),
    ensures
        placed(stream, x, loc).len() == stream.len() + 1,
        forall|k: int|
            0 <= k < placed(stream, x, loc).len() ==> holds(#[trigger] placed(stream, x, loc)[k]),
    decreases stream.len(),
{
    if stream.len() > 0 && !key_le(loc[stream.last() as int], loc[x as int]) {
        lemma_placed_keeps(stream.drop_last(), x, loc, holds);
    }
}

/// What holds of every entry of a stream holds of every entry of the stream
/// put in order of location.
pub proof fn lemma_by_location_keeps(
    stream: Seq<usize>,
    loc: Seq<Option<i64>>,
    holds: spec_fn(usize) -> bool,
)
    requires
        forall|k: int| 0 <= k < stream.len() ==> holds(#[trigger] stream[k]),
    ensures
        by_location(stream, loc).len() == stream.len(),
        forall|k: int|
            0 <= k < by_location(stream, loc).len() ==> holds(#[trigger] by_location(stream, loc)[k]),
    decreases stream.len(),
{
    if stream.len() > 0 {
        lemma_by_location_keeps(stream.drop_last(), loc, holds);
        lemma_placed_keeps(by_location(stream.drop_last(), loc), stream.last(), loc, holds);
    }
}

/// The entries of the stream stand in order of location.
pub open spec fn stream_ordered(stream: Seq<usize>, loc: Seq<Option<i64>>) -> bool {
    forall|a: int, b: int|
        0 <= a < b < stream.len() ==> key_le(
            loc[(#[trigger] stream[a]) as int],
            loc[(#[trigger] stream[b]) as int],
        )
}

proof fn lemma_placed_ordered(stream: Seq<usize>, x: usize, loc: Seq<Option<i64>>)
    requires
        stream_ordered(stream, loc),
    ensures
        stream_ordered(placed(stream, x, loc), loc),
    decreases stream.len(),
{
    let out = placed(stream, x, loc);
    if stream.len() == 0 {
    } else if key_le(loc[stream.last() as int], loc[x as int]) {
        assert forall|a: int, b: int| 0 <= a < b < out.len() implies key_le(
            loc[(#[trigger] out[a]) as int],
            loc[(#[trigger] out[b]) as int],
        ) by {
            if b == stream.len() && a < stream.len() - 1 {
                assert(key_le(loc[stream[a] as int], loc[stream[stream.len() - 1] as int]));
            }
        }
    } else {
        let front = stream.drop_last();
        let last = stream.last();
        assert(stream_ordered(front, loc)) by {
            assert forall|a: int, b: int| 0 <= a < b < front.len() implies key_le(
                loc[(#[trigger] front[a]) as int],
                loc[(#[trigger] front[b]) as int],
            ) by {
                assert(key_le(loc[stream[a] as int], loc[stream[b] as int]));
            }
        }
        lemma_placed_ordered(front, x, loc);
        let before = |e: usize| key_le(loc[e as int], loc[last as int]);
        assert forall|k: int| 0 <= k < front.len() implies before(#[trigger] front[k]) by {
            assert(key_le(loc[stream[k] as int], loc[stream[stream.len() - 1] as int]));
        }
        lemma_placed_keeps(front, x, loc, before);
        let inner = placed(front, x, loc);
        assert forall|a: int, b: int| 0 <= a < b < out.len() implies key_le(
            loc[(#[trigger] out[a]) as int],
            loc[(#[trigger] out[b]) as int],
        ) by {
            if b < inner.len() {
                assert(key_le(loc[inner[a] as int], loc[inner[b] as int]));
            } else {
                assert(before(inner[a]));
            }
        }
    }
}

/// A stream put in order of location stands in order of location.
pub proof fn lemma_by_location_ordered(stream: Seq<usize>, loc: Seq<Option<i64>>)
    ensures
        stream_ordered(by_location(stream, loc), loc),
    decreases stream.len(),
{
    if stream.len() > 0 {
        lemma_by_location_ordered(stream.drop_last(), loc);
        lemma_placed_ordered(by_location(stream.drop_last(), loc), stream.last(), loc);
    }
}

proof fn lemma_placed_is_insert(stream: Seq<usize>, x: usize, loc: Seq<Option<i64>>, at: int)
    requires
        0 <= at <= stream.len(),
        at == 0 || key_le(loc[stream[at - 1] as int], loc[x as int]),
        forall|k: int| at <= k < stream.len() ==> !key_le(loc[(#[trigger] stream[k]) as int], loc[x as int]),
    ensures
        placed(stream, x, loc) == stream.insert(at, x),
    decreases stream.len() - at,
{
    if stream.len() == 0 {
        assert(stream.insert(at, x) =~= seq![x]);
    } else if at == stream.len() {
        assert(stream.insert(at, x) =~= stream.push(x));
    } else {
        assert(!key_le(loc[stream[stream.len() - 1] as int], loc[x as int]));
        lemma_placed_is_insert(stream.drop_last(), x, loc, at);
        assert(stream.drop_last().insert(at, x).push(stream.last()) =~= stream.insert(at, x));
    }
}

/// Lists the positions whose entry is paired, or those whose entry is free.
pub fn collect_positions(flags: &Vec<Option<usize>>, paired: bool) -> (r: Vec<usize>)
    ensures
        r@ == positions(flags@, paired, flags.len() as int),
{
    let mut r: Vec<usize> = Vec::new();
    let mut k: usize = 0;
    while k < flags.len()
        invariant
            k <= flags.len(),
            r@ == positions(flags@, paired, k as int),
        decreases flags.len() - k,
    {
        if flags[k].is_some() == paired {
            r.push(k);
        }
        k += 1;
    }
    r
}

/// Compares two locations, an absent one lying after every present one.
pub fn at_or_before(a: Option<i64>, b: Option<i64>) -> (r: bool)
    ensures
        r == key_le(a, b),
        !r == key_lt(b, a),
{
    match b {
        None => true,
        Some(vb) => match a {
            None => false,
            Some(va) => va <= vb,
        },
    }
}

/// Puts the entries of a stream in order of location. Entries at one
/// location keep their order.
pub fn sort_by_location(stream: &Vec<usize>, loc: &Vec<Option<i64>>) -> (r: Vec<usize>)
    requires
        forall|k: int| 0 <= k < stream.len() ==> #[trigger] stream[k] < loc.len(),
    ensures
        r@ == by_location(stream@, loc@),
{
    let mut r: Vec<usize> = Vec::new();
    let mut n: usize = 0;
    while n < stream.len()
        invariant
            n <= stream.len(),
            forall|k: int| 0 <= k < stream.len() ==> #[trigger] stream[k] < loc.len(),
            forall|k: int| 0 <= k < r.len() ==> #[trigger] r[k] < loc.len(),
            r@ == by_location(stream@.take(n as int), loc@),
        decreases stream.len() - n,
    {
        let x = stream[n];
        let mut at: usize = r.len();
        let mut searching = true;
        while searching && at > 0
            invariant
                at <= r.len(),
                x < loc.len(),
                forall|k: int| 0 <= k < r.len() ==> #[trigger] r[k] < loc.len(),
                forall|k: int|
                    at <= k < r.len() ==> !key_le(loc[(#[trigger] r[k]) as int], loc[x as int]),
                !searching ==> at > 0 && key_le(loc[r[at - 1] as int], loc[x as int]),
            decreases at + if searching { 1int } else { 0int },
        {
            if at_or_before(loc[r[at - 1]], loc[x]) {
                searching = false;
            } else {
                at -= 1;
            }
        }
        proof {
            lemma_placed_is_insert(r@, x, loc@, at as int);
            assert(stream@.take(n + 1).drop_last() =~= stream@.take(n as int));
        }
        r.insert(at, x);
        n += 1;
    }
    assert(stream@.take(stream.len() as int) =~= stream@);
    r
}

/// Location of the head of a stream, if the stream is not exhausted.
fn head(stream: &Vec<usize>, at: usize, loc: &Vec<Option<i64>>) -> (r: Option<Option<i64>>)
    requires
        forall|k: int| 0 <= k < stream.len() ==> #[trigger] stream[k] < loc.len(),
    ensures
        r == head_key(stream@, at as int, loc@),
{
    if at < stream.len() {
        Some(loc[stream[at]])
    } else {
        None
    }
}

/// Decides which stream gives the next entry.
pub fn decide_turn(
    unknown: Option<Option<i64>>,
    located: Option<Option<i64>>,
    missing: Option<Option<i64>>,
) -> (t: Turn)
    ensures
        t == next_turn(unknown, located, missing),
{
    let located_first = match located {
        None => false,
        Some(kl) => {
            let before_unknown = match unknown {
                None => true,
                Some(ku) => at_or_before(kl, ku),
            };
            let before_missing = match missing {
                None => true,
                Some(km) => at_or_before(kl, km),
            };
            before_unknown && before_missing
        },
    };
    if located_first {
        return Turn::Located;
    }
    let unknown_first = match unknown {
        None => false,
        Some(ku) => match missing {
            None => true,
            Some(km) => !at_or_before(km, ku),
        },
    };
    if unknown_first {
        Turn::Unknown
    } else {
        Turn::Missing
    }
}

/// Merges three streams into one list, always taking the head with the
/// smallest location.
fn merge_streams(
    ploc: &Vec<Option<i64>>,
    rloc: &Vec<Option<i64>>,
    partner: &Vec<Option<usize>>,
    unknown: &Vec<usize>,
    located: &Vec<usize>,
    missing: &Vec<usize>,
) -> (slots: Vec<Slot>)
    requires
        partner.len() == ploc.len(),
        forall|k: int| 0 <= k < unknown.len() ==> #[trigger] unknown[k] < ploc.len(),
        forall|k: int|
            0 <= k < located.len() ==> #[trigger] located[k] < ploc.len()
                && partner[located[k] as int] is Some
                && partner[located[k] as int].unwrap() < rloc.len(),
        forall|k: int| 0 <= k < missing.len() ==> #[trigger] missing[k] < rloc.len(),
    ensures
        slots@ == merge_from(
            ploc@,
            rloc@,
            partner@,
            Streams { unknown: unknown@, located: located@, missing: missing@ },
            0,
            0,
            0,
        ),
        forall|k: int|
            0 <= k < slots.len() ==> slot_in_range(#[trigger] slots[k], ploc@.len(), rloc@.len()),
{
    let ghost st = Streams { unknown: unknown@, located: located@, missing: missing@ };
    let ghost whole = merge_from(ploc@, rloc@, partner@, st, 0, 0, 0);
    let mut slots: Vec<Slot> = Vec::new();
    let mut u: usize = 0;
    let mut l: usize = 0;
    let mut m: usize = 0;
    while u < unknown.len() || l < located.len() || m < missing.len()
        invariant
            u <= unknown.len(),
            l <= located.len(),
            m <= missing.len(),
            partner.len() == ploc.len(),
            st == (Streams { unknown: unknown@, located: located@, missing: missing@ }),
            forall|k: int| 0 <= k < unknown.len() ==> #[trigger] unknown[k] < ploc.len(),
            forall|k: int|
                0 <= k < located.len() ==> #[trigger] located[k] < ploc.len()
                    && partner[located[k] as int] is Some
                    && partner[located[k] as int].unwrap() < rloc.len(),
            forall|k: int| 0 <= k < missing.len() ==> #[trigger] missing[k] < rloc.len(),
            forall|k: int|
                0 <= k < slots.len() ==> slot_in_range(
                    #[trigger] slots[k],
                    ploc@.len(),
                    rloc@.len(),
                ),
            slots@ + merge_from(ploc@, rloc@, partner@, st, u as int, l as int, m as int)
                == whole,
        decreases (unknown.len() - u) + (located.len() - l) + (missing.len() - m),
    {
        let ghost rest = merge_from(ploc@, rloc@, partner@, st, u as int, l as int, m as int);
        let ghost done = slots@;
        let turn = decide_turn(head(unknown, u, ploc), head(located, l, ploc), head(missing, m, rloc));
        match turn {
            Turn::Located => {
                let peak = located[l];
                let reference = match partner[peak] {
                    Some(i) => i,
                    None => 0,
                };
                slots.push(Slot::Located(peak, reference));
                l += 1;
            },
            Turn::Unknown => {
                slots.push(Slot::Unknown(unknown[u]));
                u += 1;
            },
            Turn::Missing => {
                slots.push(Slot::Missing(missing[m]));
                m += 1;
            },
        }
        proof {
            let next = merge_from(ploc@, rloc@, partner@, st, u as int, l as int, m as int);
            assert(rest == seq![slots@.last()] + next);
            assert(slots@ + next =~= done + (seq![slots@.last()] + next));
        }
    }
    proof {
        assert(slots@ + Seq::<Slot>::empty() =~= slots@);
    }
    slots
}

/// Matches peaks to references by location and lists the outcome in order of
/// location: each peak and each reference by its position in `ploc`, `rloc`.
pub fn match_locations(ploc: &Vec<Option<i64>>, rloc: &Vec<Option<i64>>, tolerance: i64) -> (slots:
    Vec<Slot>)
    ensures
        slots@ == match_slots(ploc@, rloc@, tolerance as int),
        forall|k: int|
            0 <= k < slots.len() ==> slot_in_range(#[trigger] slots[k], ploc@.len(), rloc@.len()),
{
    let (partner, owner) = greedy_match(ploc, rloc, tolerance);
    let free_peaks = collect_positions(&partner, false);
    let paired = collect_positions(&partner, true);
    let free_references = collect_positions(&owner, false);
    proof {
        assert(rloc@.len() == rloc.len());
        lemma_rounds_consistent(ploc@, rloc@, tolerance as int, ploc.len() as nat);
        lemma_positions(partner@, false, partner.len() as int);
        lemma_positions(partner@, true, partner.len() as int);
        lemma_positions(owner@, false, owner.len() as int);
    }
    let unknown = sort_by_location(&free_peaks, ploc);
    let located = sort_by_location(&paired, ploc);
    let missing = sort_by_location(&free_references, rloc);
    proof {
        let fine = |e: usize|
            e < ploc@.len() && partner@[e as int] is Some && partner@[e as int].unwrap()
                < rloc@.len();
        assert forall|k: int| 0 <= k < paired@.len() implies fine(#[trigger] paired@[k]) by {}
        lemma_by_location_keeps(paired@, ploc@, fine);
        assert forall|k: int| 0 <= k < located.len() implies #[trigger] located[k] < ploc.len()
            && partner[located[k] as int] is Some && partner[located[k] as int].unwrap()
            < rloc.len() by {
            assert(fine(located@[k]));
        }
        let a_peak = |e: usize| e < ploc@.len();
        assert forall|k: int| 0 <= k < free_peaks@.len() implies a_peak(
            #[trigger] free_peaks@[k],
        ) by {}
        lemma_by_location_keeps(free_peaks@, ploc@, a_peak);
        assert forall|k: int| 0 <= k < unknown.len() implies #[trigger] unknown[k]
            < ploc.len() by {
            assert(a_peak(unknown@[k]));
        }
        let a_reference = |e: usize| e < rloc@.len();
        assert forall|k: int| 0 <= k < free_references@.len() implies a_reference(
            #[trigger] free_references@[k],
        ) by {}
        lemma_by_location_keeps(free_references@, rloc@, a_reference);
        assert forall|k: int| 0 <= k < missing.len() implies #[trigger] missing[k]
            < rloc.len() by {
            assert(a_reference(missing@[k]));
        }
    }
    merge_streams(ploc, rloc, &partner, &unknown, &located, &missing)
}

/// The entry names peak `j`.
pub open spec fn names_peak(slot: Slot, j: usize) -> bool {
    match slot {
        Slot::Unknown(p) => p == j,
        Slot::Located(p, _) => p == j,
        Slot::Missing(_) => false,
    }
}

/// The entry names reference `i`.
pub open spec fn names_reference(slot: Slot, i: usize) -> bool {
    match slot {
        Slot::Unknown(_) => false,
        Slot::Located(_, r) => r == i,
        Slot::Missing(r) => r == i,
    }
}

/// Number of `true` entries.
pub open spec fn count_true(marks: Seq<bool>) -> nat
    decreases marks.len(),
{
    if marks.len() == 0 {
        0
    } else {
        count_true(marks.drop_last()) + if marks.last() {
            1nat
        } else {
            0nat
        }
    }
}

/// Number of entries of `slots` that name peak `j`.
pub open spec fn peak_mentions(slots: Seq<Slot>, j: usize) -> nat {
    count_true(Seq::new(slots.len(), |k: int| names_peak(slots[k], j)))
}

/// Number of entries of `slots` that name reference `i`.
pub open spec fn reference_mentions(slots: Seq<Slot>, i: usize) -> nat {
    count_true(Seq::new(slots.len(), |k: int| names_reference(slots[k], i)))
}

proof fn lemma_count_concat(a: Seq<bool>, b: Seq<bool>)
    ensures
        count_true(a + b) == count_true(a) + count_true(b),
    decreases b.len(),
{
    if b.len() == 0 {
        assert(a + b =~= a);
    } else {
        assert((a + b).drop_last() =~= a + b.drop_last());
        lemma_count_concat(a, b.drop_last());
    }
}

proof fn lemma_count_single(v: bool)
    ensures
        count_true(seq![v]) == if v {
            1nat
        } else {
            0nat
        },
{
    assert(seq![v].drop_last() =~= Seq::<bool>::empty());
    assert(count_true(seq![v].drop_last()) == 0);
}

/// What is looked for in a stream: the position `target` itself, or the
/// peaks paired with the reference `target`.
struct Probe {
    partner: Seq<Option<usize>>,
    by_partner: bool,
    target: usize,
}

/// The entry `e` of a stream is one that the probe looks for.
spec fn hit(probe: Probe, e: usize) -> bool {
    if probe.by_partner {
        probe.partner[e as int] == Some(probe.target)
    } else {
        e == probe.target
    }
}

/// For each entry of the stream from `from` on, whether the probe looks for it.
spec fn hits(stream: Seq<usize>, from: int, probe: Probe) -> Seq<bool> {
    Seq::new((stream.len() - from) as nat, |k: int| hit(probe, stream[from + k]))
}

proof fn lemma_marks_head(marks: Seq<bool>, rest: Seq<bool>)
    requires
        marks.len() == rest.len() + 1,
        forall|k: int| 0 <= k < rest.len() ==> rest[k] == marks[k + 1],
    ensures
        count_true(marks) == count_true(rest) + if marks[0] {
            1nat
        } else {
            0nat
        },
{
    assert(marks =~= seq![marks[0]] + rest);
    lemma_count_concat(seq![marks[0]], rest);
    lemma_count_single(marks[0]);
}

proof fn lemma_marks_push(marks: Seq<bool>, front: Seq<bool>)
    requires
        marks.len() == front.len() + 1,
        forall|k: int| 0 <= k < front.len() ==> front[k] == marks[k],
    ensures
        count_true(marks) == count_true(front) + if marks.last() {
            1nat
        } else {
            0nat
        },
{
    assert(marks.drop_last() =~= front);
}

proof fn lemma_hits_placed(stream: Seq<usize>, x: usize, loc: Seq<Option<i64>>, probe: Probe)
    ensures
        count_true(hits(placed(stream, x, loc), 0, probe)) == count_true(hits(stream, 0, probe))
            + if hit(probe, x) {
            1nat
        } else {
            0nat
        },
    decreases stream.len(),
{
    let out = placed(stream, x, loc);
    if stream.len() == 0 || key_le(loc[stream.last() as int], loc[x as int]) {
        assert(out =~= stream.push(x));
        lemma_marks_push(hits(out, 0, probe), hits(stream, 0, probe));
    } else {
        let front = stream.drop_last();
        lemma_hits_placed(front, x, loc, probe);
        lemma_placed_keeps(front, x, loc, |e: usize| true);
        lemma_marks_push(hits(out, 0, probe), hits(placed(front, x, loc), 0, probe));
        lemma_marks_push(hits(stream, 0, probe), hits(front, 0, probe));
    }
}

proof fn lemma_hits_by_location(stream: Seq<usize>, loc: Seq<Option<i64>>, probe: Probe)
    ensures
        count_true(hits(by_location(stream, loc), 0, probe)) == count_true(
            hits(stream, 0, probe),
        ),
    decreases stream.len(),
{
    if stream.len() == 0 {
        assert(hits(by_location(stream, loc), 0, probe) =~= hits(stream, 0, probe));
    } else {
        let front = stream.drop_last();
        lemma_hits_by_location(front, loc, probe);
        lemma_hits_placed(by_location(front, loc), stream.last(), loc, probe);
        lemma_marks_push(hits(stream, 0, probe), hits(front, 0, probe));
    }
}

proof fn lemma_merge_mentions(
    ploc: Seq<Option<i64>>,
    rloc: Seq<Option<i64>>,
    partner: Seq<Option<usize>>,
    st: Streams,
    u: int,
    l: int,
    m: int,
    j: usize,
    i: usize,
)
    requires
        0 <= u <= st.unknown.len(),
        0 <= l <= st.located.len(),
        0 <= m <= st.missing.len(),
        forall|k: int|
            0 <= k < st.located.len() ==> 0 <= #[trigger] st.located[k] < partner.len()
                && partner[st.located[k] as int] is Some,
    ensures
        ({
            let slots = merge_from(ploc, rloc, partner, st, u, l, m);
            let peak = Probe { partner, by_partner: false, target: j };
            let reference = Probe { partner, by_partner: false, target: i };
            let paired = Probe { partner, by_partner: true, target: i };
            &&& slots.len() == (st.unknown.len() - u) + (st.located.len() - l) + (st.missing.len()
                - m)
            &&& peak_mentions(slots, j) == count_true(hits(st.unknown, u, peak)) + count_true(
                hits(st.located, l, peak),
            )
            &&& reference_mentions(slots, i) == count_true(hits(st.located, l, paired))
                + count_true(hits(st.missing, m, reference))
        }),
    decreases (st.unknown.len() - u) + (st.located.len() - l) + (st.missing.len() - m),
{
    let slots = merge_from(ploc, rloc, partner, st, u, l, m);
    let peak = Probe { partner, by_partner: false, target: j };
    let reference = Probe { partner, by_partner: false, target: i };
    let paired = Probe { partner, by_partner: true, target: i };
    if u == st.unknown.len() && l == st.located.len() && m == st.missing.len() {
        assert(slots =~= Seq::<Slot>::empty());
        assert(hits(st.unknown, u, peak) =~= Seq::<bool>::empty());
        assert(hits(st.located, l, peak) =~= Seq::<bool>::empty());
        assert(hits(st.missing, m, reference) =~= Seq::<bool>::empty());
        assert(hits(st.located, l, paired) =~= Seq::<bool>::empty());
        assert(Seq::new(slots.len(), |k: int| names_peak(slots[k], j)) =~= Seq::<bool>::empty());
        assert(Seq::new(slots.len(), |k: int| names_reference(slots[k], i)) =~= Seq::<bool>::empty());
    } else {
        let turn = next_turn(
            head_key(st.unknown, u, ploc),
            head_key(st.located, l, ploc),
            head_key(st.missing, m, rloc),
        );
        let (u2, l2, m2) = match turn {
            Turn::Located => (u, l + 1, m),
            Turn::Unknown => (u + 1, l, m),
            Turn::Missing => (u, l, m + 1),
        };
        let rest = merge_from(ploc, rloc, partner, st, u2, l2, m2);
        lemma_merge_mentions(ploc, rloc, partner, st, u2, l2, m2, j, i);
        assert(slots.len() == rest.len() + 1);
        assert(forall|k: int| 0 <= k < rest.len() ==> rest[k] == slots[k + 1]);
        lemma_marks_head(
            Seq::new(slots.len(), |k: int| names_peak(slots[k], j)),
            Seq::new(rest.len(), |k: int| names_peak(rest[k], j)),
        );
        lemma_marks_head(
            Seq::new(slots.len(), |k: int| names_reference(slots[k], i)),
            Seq::new(rest.len(), |k: int| names_reference(rest[k], i)),
        );
        match turn {
            Turn::Located => {
                lemma_marks_head(hits(st.located, l, peak), hits(st.located, l + 1, peak));
                lemma_marks_head(hits(st.located, l, paired), hits(st.located, l + 1, paired));
            },
            Turn::Unknown => {
                lemma_marks_head(hits(st.unknown, u, peak), hits(st.unknown, u + 1, peak));
            },
            Turn::Missing => {
                lemma_marks_head(
                    hits(st.missing, m, reference),
                    hits(st.missing, m + 1, reference),
                );
            },
        }
    }
}

proof fn lemma_positions_hits(flags: Seq<Option<usize>>, paired: bool, n: int, probe: Probe)
    requires
        0 <= n <= flags.len(),
        n <= usize::MAX,
        !probe.by_partner,
    ensures
        count_true(hits(positions(flags, paired, n), 0, probe)) == if probe.target < n && (
        flags[probe.target as int] is Some) == paired {
            1nat
        } else {
            0nat
        },
    decreases n,
{
    let now = positions(flags, paired, n);
    if n == 0 {
        assert(hits(now, 0, probe) =~= Seq::<bool>::empty());
    } else {
        lemma_positions_hits(flags, paired, n - 1, probe);
        let before = positions(flags, paired, n - 1);
        if (flags[n - 1] is Some) == paired {
            lemma_marks_push(hits(now, 0, probe), hits(before, 0, probe));
        }
    }
}

proof fn lemma_positions_partner_hits(
    partner: Seq<Option<usize>>,
    owner: Seq<Option<usize>>,
    n: int,
    probe: Probe,
)
    requires
        0 <= n <= partner.len(),
        n <= usize::MAX,
        probe.by_partner,
        probe.partner == partner,
        probe.target < owner.len(),
        forall|j: int|
            0 <= j < partner.len() && #[trigger] partner[j] == Some(probe.target)
                ==> owner[probe.target as int] == Some(j as usize),
        owner[probe.target as int] is Some ==> owner[probe.target as int].unwrap() < partner.len()
            && partner[owner[probe.target as int].unwrap() as int] == Some(probe.target),
    ensures
        count_true(hits(positions(partner, true, n), 0, probe)) == if owner[probe.target as int] is Some
            && owner[probe.target as int].unwrap() < n {
            1nat
        } else {
            0nat
        },
    decreases n,
{
    let now = positions(partner, true, n);
    if n == 0 {
        assert(hits(now, 0, probe) =~= Seq::<bool>::empty());
    } else {
        lemma_positions_partner_hits(partner, owner, n - 1, probe);
        let before = positions(partner, true, n - 1);
        if partner[n - 1] is Some {
            lemma_marks_push(hits(now, 0, probe), hits(before, 0, probe));
        }
    }
}

/// The merged result is complete: it has one entry for each free peak, each
/// accepted pair and each free reference, and names every peak and every
/// reference exactly once.
pub proof fn lemma_merge_complete(ploc: Seq<Option<i64>>, rloc: Seq<Option<i64>>, tolerance: int)
    requires
        ploc.len() <= usize::MAX,
        rloc.len() <= usize::MAX,
    ensures
        ({
            let st = streams_of(greedy_matching(ploc, rloc, tolerance), ploc, rloc);
            let slots = match_slots(ploc, rloc, tolerance);
            &&& slots.len() == st.unknown.len() + st.located.len() + st.missing.len()
            &&& forall|j: usize| j < ploc.len() ==> #[trigger] peak_mentions(slots, j) == 1
            &&& forall|i: usize| i < rloc.len() ==> #[trigger] reference_mentions(slots, i) == 1
        }),
{
    let m = greedy_matching(ploc, rloc, tolerance);
    let st = streams_of(m, ploc, rloc);
    let slots = match_slots(ploc, rloc, tolerance);
    let paired_peaks = positions(m.partner, true, ploc.len() as int);
    lemma_rounds_consistent(ploc, rloc, tolerance, ploc.len());
    lemma_positions(m.partner, true, ploc.len() as int);
    let fine = |e: usize| e < m.partner.len() && m.partner[e as int] is Some;
    assert forall|k: int| 0 <= k < paired_peaks.len() implies fine(#[trigger] paired_peaks[k]) by {}
    lemma_by_location_keeps(paired_peaks, ploc, fine);
    assert forall|k: int| 0 <= k < st.located.len() implies 0 <= #[trigger] st.located[k]
        < m.partner.len() && m.partner[st.located[k] as int] is Some by {
        assert(fine(st.located[k]));
    }
    lemma_merge_mentions(ploc, rloc, m.partner, st, 0, 0, 0, 0, 0);
    let free_peaks = positions(m.partner, false, ploc.len() as int);
    let free_references = positions(m.owner, false, rloc.len() as int);
    assert forall|j: usize| j < ploc.len() implies #[trigger] peak_mentions(slots, j) == 1 by {
        let peak = Probe { partner: m.partner, by_partner: false, target: j };
        lemma_merge_mentions(ploc, rloc, m.partner, st, 0, 0, 0, j, 0);
        lemma_positions_hits(m.partner, false, ploc.len() as int, peak);
        lemma_positions_hits(m.partner, true, ploc.len() as int, peak);
        lemma_hits_by_location(paired_peaks, ploc, peak);
        lemma_hits_by_location(free_peaks, ploc, peak);
    }
    assert forall|i: usize| i < rloc.len() implies #[trigger] reference_mentions(slots, i) == 1 by {
        let reference = Probe { partner: m.partner, by_partner: false, target: i };
        let paired = Probe { partner: m.partner, by_partner: true, target: i };
        lemma_merge_mentions(ploc, rloc, m.partner, st, 0, 0, 0, 0, i);
        lemma_positions_hits(m.owner, false, rloc.len() as int, reference);
        lemma_positions_partner_hits(m.partner, m.owner, ploc.len() as int, paired);
        lemma_hits_by_location(paired_peaks, ploc, paired);
        lemma_hits_by_location(free_references, rloc, reference);
    }
}

proof fn lemma_merge_in_range_from(
    ploc: Seq<Option<i64>>,
    rloc: Seq<Option<i64>>,
    partner: Seq<Option<usize>>,
    st: Streams,
    u: int,
    l: int,
    m: int,
)
    requires
        0 <= u <= st.unknown.len(),
        0 <= l <= st.located.len(),
        0 <= m <= st.missing.len(),
        forall|k: int| 0 <= k < st.unknown.len() ==> #[trigger] st.unknown[k] < ploc.len(),
        forall|k: int|
            0 <= k < st.located.len() ==> #[trigger] st.located[k] < ploc.len()
                && st.located[k] < partner.len() && partner[st.located[k] as int] is Some
                && partner[st.located[k] as int].unwrap() < rloc.len(),
        forall|k: int| 0 <= k < st.missing.len() ==> #[trigger] st.missing[k] < rloc.len(),
    ensures
        forall|k: int|
            0 <= k < merge_from(ploc, rloc, partner, st, u, l, m).len() ==> slot_in_range(
                #[trigger] merge_from(ploc, rloc, partner, st, u, l, m)[k],
                ploc.len(),
                rloc.len(),
            ),
    decreases (st.unknown.len() - u) + (st.located.len() - l) + (st.missing.len() - m),
{
    let slots = merge_from(ploc, rloc, partner, st, u, l, m);
    if !(u == st.unknown.len() && l == st.located.len() && m == st.missing.len()) {
        let turn = next_turn(
            head_key(st.unknown, u, ploc),
            head_key(st.located, l, ploc),
            head_key(st.missing, m, rloc),
        );
        let (u2, l2, m2) = match turn {
            Turn::Located => (u, l + 1, m),
            Turn::Unknown => (u + 1, l, m),
            Turn::Missing => (u, l, m + 1),
        };
        let rest = merge_from(ploc, rloc, partner, st, u2, l2, m2);
        lemma_merge_in_range_from(ploc, rloc, partner, st, u2, l2, m2);
        assert(slots =~= seq![slots[0]] + rest);
        assert forall|k: int| 0 <= k < slots.len() implies slot_in_range(
            #[trigger] slots[k],
            ploc.len(),
            rloc.len(),
        ) by {
            if k > 0 {
                assert(slots[k] == rest[k - 1]);
            }
        }
    }
}

/// Every entry of the merged result names a listed peak, a listed
/// reference, or one of each.
pub proof fn lemma_slots_in_range(ploc: Seq<Option<i64>>, rloc: Seq<Option<i64>>, tolerance: int)
    requires
        ploc.len() <= usize::MAX,
        rloc.len() <= usize::MAX,
    ensures
        forall|k: int|
            0 <= k < match_slots(ploc, rloc, tolerance).len() ==> slot_in_range(
                #[trigger] match_slots(ploc, rloc, tolerance)[k],
                ploc.len(),
                rloc.len(),
            ),
{
    let m = greedy_matching(ploc, rloc, tolerance);
    let st = streams_of(m, ploc, rloc);
    lemma_rounds_consistent(ploc, rloc, tolerance, ploc.len());
    let free_peaks = positions(m.partner, false, ploc.len() as int);
    let paired_peaks = positions(m.partner, true, ploc.len() as int);
    let free_references = positions(m.owner, false, rloc.len() as int);
    lemma_positions(m.partner, false, ploc.len() as int);
    lemma_positions(m.partner, true, ploc.len() as int);
    lemma_positions(m.owner, false, rloc.len() as int);
    let fine = |e: usize|
        e < ploc.len() && m.partner[e as int] is Some && m.partner[e as int].unwrap() < rloc.len();
    assert forall|k: int| 0 <= k < paired_peaks.len() implies fine(#[trigger] paired_peaks[k]) by {}
    lemma_by_location_keeps(paired_peaks, ploc, fine);
    let a_peak = |e: usize| e < ploc.len();
    assert forall|k: int| 0 <= k < free_peaks.len() implies a_peak(#[trigger] free_peaks[k]) by {}
    lemma_by_location_keeps(free_peaks, ploc, a_peak);
    let a_reference = |e: usize| e < rloc.len();
    assert forall|k: int| 0 <= k < free_references.len() implies a_reference(
        #[trigger] free_references[k],
    ) by {}
    lemma_by_location_keeps(free_references, rloc, a_reference);
    assert forall|k: int| 0 <= k < st.unknown.len() implies #[trigger] st.unknown[k]
        < ploc.len() by {
        assert(a_peak(st.unknown[k]));
    }
    assert forall|k: int| 0 <= k < st.located.len() implies #[trigger] st.located[k] < ploc.len()
        && st.located[k] < m.partner.len() && m.partner[st.located[k] as int] is Some
        && m.partner[st.located[k] as int].unwrap() < rloc.len() by {
        assert(fine(st.located[k]));
    }
    assert forall|k: int| 0 <= k < st.missing.len() implies #[trigger] st.missing[k]
        < rloc.len() by {
        assert(a_reference(st.missing[k]));
    }
    lemma_merge_in_range_from(ploc, rloc, m.partner, st, 0, 0, 0);
}

/// The location by which an entry of the merged result is placed.
pub open spec fn slot_key(slot: Slot, ploc: Seq<Option<i64>>, rloc: Seq<Option<i64>>) -> Option<i64> {
    match slot {
        Slot::Unknown(p) => ploc[p as int],
        Slot::Located(p, _) => ploc[p as int],
        Slot::Missing(r) => rloc[r as int],
    }
}

/// The entries stand in order of location.
pub open spec fn slots_ordered(
    slots: Seq<Slot>,
    ploc: Seq<Option<i64>>,
    rloc: Seq<Option<i64>>,
) -> bool {
    forall|a: int, b: int|
        0 <= a < b < slots.len() ==> key_le(
            slot_key(#[trigger] slots[a], ploc, rloc),
            slot_key(#[trigger] slots[b], ploc, rloc),
        )
}

/// `bound` is at or before the head of the stream, if there is one.
spec fn under_head(bound: Option<i64>, head: Option<Option<i64>>) -> bool {
    match head {
        Some(key) => key_le(bound, key),
        None => true,
    }
}

proof fn lemma_merge_ordered_from(
    ploc: Seq<Option<i64>>,
    rloc: Seq<Option<i64>>,
    partner: Seq<Option<usize>>,
    st: Streams,
    u: int,
    l: int,
    m: int,
    bound: Option<i64>,
)
    requires
        0 <= u <= st.unknown.len(),
        0 <= l <= st.located.len(),
        0 <= m <= st.missing.len(),
        stream_ordered(st.unknown, ploc),
        stream_ordered(st.located, ploc),
        stream_ordered(st.missing, rloc),
        under_head(bound, head_key(st.unknown, u, ploc)),
        under_head(bound, head_key(st.located, l, ploc)),
        under_head(bound, head_key(st.missing, m, rloc)),
    ensures
        slots_ordered(merge_from(ploc, rloc, partner, st, u, l, m), ploc, rloc),
        forall|k: int|
            0 <= k < merge_from(ploc, rloc, partner, st, u, l, m).len() ==> key_le(
                bound,
                slot_key(#[trigger] merge_from(ploc, rloc, partner, st, u, l, m)[k], ploc, rloc),
            ),
    decreases (st.unknown.len() - u) + (st.located.len() - l) + (st.missing.len() - m),
{
    let slots = merge_from(ploc, rloc, partner, st, u, l, m);
    if !(u == st.unknown.len() && l == st.located.len() && m == st.missing.len()) {
        let turn = next_turn(
            head_key(st.unknown, u, ploc),
            head_key(st.located, l, ploc),
            head_key(st.missing, m, rloc),
        );
        let (u2, l2, m2) = match turn {
            Turn::Located => (u, l + 1, m),
            Turn::Unknown => (u + 1, l, m),
            Turn::Missing => (u, l, m + 1),
        };
        let first = slots[0];
        let least = slot_key(first, ploc, rloc);
        let rest = merge_from(ploc, rloc, partner, st, u2, l2, m2);
        if u2 < st.unknown.len() && u2 > u {
            assert(key_le(ploc[st.unknown[u] as int], ploc[st.unknown[u2] as int]));
        }
        if l2 < st.located.len() && l2 > l {
            assert(key_le(ploc[st.located[l] as int], ploc[st.located[l2] as int]));
        }
        if m2 < st.missing.len() && m2 > m {
            assert(key_le(rloc[st.missing[m] as int], rloc[st.missing[m2] as int]));
        }
        lemma_merge_ordered_from(ploc, rloc, partner, st, u2, l2, m2, least);
        assert(slots =~= seq![first] + rest);
        assert forall|k: int| 0 <= k < slots.len() implies key_le(
            bound,
            slot_key(#[trigger] slots[k], ploc, rloc),
        ) by {
            if k > 0 {
                assert(slots[k] == rest[k - 1]);
                assert(key_le(least, slot_key(rest[k - 1], ploc, rloc)));
            }
        }
        assert forall|a: int, b: int| 0 <= a < b < slots.len() implies key_le(
            slot_key(#[trigger] slots[a], ploc, rloc),
            slot_key(#[trigger] slots[b], ploc, rloc),
        ) by {
            assert(slots[b] == rest[b - 1]);
            if a == 0 {
                assert(key_le(least, slot_key(rest[b - 1], ploc, rloc)));
            } else {
                assert(slots[a] == rest[a - 1]);
                assert(key_le(
                    slot_key(rest[a - 1], ploc, rloc),
                    slot_key(rest[b - 1], ploc, rloc),
                ));
            }
        }
    }
}

/// The merged result stands in order of location, an absent location
/// counting as later than every present one.
pub proof fn lemma_merge_ordered(ploc: Seq<Option<i64>>, rloc: Seq<Option<i64>>, tolerance: int)
    ensures
        slots_ordered(match_slots(ploc, rloc, tolerance), ploc, rloc),
{
    let m = greedy_matching(ploc, rloc, tolerance);
    let st = streams_of(m, ploc, rloc);
    lemma_by_location_ordered(positions(m.partner, false, m.partner.len() as int), ploc);
    lemma_by_location_ordered(positions(m.partner, true, m.partner.len() as int), ploc);
    lemma_by_location_ordered(positions(m.owner, false, m.owner.len() as int), rloc);
    let lowest: Option<i64> = Some(i64::MIN);
    lemma_merge_ordered_from(ploc, rloc, m.partner, st, 0, 0, 0, lowest);
}

} // verus!
