//! The occurrence scheduler: pure queries over a snapshot of records.
//!
//! Query A (`due_for_announcement`) selects the records whose occurrence in
//! the current year falls inside a symmetric window around "now". Query B
//! (`upcoming`) lists records by their next occurrence, ascending, cycling
//! through the snapshot when more entries are requested than records exist;
//! ties keep the snapshot's original order.

use vstd::prelude::*;

use crate::birthday::Birthday;
use crate::calendar::{instant_bounded, instant_in_range, year_of_instant, year_of_instant_spec};
use crate::model::{records_well_formed, MemberRecord};

verus! {

/// The largest half-window the scheduler accepts: one full year in seconds.
/// A periodic check interval is hours or days; a year bounds every sane use
/// while keeping the window arithmetic inside the instant range.
pub const MAX_HALF_WINDOW_SECS: i64 = 31622400;

/// A record is due at `now` within `half_window` seconds exactly when its
/// occurrence in the current UTC year lies inside
/// `[now - half_window, now + half_window]`, both ends included.
pub open spec fn due_spec(rec: MemberRecord, now: int, half_window: int) -> bool {
    let occ = rec.birthday.occurrence_spec(year_of_instant_spec(now));
    now - half_window <= occ <= now + half_window
}

/// The next occurrence of `b` at or after the current year's occurrence
/// instant: this year's occurrence if it has not yet passed `now`, else the
/// occurrence in the following year.
pub open spec fn next_occurrence_spec(b: Birthday, now: int) -> int {
    let yc = year_of_instant_spec(now);
    if b.occurrence_spec(yc) >= now {
        b.occurrence_spec(yc)
    } else {
        b.occurrence_spec(yc + 1)
    }
}

/// The next-occurrence instant of every record in the snapshot, in snapshot
/// order.
pub open spec fn next_keys(records: Seq<MemberRecord>, now: int) -> Seq<i64> {
    Seq::new(records.len(), |i: int| next_occurrence_spec(records[i].birthday, now) as i64)
}

/// Strict "comes before" order on record positions: earlier next occurrence
/// first, and for equal instants the smaller original position first.
pub open spec fn idx_lt(keys: Seq<i64>, a: usize, b: usize) -> bool {
    keys[a as int] < keys[b as int] || (keys[a as int] == keys[b as int] && a < b)
}

/// Inserts position `x` into the ordered position list `s`, before the first
/// entry that `x` precedes.
pub open spec fn insert_index(keys: Seq<i64>, s: Seq<usize>, x: usize) -> Seq<usize>
    decreases s.len(),
{
    if s.len() == 0 {
        seq![x]
    } else if idx_lt(keys, x, s[0]) {
        seq![x] + s
    } else {
        seq![s[0]] + insert_index(keys, s.drop_first(), x)
    }
}

/// The positions `0..n` ordered by `idx_lt`: an insertion sort, which is the
/// unique stable order of the first `n` records by their keys.
pub open spec fn sorted_order_upto(keys: Seq<i64>, n: int) -> Seq<usize>
    decreases n,
{
    if n <= 0 {
        Seq::empty()
    } else {
        insert_index(keys, sorted_order_upto(keys, n - 1), (n - 1) as usize)
    }
}

/// The order in which `upcoming` walks the snapshot: all positions, sorted
/// by next occurrence with the stable tie-break.
pub open spec fn upcoming_order(records: Seq<MemberRecord>, now: int) -> Seq<usize> {
    sorted_order_upto(next_keys(records, now), records.len() as int)
}

/// Every position in `s` precedes `x` in the record order or is `x` itself;
/// used while the order list is still being built.
pub open spec fn all_below(s: Seq<usize>, bound: int) -> bool {
    forall|j: int| 0 <= j < s.len() ==> (#[trigger] s[j]) < bound
}

/// The position list is strictly sorted by the record order.
pub open spec fn strictly_ordered(keys: Seq<i64>, s: Seq<usize>) -> bool {
    forall|a: int, b: int| 0 <= a < b < s.len() ==> idx_lt(keys, #[trigger] s[a], #[trigger] s[b])
}

/// Inserting a fresh largest position keeps the list a strictly sorted list
/// of exactly the old positions plus the new one.
proof fn lemma_insert_index_props(keys: Seq<i64>, s: Seq<usize>, x: usize)
    requires
        strictly_ordered(keys, s),
        all_below(s, x as int),
    ensures
        insert_index(keys, s, x).len() == s.len() + 1,
        strictly_ordered(keys, insert_index(keys, s, x)),
        forall|e: usize| #[trigger]
            insert_index(keys, s, x).contains(e) <==> (s.contains(e) || e == x),
        all_below(insert_index(keys, s, x), x as int + 1),
    decreases s.len(),
{
    let out = insert_index(keys, s, x);
    if s.len() == 0 {
        assert(out =~= seq![x]);
        assert forall|e: usize| #[trigger] out.contains(e) implies (s.contains(e) || e == x) by {}
        assert(out.contains(x)) by {
            assert(out[0] == x);
        }
    } else if idx_lt(keys, x, s[0]) {
        assert(out =~= seq![x] + s);
        assert forall|a: int, b: int| 0 <= a < b < out.len() implies idx_lt(
            keys,
            out[a],
            out[b],
        ) by {
            if a == 0 {
                assert(s[b - 1] < x);
            }
        }
        assert forall|e: usize| s.contains(e) || e == x implies #[trigger] out.contains(e) by {
            if e == x {
                assert(out[0] == x);
            } else {
                let w = choose|w: int| 0 <= w < s.len() && s[w] == e;
                assert(out[w + 1] == e);
            }
        }
    } else {
        let rest = s.drop_first();
        assert forall|a: int, b: int| 0 <= a < b < rest.len() implies idx_lt(
            keys,
            rest[a],
            rest[b],
        ) by {
            assert(s[a + 1] == rest[a]);
            assert(s[b + 1] == rest[b]);
        }
        lemma_insert_index_props(keys, rest, x);
        let sub = insert_index(keys, rest, x);
        assert(out =~= seq![s[0]] + sub);
        assert forall|a: int, b: int| 0 <= a < b < out.len() implies idx_lt(
            keys,
            out[a],
            out[b],
        ) by {
            if a == 0 {
                let e = out[b];
                assert(sub.contains(e)) by {
                    assert(sub[b - 1] == e);
                }
                if e == x {
                    assert(s[0] < x);
                } else {
                    let w = choose|w: int| 0 <= w < rest.len() && rest[w] == e;
                    assert(s[w + 1] == e);
                }
            } else {
                assert(sub[a - 1] == out[a]);
                assert(sub[b - 1] == out[b]);
            }
        }
        assert forall|e: usize| #[trigger] out.contains(e) implies (s.contains(e) || e == x) by {
            let w = choose|w: int| 0 <= w < out.len() && out[w] == e;
            if w == 0 {
                assert(s[0] == e);
            } else {
                assert(sub[w - 1] == e);
                assert(sub.contains(e));
                if e != x {
                    let v = choose|v: int| 0 <= v < rest.len() && rest[v] == e;
                    assert(s[v + 1] == e);
                }
            }
        }
        assert forall|e: usize| s.contains(e) || e == x implies #[trigger] out.contains(e) by {
            if e == x {
                assert(sub.contains(x));
                let w = choose|w: int| 0 <= w < sub.len() && sub[w] == x;
                assert(out[w + 1] == x);
            } else {
                let w = choose|w: int| 0 <= w < s.len() && s[w] == e;
                if w == 0 {
                    assert(out[0] == e);
                } else {
                    assert(rest[w - 1] == e);
                    assert(sub.contains(e));
                    let v = choose|v: int| 0 <= v < sub.len() && sub[v] == e;
                    assert(out[v + 1] == e);
                }
            }
        }
    }
}

/// The stable order of the first `n` positions is a permutation of `0..n`,
/// strictly sorted by next occurrence with ties in original order.
pub proof fn lemma_sorted_order_props(keys: Seq<i64>, n: int)
    requires
        0 <= n <= usize::MAX,
    ensures
        sorted_order_upto(keys, n).len() == n,
        strictly_ordered(keys, sorted_order_upto(keys, n)),
        all_below(sorted_order_upto(keys, n), n),
        forall|e: usize| 0 <= e < n ==> #[trigger] sorted_order_upto(keys, n).contains(e),
    decreases n,
{
    if n > 0 {
        lemma_sorted_order_props(keys, n - 1);
        let prev = sorted_order_upto(keys, n - 1);
        lemma_insert_index_props(keys, prev, (n - 1) as usize);
        assert forall|e: usize| 0 <= e < n implies #[trigger] sorted_order_upto(
            keys,
            n,
        ).contains(e) by {
            if e < n - 1 {
                assert(prev.contains(e));
            }
        }
    }
}

/// The exec scan finds exactly the spec insertion point.
proof fn lemma_insert_index_at(keys: Seq<i64>, s: Seq<usize>, x: usize, p: int)
    requires
        0 <= p <= s.len(),
        forall|q: int| 0 <= q < p ==> !idx_lt(keys, x, #[trigger] s[q]),
        p < s.len() ==> idx_lt(keys, x, s[p]),
    ensures
        insert_index(keys, s, x) == s.insert(p, x),
    decreases s.len(),
{
    if s.len() == 0 {
        assert(insert_index(keys, s, x) =~= s.insert(0, x));
    } else if idx_lt(keys, x, s[0]) {
        assert(p == 0);
        assert(insert_index(keys, s, x) =~= s.insert(0, x));
    } else {
        let rest = s.drop_first();
        assert(forall|q: int| 0 <= q < p - 1 ==> !idx_lt(keys, x, #[trigger] rest[q]));
        lemma_insert_index_at(keys, rest, x, p - 1);
        assert(insert_index(keys, s, x) =~= s.insert(p, x));
    }
}

/// Executable form of the record order `idx_lt`.
fn idx_before(keys: &Vec<i64>, a: usize, b: usize) -> (r: bool)
    requires
        a < keys@.len(),
        b < keys@.len(),
    ensures
        r == idx_lt(keys@, a, b),
{
    keys[a] < keys[b] || (keys[a] == keys[b] && a < b)
}

/// Stable insertion sort of the positions `0..keys.len()` by `idx_lt`.
fn sort_positions(keys: &Vec<i64>) -> (r: Vec<usize>)
    ensures
        r@ == sorted_order_upto(keys@, keys@.len() as int),
        r@.len() == keys@.len(),
        all_below(r@, keys@.len() as int),
{
    let n = keys.len();
    let mut order: Vec<usize> = Vec::new();
    let mut i: usize = 0;
    while i < n
        invariant
            n == keys@.len(),
            i <= n,
            order@ == sorted_order_upto(keys@, i as int),
            order@.len() == i,
            strictly_ordered(keys@, order@),
            all_below(order@, i as int),
        decreases n - i,
    {
        let mut p: usize = 0;
        while p < order.len() && !idx_before(keys, i, order[p])
            invariant
                n == keys@.len(),
                i < n,
                order@.len() <= n,
                all_below(order@, i as int),
                p <= order@.len(),
                forall|q: int| 0 <= q < p ==> !idx_lt(keys@, i, #[trigger] order@[q]),
            decreases order@.len() - p,
        {
            p = p + 1;
        }
        proof {
            lemma_insert_index_at(keys@, order@, i, p as int);
            lemma_insert_index_props(keys@, order@, i);
        }
        order.insert(p, i);
        i = i + 1;
    }
    order
}

/// The birth instant of every record, in snapshot order.
pub open spec fn birth_keys(records: Seq<MemberRecord>) -> Seq<i64> {
    Seq::new(records.len(), |i: int| records[i].birthday.instant_spec() as i64)
}

/// The snapshot positions in birth-instant order (earliest birth first),
/// ties keeping the snapshot order: the order of a chronologically sorted
/// listing.
pub open spec fn chronological_order(records: Seq<MemberRecord>) -> Seq<usize> {
    sorted_order_upto(birth_keys(records), records.len() as int)
}

/// The records sorted by birth instant ascending (oldest member first),
/// equal instants keeping their snapshot order.
pub fn sorted_by_birth_instant(records: &Vec<MemberRecord>) -> (r: Vec<MemberRecord>)
    requires
        records_well_formed(records@),
    ensures
        r@.len() == records@.len(),
        forall|k: int| 0 <= k < r@.len() ==> #[trigger] r@[k] == records@[chronological_order(
            records@,
        )[k] as int],
{
    let n = records.len();
    let ghost gkeys = birth_keys(records@);
    let mut keys: Vec<i64> = Vec::new();
    let mut i: usize = 0;
    while i < n
        invariant
            records_well_formed(records@),
            n == records@.len(),
            gkeys == birth_keys(records@),
            i <= n,
            keys@.len() == i,
            forall|j: int| 0 <= j < i ==> keys@[j] == gkeys[j],
        decreases n - i,
    {
        keys.push(records[i].birthday.instant_of());
        i = i + 1;
    }
    proof {
        assert(keys@ =~= gkeys);
    }
    let order = sort_positions(&keys);
    let mut r: Vec<MemberRecord> = Vec::new();
    let mut k: usize = 0;
    while k < n
        invariant
            n == records@.len(),
            order@ == chronological_order(records@),
            order@.len() == n,
            all_below(order@, n as int),
            k <= n,
            r@.len() == k,
            forall|k2: int| 0 <= k2 < k ==> #[trigger] r@[k2] == records@[order@[k2] as int],
        decreases n - k,
    {
        let pos = order[k];
        r.push(records[pos]);
        k = k + 1;
    }
    r
}

/// The next occurrence of `b` relative to `now`: this year's occurrence if
/// it is still at or after `now`, otherwise next year's.
pub fn next_occurrence(b: &Birthday, now: i64) -> (r: i64)
    requires
        b.well_formed(),
        year_of_instant_spec(now as int) < 9999,
    ensures
        r == next_occurrence_spec(*b, now as int),
        instant_in_range(r as int),
{
    let yc = year_of_instant(now);
    let occ = b.occurrence_in_year(yc);
    if occ >= now {
        occ
    } else {
        b.occurrence_in_year(yc + 1)
    }
}

/// Query A: the records whose occurrence in the current year lies inside
/// `[now - half_window, now + half_window]`, in snapshot order.
pub fn due_for_announcement(
    now: i64,
    half_window: i64,
    records: &Vec<MemberRecord>,
) -> (r: Vec<MemberRecord>)
    requires
        records_well_formed(records@),
        instant_bounded(now as int),
        0 <= half_window <= MAX_HALF_WINDOW_SECS,
    ensures
        r@ == records@.filter(|rec: MemberRecord| due_spec(rec, now as int, half_window as int)),
{
    let ghost pred = |rec: MemberRecord| due_spec(rec, now as int, half_window as int);
    let year = year_of_instant(now);
    let mut r: Vec<MemberRecord> = Vec::new();
    let mut i: usize = 0;
    proof {
        assert(records@.take(0).filter(pred) =~= Seq::<MemberRecord>::empty());
    }
    while i < records.len()
        invariant
            records_well_formed(records@),
            instant_bounded(now as int),
            0 <= half_window <= MAX_HALF_WINDOW_SECS,
            year == year_of_instant_spec(now as int),
            0 <= year <= 9999,
            i <= records.len(),
            pred == (|rec: MemberRecord| due_spec(rec, now as int, half_window as int)),
            r@ == records@.take(i as int).filter(pred),
        decreases records.len() - i,
    {
        let rec = records[i];
        let occ = rec.birthday.occurrence_in_year(year);
        proof {
            crate::calendar::lemma_days_before_year_bounds(0, 10000);
        }
        if now - half_window <= occ && occ <= now + half_window {
            r.push(rec);
        }
        proof {
            reveal(Seq::filter);
            assert(records@.take(i + 1).drop_last() =~= records@.take(i as int));
            assert(records@.take(i + 1).last() == records@[i as int]);
        }
        i = i + 1;
    }
    proof {
        assert(records@.take(records@.len() as int) =~= records@);
    }
    r
}

/// Query B: `limit` upcoming birthdays, soonest next occurrence first, ties
/// in snapshot order, cycling through the snapshot once it is exhausted
/// (each further pass standing for the year after). An empty snapshot gives
/// an empty sequence regardless of `limit`.
pub fn upcoming(now: i64, records: &Vec<MemberRecord>, limit: usize) -> (r: Vec<MemberRecord>)
    requires
        records_well_formed(records@),
        year_of_instant_spec(now as int) < 9999,
        limit >= 1,
    ensures
        records@.len() == 0 ==> r@.len() == 0,
        records@.len() > 0 ==> r@.len() == limit,
        forall|k: int| 0 <= k < r@.len() ==> #[trigger] r@[k] == records@[upcoming_order(
            records@,
            now as int,
        )[k % records@.len() as int] as int],
{
    let n = records.len();
    let mut r: Vec<MemberRecord> = Vec::new();
    if n == 0 {
        return r;
    }
    let ghost gkeys = next_keys(records@, now as int);

    // Compute every record's next-occurrence instant.
    let mut keys: Vec<i64> = Vec::new();
    let mut i: usize = 0;
    while i < n
        invariant
            records_well_formed(records@),
            year_of_instant_spec(now as int) < 9999,
            n == records@.len(),
            gkeys == next_keys(records@, now as int),
            i <= n,
            keys@.len() == i,
            forall|j: int| 0 <= j < i ==> keys@[j] == gkeys[j],
        decreases n - i,
    {
        keys.push(next_occurrence(&records[i].birthday, now));
        i = i + 1;
    }
    proof {
        assert(keys@ =~= gkeys);
    }

    // Stable insertion sort of the record positions.
    let order = sort_positions(&keys);
    proof {
        lemma_sorted_order_props(gkeys, n as int);
    }

    // Emit `limit` entries, cycling through the sorted positions.
    let ghost ord = upcoming_order(records@, now as int);
    let mut k: usize = 0;
    while k < limit
        invariant
            n == records@.len(),
            0 < n,
            order@ == ord,
            order@.len() == n,
            all_below(order@, n as int),
            k <= limit,
            r@.len() == k,
            forall|k2: int| 0 <= k2 < k ==> #[trigger] r@[k2] == records@[ord[k2 % n as int] as int],
        decreases limit - k,
    {
        let pos = order[k % n];
        r.push(records[pos]);
        k = k + 1;
    }
    r
}

/// The upcoming order is a permutation of the snapshot positions: within any
/// window of `n` consecutive entries, `upcoming` lists every record exactly
/// once.
pub proof fn lemma_upcoming_order_is_permutation(records: Seq<MemberRecord>, now: int)
    requires
        records.len() <= usize::MAX,
    ensures
        upcoming_order(records, now).len() == records.len(),
        all_below(upcoming_order(records, now), records.len() as int),
        forall|e: usize| 0 <= e < records.len() ==> #[trigger] upcoming_order(
            records,
            now,
        ).contains(e),
        strictly_ordered(next_keys(records, now), upcoming_order(records, now)),
{
    lemma_sorted_order_props(next_keys(records, now), records.len() as int);
}

/// Entries of `upcoming` within one pass come in ascending next-occurrence
/// order.
pub proof fn lemma_upcoming_sorted(records: Seq<MemberRecord>, now: int, a: int, b: int)
    requires
        records.len() <= usize::MAX,
        0 <= a < b < records.len(),
    ensures
        ({
            let ord = upcoming_order(records, now);
            let keys = next_keys(records, now);
            keys[ord[a] as int] <= keys[ord[b] as int]
        }),
{
    lemma_sorted_order_props(next_keys(records, now), records.len() as int);
}

/// Records with the same next-occurrence instant keep their original
/// relative order in `upcoming` results: the stable tie-break.
pub proof fn lemma_upcoming_stable_tie_break(records: Seq<MemberRecord>, now: int, a: int, b: int)
    requires
        records.len() <= usize::MAX,
        0 <= a < b < records.len(),
        ({
            let ord = upcoming_order(records, now);
            let keys = next_keys(records, now);
            keys[ord[a] as int] == keys[ord[b] as int]
        }),
    ensures
        upcoming_order(records, now)[a] < upcoming_order(records, now)[b],
{
    lemma_sorted_order_props(next_keys(records, now), records.len() as int);
    let ord = upcoming_order(records, now);
    let keys = next_keys(records, now);
    assert(idx_lt(keys, ord[a], ord[b]));
}

} // verus!
