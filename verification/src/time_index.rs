//! Time indices: sorted, duplicate-free sequences of time-index entries.

use vstd::prelude::*;

verus! {

/// A timestamp together with a secondary key that orders events of one
/// timestamp.
#[derive(Clone, Copy, Debug, PartialEq, Eq, Structural)]
pub struct TimeIndexEntry(pub i64, pub usize);

/// The total order of entries: by timestamp, then by secondary key.
pub open spec fn entry_lt(a: TimeIndexEntry, b: TimeIndexEntry) -> bool {
    a.0 < b.0 || (a.0 == b.0 && a.1 < b.1)
}

/// Strictly ascending, hence free of duplicates.
pub open spec fn sorted(s: Seq<TimeIndexEntry>) -> bool {
    forall|i: int, j: int| 0 <= i < j < s.len() ==> entry_lt(#[trigger] s[i], #[trigger] s[j])
}

/// Whether the timestamp of `e` lies in the half-open window `[start, end)`.
pub open spec fn in_window(e: TimeIndexEntry, start: i64, end: i64) -> bool {
    start <= e.0 < end
}

/// The entries of `s` whose timestamp lies in `[start, end)`, in the order of `s`.
pub open spec fn window(s: Seq<TimeIndexEntry>, start: i64, end: i64) -> Seq<TimeIndexEntry> {
    s.filter(|e: TimeIndexEntry| in_window(e, start, end))
}

/// Whether timestamp `t` lies in the bounds `w`: everywhere if there are
/// none, else in the half-open window that they give.
pub open spec fn in_bounds(t: i64, w: Option<(i64, i64)>) -> bool {
    match w {
        None => true,
        Some((start, end)) => start <= t < end,
    }
}

/// The entries of `s` whose timestamp lies in the bounds `w`.
pub open spec fn restrict(s: Seq<TimeIndexEntry>, w: Option<(i64, i64)>) -> Seq<TimeIndexEntry> {
    match w {
        None => s,
        Some((start, end)) => window(s, start, end),
    }
}

/// The bounds `w` narrowed to the window `[start, end)`.
pub open spec fn clamp(w: Option<(i64, i64)>, start: i64, end: i64) -> Option<(i64, i64)> {
    match w {
        None => Some((start, end)),
        Some((s, e)) => Some(
            (
                if s >= start {
                    s
                } else {
                    start
                },
                if e <= end {
                    e
                } else {
                    end
                },
            ),
        ),
    }
}

/// Whether `s` has an entry in `[start, end)`.
pub open spec fn active(s: Seq<TimeIndexEntry>, start: i64, end: i64) -> bool {
    exists|i: int| 0 <= i < s.len() && in_window(#[trigger] s[i], start, end)
}

/// The timestamps of the entries, in order.
pub open spec fn timestamps(s: Seq<TimeIndexEntry>) -> Seq<i64> {
    s.map_values(|e: TimeIndexEntry| e.0)
}

pub open spec fn first_time(s: Seq<TimeIndexEntry>) -> Option<i64> {
    if s.len() == 0 {
        None
    } else {
        Some(s[0].0)
    }
}

pub open spec fn last_time(s: Seq<TimeIndexEntry>) -> Option<i64> {
    if s.len() == 0 {
        None
    } else {
        Some(s[s.len() - 1].0)
    }
}

/// The last entry of `s` at or before the time `t`, if there is one.
pub open spec fn last_upto(s: Seq<TimeIndexEntry>, t: i64) -> Option<TimeIndexEntry>
    decreases s.len(),
{
    if s.len() == 0 {
        None
    } else if s.last().0 <= t {
        Some(s.last())
    } else {
        last_upto(s.drop_last(), t)
    }
}

/// In a sorted sequence, the last entry at or before `t` is the greatest
/// entry at or before `t`.
pub proof fn lemma_last_upto(s: Seq<TimeIndexEntry>, t: i64)
    requires
        sorted(s),
    ensures
        match last_upto(s, t) {
            Some(e) => s.contains(e) && e.0 <= t && forall|x: TimeIndexEntry|
                s.contains(x) && x.0 <= t ==> x == e || entry_lt(x, e),
            None => forall|x: TimeIndexEntry| s.contains(x) ==> x.0 > t,
        },
    decreases s.len(),
{
    if s.len() > 0 {
        let d = s.drop_last();
        if s.last().0 <= t {
            assert(s[s.len() - 1] == s.last());
            assert forall|x: TimeIndexEntry| s.contains(x) && x.0 <= t implies x == s.last()
                || entry_lt(x, s.last()) by {
                let i = choose|i: int| 0 <= i < s.len() && s[i] == x;
                if i < s.len() - 1 {
                    assert(entry_lt(s[i], s[s.len() - 1]));
                }
            }
        } else {
            lemma_last_upto(d, t);
            match last_upto(d, t) {
                Some(e) => {
                    let i = choose|i: int| 0 <= i < d.len() && d[i] == e;
                    assert(s[i] == e);
                    assert forall|x: TimeIndexEntry| s.contains(x) && x.0 <= t implies x == e
                        || entry_lt(x, e) by {
                        let k = choose|k: int| 0 <= k < s.len() && s[k] == x;
                        assert(d[k] == x);
                        assert(d.contains(x));
                    }
                },
                None => {
                    assert forall|x: TimeIndexEntry| s.contains(x) implies x.0 > t by {
                        let k = choose|k: int| 0 <= k < s.len() && s[k] == x;
                        if k < d.len() {
                            assert(d[k] == x);
                            assert(d.contains(x));
                        }
                    }
                },
            }
        }
    }
}

/// The number of leading entries of `s` that are not after `e`: where `e`
/// belongs in a sorted `s`.
pub open spec fn insert_position(s: Seq<TimeIndexEntry>, e: TimeIndexEntry) -> int
    decreases s.len(),
{
    if s.len() == 0 {
        0
    } else if entry_lt(e, s.last()) {
        insert_position(s.drop_last(), e)
    } else {
        s.len() as int
    }
}

/// `s` with `e` put in its place, or `s` itself if it holds `e` already.
pub open spec fn insert_entry(s: Seq<TimeIndexEntry>, e: TimeIndexEntry) -> Seq<TimeIndexEntry> {
    if s.contains(e) {
        s
    } else {
        s.insert(insert_position(s, e), e)
    }
}

/// The index that results from inserting the entries of `input`, first to
/// last, into `s`.
pub open spec fn insert_all(s: Seq<TimeIndexEntry>, input: Seq<TimeIndexEntry>) -> Seq<
    TimeIndexEntry,
>
    decreases input.len(),
{
    if input.len() == 0 {
        s
    } else {
        insert_entry(insert_all(s, input.drop_last()), input.last())
    }
}

pub proof fn lemma_insert_position(s: Seq<TimeIndexEntry>, e: TimeIndexEntry, i: int)
    requires
        0 <= i <= s.len(),
        forall|j: int| i <= j < s.len() ==> entry_lt(e, #[trigger] s[j]),
        i == 0 || !entry_lt(e, s[i - 1]),
    ensures
        insert_position(s, e) == i,
    decreases s.len(),
{
    if s.len() > 0 && i < s.len() {
        lemma_insert_position(s.drop_last(), e, i);
    }
}

/// Inserting into a sorted sequence keeps it sorted, adds exactly `e`, and
/// leaves the entries that were there in their order.
pub proof fn lemma_insert_entry(s: Seq<TimeIndexEntry>, e: TimeIndexEntry)
    requires
        sorted(s),
    ensures
        sorted(insert_entry(s, e)),
        forall|x: TimeIndexEntry| #[trigger]
            insert_entry(s, e).contains(x) <==> (s.contains(x) || x == e),
        insert_entry(s, e).len() == s.len() + (if s.contains(e) {
            0int
        } else {
            1int
        }),
    decreases s.len(),
{
    let r = insert_entry(s, e);
    if !s.contains(e) {
        let k = insert_position(s, e);
        lemma_insert_position_bounds(s, e);
        assert forall|i: int, j: int| 0 <= i < j < r.len() implies entry_lt(
            #[trigger] r[i],
            #[trigger] r[j],
        ) by {
            if i < k && j > k {
                assert(r[i] == s[i]);
                assert(r[j] == s[j - 1]);
            }
        }
        assert forall|x: TimeIndexEntry| #[trigger] r.contains(x) <==> (s.contains(x) || x == e) by {
            if r.contains(x) {
                let i = choose|i: int| 0 <= i < r.len() && r[i] == x;
                if i < k {
                    assert(s[i] == x);
                } else if i > k {
                    assert(s[i - 1] == x);
                }
            }
            if s.contains(x) {
                let i = choose|i: int| 0 <= i < s.len() && s[i] == x;
                if i < k {
                    assert(r[i] == x);
                } else {
                    assert(r[i + 1] == x);
                }
            }
            if x == e {
                assert(r[k] == x);
            }
        }
    }
}

/// In a sorted sequence that lacks `e`, everything before the insert
/// position is before `e` and everything from it on is after `e`.
pub proof fn lemma_insert_position_bounds(s: Seq<TimeIndexEntry>, e: TimeIndexEntry)
    requires
        sorted(s),
    ensures
        0 <= insert_position(s, e) <= s.len(),
        forall|j: int| insert_position(s, e) <= j < s.len() ==> entry_lt(e, #[trigger] s[j]),
        forall|j: int|
            0 <= j < insert_position(s, e) ==> entry_lt(#[trigger] s[j], e) || s[j] == e,
    decreases s.len(),
{
    if s.len() > 0 {
        if entry_lt(e, s.last()) {
            let t = s.drop_last();
            lemma_insert_position_bounds(t, e);
            assert forall|j: int| insert_position(s, e) <= j < s.len() implies entry_lt(
                e,
                #[trigger] s[j],
            ) by {
                if j < s.len() - 1 {
                    assert(t[j] == s[j]);
                }
            }
            assert forall|j: int| 0 <= j < insert_position(s, e) implies entry_lt(
                #[trigger] s[j],
                e,
            ) || s[j] == e by {
                assert(t[j] == s[j]);
            }
        } else {
            assert forall|j: int| 0 <= j < s.len() implies entry_lt(#[trigger] s[j], e) || s[j]
                == e by {
                if j < s.len() - 1 {
                    assert(entry_lt(s[j], s[s.len() - 1]));
                }
            }
        }
    }
}

/// The window of a sorted sequence is sorted and holds exactly the entries
/// whose timestamp is in the window.
pub proof fn lemma_window(s: Seq<TimeIndexEntry>, start: i64, end: i64)
    requires
        sorted(s),
    ensures
        sorted(window(s, start, end)),
        forall|x: TimeIndexEntry| #[trigger]
            window(s, start, end).contains(x) <==> (s.contains(x) && in_window(x, start, end)),
        window(s, start, end).len() <= s.len(),
        (window(s, start, end).len() > 0) == active(s, start, end),
    decreases s.len(),
{
    let p = |e: TimeIndexEntry| in_window(e, start, end);
    let w = window(s, start, end);
    reveal(Seq::filter);
    if s.len() > 0 {
        let t = s.drop_last();
        let wt = window(t, start, end);
        lemma_window(t, start, end);
        assert forall|x: TimeIndexEntry| #[trigger]
            w.contains(x) <==> (s.contains(x) && in_window(x, start, end)) by {
            if w.contains(x) {
                let i = choose|i: int| 0 <= i < w.len() && w[i] == x;
                if i < wt.len() {
                    assert(wt[i] == x);
                    assert(wt.contains(x));
                    let j = choose|j: int| 0 <= j < t.len() && t[j] == x;
                    assert(s[j] == x);
                } else {
                    assert(s[s.len() - 1] == x);
                }
            }
            if s.contains(x) && in_window(x, start, end) {
                let j = choose|j: int| 0 <= j < s.len() && s[j] == x;
                if j < t.len() {
                    assert(t[j] == x);
                    assert(wt.contains(x));
                    let i = choose|i: int| 0 <= i < wt.len() && wt[i] == x;
                    assert(w[i] == x);
                } else {
                    assert(w[w.len() - 1] == x);
                }
            }
        }
        assert forall|i: int, j: int| 0 <= i < j < w.len() implies entry_lt(
            #[trigger] w[i],
            #[trigger] w[j],
        ) by {
            if j < wt.len() {
                assert(wt[i] == w[i] && wt[j] == w[j]);
            } else {
                assert(w[j] == s.last());
                assert(wt[i] == w[i]);
                assert(wt.contains(wt[i]));
                let k = choose|k: int| 0 <= k < t.len() && t[k] == wt[i];
                assert(s[k] == w[i]);
                assert(entry_lt(s[k], s[s.len() - 1]));
            }
        }
        if active(s, start, end) {
            let i = choose|i: int| 0 <= i < s.len() && in_window(#[trigger] s[i], start, end);
            assert(s.contains(s[i]));
            assert(w.contains(s[i]));
        }
        if w.len() > 0 {
            assert(w.contains(w[0]));
            let j = choose|j: int| 0 <= j < s.len() && s[j] == w[0];
            assert(in_window(s[j], start, end));
        }
    }
}

/// In a sorted sequence the times do not descend.
pub proof fn lemma_times_ascend(s: Seq<TimeIndexEntry>)
    requires
        sorted(s),
    ensures
        forall|i: int, j: int| 0 <= i <= j < s.len() ==> (#[trigger] s[i]).0 <= (#[trigger] s[j]).0,
{
    assert forall|i: int, j: int| 0 <= i <= j < s.len() implies (#[trigger] s[i]).0 <= (
    #[trigger] s[j]).0 by {
        if i < j {
            assert(entry_lt(s[i], s[j]));
        }
    }
}

/// Inserting an entry that is not before the first entry keeps the first entry.
pub proof fn lemma_insert_keeps_first(s: Seq<TimeIndexEntry>, e: TimeIndexEntry)
    requires
        sorted(s),
        s.len() > 0,
        s[0] == e || entry_lt(s[0], e),
    ensures
        insert_entry(s, e).len() > 0,
        insert_entry(s, e)[0] == s[0],
{
    if !s.contains(e) {
        lemma_insert_position_bounds(s, e);
        if insert_position(s, e) == 0 {
            assert(entry_lt(e, s[0]));
        }
    }
}

/// The first entry of a sorted sequence has the least timestamp and the last
/// entry the greatest.
pub proof fn lemma_first_last(s: Seq<TimeIndexEntry>)
    requires
        sorted(s),
    ensures
        first_time(s) is Some <==> s.len() > 0,
        last_time(s) is Some <==> s.len() > 0,
        forall|i: int| 0 <= i < s.len() ==> first_time(s)->0 <= (#[trigger] s[i]).0,
        forall|i: int| 0 <= i < s.len() ==> (#[trigger] s[i]).0 <= last_time(s)->0,
        s.len() > 0 ==> s.contains(s[0]) && s.contains(s[s.len() - 1]),
{
    assert forall|i: int| 0 <= i < s.len() implies first_time(s)->0 <= (#[trigger] s[i]).0 by {
        if i > 0 {
            assert(entry_lt(s[0], s[i]));
        }
    }
    assert forall|i: int| 0 <= i < s.len() implies (#[trigger] s[i]).0 <= last_time(s)->0 by {
        if i < s.len() - 1 {
            assert(entry_lt(s[i], s[s.len() - 1]));
        }
    }
}

/// Whatever the order of insertion and however often an entry is repeated,
/// the resulting index is sorted and holds exactly the entries inserted (and
/// those it held before).
pub proof fn lemma_insert_all(s: Seq<TimeIndexEntry>, input: Seq<TimeIndexEntry>)
    requires
        sorted(s),
    ensures
        sorted(insert_all(s, input)),
        forall|x: TimeIndexEntry| #[trigger]
            insert_all(s, input).contains(x) <==> (s.contains(x) || input.contains(x)),
    decreases input.len(),
{
    if input.len() > 0 {
        let rest = input.drop_last();
        lemma_insert_all(s, rest);
        lemma_insert_entry(insert_all(s, rest), input.last());
        assert forall|x: TimeIndexEntry| #[trigger]
            insert_all(s, input).contains(x) <==> (s.contains(x) || input.contains(x)) by {
            if input.contains(x) {
                let i = choose|i: int| 0 <= i < input.len() && input[i] == x;
                if i < rest.len() {
                    assert(rest[i] == x);
                }
            }
            if rest.contains(x) {
                let i = choose|i: int| 0 <= i < rest.len() && rest[i] == x;
                assert(input[i] == x);
            }
            assert(input[input.len() - 1] == input.last());
        }
    }
}

/// After the entries of `input` are inserted into an empty index, in any
/// order and repeated or not, the first and last timestamps are the least
/// and the greatest timestamp inserted, and the window `[start, end)` is
/// ascending and holds exactly the inserted entries with `start <= t < end`.
pub proof fn lemma_time_index_ordering(input: Seq<TimeIndexEntry>, start: i64, end: i64)
    ensures
        ({
            let s = insert_all(Seq::empty(), input);
            &&& sorted(s)
            &&& forall|x: TimeIndexEntry| #[trigger] s.contains(x) <==> input.contains(x)
            &&& first_time(s) is Some <==> input.len() > 0
            &&& last_time(s) is Some <==> input.len() > 0
            &&& forall|i: int|
                0 <= i < input.len() ==> first_time(s)->0 <= (#[trigger] input[i]).0
                    <= last_time(s)->0
            &&& input.len() > 0 ==> exists|i: int, j: int|
                0 <= i < input.len() && 0 <= j < input.len() && (#[trigger] input[i]).0
                    == first_time(s)->0 && (#[trigger] input[j]).0 == last_time(s)->0
            &&& sorted(window(s, start, end))
            &&& forall|x: TimeIndexEntry| #[trigger]
                window(s, start, end).contains(x) <==> (input.contains(x) && start <= x.0 < end)
        }),
{
    let s = insert_all(Seq::empty(), input);
    lemma_insert_all(Seq::empty(), input);
    lemma_first_last(s);
    lemma_window(s, start, end);
    assert forall|x: TimeIndexEntry| #[trigger] s.contains(x) <==> input.contains(x) by {
        assert(!Seq::<TimeIndexEntry>::empty().contains(x));
    }
    if input.len() > 0 {
        assert(input.contains(input[0]));
        assert(s.contains(input[0]));
    }
    if s.len() > 0 {
        assert(s.contains(s[0]));
        assert(input.contains(s[0]));
        assert(s.contains(s[s.len() - 1]));
        let i = choose|i: int| 0 <= i < input.len() && input[i] == s[0];
        let j = choose|j: int| 0 <= j < input.len() && input[j] == s[s.len() - 1];
        assert(input[i].0 == first_time(s)->0 && input[j].0 == last_time(s)->0);
    }
    assert forall|i: int| 0 <= i < input.len() implies first_time(s)->0 <= (#[trigger] input[i]).0
        <= last_time(s)->0 by {
        assert(input.contains(input[i]));
        assert(s.contains(input[i]));
        let k = choose|k: int| 0 <= k < s.len() && s[k] == input[i];
        assert(first_time(s)->0 <= s[k].0 <= last_time(s)->0);
    }
}

/// Whether `t` lies in the bounds `w`.
pub fn within(t: i64, w: Option<(i64, i64)>) -> (r: bool)
    ensures
        r == in_bounds(t, w),
{
    match w {
        None => true,
        Some((start, end)) => start <= t && t < end,
    }
}

/// Narrows the bounds `w` to the window `[start, end)`.
pub fn narrow(w: Option<(i64, i64)>, start: i64, end: i64) -> (r: Option<(i64, i64)>)
    ensures
        r == clamp(w, start, end),
{
    match w {
        None => Some((start, end)),
        Some((s, e)) => Some(
            (
                if s >= start {
                    s
                } else {
                    start
                },
                if e <= end {
                    e
                } else {
                    end
                },
            ),
        ),
    }
}

/// Narrowing twice is narrowing to the intersection, in either order.
pub proof fn lemma_clamp_commutes(w: Option<(i64, i64)>, a: i64, b: i64, c: i64, d: i64)
    ensures
        clamp(clamp(w, a, b), c, d) == clamp(clamp(w, c, d), a, b),
        forall|t: i64|
            in_bounds(t, clamp(w, a, b)) <==> (in_bounds(t, w) && a <= t < b),
{
}

/// The restriction of a sorted sequence is sorted and holds exactly the
/// entries whose time lies in the bounds.
pub proof fn lemma_restrict(s: Seq<TimeIndexEntry>, w: Option<(i64, i64)>)
    requires
        sorted(s),
    ensures
        sorted(restrict(s, w)),
        forall|x: TimeIndexEntry| #[trigger]
            restrict(s, w).contains(x) <==> (s.contains(x) && in_bounds(x.0, w)),
{
    match w {
        None => {},
        Some((start, end)) => {
            lemma_window(s, start, end);
        },
    }
}

/// Restricting to narrowed bounds is taking the window of the restriction.
pub proof fn lemma_restrict_clamp(s: Seq<TimeIndexEntry>, w: Option<(i64, i64)>, a: i64, b: i64)
    requires
        sorted(s),
    ensures
        restrict(s, clamp(w, a, b)) == window(restrict(s, w), a, b),
{
    match w {
        None => {},
        Some((ws, we)) => {
            let (cs, ce) = clamp(w, a, b)->0;
            lemma_window(s, ws, we);
            lemma_window(s, cs, ce);
            lemma_window(window(s, ws, we), a, b);
            lemma_sorted_unique(
                window(s, cs, ce),
                window(window(s, ws, we), a, b),
            );
        },
    }
}

/// Two sorted sequences that hold the same entries are the same sequence.
pub proof fn lemma_sorted_unique(s: Seq<TimeIndexEntry>, t: Seq<TimeIndexEntry>)
    requires
        sorted(s),
        sorted(t),
        forall|x: TimeIndexEntry| s.contains(x) <==> t.contains(x),
    ensures
        s == t,
    decreases s.len(),
{
    if s.len() == 0 {
        if t.len() > 0 {
            assert(t.contains(t[0]));
        }
        assert(s =~= t);
    } else {
        assert(s.contains(s[s.len() - 1]));
        assert(t.len() > 0);
        assert(t.contains(t[t.len() - 1]));
        let sl = s.last();
        let tl = t.last();
        let i = choose|i: int| 0 <= i < t.len() && t[i] == sl;
        let j = choose|j: int| 0 <= j < s.len() && s[j] == tl;
        if i < t.len() - 1 {
            assert(entry_lt(t[i], t[t.len() - 1]));
        }
        if j < s.len() - 1 {
            assert(entry_lt(s[j], s[s.len() - 1]));
        }
        assert(sl == tl);
        let s1 = s.drop_last();
        let t1 = t.drop_last();
        assert forall|x: TimeIndexEntry| s1.contains(x) <==> t1.contains(x) by {
            if s1.contains(x) {
                let k = choose|k: int| 0 <= k < s1.len() && s1[k] == x;
                assert(s[k] == x);
                assert(entry_lt(s[k], s[s.len() - 1]));
                assert(t.contains(x));
                let m = choose|m: int| 0 <= m < t.len() && t[m] == x;
                assert(t1[m] == x);
            }
            if t1.contains(x) {
                let k = choose|k: int| 0 <= k < t1.len() && t1[k] == x;
                assert(t[k] == x);
                assert(entry_lt(t[k], t[t.len() - 1]));
                assert(s.contains(x));
                let m = choose|m: int| 0 <= m < s.len() && s[m] == x;
                assert(s1[m] == x);
            }
        }
        lemma_sorted_unique(s1, t1);
        assert(s =~= s1.push(sl));
        assert(t =~= t1.push(tl));
    }
}

impl TimeIndexEntry {
    pub fn new(t: i64, secondary: usize) -> (r: TimeIndexEntry)
        ensures
            r == TimeIndexEntry(t, secondary),
    {
        TimeIndexEntry(t, secondary)
    }

    /// The timestamp.
    pub fn t(&self) -> (r: i64)
        ensures
            r == self.0,
    {
        self.0
    }

    /// Whether `self` comes strictly before `other`.
    pub fn before(&self, other: &TimeIndexEntry) -> (r: bool)
        ensures
            r == entry_lt(*self, *other),
    {
        self.0 < other.0 || (self.0 == other.0 && self.1 < other.1)
    }
}

/// A sorted, duplicate-free sequence of entries.
#[derive(Debug)]
pub struct TimeIndex {
    entries: Vec<TimeIndexEntry>,
}

impl View for TimeIndex {
    type V = Seq<TimeIndexEntry>;

    closed spec fn view(&self) -> Seq<TimeIndexEntry> {
        self.entries@
    }
}

impl Clone for TimeIndex {
    fn clone(&self) -> (r: TimeIndex)
        ensures
            r@ == self@,
    {
        TimeIndex { entries: self.entries.clone() }
    }
}

impl TimeIndex {
    pub open spec fn wf(&self) -> bool {
        sorted(self@)
    }

    pub fn new() -> (r: TimeIndex)
        ensures
            r@ == Seq::<TimeIndexEntry>::empty(),
            r.wf(),
    {
        TimeIndex { entries: Vec::new() }
    }

    pub fn len(&self) -> (r: usize)
        ensures
            r == self@.len(),
    {
        self.entries.len()
    }

    pub fn is_empty(&self) -> (r: bool)
        ensures
            r == (self@.len() == 0),
    {
        self.entries.len() == 0
    }

    /// The entry at position `i`, if there is one.
    pub fn get(&self, i: usize) -> (r: Option<TimeIndexEntry>)
        ensures
            r == (if i < self@.len() {
                Some(self@[i as int])
            } else {
                None
            }),
    {
        if i < self.entries.len() {
            Some(self.entries[i])
        } else {
            None
        }
    }

    /// Puts `e` in its place in the order. Returns whether the index did not
    /// hold `e` before.
    pub fn insert(&mut self, e: TimeIndexEntry) -> (added: bool)
        requires
            old(self).wf(),
        ensures
            final(self).wf(),
            final(self)@ == insert_entry(old(self)@, e),
            added == !old(self)@.contains(e),
            forall|x: TimeIndexEntry| #[trigger]
                final(self)@.contains(x) <==> (old(self)@.contains(x) || x == e),
            final(self)@.len() == old(self)@.len() + (if added {
                1int
            } else {
                0int
            }),
    {
        let mut i: usize = self.entries.len();
        while i > 0 && e.before(&self.entries[i - 1])
            invariant
                i <= self.entries.len(),
                forall|j: int| i <= j < self.entries.len() ==> entry_lt(e, #[trigger] self.entries@[j]),
            decreases i,
        {
            i -= 1;
        }
        proof {
            lemma_insert_entry(self@, e);
        }
        if i > 0 && self.entries[i - 1] == e {
            assert(self@.contains(e));
            false
        } else {
            proof {
                let s = self@;
                lemma_insert_position(s, e, i as int);
                assert forall|j: int| 0 <= j < s.len() implies s[j] != e by {
                    if j >= i {
                        assert(entry_lt(e, s[j]));
                    } else if j < i - 1 {
                        assert(entry_lt(s[j], s[i - 1]));
                    }
                }
            }
            self.entries.insert(i, e);
            true
        }
    }

    /// Inserts every entry of `other`.
    pub fn merge(&mut self, other: &TimeIndexWindow<'_>)
        requires
            old(self).wf(),
            other.wf(),
        ensures
            final(self).wf(),
            final(self)@ == insert_all(old(self)@, other@),
    {
        let n = other.len();
        let mut j: usize = 0;
        while j < n
            invariant
                j <= n,
                n == other@.len(),
                other.wf(),
                self.wf(),
                self@ == insert_all(old(self)@, other@.take(j as int)),
            decreases n - j,
        {
            proof {
                assert(other@.take(j as int + 1).drop_last() == other@.take(j as int));
            }
            match other.get(j) {
                Some(e) => {
                    self.insert(e);
                },
                None => {},
            }
            j += 1;
        }
        proof {
            assert(other@.take(j as int) == other@);
        }
    }

    /// The number of leading entries whose time is before `t`.
    fn lower_bound(&self, t: i64) -> (r: usize)
        requires
            self.wf(),
        ensures
            r <= self@.len(),
            forall|i: int| 0 <= i < r ==> (#[trigger] self@[i]).0 < t,
            forall|i: int| r <= i < self@.len() ==> (#[trigger] self@[i]).0 >= t,
    {
        let mut lo: usize = 0;
        let mut hi: usize = self.entries.len();
        while lo < hi
            invariant
                lo <= hi <= self.entries.len(),
                self.wf(),
                forall|i: int| 0 <= i < lo ==> (#[trigger] self@[i]).0 < t,
                forall|i: int| hi <= i < self@.len() ==> (#[trigger] self@[i]).0 >= t,
            decreases hi - lo,
        {
            let mid = lo + (hi - lo) / 2;
            proof {
                lemma_times_ascend(self@);
            }
            if self.entries[mid].0 < t {
                lo = mid + 1;
            } else {
                hi = mid;
            }
        }
        lo
    }

    /// The whole index as a window.
    pub fn all(&self) -> (r: TimeIndexWindow<'_>)
        requires
            self.wf(),
        ensures
            r.wf(),
            r@ == self@,
    {
        let r = TimeIndexWindow { index: self, lo: 0, hi: self.entries.len() };
        assert(r@ =~= self@);
        r
    }

    /// The entries in the half-open window `[start, end)`: a view over the
    /// index, not a copy of it.
    pub fn range(&self, start: i64, end: i64) -> (r: TimeIndexWindow<'_>)
        requires
            self.wf(),
        ensures
            r.wf(),
            r@ == window(self@, start, end),
            forall|x: TimeIndexEntry| #[trigger]
                r@.contains(x) <==> (self@.contains(x) && start <= x.0 < end),
    {
        let lo = self.lower_bound(start);
        let upper = self.lower_bound(end);
        let hi = if upper < lo {
            lo
        } else {
            upper
        };
        let r = TimeIndexWindow { index: self, lo, hi };
        proof {
            let s = self@;
            let sub = s.subrange(lo as int, hi as int);
            lemma_window(s, start, end);
            lemma_times_ascend(s);
            assert forall|x: TimeIndexEntry| sub.contains(x) <==> window(s, start, end).contains(
                x,
            ) by {
                if sub.contains(x) {
                    let k = choose|k: int| 0 <= k < sub.len() && sub[k] == x;
                    assert(s[lo + k] == x);
                    assert(s.contains(x));
                }
                if window(s, start, end).contains(x) {
                    let k = choose|k: int| 0 <= k < s.len() && s[k] == x;
                    assert(lo <= k < hi);
                    assert(sub[k - lo] == x);
                }
            }
            lemma_sorted_unique(sub, window(s, start, end));
        }
        r
    }

    /// The entries within the bounds `w`: a view over the index.
    pub fn range_in(&self, w: Option<(i64, i64)>) -> (r: TimeIndexWindow<'_>)
        requires
            self.wf(),
        ensures
            r.wf(),
            r@ == restrict(self@, w),
    {
        match w {
            None => self.all(),
            Some((start, end)) => self.range(start, end),
        }
    }

    /// Whether the index has an entry in `[start, end)`.
    pub fn active(&self, start: i64, end: i64) -> (r: bool)
        ensures
            r == active(self@, start, end),
    {
        let mut i: usize = 0;
        while i < self.entries.len()
            invariant
                i <= self.entries.len(),
                forall|j: int| 0 <= j < i ==> !in_window(#[trigger] self.entries@[j], start, end),
            decreases self.entries.len() - i,
        {
            let e = self.entries[i];
            if start <= e.0 && e.0 < end {
                return true;
            }
            i += 1;
        }
        false
    }

    /// The least timestamp, if the index is not empty.
    pub fn first_t(&self) -> (r: Option<i64>)
        requires
            self.wf(),
        ensures
            r == first_time(self@),
            r is Some <==> self@.len() > 0,
            forall|i: int| 0 <= i < self@.len() ==> r->0 <= (#[trigger] self@[i]).0,
    {
        proof {
            lemma_first_last(self@);
        }
        if self.entries.len() == 0 {
            None
        } else {
            Some(self.entries[0].0)
        }
    }

    /// The greatest timestamp, if the index is not empty.
    pub fn last_t(&self) -> (r: Option<i64>)
        requires
            self.wf(),
        ensures
            r == last_time(self@),
            r is Some <==> self@.len() > 0,
            forall|i: int| 0 <= i < self@.len() ==> (#[trigger] self@[i]).0 <= r->0,
    {
        proof {
            lemma_first_last(self@);
        }
        let n = self.entries.len();
        if n == 0 {
            None
        } else {
            Some(self.entries[n - 1].0)
        }
    }

    fn scan_last(&self, t: i64) -> (r: Option<TimeIndexEntry>)
        ensures
            r == last_upto(self@, t),
    {
        let mut i: usize = self.entries.len();
        assert(self@.take(i as int) == self@);
        while i > 0
            invariant
                i <= self.entries.len(),
                last_upto(self@, t) == last_upto(self@.take(i as int), t),
            decreases i,
        {
            let e = self.entries[i - 1];
            proof {
                let s = self@.take(i as int);
                assert(s.last() == e);
                assert(s.drop_last() == self@.take(i as int - 1));
            }
            if e.0 <= t {
                return Some(e);
            }
            i -= 1;
        }
        None
    }

    /// The last entry at or before the time `t`, if there is one: in a
    /// well-formed index, the greatest entry at or before `t`.
    pub fn last_at(&self, t: i64) -> (r: Option<TimeIndexEntry>)
        ensures
            r == last_upto(self@, t),
            self.wf() ==> match r {
                Some(e) => self@.contains(e) && e.0 <= t && forall|x: TimeIndexEntry|
                    self@.contains(x) && x.0 <= t ==> x == e || entry_lt(x, e),
                None => forall|x: TimeIndexEntry| self@.contains(x) ==> x.0 > t,
            },
    {
        proof {
            if self.wf() {
                lemma_last_upto(self@, t);
            }
        }
        self.scan_last(t)
    }

    /// The timestamps of the entries, ascending.
    pub fn iter_t(&self) -> (r: Vec<i64>)
        ensures
            r@ == timestamps(self@),
    {
        let mut out: Vec<i64> = Vec::new();
        let mut i: usize = 0;
        while i < self.entries.len()
            invariant
                i <= self.entries.len(),
                out@ == timestamps(self.entries@.take(i as int)),
            decreases self.entries.len() - i,
        {
            out.push(self.entries[i].0);
            proof {
                let s = self.entries@;
                assert(s.take(i as int + 1) == s.take(i as int).push(s[i as int]));
            }
            i += 1;
        }
        proof {
            assert(self.entries@.take(i as int) == self.entries@);
        }
        out
    }
}

/// A run of consecutive entries of a time index, held by reference.
#[derive(Clone, Copy, Debug)]
pub struct TimeIndexWindow<'a> {
    index: &'a TimeIndex,
    lo: usize,
    hi: usize,
}

impl<'a> View for TimeIndexWindow<'a> {
    type V = Seq<TimeIndexEntry>;

    closed spec fn view(&self) -> Seq<TimeIndexEntry> {
        self.index@.subrange(self.lo as int, self.hi as int)
    }
}

impl<'a> TimeIndexWindow<'a> {
    pub closed spec fn wf(&self) -> bool {
        self.lo <= self.hi <= self.index@.len() && sorted(self.index@)
    }

    /// The entries of a well-formed window are sorted.
    pub proof fn lemma_sorted(&self)
        requires
            self.wf(),
        ensures
            sorted(self@),
    {
        let s = self.index@;
        let sub = self@;
        assert forall|i: int, j: int| 0 <= i < j < sub.len() implies entry_lt(
            #[trigger] sub[i],
            #[trigger] sub[j],
        ) by {
            assert(entry_lt(s[self.lo + i], s[self.lo + j]));
        }
    }

    pub fn len(&self) -> (r: usize)
        requires
            self.wf(),
        ensures
            r == self@.len(),
    {
        self.hi - self.lo
    }

    pub fn is_empty(&self) -> (r: bool)
        requires
            self.wf(),
        ensures
            r == (self@.len() == 0),
    {
        self.hi == self.lo
    }

    /// The entry at position `i` of the window, if there is one.
    pub fn get(&self, i: usize) -> (r: Option<TimeIndexEntry>)
        requires
            self.wf(),
        ensures
            r == (if i < self@.len() {
                Some(self@[i as int])
            } else {
                None
            }),
    {
        if i < self.hi - self.lo {
            Some(self.index.entries[self.lo + i])
        } else {
            None
        }
    }

    /// The least timestamp, if the window is not empty.
    pub fn first_t(&self) -> (r: Option<i64>)
        requires
            self.wf(),
        ensures
            r == first_time(self@),
            r is Some <==> self@.len() > 0,
            forall|i: int| 0 <= i < self@.len() ==> r->0 <= (#[trigger] self@[i]).0,
    {
        proof {
            self.lemma_sorted();
            lemma_first_last(self@);
        }
        if self.hi == self.lo {
            None
        } else {
            Some(self.index.entries[self.lo].0)
        }
    }

    /// The greatest timestamp, if the window is not empty.
    pub fn last_t(&self) -> (r: Option<i64>)
        requires
            self.wf(),
        ensures
            r == last_time(self@),
            r is Some <==> self@.len() > 0,
            forall|i: int| 0 <= i < self@.len() ==> (#[trigger] self@[i]).0 <= r->0,
    {
        proof {
            self.lemma_sorted();
            lemma_first_last(self@);
        }
        if self.hi == self.lo {
            None
        } else {
            Some(self.index.entries[self.hi - 1].0)
        }
    }

    /// The timestamps of the entries, ascending.
    pub fn iter_t(&self) -> (r: Vec<i64>)
        requires
            self.wf(),
        ensures
            r@ == timestamps(self@),
    {
        let n = self.hi - self.lo;
        let mut out: Vec<i64> = Vec::new();
        let mut i: usize = 0;
        while i < n
            invariant
                i <= n,
                n == self@.len(),
                self.wf(),
                out@ == timestamps(self@.take(i as int)),
            decreases n - i,
        {
            out.push(self.index.entries[self.lo + i].0);
            proof {
                let s = self@;
                assert(s.take(i as int + 1) == s.take(i as int).push(s[i as int]));
            }
            i += 1;
        }
        proof {
            assert(self@.take(i as int) == self@);
        }
        out
    }

    /// A copy of the entries as an index of its own.
    pub fn to_index(&self) -> (r: TimeIndex)
        requires
            self.wf(),
        ensures
            r.wf(),
            r@ == self@,
    {
        let n = self.hi - self.lo;
        let mut out: Vec<TimeIndexEntry> = Vec::new();
        let mut i: usize = 0;
        while i < n
            invariant
                i <= n,
                n == self@.len(),
                self.wf(),
                out@ == self@.take(i as int),
            decreases n - i,
        {
            out.push(self.index.entries[self.lo + i]);
            proof {
                let s = self@;
                assert(s.take(i as int + 1) == s.take(i as int).push(s[i as int]));
            }
            i += 1;
        }
        proof {
            assert(self@.take(i as int) == self@);
            self.lemma_sorted();
        }
        TimeIndex { entries: out }
    }
}

} // verus!
