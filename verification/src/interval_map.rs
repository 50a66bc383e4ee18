//! A map from a bounded integer domain to labels, stored as a short ordered
//! list of right-open intervals.
//!
//! The domain of an index type `Idx` is `[Idx::floor(), Idx::ceiling())`.
//! An entry `(upper, value)` labels every point from the previous entry's
//! upper bound (or the floor) up to, but not including, `upper`. The last
//! entry always ends at the ceiling, so the entries partition the domain.

use std::ops::Range;
use vstd::prelude::*;

verus! {

/// An integer type whose values can index an interval map.
pub trait Point: Copy + Sized {
    /// The mathematical integer a value stands for.
    spec fn to_int(self) -> int;

    /// The smallest integer of the type.
    spec fn floor() -> int;

    /// The largest integer of the type. It bounds the domain from above and
    /// is itself not part of it.
    spec fn ceiling() -> int;

    proof fn lemma_in_range(self)
        ensures
            Self::floor() <= self.to_int() <= Self::ceiling(),
    ;

    proof fn lemma_domain_nonempty()
        ensures
            Self::floor() < Self::ceiling(),
    ;

    fn min_value() -> (r: Self)
        ensures
            r.to_int() == Self::floor(),
    ;

    fn max_value() -> (r: Self)
        ensures
            r.to_int() == Self::ceiling(),
    ;

    fn less(self, other: Self) -> (r: bool)
        ensures
            r == (self.to_int() < other.to_int()),
    ;

    fn successor(self) -> (r: Self)
        requires
            self.to_int() < Self::ceiling(),
        ensures
            r.to_int() == self.to_int() + 1,
    ;
}

/// A value type whose equality can be decided at run time.
pub trait Label: Copy + Sized {
    fn same(self, other: Self) -> (r: bool)
        ensures
            r == (self == other),
    ;
}

/// The lower end of the interval that entry `i` of `entries` labels.
pub open spec fn lower_bound<Idx: Point, V>(entries: Seq<(Idx, V)>, i: int) -> int {
    if i <= 0 {
        Idx::floor()
    } else {
        entries[i - 1].0.to_int()
    }
}

/// Entry `i` labels at least one point: its upper bound lies strictly above
/// the upper bound of the entry before it, or above the floor if it is the first.
pub open spec fn piece_nonempty<Idx: Point, V>(entries: Seq<(Idx, V)>, i: int) -> bool {
    lower_bound(entries, i) < entries[i].0.to_int()
}

/// Entry `i` carries another label than the entry before it.
pub open spec fn label_changes<Idx: Point, V>(entries: Seq<(Idx, V)>, i: int) -> bool {
    entries[i - 1].1 != entries[i].1
}

/// The upper bounds are strictly increasing, the first one above the floor:
/// every entry labels at least one point.
pub open spec fn increasing<Idx: Point, V>(entries: Seq<(Idx, V)>) -> bool {
    forall|i: int| 0 <= i < entries.len() ==> #[trigger] piece_nonempty(entries, i)
}

/// No two neighbouring entries carry the same label.
pub open spec fn compact<Idx: Point, V>(entries: Seq<(Idx, V)>) -> bool {
    forall|i: int| 0 < i < entries.len() ==> #[trigger] label_changes(entries, i)
}

/// Scanning from entry `i` on: the first entry whose upper bound exceeds
/// `point`, or the last entry if none does.
pub open spec fn scan_from<Idx: Point, V>(entries: Seq<(Idx, V)>, point: int, i: int) -> int
    decreases entries.len() - i,
{
    if i + 1 >= entries.len() || point < entries[i].0.to_int() {
        i
    } else {
        scan_from(entries, point, i + 1)
    }
}

/// The label that `entries` gives to `point`.
pub open spec fn value_at<Idx: Point, V>(entries: Seq<(Idx, V)>, point: int) -> V {
    entries[scan_from(entries, point, 0)].1
}

/// Entry `j` of `entries` carries the label that `f` gives to every point of its interval.
pub open spec fn piece_agrees<Idx: Point, V>(
    entries: Seq<(Idx, V)>,
    j: int,
    f: spec_fn(int) -> V,
) -> bool {
    forall|p: int| lower_bound(entries, j) <= p < entries[j].0.to_int() ==> #[trigger] f(p) == entries[j].1
}

/// Each entry of `entries` agrees with `f` on its interval.
pub open spec fn pieces_agree<Idx: Point, V>(entries: Seq<(Idx, V)>, f: spec_fn(int) -> V) -> bool {
    forall|j: int| 0 <= j < entries.len() ==> #[trigger] piece_agrees(entries, j, f)
}

/// The upper bound of the last entry, or the floor where there is none.
pub open spec fn top<Idx: Point, V>(entries: Seq<(Idx, V)>) -> int {
    lower_bound(entries, entries.len() as int)
}

/// In an increasing list the bounds grow with the index.
pub proof fn lemma_bounds_monotone<Idx: Point, V>(entries: Seq<(Idx, V)>, a: int, b: int)
    requires
        increasing(entries),
        0 <= a <= b < entries.len(),
    ensures
        entries[a].0.to_int() <= entries[b].0.to_int(),
        lower_bound(entries, a) <= lower_bound(entries, b),
    decreases b - a,
{
    if a < b {
        lemma_bounds_monotone(entries, a, b - 1);
        assert(piece_nonempty(entries, a));
        assert(piece_nonempty(entries, b));
    }
}

/// A scan that starts at or before entry `j` stops at `j` when the entries
/// before `j` end at or below `point` and entry `j` ends above it or is the last.
pub proof fn lemma_scan_stops<Idx: Point, V>(entries: Seq<(Idx, V)>, point: int, i: int, j: int)
    requires
        increasing(entries),
        0 <= i <= j < entries.len(),
        i < j ==> lower_bound(entries, j) <= point,
        point < entries[j].0.to_int() || j + 1 == entries.len(),
    ensures
        scan_from(entries, point, i) == j,
    decreases j - i,
{
    if i < j {
        lemma_bounds_monotone(entries, i, j - 1);
        lemma_scan_stops(entries, point, i + 1, j);
    }
}

/// In an increasing list, a point inside the interval of entry `j` gets the label of entry `j`.
pub proof fn lemma_value_in_piece<Idx: Point, V>(entries: Seq<(Idx, V)>, point: int, j: int)
    requires
        increasing(entries),
        0 <= j < entries.len(),
        lower_bound(entries, j) <= point,
        point < entries[j].0.to_int() || j + 1 == entries.len(),
    ensures
        scan_from(entries, point, 0) == j,
        value_at(entries, point) == entries[j].1,
{
    lemma_scan_stops(entries, point, 0, j);
}

/// In an increasing list, every point from the floor up to the last upper
/// bound lies inside the interval of the entry that a scan finds.
pub proof fn lemma_scan_finds_piece<Idx: Point, V>(entries: Seq<(Idx, V)>, point: int, i: int)
    requires
        increasing(entries),
        0 <= i < entries.len(),
        lower_bound(entries, i) <= point < top(entries),
    ensures
        i <= scan_from(entries, point, i) < entries.len(),
        lower_bound(entries, scan_from(entries, point, i)) <= point,
        point < entries[scan_from(entries, point, i)].0.to_int(),
    decreases entries.len() - i,
{
    if i + 1 >= entries.len() || point < entries[i].0.to_int() {
    } else {
        lemma_scan_finds_piece(entries, point, i + 1);
    }
}

/// An increasing list whose entries agree with `f` labels every point below
/// its last upper bound as `f` does.
pub proof fn lemma_agreement<Idx: Point, V>(entries: Seq<(Idx, V)>, f: spec_fn(int) -> V, point: int)
    requires
        increasing(entries),
        pieces_agree(entries, f),
        Idx::floor() <= point < top(entries),
    ensures
        value_at(entries, point) == f(point),
{
    if entries.len() > 0 {
        lemma_scan_finds_piece(entries, point, 0);
        let j = scan_from(entries, point, 0);
        assert(piece_agrees(entries, j, f));
    }
}

/// The operations of an interval map.
pub trait IntervalMap<Idx, V> where Idx: Point, V: Label {
    /// The representation is valid.
    spec fn wf(&self) -> bool;

    /// The label of `point`.
    spec fn at(&self, point: int) -> V;

    /// Returns the label of `index`.
    fn get(&self, index: Idx) -> (value: V)
        requires
            self.wf(),
        ensures
            value == self.at(index.to_int()),
    ;

    /// Relabels every point of `range` with `new_value` and leaves every other
    /// point of the domain as it was. An empty or inverted range changes nothing.
    fn assign(&mut self, range: Range<Idx>, new_value: V)
        requires
            old(self).wf(),
        ensures
            final(self).wf(),
            forall|p: int|
                Idx::floor() <= p < Idx::ceiling() ==> #[trigger] final(self).at(p) == (if range.start.to_int()
                    <= p < range.end.to_int() {
                    new_value
                } else {
                    old(self).at(p)
                }),
    ;

    /// Relabels the one point `single` with `value`.
    fn assign_single(&mut self, single: Idx, value: V)
        requires
            old(self).wf(),
            single.to_int() < Idx::ceiling(),
        ensures
            final(self).wf(),
            forall|p: int|
                Idx::floor() <= p < Idx::ceiling() ==> #[trigger] final(self).at(p) == (if p
                    == single.to_int() {
                    value
                } else {
                    old(self).at(p)
                }),
    ;
}

/// An interval map over an integer index type.
#[derive(Debug, Clone, PartialEq)]
pub struct IntIntervalMap<Idx, V> {
    intervals: Vec<(Idx, V)>,
}

impl<Idx: Point, V: Label> IntIntervalMap<Idx, V> {
    /// The entries `(upper bound, label)` in order.
    pub closed spec fn entries(&self) -> Seq<(Idx, V)> {
        self.intervals@
    }

    /// The entries `(upper bound, label)` in order.
    pub fn intervals(&self) -> (entries: &Vec<(Idx, V)>)
        ensures
            entries@ == self.entries(),
    {
        &self.intervals
    }

    /// A map that labels the whole domain with `value`.
    pub fn new(value: V) -> (map: Self)
        ensures
            map.wf(),
            map.entries().len() == 1,
            forall|p: int| #[trigger] map.at(p) == value,
    {
        let map = IntIntervalMap { intervals: vec![(Idx::max_value(), value)] };
        proof {
            Idx::lemma_domain_nonempty();
            assert forall|p: int| #[trigger] map.at(p) == value by {
                assert(scan_from(map.entries(), p, 0) == 0);
            }
        }
        map
    }

    /// Merges each run of neighbouring entries that carry the same label into one entry.
    fn defrag(&mut self)
        requires
            increasing(old(self).entries()),
            old(self).entries().len() > 0,
        ensures
            final(self).entries().len() > 0,
            increasing(final(self).entries()),
            compact(final(self).entries()),
            top(final(self).entries()) == top(old(self).entries()),
            final(self).entries().last().1 == old(self).entries().last().1,
            forall|p: int|
                Idx::floor() <= p < top(old(self).entries()) ==> #[trigger] value_at(
                    final(self).entries(),
                    p,
                ) == value_at(old(self).entries(), p),
    {
        let ghost source = self.intervals@;
        let ghost f = |p: int| value_at(source, p);
        let mut result: Vec<(Idx, V)> = Vec::new();
        let mut k: usize = 0;
        while k < self.intervals.len()
            invariant
                self.intervals@ == source,
                increasing(source),
                k <= source.len(),
                increasing(result@),
                compact(result@),
                pieces_agree(result@, f),
                top(result@) == lower_bound(source, k as int),
                k > 0 ==> result@.len() > 0 && result@.last().1 == source[k - 1].1,
                f == |p: int| value_at(source, p),
            decreases source.len() - k,
        {
            let entry = self.intervals[k];
            let upper = entry.0;
            let value = entry.1;
            let n = result.len();
            proof {
                assert(piece_nonempty(source, k as int));
                assert forall|p: int| top(result@) <= p < upper.to_int() implies #[trigger] f(p)
                    == value by {
                    lemma_value_in_piece(source, p, k as int);
                }
            }
            if n > 0 && result[n - 1].1.same(value) {
                Self::stretch(&mut result, upper, Ghost(f));
            } else {
                Self::append(&mut result, upper, value, Ghost(f));
            }
            k += 1;
        }
        self.intervals = result;
        proof {
            assert forall|p: int| Idx::floor() <= p < top(source) implies #[trigger] value_at(
                self.entries(),
                p,
            ) == value_at(source, p) by {
                lemma_agreement(self.entries(), f, p);
            }
        }
    }

    /// The point at the domain's upper end, which no interval holds, shares
    /// the label of the point just below it.
    pub proof fn lemma_ceiling_shares_last_label(&self)
        requires
            self.wf(),
        ensures
            self.at(Idx::ceiling()) == self.at(Idx::ceiling() - 1),
            self.at(Idx::ceiling()) == self.entries().last().1,
    {
        let s = self.entries();
        let last = s.len() - 1;
        Idx::lemma_domain_nonempty();
        assert(piece_nonempty(s, last));
        lemma_value_in_piece(s, Idx::ceiling(), last);
        lemma_value_in_piece(s, Idx::ceiling() - 1, last);
    }
}

impl<Idx: Point, V: Label> IntervalMap<Idx, V> for IntIntervalMap<Idx, V> {
    /// The entries are increasing, compact, and end at the ceiling.
    open spec fn wf(&self) -> bool {
        &&& self.entries().len() > 0
        &&& increasing(self.entries())
        &&& compact(self.entries())
        &&& self.entries().last().0.to_int() == Idx::ceiling()
    }

    /// The label of the first entry whose upper bound exceeds `point`, or of
    /// the last entry if none does.
    open spec fn at(&self, point: int) -> V {
        value_at(self.entries(), point)
    }

    fn get(&self, index: Idx) -> (value: V) {
        let n = self.intervals.len();
        let mut i: usize = 0;
        while i + 1 < n
            invariant
                n == self.intervals@.len(),
                n > 0,
                i < n,
                scan_from(self.intervals@, index.to_int(), 0) == scan_from(
                    self.intervals@,
                    index.to_int(),
                    i as int,
                ),
            decreases n - i,
        {
            if index.less(self.intervals[i].0) {
                return self.intervals[i].1;
            }
            i += 1;
        }
        self.intervals[i].1
    }

    fn assign(&mut self, range: Range<Idx>, new_value: V) {
        let lo = range.start;
        let hi = range.end;
        if !lo.less(hi) {
            return ;
        }
        let ghost source = self.intervals@;
        let ghost f = |p: int|
            if lo.to_int() <= p < hi.to_int() {
                new_value
            } else {
                value_at(source, p)
            };
        let mut result: Vec<(Idx, V)> = Vec::new();
        let mut lower = Idx::min_value();
        let mut i: usize = 0;
        proof {
            hi.lemma_in_range();
            lo.lemma_in_range();
        }
        while i < self.intervals.len()
            invariant
                self.intervals@ == source,
                increasing(source),
                source.len() > 0,
                i <= source.len(),
                lo.to_int() < hi.to_int() <= Idx::ceiling(),
                Idx::floor() <= lo.to_int(),
                lower.to_int() == lower_bound(source, i as int),
                increasing(result@),
                pieces_agree(result@, f),
                top(result@) == (if lo.to_int() < lower.to_int() && hi.to_int() > lower.to_int() {
                    hi.to_int()
                } else {
                    lower.to_int()
                }),
                f == |p: int|
                    if lo.to_int() <= p < hi.to_int() {
                        new_value
                    } else {
                        value_at(source, p)
                    },
            decreases source.len() - i,
        {
            let entry = self.intervals[i];
            let upper = entry.0;
            let value = entry.1;
            proof {
                assert(source[i as int] == (upper, value));
                assert(piece_nonempty(source, i as int));
                assert forall|p: int| lower.to_int() <= p < upper.to_int() implies value_at(source, p)
                    == value by {
                    lemma_value_in_piece(source, p, i as int);
                }
            }
            if !lo.less(upper) || !lower.less(hi) {
                // The interval lies wholly below or wholly above the range.
                Self::append(&mut result, upper, value, Ghost(f));
            } else {
                if !lo.less(lower) {
                    // This is the interval that holds the start of the range.
                    if lower.less(lo) {
                        Self::append(&mut result, lo, value, Ghost(f));
                    }
                    Self::append(&mut result, hi, new_value, Ghost(f));
                }
                if hi.less(upper) {
                    Self::append(&mut result, upper, value, Ghost(f));
                }
            }
            lower = upper;
            i += 1;
        }
        self.intervals = result;
        let ghost spliced = self.intervals@;
        self.defrag();
        proof {
            assert forall|p: int| Idx::floor() <= p < Idx::ceiling() implies #[trigger] self.at(p) == (
            if range.start.to_int() <= p < range.end.to_int() {
                new_value
            } else {
                old(self).at(p)
            }) by {
                lemma_agreement(spliced, f, p);
                assert(value_at(self.entries(), p) == value_at(spliced, p));
            }
        }
    }

    fn assign_single(&mut self, single: Idx, value: V) {
        let end = single.successor();
        self.assign(single..end, value);
    }
}

/// From entry `i` on, two valid lists that label the domain alike and whose
/// entries `i` begin at the same point are the same.
proof fn lemma_same_from<Idx: Point, V: Label>(
    a: IntIntervalMap<Idx, V>,
    b: IntIntervalMap<Idx, V>,
    i: int,
)
    requires
        a.wf(),
        b.wf(),
        forall|p: int| Idx::floor() <= p < Idx::ceiling() ==> a.at(p) == b.at(p),
        0 <= i < a.entries().len(),
        i < b.entries().len(),
        lower_bound(a.entries(), i) == lower_bound(b.entries(), i),
    ensures
        a.entries().len() == b.entries().len(),
        forall|k: int|
            i <= k < a.entries().len() ==> (#[trigger] a.entries()[k]).0.to_int()
                == b.entries()[k].0.to_int() && a.entries()[k].1 == b.entries()[k].1,
    decreases a.entries().len() - i,
{
    let s = a.entries();
    let t = b.entries();
    let start = lower_bound(s, i);
    let su = s[i].0.to_int();
    let tu = t[i].0.to_int();
    s[i].0.lemma_in_range();
    t[i].0.lemma_in_range();
    if i > 0 {
        s[i - 1].0.lemma_in_range();
    }
    assert(piece_nonempty(s, i));
    assert(piece_nonempty(t, i));
    // Both lists label the point where entry `i` begins.
    lemma_value_in_piece(s, start, i);
    lemma_value_in_piece(t, start, i);
    assert(a.at(start) == b.at(start));
    if su < tu {
        // The point `su` belongs to entry `i` of `b` and to entry `i + 1` of `a`.
        assert(i + 1 < s.len()) by {
            lemma_bounds_monotone(s, i, s.len() - 1);
        }
        assert(piece_nonempty(s, i + 1));
        lemma_value_in_piece(s, su, i + 1);
        lemma_value_in_piece(t, su, i);
        assert(a.at(su) == b.at(su));
        assert(label_changes(s, i + 1));
    } else if tu < su {
        assert(i + 1 < t.len()) by {
            lemma_bounds_monotone(t, i, t.len() - 1);
        }
        assert(piece_nonempty(t, i + 1));
        lemma_value_in_piece(t, tu, i + 1);
        lemma_value_in_piece(s, tu, i);
        assert(a.at(tu) == b.at(tu));
        assert(label_changes(t, i + 1));
    } else if su == Idx::ceiling() {
        if i + 1 < s.len() {
            s[i + 1].0.lemma_in_range();
            assert(piece_nonempty(s, i + 1));
        }
        if i + 1 < t.len() {
            t[i + 1].0.lemma_in_range();
            assert(piece_nonempty(t, i + 1));
        }
    } else {
        assert(i + 1 < s.len());
        assert(i + 1 < t.len());
        lemma_same_from(a, b, i + 1);
    }
}

/// The list of entries is determined by the labels: two valid maps that
/// label every point of the domain alike hold the same entries.
pub proof fn lemma_representation_is_unique<Idx: Point, V: Label>(
    a: IntIntervalMap<Idx, V>,
    b: IntIntervalMap<Idx, V>,
)
    requires
        a.wf(),
        b.wf(),
        forall|p: int| Idx::floor() <= p < Idx::ceiling() ==> a.at(p) == b.at(p),
    ensures
        a.entries().len() == b.entries().len(),
        forall|k: int|
            0 <= k < a.entries().len() ==> (#[trigger] a.entries()[k]).0.to_int()
                == b.entries()[k].0.to_int() && a.entries()[k].1 == b.entries()[k].1,
{
    lemma_same_from(a, b, 0);
}

/// One relabelling: the range `[start, end)` and the label given to it.
pub struct Assignment<V> {
    pub start: int,
    pub end: int,
    pub value: V,
}

impl<V> Assignment<V> {
    /// Whether the range holds `point`.
    pub open spec fn covers(self, point: int) -> bool {
        self.start <= point < self.end
    }
}

/// `after` is `before` with the points of `a` relabelled and every other
/// point of the domain left as it was: what a call of `assign` brings about.
pub open spec fn assigned<Idx: Point, V: Label>(
    before: IntIntervalMap<Idx, V>,
    a: Assignment<V>,
    after: IntIntervalMap<Idx, V>,
) -> bool {
    forall|p: int|
        Idx::floor() <= p < Idx::ceiling() ==> #[trigger] after.at(p) == (if a.covers(p) {
            a.value
        } else {
            before.at(p)
        })
}

/// The index of the last assignment of `history` whose range holds `point`.
pub open spec fn latest_covering<V>(history: Seq<Assignment<V>>, point: int) -> Option<int>
    decreases history.len(),
{
    if history.len() == 0 {
        None
    } else if history.last().covers(point) {
        Some(history.len() - 1)
    } else {
        latest_covering(history.drop_last(), point)
    }
}

/// After any sequence of assignments, a point of the domain carries the
/// label of the most recent assignment whose range holds it, and its first
/// label if there was none.
///
/// `states[i]` is the map before assignment `history[i]`, and `states[i + 1]`
/// the map after it.
pub proof fn lemma_latest_assignment_wins<Idx: Point, V: Label>(
    states: Seq<IntIntervalMap<Idx, V>>,
    history: Seq<Assignment<V>>,
    point: int,
)
    requires
        states.len() == history.len() + 1,
        forall|i: int|
            0 <= i < history.len() ==> assigned(states[i], #[trigger] history[i], states[i + 1]),
        Idx::floor() <= point < Idx::ceiling(),
    ensures
        states.last().at(point) == (match latest_covering(history, point) {
            Some(i) => history[i].value,
            None => states[0].at(point),
        }),
        latest_covering(history, point) matches Some(i) ==> 0 <= i < history.len()
            && history[i].covers(point),
    decreases history.len(),
{
    if history.len() > 0 {
        let n = history.len() - 1;
        assert(states.last().at(point) == (if history[n].covers(point) {
            history[n].value
        } else {
            states[n].at(point)
        }));
        if !history.last().covers(point) {
            let earlier = history.drop_last();
            let before = states.drop_last();
            assert forall|i: int| 0 <= i < earlier.len() implies assigned(
                before[i],
                #[trigger] earlier[i],
                before[i + 1],
            ) by {
            }
            lemma_latest_assignment_wins(before, earlier, point);
        }
    }
}

impl<Idx: Point, V: Label> IntIntervalMap<Idx, V> {
    /// Appends an entry that ends above the current top and agrees with `f`.
    fn append(result: &mut Vec<(Idx, V)>, upper: Idx, value: V, Ghost(f): Ghost<spec_fn(int) -> V>)
        requires
            increasing(old(result)@),
            pieces_agree(old(result)@, f),
            top(old(result)@) < upper.to_int(),
            forall|p: int| top(old(result)@) <= p < upper.to_int() ==> #[trigger] f(p) == value,
        ensures
            increasing(final(result)@),
            pieces_agree(final(result)@, f),
            top(final(result)@) == upper.to_int(),
            final(result)@ == old(result)@.push((upper, value)),
            compact(old(result)@) && (old(result)@.len() > 0 ==> old(result)@.last().1 != value)
                ==> compact(final(result)@),
    {
        let ghost before = result@;
        result.push((upper, value));
        proof {
            assert forall|i: int| 0 <= i < result@.len() implies #[trigger] piece_nonempty(
                result@,
                i,
            ) by {
                if i < before.len() {
                    assert(piece_nonempty(before, i));
                }
            }
            assert forall|j: int| 0 <= j < result@.len() implies #[trigger] piece_agrees(
                result@,
                j,
                f,
            ) by {
                if j < before.len() {
                    assert(piece_agrees(before, j, f));
                }
            }
            if compact(before) && (before.len() > 0 ==> before.last().1 != value) {
                assert forall|i: int| 0 < i < result@.len() implies #[trigger] label_changes(
                    result@,
                    i,
                ) by {
                    if i < before.len() {
                        assert(label_changes(before, i));
                    }
                }
            }
        }
    }

    /// Moves the upper bound of the last entry up to `upper`, where `f`
    /// gives the points in between the label of that entry.
    fn stretch(result: &mut Vec<(Idx, V)>, upper: Idx, Ghost(f): Ghost<spec_fn(int) -> V>)
        requires
            old(result)@.len() > 0,
            increasing(old(result)@),
            pieces_agree(old(result)@, f),
            top(old(result)@) < upper.to_int(),
            forall|p: int|
                top(old(result)@) <= p < upper.to_int() ==> #[trigger] f(p) == old(result)@.last().1,
        ensures
            increasing(final(result)@),
            pieces_agree(final(result)@, f),
            top(final(result)@) == upper.to_int(),
            final(result)@ == old(result)@.update(
                old(result)@.len() - 1,
                (upper, old(result)@.last().1),
            ),
            compact(old(result)@) ==> compact(final(result)@),
    {
        let ghost before = result@;
        let last = result.len() - 1;
        let value = result[last].1;
        result.set(last, (upper, value));
        proof {
            assert forall|i: int| 0 <= i < result@.len() implies #[trigger] piece_nonempty(
                result@,
                i,
            ) by {
                assert(piece_nonempty(before, i));
            }
            assert forall|j: int| 0 <= j < result@.len() implies #[trigger] piece_agrees(
                result@,
                j,
                f,
            ) by {
                assert(piece_agrees(before, j, f));
            }
            if compact(before) {
                assert forall|i: int| 0 < i < result@.len() implies #[trigger] label_changes(
                    result@,
                    i,
                ) by {
                    assert(label_changes(before, i));
                }
            }
        }
    }
}

} // verus!
