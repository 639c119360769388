//! Auto-merging range vector: an ordered set of disjoint, non-adjacent
//! half-open intervals `[from, to)` over `i64`, coalesced on every push.

use vstd::prelude::*;

verus! {

/// Holds of a sequence of `(from, to)` pairs when every pair is a proper
/// interval (`from < to`) and consecutive pairs are strictly separated
/// (`to` of one is strictly below `from` of the next), so the pairs are
/// sorted, disjoint and never adjacent.
pub open spec fn ranges_wf(s: Seq<(i64, i64)>) -> bool {
    &&& forall|i: int| 0 <= i < s.len() ==> (#[trigger] s[i]).0 < s[i].1
    &&& forall|i: int| 0 <= i < s.len() - 1 ==> (#[trigger] s[i]).1 < s[i + 1].0
}

/// A point `v` lies inside one of the intervals of `s`.
pub open spec fn ranges_cover(s: Seq<(i64, i64)>, v: int) -> bool {
    exists|i: int| 0 <= i < s.len() && (#[trigger] s[i]).0 <= v < s[i].1
}

/// The tracker `post` covers exactly what `pre` covered plus `[from, to)`:
/// the shape of every `push`.
pub open spec fn push_covers(pre: RangeVec, post: RangeVec, from: i64, to: i64) -> bool {
    forall|v: int| post.covers(v) <==> pre.covers(v) || from <= v < to
}

/// A push grows the tracker by at most one interval.
pub open spec fn push_len_ok(pre: RangeVec, post: RangeVec) -> bool {
    post.ranges().len() <= pre.ranges().len() + 1
}

/// In a well-formed sequence, any earlier interval ends strictly before a
/// later one begins.
pub proof fn lemma_ranges_separated(s: Seq<(i64, i64)>, i: int, j: int)
    requires
        ranges_wf(s),
        0 <= i < j < s.len(),
    ensures
        s[i].1 < s[j].0,
    decreases j - i,
{
    if i + 1 < j {
        lemma_ranges_separated(s, i + 1, j);
    }
}

/// Disjoint non-adjacent intervals each take at least two units of room
/// (their span plus the gap), so `n` of them stretch at least `2n - 1`
/// units from the first `from` to the last `to`.
pub proof fn lemma_ranges_span(s: Seq<(i64, i64)>)
    requires
        ranges_wf(s),
        s.len() > 0,
    ensures
        s[s.len() - 1].1 - s[0].0 >= 2 * s.len() - 1,
    decreases s.len(),
{
    if s.len() > 1 {
        let t = s.subrange(1, s.len() as int);
        assert(ranges_wf(t)) by {
            assert forall|i: int| 0 <= i < t.len() implies (#[trigger] t[i]).0 < t[i].1 by {
                assert(t[i] == s[i + 1]);
            }
            assert forall|i: int| 0 <= i < t.len() - 1 implies (#[trigger] t[i]).1 < t[i + 1].0 by {
                assert(t[i] == s[i + 1]);
                assert(t[i + 1] == s[i + 2]);
            }
        }
        lemma_ranges_span(t);
        assert(t[t.len() - 1] == s[s.len() - 1]);
        assert(t[0] == s[1]);
    }
}

/// Dropping the first interval keeps a sequence well-formed.
proof fn lemma_wf_drop_first(s: Seq<(i64, i64)>)
    requires
        ranges_wf(s),
        s.len() > 0,
    ensures
        ranges_wf(s.subrange(1, s.len() as int)),
{
    let t = s.subrange(1, s.len() as int);
    assert forall|i: int| 0 <= i < t.len() implies (#[trigger] t[i]).0 < t[i].1 by {
        assert(t[i] == s[i + 1]);
    }
    assert forall|i: int| 0 <= i < t.len() - 1 implies (#[trigger] t[i]).1 < t[i + 1].0 by {
        assert(t[i] == s[i + 1]);
        assert(t[i + 1] == s[i + 2]);
    }
}

/// The canonical-form law: a well-formed interval list is determined
/// by the set of points it covers, so two trackers that cover the same
/// points hold exactly the same intervals.
#[verifier::spinoff_prover]
#[verifier::rlimit(80)]
pub proof fn lemma_ranges_canonical(s1: Seq<(i64, i64)>, s2: Seq<(i64, i64)>)
    requires
        ranges_wf(s1),
        ranges_wf(s2),
        forall|v: int| ranges_cover(s1, v) <==> ranges_cover(s2, v),
    ensures
        s1 == s2,
    decreases s1.len(),
{
    if s1.len() == 0 {
        if s2.len() > 0 {
            assert(s2[0].0 <= s2[0].0 < s2[0].1);
            assert(ranges_cover(s2, s2[0].0 as int));
            assert(false);
        }
        assert(s1 =~= s2);
    } else if s2.len() == 0 {
        assert(s1[0].0 <= s1[0].0 < s1[0].1);
        assert(ranges_cover(s1, s1[0].0 as int));
        assert(false);
    } else {
        let f1 = s1[0].0;
        let f2 = s2[0].0;
        // the first starts agree: each is the least covered point
        assert(f1 == f2) by {
            assert(ranges_cover(s1, f1 as int));
            let j = choose|j: int| 0 <= j < s2.len() && (#[trigger] s2[j]).0 <= f1 < s2[j].1;
            if j > 0 {
                lemma_ranges_separated(s2, 0, j);
            }
            assert(f2 <= f1);
            assert(ranges_cover(s2, f2 as int));
            let i = choose|i: int| 0 <= i < s1.len() && (#[trigger] s1[i]).0 <= f2 < s1[i].1;
            if i > 0 {
                lemma_ranges_separated(s1, 0, i);
            }
            assert(f1 <= f2);
        }
        let t1 = s1[0].1;
        let t2 = s2[0].1;
        // the first ends agree: each end is the least uncovered point
        // after the shared start
        assert(t1 == t2) by {
            if t1 < t2 {
                assert(ranges_cover(s2, t1 as int));
                assert(!ranges_cover(s1, t1 as int)) by {
                    if ranges_cover(s1, t1 as int) {
                        let i = choose|i: int|
                            0 <= i < s1.len() && (#[trigger] s1[i]).0 <= t1 < s1[i].1;
                        if i > 0 {
                            lemma_ranges_separated(s1, 0, i);
                        }
                        assert(false);
                    }
                }
                assert(false);
            }
            if t2 < t1 {
                assert(ranges_cover(s1, t2 as int));
                assert(!ranges_cover(s2, t2 as int)) by {
                    if ranges_cover(s2, t2 as int) {
                        let j = choose|j: int|
                            0 <= j < s2.len() && (#[trigger] s2[j]).0 <= t2 < s2[j].1;
                        if j > 0 {
                            lemma_ranges_separated(s2, 0, j);
                        }
                        assert(false);
                    }
                }
                assert(false);
            }
        }
        // the tails cover the same points: exactly the covered points
        // beyond the shared first interval
        let u1 = s1.subrange(1, s1.len() as int);
        let u2 = s2.subrange(1, s2.len() as int);
        lemma_wf_drop_first(s1);
        lemma_wf_drop_first(s2);
        assert forall|v: int| ranges_cover(u1, v) <==> ranges_cover(u2, v) by {
            assert(ranges_cover(u1, v) <==> (ranges_cover(s1, v) && v > t1)) by {
                lemma_cover_drop_first(s1, v);
            }
            assert(ranges_cover(u2, v) <==> (ranges_cover(s2, v) && v > t2)) by {
                lemma_cover_drop_first(s2, v);
            }
        }
        lemma_ranges_canonical(u1, u2);
        assert(u1 == u2);
        assert(u1.len() == s1.len() - 1);
        assert(u2.len() == s2.len() - 1);
        assert(s1.len() == s2.len());
        assert(s1[0] == (f1, t1) && s2[0] == (f2, t2));
        assert forall|j: int| 0 <= j < s1.len() implies s1[j] == s2[j] by {
            if j > 0 {
                assert(u1[j - 1] == s1[j]);
                assert(u2[j - 1] == s2[j]);
            }
        }
        assert(s1 =~= s2);
    }
}

/// Two well-formed trackers that cover the same points hold exactly
/// the same interval list. With `push`'s own contract this pins the
/// whole tracker: after any sequence of pushes, `get_ranges` is the
/// one sorted, disjoint, non-adjacent list whose union is the union
/// of everything pushed.
pub proof fn lemma_tracker_canonical(r1: RangeVec, r2: RangeVec)
    requires
        r1.wf(),
        r2.wf(),
        forall|v: int| r1.covers(v) <==> r2.covers(v),
    ensures
        r1.ranges() == r2.ranges(),
{
    assert forall|v: int| ranges_cover(r1.ranges(), v) <==> ranges_cover(r2.ranges(), v) by {
        assert(r1.covers(v) == ranges_cover(r1.ranges(), v));
        assert(r2.covers(v) == ranges_cover(r2.ranges(), v));
    }
    lemma_ranges_canonical(r1.ranges(), r2.ranges());
}

/// A point is covered by the tail of a well-formed list exactly when
/// it is covered at all and lies beyond the first interval's end.
proof fn lemma_cover_drop_first(s: Seq<(i64, i64)>, v: int)
    requires
        ranges_wf(s),
        s.len() > 0,
    ensures
        ranges_cover(s.subrange(1, s.len() as int), v) <==> (ranges_cover(s, v) && v > s[0].1),
{
    let u = s.subrange(1, s.len() as int);
    if ranges_cover(u, v) {
        let i = choose|i: int| 0 <= i < u.len() && (#[trigger] u[i]).0 <= v < u[i].1;
        assert(u[i] == s[i + 1]);
        lemma_ranges_separated(s, 0, i + 1);
        assert(s[i + 1].0 <= v < s[i + 1].1);
    }
    if ranges_cover(s, v) && v > s[0].1 {
        let i = choose|i: int| 0 <= i < s.len() && (#[trigger] s[i]).0 <= v < s[i].1;
        if i == 0 {
            assert(false);
        }
        assert(u[i - 1] == s[i]);
        assert(u[i - 1].0 <= v < u[i - 1].1);
    }
}

/// Each interval's endpoints are themselves covered points: the start,
/// and the last point before the exclusive end.
pub proof fn lemma_endpoints_covered(s: Seq<(i64, i64)>, i: int)
    requires
        ranges_wf(s),
        0 <= i < s.len(),
    ensures
        ranges_cover(s, s[i].0 as int),
        ranges_cover(s, s[i].1 - 1),
{
    assert(s[i].0 <= s[i].0 < s[i].1);
    assert(s[i].0 <= s[i].1 - 1 < s[i].1);
}

/// After replacing the run `[a, b)` of intervals touching `[from, to)`
/// by the single interval `(nf, nt)` that spans them, the sequence is
/// well-formed again and covers exactly the old points plus `[from, to)`.
#[verifier::spinoff_prover]
#[verifier::rlimit(60)]
proof fn lemma_merge_run(
    s0: Seq<(i64, i64)>,
    s1: Seq<(i64, i64)>,
    a: int,
    b: int,
    from: i64,
    to: i64,
    nf: i64,
    nt: i64,
)
    requires
        ranges_wf(s0),
        from < to,
        0 <= a <= b <= s0.len(),
        s1 == s0.subrange(0, a) + seq![(nf, nt)] + s0.subrange(b, s0.len() as int),
        forall|i: int| 0 <= i < a ==> (#[trigger] s0[i]).1 < from,
        a < s0.len() ==> s0[a].1 >= from,
        forall|i: int| a <= i < b ==> (#[trigger] s0[i]).0 <= to,
        b < s0.len() ==> s0[b].0 > to,
        nf == if a < b && s0[a].0 < from {
            s0[a].0
        } else {
            from
        },
        nt >= to,
        forall|i: int| a <= i < b ==> (#[trigger] s0[i]).1 <= nt,
        nt == to || exists|i: int| a <= i < b && nt == (#[trigger] s0[i]).1,
    ensures
        ranges_wf(s1),
        forall|v: int| ranges_cover(s1, v) <==> ranges_cover(s0, v) || from <= v < to,
        s1.len() == s0.len() + 1 - (b - a),
{
    let n = s0.len() as int;
    assert(s1.len() == a + 1 + (n - b));
    assert(forall|j: int| 0 <= j < a ==> s1[j] == s0[j]);
    assert(s1[a] == (nf, nt));
    assert(forall|j: int| a < j < s1.len() ==> s1[j] == s0[j + (b - a) - 1]);
    assert(nf <= from);
    // Well-formedness of the rebuilt sequence.
    assert forall|j: int| 0 <= j < s1.len() implies (#[trigger] s1[j]).0 < s1[j].1 by {
        if j == a {
            assert(nf <= from < to <= nt);
        }
    }
    assert forall|j: int| 0 <= j < s1.len() - 1 implies (#[trigger] s1[j]).1 < s1[j + 1].0 by {
        if j + 1 < a {
            assert(s1[j] == s0[j] && s1[j + 1] == s0[j + 1]);
        } else if j + 1 == a {
            // the interval before the merged one ends strictly before `nf`
            assert(s0[j].1 < from);
            if a < b && s0[a].0 < from {
                assert(s0[j].1 < s0[a].0);
            }
        } else if j == a {
            // the merged interval ends strictly before `s0[b]`
            assert(s1[j + 1] == s0[b]);
            if nt == to {
                assert(to < s0[b].0);
            } else {
                let i = choose|i: int| a <= i < b && nt == (#[trigger] s0[i]).1;
                lemma_ranges_separated(s0, i, b);
            }
        } else {
            let k = j + (b - a) - 1;
            assert(s1[j] == s0[k] && s1[j + 1] == s0[k + 1]);
        }
    }
    // Coverage: each direction with an explicit witness.
    assert forall|v: int| ranges_cover(s1, v) implies ranges_cover(s0, v) || from <= v < to by {
        let j = choose|j: int| 0 <= j < s1.len() && (#[trigger] s1[j]).0 <= v < s1[j].1;
        if j < a {
            assert(s0[j].0 <= v < s0[j].1);
        } else if j > a {
            let k = j + (b - a) - 1;
            assert(s0[k].0 <= v < s0[k].1);
        } else {
            // inside the merged interval
            if from <= v < to {
            } else if v < from {
                // below `from`: the first run interval already covered it
                assert(a < b && s0[a].0 < from && nf == s0[a].0);
                assert(s0[a].0 <= v < s0[a].1);
            } else {
                // at or above `to`: the run interval that set `nt` covered it
                assert(v >= to && v < nt);
                let i = choose|i: int| a <= i < b && nt == (#[trigger] s0[i]).1;
                assert(s0[i].0 <= to <= v < s0[i].1);
            }
        }
    }
    assert forall|v: int| ranges_cover(s0, v) || from <= v < to implies ranges_cover(s1, v) by {
        if from <= v < to {
            assert(s1[a].0 <= v < s1[a].1);
        } else {
            let i = choose|i: int| 0 <= i < s0.len() && (#[trigger] s0[i]).0 <= v < s0[i].1;
            if i < a {
                assert(s1[i].0 <= v < s1[i].1);
            } else if i >= b {
                let j = i - (b - a) + 1;
                assert(s1[j] == s0[i]);
                assert(s1[j].0 <= v < s1[j].1);
            } else {
                // a run interval: swallowed by the merged one
                if i > a {
                    lemma_ranges_separated(s0, a, i);
                    assert(s0[a].0 < s0[a].1 < s0[i].0);
                }
                assert(nf <= s0[i].0);
                assert(s1[a].0 <= v < s1[a].1);
            }
        }
    }
}

/// Disjoint, coalesced integer-interval set. Mutated only by `push`;
/// read via `contains` and `get_ranges`.
pub struct RangeVec {
    data: Vec<(i64, i64)>,
}

impl RangeVec {
    /// The intervals held, in order.
    pub closed spec fn ranges(self) -> Seq<(i64, i64)> {
        self.data@
    }

    /// The structural invariant: sorted, disjoint, non-adjacent intervals.
    pub open spec fn wf(self) -> bool {
        ranges_wf(self.ranges())
    }

    /// A point lies inside one of the held intervals.
    pub open spec fn covers(self, v: int) -> bool {
        ranges_cover(self.ranges(), v)
    }

    pub fn new() -> (r: Self)
        ensures
            r.wf(),
            r.ranges() == Seq::<(i64, i64)>::empty(),
            forall|v: int| !r.covers(v),
    {
        let r = RangeVec { data: Vec::new() };
        proof {
            assert(r.ranges() =~= Seq::<(i64, i64)>::empty());
        }
        r
    }

    /// Builds a tracker from raw interval pairs, accepting them only when
    /// they already satisfy the structural invariant.
    pub fn from_raw(data: Vec<(i64, i64)>) -> (r: Option<Self>)
        ensures
            r is Some <==> ranges_wf(data@),
            r is Some ==> r->0.ranges() == data@ && r->0.wf(),
    {
        let n = data.len();
        let mut i: usize = 0;
        while i < n
            invariant
                n == data@.len(),
                i <= n,
                forall|k: int| 0 <= k < i ==> (#[trigger] data@[k]).0 < data@[k].1,
                forall|k: int| 0 <= k < i - 1 ==> (#[trigger] data@[k]).1 < data@[k + 1].0,
                i > 0 ==> i - 1 < n,
            decreases n - i,
        {
            let (from, to) = data[i];
            if to <= from {
                return None;
            }
            if i > 0 {
                let (_, prev_to) = data[i - 1];
                if from <= prev_to {
                    return None;
                }
            }
            i += 1;
        }
        Some(RangeVec { data })
    }

    pub fn get_ranges(&self) -> (r: &[(i64, i64)])
        ensures
            r@ == self.ranges(),
    {
        self.data.as_slice()
    }

    /// Number of intervals held.
    pub fn len(&self) -> (r: usize)
        ensures
            r == self.ranges().len(),
    {
        self.data.len()
    }

    /// The interval at position `i`.
    pub fn get_pair(&self, i: usize) -> (r: (i64, i64))
        requires
            i < self.ranges().len(),
        ensures
            r == self.ranges()[i as int],
    {
        self.data[i]
    }

    /// Index of the first interval whose `to` end reaches `v` or beyond,
    /// or the length when every interval ends below `v`.
    fn first_ending_at_or_after(&self, v: i64) -> (r: usize)
        requires
            self.wf(),
        ensures
            r <= self.ranges().len(),
            forall|i: int| 0 <= i < r ==> (#[trigger] self.ranges()[i]).1 < v,
            r < self.ranges().len() ==> self.ranges()[r as int].1 >= v,
    {
        let mut lo: usize = 0;
        let mut hi: usize = self.data.len();
        while lo < hi
            invariant
                self.wf(),
                lo <= hi <= self.ranges().len(),
                forall|i: int| 0 <= i < lo ==> (#[trigger] self.ranges()[i]).1 < v,
                forall|i: int| hi <= i < self.ranges().len()
                    ==> (#[trigger] self.ranges()[i]).1 >= v,
            decreases hi - lo,
        {
            let mid = lo + (hi - lo) / 2;
            let (_, mid_to) = self.data[mid];
            if mid_to < v {
                proof {
                    assert forall|i: int| 0 <= i < mid + 1 implies
                        (#[trigger] self.ranges()[i]).1 < v by {
                        if i < mid {
                            lemma_ranges_separated(self.ranges(), i, mid as int);
                            assert(self.ranges()[i].1 < self.ranges()[mid as int].0);
                            assert(self.ranges()[mid as int].0 < self.ranges()[mid as int].1);
                        }
                    }
                }
                lo = mid + 1;
            } else {
                proof {
                    assert forall|i: int| mid <= i < self.ranges().len() implies
                        (#[trigger] self.ranges()[i]).1 >= v by {
                        if i > mid {
                            lemma_ranges_separated(self.ranges(), mid as int, i);
                        }
                    }
                }
                hi = mid;
            }
        }
        lo
    }

    /// Inserts `[from, to)`, merging it with every interval it overlaps
    /// or touches: the result covers exactly the old points plus the new
    /// interval, and stays sorted, disjoint and non-adjacent.
    pub fn push(&mut self, from: i64, to: i64)
        requires
            old(self).wf(),
            from < to,
        ensures
            final(self).wf(),
            push_covers(*old(self), *final(self), from, to),
            push_len_ok(*old(self), *final(self)),
    {
        let ghost s0 = self.data@;
        let n = self.data.len();
        // First interval that ends at `from` or beyond: the start of the
        // run of intervals that touch or overlap `[from, to)`.
        let a = self.first_ending_at_or_after(from);
        // Sweep forward over the run, extending the merged end as needed.
        let mut b = a;
        let mut new_to = to;
        while b < n && self.data[b].0 <= to
            invariant
                self.data@ == s0,
                ranges_wf(s0),
                n == s0.len(),
                a <= b <= n,
                from < to,
                forall|i: int| a <= i < b ==> (#[trigger] s0[i]).0 <= to,
                new_to >= to,
                forall|i: int| a <= i < b ==> (#[trigger] s0[i]).1 <= new_to,
                new_to == to || exists|i: int| a <= i < b && new_to == (#[trigger] s0[i]).1,
            decreases n - b,
        {
            let (_, cur_to) = self.data[b];
            if cur_to > new_to {
                new_to = cur_to;
            }
            b += 1;
        }
        let new_from = if b > a && self.data[a].0 < from {
            self.data[a].0
        } else {
            from
        };
        self.replace_run(a, b, from, to, new_from, new_to);
    }

    /// Replaces the run `[a, b)` of intervals by the single merged
    /// interval `(nf, nt)`.
    fn replace_run(&mut self, a: usize, b: usize, from: i64, to: i64, nf: i64, nt: i64)
        requires
            old(self).wf(),
            from < to,
            a <= b <= old(self).ranges().len(),
            forall|i: int| 0 <= i < a ==> (#[trigger] old(self).ranges()[i]).1 < from,
            a < old(self).ranges().len() ==> old(self).ranges()[a as int].1 >= from,
            forall|i: int| a <= i < b ==> (#[trigger] old(self).ranges()[i]).0 <= to,
            b < old(self).ranges().len() ==> old(self).ranges()[b as int].0 > to,
            nf == if a < b && old(self).ranges()[a as int].0 < from {
                old(self).ranges()[a as int].0
            } else {
                from
            },
            nt >= to,
            forall|i: int| a <= i < b ==> (#[trigger] old(self).ranges()[i]).1 <= nt,
            nt == to || exists|i: int|
                a <= i < b && nt == (#[trigger] old(self).ranges()[i]).1,
        ensures
            final(self).wf(),
            push_covers(*old(self), *final(self), from, to),
            push_len_ok(*old(self), *final(self)),
    {
        let ghost s0 = self.data@;
        if a == b {
            self.data.insert(a, (nf, nt));
            proof {
                assert(self.data@ =~= s0.subrange(0, a as int) + seq![(nf, nt)]
                    + s0.subrange(b as int, s0.len() as int));
            }
        } else {
            let mut tail = self.data.split_off(b);
            proof {
                assert(self.data@ =~= s0.subrange(0, b as int));
                assert(tail@ =~= s0.subrange(b as int, s0.len() as int));
            }
            self.data.truncate(a);
            proof {
                assert(self.data@ =~= s0.subrange(0, b as int).subrange(0, a as int));
                assert(self.data@ =~= s0.subrange(0, a as int));
            }
            self.data.push((nf, nt));
            self.data.append(&mut tail);
            proof {
                assert(self.data@ =~= s0.subrange(0, a as int) + seq![(nf, nt)]
                    + s0.subrange(b as int, s0.len() as int));
            }
        }
        proof {
            lemma_merge_run(s0, self.data@, a as int, b as int, from, to, nf, nt);
            assert(push_covers(*old(self), *self, from, to)) by {
                assert(forall|v: int|
                    self.covers(v) <==> old(self).covers(v) || from <= v < to);
            }
        }
    }

    /// Membership test: binary search over the interval ends, then a
    /// bounds check on the candidate interval.
    pub fn contains(&self, value: i64) -> (r: bool)
        requires
            self.wf(),
        ensures
            r == self.covers(value as int),
    {
        let n = self.data.len();
        if value == i64::MAX {
            // No proper interval `[from, to)` over i64 can hold i64::MAX.
            proof {
                assert forall|i: int| 0 <= i < self.ranges().len() implies
                    !((#[trigger] self.ranges()[i]).0 <= value < self.ranges()[i].1) by {}
            }
            return false;
        }
        let idx = self.first_ending_at_or_after(value + 1);
        if idx < n {
            let (from, to) = self.data[idx];
            if from <= value {
                proof {
                    assert(self.ranges()[idx as int].0 <= value < self.ranges()[idx as int].1);
                }
                true
            } else {
                proof {
                    assert forall|i: int| 0 <= i < self.ranges().len() implies
                        !((#[trigger] self.ranges()[i]).0 <= value < self.ranges()[i].1) by {
                        if i < idx {
                            assert(self.ranges()[i].1 < value + 1);
                        } else if i > idx {
                            lemma_ranges_separated(self.ranges(), idx as int, i);
                        }
                    }
                }
                false
            }
        } else {
            proof {
                assert forall|i: int| 0 <= i < self.ranges().len() implies
                    !((#[trigger] self.ranges()[i]).0 <= value < self.ranges()[i].1) by {
                    assert(self.ranges()[i].1 < value + 1);
                }
            }
            false
        }
    }
}

} // verus!

