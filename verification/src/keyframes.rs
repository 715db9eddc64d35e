//! Keyframe tracks: values of an animated property at points in time, kept in time
//! order, each with the easing that leads into the next.

use vstd::prelude::*;
use crate::text::{first_index, lemma_first_index, lemma_first_index_none, lemma_first_index_props};

verus! {

/// How a value moves from one keyframe to the next. The control points of a cubic
/// Bézier curve are the bit patterns of single-precision values.
#[derive(Debug, Clone, Copy, PartialEq, Eq, Structural)]
pub enum EasingFunction {
    Linear,
    EaseIn,
    EaseOut,
    EaseInOut,
    CubicBezier { x1_bits: u32, y1_bits: u32, x2_bits: u32, y2_bits: u32 },
}

/// A value at a time, with the easing towards the next keyframe.
#[derive(Debug, Clone, Copy)]
pub struct Keyframe<T> {
    pub time_ms: u64,
    pub value: T,
    pub easing: EasingFunction,
}

/// The keyframes of one property.
#[derive(Debug, Clone)]
pub struct KeyframeTrack<T> {
    pub keyframes: Vec<Keyframe<T>>,
}

/// The keyframes are in time order.
pub open spec fn time_sorted<T>(s: Seq<Keyframe<T>>) -> bool {
    forall|i: int, j: int| 0 <= i <= j < s.len() ==> s[i].time_ms <= s[j].time_ms
}

/// Where `x` goes in a sorted sequence: before the first keyframe that comes later,
/// after all those at the same time or earlier.
pub open spec fn slot<T>(s: Seq<Keyframe<T>>, x: Keyframe<T>) -> int
    decreases s.len(),
{
    if s.len() == 0 {
        0
    } else if s[0].time_ms > x.time_ms {
        0
    } else {
        1 + slot(s.drop_first(), x)
    }
}

proof fn lemma_slot<T>(s: Seq<Keyframe<T>>, x: Keyframe<T>, k: int)
    requires
        0 <= k <= s.len(),
        forall|j: int| 0 <= j < k ==> !((#[trigger] s[j]).time_ms > x.time_ms),
        k == s.len() || s[k].time_ms > x.time_ms,
    ensures
        slot(s, x) == k,
    decreases s.len(),
{
    if s.len() > 0 && k > 0 {
        assert forall|j: int| 0 <= j < k - 1 implies !((#[trigger] s.drop_first()[j]).time_ms > x.time_ms) by {
            assert(s.drop_first()[j] == s[j + 1]);
        }
        if k < s.len() {
            assert(s.drop_first()[k - 1] == s[k]);
        }
        lemma_slot(s.drop_first(), x, k - 1);
    }
}

proof fn lemma_slot_props<T>(s: Seq<Keyframe<T>>, x: Keyframe<T>)
    ensures
        0 <= slot(s, x) <= s.len(),
        forall|j: int| 0 <= j < slot(s, x) ==> !((#[trigger] s[j]).time_ms > x.time_ms),
        slot(s, x) < s.len() ==> s[slot(s, x)].time_ms > x.time_ms,
    decreases s.len(),
{
    if s.len() > 0 && !(s[0].time_ms > x.time_ms) {
        lemma_slot_props(s.drop_first(), x);
        assert forall|j: int| 0 <= j < slot(s, x) implies !((#[trigger] s[j]).time_ms > x.time_ms) by {
            if j > 0 {
                assert(s[j] == s.drop_first()[j - 1]);
            }
        }
        if slot(s, x) < s.len() {
            assert(s[slot(s, x)] == s.drop_first()[slot(s, x) - 1]);
        }
    }
}

/// `x` placed into `s` at its slot.
pub open spec fn sorted_insert<T>(s: Seq<Keyframe<T>>, x: Keyframe<T>) -> Seq<Keyframe<T>> {
    s.insert(slot(s, x), x)
}

/// The keyframes sorted by time, those at the same time keeping their order (the
/// stable sort by time).
pub open spec fn sort_by_time<T>(s: Seq<Keyframe<T>>) -> Seq<Keyframe<T>>
    decreases s.len(),
{
    if s.len() == 0 {
        Seq::empty()
    } else {
        sorted_insert(sort_by_time(s.drop_last()), s.last())
    }
}

/// The keyframes after inserting `kf`: it replaces the first keyframe at its time;
/// otherwise it is added and the keyframes are sorted by time.
pub open spec fn insert_spec<T>(s: Seq<Keyframe<T>>, kf: Keyframe<T>) -> Seq<Keyframe<T>> {
    match first_index(s, |k: Keyframe<T>| k.time_ms == kf.time_ms) {
        Some(i) => s.update(i, kf),
        None => sort_by_time(s.push(kf)),
    }
}

/// The keyframes after removing those at time `t`.
pub open spec fn remove_spec<T>(s: Seq<Keyframe<T>>, t: u64) -> Seq<Keyframe<T>> {
    s.filter(|k: Keyframe<T>| k.time_ms != t)
}

proof fn lemma_sorted_insert_sorted<T>(s: Seq<Keyframe<T>>, x: Keyframe<T>)
    requires
        time_sorted(s),
    ensures
        time_sorted(sorted_insert(s, x)),
        sorted_insert(s, x).len() == s.len() + 1,
{
    lemma_slot_props(s, x);
    let p = slot(s, x);
    let r = sorted_insert(s, x);
    assert forall|i: int, j: int| 0 <= i <= j < r.len() implies r[i].time_ms <= r[j].time_ms by {
        if i < p && j > p {
            assert(r[i] == s[i]);
            assert(r[j] == s[j - 1]);
            assert(s[i].time_ms <= x.time_ms);
            assert(x.time_ms < s[j - 1].time_ms);
        } else if i < p && j == p {
            assert(r[i] == s[i]);
            assert(!(s[i].time_ms > x.time_ms));
        } else if i == p && j > p {
            assert(r[j] == s[j - 1]);
        } else if i > p {
            assert(r[i] == s[i - 1]);
            assert(r[j] == s[j - 1]);
        } else if j < p {
            assert(r[i] == s[i]);
            assert(r[j] == s[j]);
        }
    }
}

/// Sorting by time gives keyframes in time order.
pub proof fn lemma_sort_by_time_sorted<T>(s: Seq<Keyframe<T>>)
    ensures
        time_sorted(sort_by_time(s)),
        sort_by_time(s).len() == s.len(),
    decreases s.len(),
{
    if s.len() > 0 {
        lemma_sort_by_time_sorted(s.drop_last());
        lemma_sorted_insert_sorted(sort_by_time(s.drop_last()), s.last());
    }
}

/// The position where `x` goes in `v`.
fn find_slot<T: Copy>(v: &Vec<Keyframe<T>>, x: &Keyframe<T>) -> (p: usize)
    ensures
        p == slot(v@, *x),
{
    let mut j: usize = 0;
    while j < v.len()
        invariant
            j <= v.len(),
            forall|m: int| 0 <= m < j ==> !((#[trigger] v@[m]).time_ms > x.time_ms),
        decreases v.len() - j,
    {
        if v[j].time_ms > x.time_ms {
            proof {
                lemma_slot(v@, *x, j as int);
            }
            return j;
        }
        j = j + 1;
    }
    proof {
        lemma_slot(v@, *x, j as int);
    }
    j
}

/// `v` sorted by time, stably.
fn sorted_by_time<T: Copy>(v: &Vec<Keyframe<T>>) -> (r: Vec<Keyframe<T>>)
    ensures
        r@ == sort_by_time(v@),
{
    let mut r: Vec<Keyframe<T>> = Vec::new();
    let mut i: usize = 0;
    assert(v@.take(0) =~= Seq::<Keyframe<T>>::empty());
    while i < v.len()
        invariant
            i <= v.len(),
            r@ == sort_by_time(v@.take(i as int)),
        decreases v.len() - i,
    {
        let x = v[i];
        let p = find_slot(&r, &x);
        proof {
            lemma_slot_props(r@, x);
        }
        let ghost before = r@;
        r.insert(p, x);
        proof {
            assert(r@ == sorted_insert(before, x));
            assert(v@.take(i + 1).drop_last() =~= v@.take(i as int));
            assert(v@.take(i + 1).last() == x);
            assert(sort_by_time(v@.take(i + 1)) == sorted_insert(sort_by_time(v@.take(i as int)), x));
        }
        i = i + 1;
    }
    assert(v@.take(i as int) =~= v@);
    r
}

impl<T: Copy> KeyframeTrack<T> {
    /// A track without keyframes.
    pub fn new() -> (t: KeyframeTrack<T>)
        ensures
            t.keyframes@ == Seq::<Keyframe<T>>::empty(),
    {
        KeyframeTrack { keyframes: Vec::new() }
    }

    /// Inserts a keyframe: it replaces the first keyframe at its time; otherwise it
    /// is added and the keyframes are sorted by time.
    pub fn insert_keyframe(&mut self, kf: Keyframe<T>)
        ensures
            final(self).keyframes@ == insert_spec(old(self).keyframes@, kf),
    {
        let mut i: usize = 0;
        while i < self.keyframes.len()
            invariant
                i <= self.keyframes.len(),
                self.keyframes@ == old(self).keyframes@,
                forall|m: int| 0 <= m < i ==> (#[trigger] self.keyframes@[m]).time_ms != kf.time_ms,
            decreases self.keyframes.len() - i,
        {
            if self.keyframes[i].time_ms == kf.time_ms {
                proof {
                    lemma_first_index(self.keyframes@, |k: Keyframe<T>| k.time_ms == kf.time_ms, i as int);
                }
                self.keyframes.set(i, kf);
                return;
            }
            i = i + 1;
        }
        proof {
            lemma_first_index_none(self.keyframes@, |k: Keyframe<T>| k.time_ms == kf.time_ms);
        }
        self.keyframes.push(kf);
        let sorted = sorted_by_time(&self.keyframes);
        self.keyframes = sorted;
    }

    /// Removes the keyframes at time `time_ms`; whether there were any.
    pub fn remove_keyframe(&mut self, time_ms: u64) -> (removed: bool)
        ensures
            final(self).keyframes@ == remove_spec(old(self).keyframes@, time_ms),
            removed == (remove_spec(old(self).keyframes@, time_ms).len() != old(self).keyframes@.len()),
    {
        let ghost s = self.keyframes@;
        let mut kept: Vec<Keyframe<T>> = Vec::new();
        let mut i: usize = 0;
        while i < self.keyframes.len()
            invariant
                i <= self.keyframes.len(),
                self.keyframes@ == s,
                kept@ == s.take(i as int).filter(|k: Keyframe<T>| k.time_ms != time_ms),
            decreases self.keyframes.len() - i,
        {
            let k = self.keyframes[i];
            proof {
                assert(s.take(i + 1) =~= s.take(i as int).push(k));
                s.take(i as int).lemma_filter_push(k, |k: Keyframe<T>| k.time_ms != time_ms);
            }
            if k.time_ms != time_ms {
                kept.push(k);
            }
            i = i + 1;
        }
        assert(s.take(i as int) =~= s);
        let before = self.keyframes.len();
        let after = kept.len();
        self.keyframes = kept;
        before != after
    }
}


proof fn lemma_sorted_insert_has<T>(s: Seq<Keyframe<T>>, x: Keyframe<T>)
    ensures
        sorted_insert(s, x)[slot(s, x)] == x,
        0 <= slot(s, x) < sorted_insert(s, x).len(),
{
    lemma_slot_props(s, x);
}

/// Inserting a keyframe keeps a track in time order.
pub proof fn law_insert_keeps_time_order<T>(s: Seq<Keyframe<T>>, kf: Keyframe<T>)
    requires
        time_sorted(s),
    ensures
        time_sorted(insert_spec(s, kf)),
{
    lemma_first_index_props(s, |k: Keyframe<T>| k.time_ms == kf.time_ms);
    match first_index(s, |k: Keyframe<T>| k.time_ms == kf.time_ms) {
        Some(i) => {
            let r = s.update(i, kf);
            assert forall|a: int, b: int| 0 <= a <= b < r.len() implies r[a].time_ms <= r[b].time_ms by {
                assert(s[a].time_ms <= s[b].time_ms);
            }
        },
        None => {
            lemma_sort_by_time_sorted(s.push(kf));
        },
    }
}

/// After inserting a keyframe, the track holds it.
pub proof fn law_insert_then_holds<T>(s: Seq<Keyframe<T>>, kf: Keyframe<T>)
    ensures
        exists|i: int| 0 <= i < insert_spec(s, kf).len() && insert_spec(s, kf)[i] == kf,
{
    lemma_first_index_props(s, |k: Keyframe<T>| k.time_ms == kf.time_ms);
    match first_index(s, |k: Keyframe<T>| k.time_ms == kf.time_ms) {
        Some(i) => {
            assert(insert_spec(s, kf)[i] == kf);
        },
        None => {
            let t = s.push(kf);
            assert(t.drop_last() =~= s);
            lemma_sorted_insert_has(sort_by_time(s), kf);
            assert(insert_spec(s, kf)[slot(sort_by_time(s), kf)] == kf);
        },
    }
}

/// After removing the keyframes at a time, none is left at that time, and the
/// others keep their order.
pub proof fn law_remove_then_absent<T>(s: Seq<Keyframe<T>>, t: u64)
    ensures
        forall|i: int| 0 <= i < remove_spec(s, t).len() ==> (#[trigger] remove_spec(s, t)[i]).time_ms != t,
        time_sorted(s) ==> time_sorted(remove_spec(s, t)),
{
    let pred = |k: Keyframe<T>| k.time_ms != t;
    assert forall|i: int| 0 <= i < remove_spec(s, t).len() implies (#[trigger] remove_spec(s, t)[i]).time_ms != t by {
        s.lemma_filter_pred(pred, i);
    }
    if time_sorted(s) {
        lemma_filter_sorted(s, t);
    }
}

proof fn lemma_filter_sorted<T>(s: Seq<Keyframe<T>>, t: u64)
    requires
        time_sorted(s),
    ensures
        time_sorted(remove_spec(s, t)),
        forall|i: int| 0 <= i < remove_spec(s, t).len() ==> s.len() > 0 && (#[trigger] remove_spec(s, t)[i]).time_ms
            <= s.last().time_ms,
    decreases s.len(),
{
    let pred = |k: Keyframe<T>| k.time_ms != t;
    if s.len() > 0 {
        let d = s.drop_last();
        assert(time_sorted(d));
        lemma_filter_sorted(d, t);
        assert(s =~= d.push(s.last()));
        d.lemma_filter_push(s.last(), pred);
        let f = remove_spec(s, t);
        let g = remove_spec(d, t);
        assert forall|i: int| 0 <= i < g.len() implies (#[trigger] g[i]).time_ms <= s.last().time_ms by {
            assert(d.len() > 0);
            assert(d.last().time_ms <= s.last().time_ms);
        }
        assert forall|a: int, b: int| 0 <= a <= b < f.len() implies f[a].time_ms <= f[b].time_ms by {
            if pred(s.last()) {
                if b == g.len() {
                    if a < g.len() {
                        assert(f[a] == g[a]);
                    }
                } else {
                    assert(f[a] == g[a]);
                    assert(f[b] == g[b]);
                }
            } else {
                assert(f[a] == g[a]);
                assert(f[b] == g[b]);
            }
        }
    }
}

/// The keyframes are in strictly increasing time order: no two share a time.
pub open spec fn time_strict<T>(s: Seq<Keyframe<T>>) -> bool {
    forall|i: int, j: int| 0 <= i < j < s.len() ==> s[i].time_ms < s[j].time_ms
}

proof fn lemma_sort_sorted_is_same<T>(s: Seq<Keyframe<T>>)
    requires
        time_sorted(s),
    ensures
        sort_by_time(s) == s,
    decreases s.len(),
{
    if s.len() > 0 {
        let d = s.drop_last();
        assert(time_sorted(d));
        lemma_sort_sorted_is_same(d);
        assert forall|j: int| 0 <= j < d.len() implies !((#[trigger] d[j]).time_ms > s.last().time_ms) by {
            assert(d[j] == s[j]);
        }
        lemma_slot(d, s.last(), d.len() as int);
        assert(d.insert(d.len() as int, s.last()) =~= s);
    }
}

/// Inserting into a track whose keyframes have distinct times keeps them strictly
/// in time order; afterwards `kf` is the one keyframe at its time, every keyframe
/// at another time is still there, and the track grew by one exactly when no
/// keyframe was at `kf`'s time.
pub proof fn law_insert_keeps_strict_order<T>(s: Seq<Keyframe<T>>, kf: Keyframe<T>)
    requires
        time_strict(s),
    ensures
        time_strict(insert_spec(s, kf)),
        exists|i: int| 0 <= i < insert_spec(s, kf).len() && insert_spec(s, kf)[i] == kf,
        forall|j: int| 0 <= j < insert_spec(s, kf).len() && (#[trigger] insert_spec(s, kf)[j]).time_ms == kf.time_ms
            ==> insert_spec(s, kf)[j] == kf,
        forall|k: int| 0 <= k < s.len() && (#[trigger] s[k]).time_ms != kf.time_ms ==> insert_spec(s, kf).contains(s[k]),
        insert_spec(s, kf).len() == s.len() + (if exists|k: int| 0 <= k < s.len() && (#[trigger] s[k]).time_ms == kf.time_ms {
            0int
        } else {
            1int
        }),
{
    let p = |k: Keyframe<T>| k.time_ms == kf.time_ms;
    lemma_first_index_props(s, p);
    let r = insert_spec(s, kf);
    match first_index(s, p) {
        Some(i) => {
            assert(r == s.update(i, kf));
            assert(s[i].time_ms == kf.time_ms);
            assert forall|a: int, b: int| 0 <= a < b < r.len() implies r[a].time_ms < r[b].time_ms by {
                assert(s[a].time_ms < s[b].time_ms);
            }
            assert(r[i] == kf);
            assert forall|j: int| 0 <= j < r.len() && (#[trigger] r[j]).time_ms == kf.time_ms implies r[j] == kf by {
                if j != i {
                    assert(s[j].time_ms == s[i].time_ms);
                    if j < i {
                        assert(s[j].time_ms < s[i].time_ms);
                    } else {
                        assert(s[i].time_ms < s[j].time_ms);
                    }
                }
            }
            assert forall|k: int| 0 <= k < s.len() && (#[trigger] s[k]).time_ms != kf.time_ms implies r.contains(s[k]) by {
                assert(k != i);
                assert(r[k] == s[k]);
            }
        },
        None => {
            assert(time_sorted(s)) by {
                assert forall|a: int, b: int| 0 <= a <= b < s.len() implies s[a].time_ms <= s[b].time_ms by {
                    if a < b {
                        assert(s[a].time_ms < s[b].time_ms);
                    }
                }
            }
            let t = s.push(kf);
            assert(t.drop_last() =~= s);
            lemma_sort_sorted_is_same(s);
            assert(r == sorted_insert(s, kf));
            lemma_slot_props(s, kf);
            assert forall|k: int| 0 <= k < s.len() implies !((#[trigger] s[k]).time_ms == kf.time_ms) by {
                assert(!p(s[k]));
            }
            assert(r.len() == s.len() + 1);
            let q = slot(s, kf);
            assert forall|a: int, b: int| 0 <= a < b < r.len() implies r[a].time_ms < r[b].time_ms by {
                if a < q {
                    assert(r[a] == s[a]);
                    assert(!(s[a].time_ms > kf.time_ms) && !p(s[a]));
                }
                if b > q {
                    assert(r[b] == s[b - 1]);
                    assert(s[q].time_ms > kf.time_ms);
                    if q < b - 1 {
                        assert(s[q].time_ms < s[b - 1].time_ms);
                    }
                }
                if a < q && b < q {
                    assert(r[b] == s[b]);
                }
                if a > q {
                    assert(r[a] == s[a - 1]);
                }
            }
            assert(r[q] == kf);
            assert forall|j: int| 0 <= j < r.len() && (#[trigger] r[j]).time_ms == kf.time_ms implies r[j] == kf by {
                if j < q {
                    assert(r[j] == s[j]);
                    assert(!p(s[j]));
                } else if j > q {
                    assert(r[j] == s[j - 1]);
                    assert(!p(s[j - 1]));
                }
            }
            assert forall|k: int| 0 <= k < s.len() && (#[trigger] s[k]).time_ms != kf.time_ms implies r.contains(s[k]) by {
                if k < q {
                    assert(r[k] == s[k]);
                } else {
                    assert(r[k + 1] == s[k]);
                }
            }
        },
    }
}

proof fn lemma_filter_strict<T>(s: Seq<Keyframe<T>>, t: u64)
    requires
        time_strict(s),
    ensures
        time_strict(remove_spec(s, t)),
        forall|i: int| 0 <= i < remove_spec(s, t).len() ==> s.len() > 0 && (#[trigger] remove_spec(s, t)[i]).time_ms
            <= s.last().time_ms,
    decreases s.len(),
{
    let pred = |k: Keyframe<T>| k.time_ms != t;
    if s.len() > 0 {
        let d = s.drop_last();
        assert(time_strict(d));
        lemma_filter_strict(d, t);
        assert(s =~= d.push(s.last()));
        d.lemma_filter_push(s.last(), pred);
        let f = remove_spec(s, t);
        let g = remove_spec(d, t);
        assert forall|i: int| 0 <= i < g.len() implies (#[trigger] g[i]).time_ms < s.last().time_ms by {
            assert(d.len() > 0);
            assert(d.last().time_ms < s.last().time_ms);
        }
        assert forall|a: int, b: int| 0 <= a < b < f.len() implies f[a].time_ms < f[b].time_ms by {
            if pred(s.last()) && b == g.len() {
                assert(f[a] == g[a]);
            } else {
                assert(f[a] == g[a]);
                assert(f[b] == g[b]);
            }
        }
        assert forall|i: int| 0 <= i < f.len() implies s.len() > 0 && (#[trigger] f[i]).time_ms <= s.last().time_ms by {
            if i < g.len() {
                assert(f[i] == g[i]);
            }
        }
    }
}

/// Removing the keyframes at a time keeps a track's times distinct and in order;
/// a new track has none, so every track built by inserts and removals keeps them so.
pub proof fn law_remove_keeps_strict_order<T>(s: Seq<Keyframe<T>>, t: u64)
    requires
        time_strict(s),
    ensures
        time_strict(remove_spec(s, t)),
        time_strict(Seq::<Keyframe<T>>::empty()),
{
    lemma_filter_strict(s, t);
}

} // verus!
