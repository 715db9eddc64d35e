//! The reference registry: allocation of fresh references per kind, and the
//! association of registered references with their assets.

use vstd::prelude::*;
use crate::refs::{AetherError, Ref, RefKind};

verus! {

/// The category of the underlying asset.
#[derive(Debug, Clone, Copy, PartialEq, Eq, Structural)]
pub enum AssetKind {
    Video,
    Audio,
    Image,
    Animation,
}

/// Metadata and path of a registered asset. `metadata` holds the asset's JSON
/// metadata document as text.
#[derive(Debug, Clone, PartialEq, Eq)]
pub struct Asset {
    pub r: Ref,
    pub kind: AssetKind,
    pub path: String,
    pub hash: String,
    pub metadata: String,
}

impl Asset {
    /// A copy with the same fields.
    pub fn duplicate(&self) -> (c: Self)
        ensures
            c == *self,
    {
        Asset {
            r: self.r,
            kind: self.kind,
            path: self.path.clone(),
            hash: self.hash.clone(),
            metadata: self.metadata.clone(),
        }
    }
}

/// Registry allocating references and resolving registered ones.
#[derive(Debug)]
pub struct RefRegistry {
    next_video: u32,
    next_audio: u32,
    next_image: u32,
    next_animation: u32,
    next_generated: u32,
    entries: Vec<(Ref, Asset)>,
}

/// The references of a sequence of entries are pairwise distinct.
pub open spec fn distinct_keys(s: Seq<(Ref, Asset)>) -> bool {
    forall|i: int, j: int| 0 <= i < s.len() && 0 <= j < s.len() && i != j ==> s[i].0 != s[j].0
}

/// The map from reference to asset that a sequence of entries with distinct references stands for.
pub open spec fn assets_map(s: Seq<(Ref, Asset)>) -> Map<Ref, Asset> {
    Map::new(
        |r: Ref| exists|i: int| 0 <= i < s.len() && s[i].0 == r,
        |r: Ref| s[choose|i: int| 0 <= i < s.len() && s[i].0 == r].1,
    )
}

/// The assets of a list by their references, as a map that inserts them in order:
/// of two assets with one reference, the later one stays.
pub open spec fn assets_by_ref(s: Seq<Asset>) -> Map<Ref, Asset>
    decreases s.len(),
{
    if s.len() == 0 {
        Map::empty()
    } else {
        assets_by_ref(s.drop_last()).insert(s.last().r, s.last())
    }
}

/// The counter after one allocation: one more, wrapping at `u32::MAX` as an atomic
/// `fetch_add` does.
pub open spec fn next_counter(c: u32) -> u32 {
    if c == u32::MAX {
        0
    } else {
        (c + 1) as u32
    }
}

proof fn lemma_assets_map_index(s: Seq<(Ref, Asset)>, i: int)
    requires
        distinct_keys(s),
        0 <= i < s.len(),
    ensures
        assets_map(s).contains_key(s[i].0),
        assets_map(s)[s[i].0] == s[i].1,
{
    let r = s[i].0;
    assert(exists|j: int| 0 <= j < s.len() && s[j].0 == r);
    let j = choose|j: int| 0 <= j < s.len() && s[j].0 == r;
    assert(j == i);
}

impl View for RefRegistry {
    type V = Map<Ref, Asset>;

    closed spec fn view(&self) -> Map<Ref, Asset> {
        assets_map(self.entries@)
    }
}

impl RefRegistry {
    /// The registry's internal invariant: registered references are distinct.
    pub closed spec fn wf(&self) -> bool {
        distinct_keys(self.entries@)
    }

    /// The next id that `allocate` hands out for `kind`.
    pub closed spec fn counter(&self, kind: RefKind) -> u32 {
        match kind {
            RefKind::Video => self.next_video,
            RefKind::Audio => self.next_audio,
            RefKind::Image => self.next_image,
            RefKind::Animation => self.next_animation,
            RefKind::Generated => self.next_generated,
        }
    }

    /// A new registry: nothing registered, every kind starts at id 1.
    pub fn new() -> (reg: Self)
        ensures
            reg.wf(),
            reg@ == Map::<Ref, Asset>::empty(),
            forall|k: RefKind| #[trigger] reg.counter(k) == 1,
    {
        let reg = RefRegistry {
            next_video: 1,
            next_audio: 1,
            next_image: 1,
            next_animation: 1,
            next_generated: 1,
            entries: Vec::new(),
        };
        assert(reg@ =~= Map::<Ref, Asset>::empty());
        reg
    }

    /// Allocates the next reference of `kind`; registered assets are unchanged.
    pub fn allocate(&mut self, kind: RefKind) -> (r: Ref)
        requires
            old(self).wf(),
        ensures
            final(self).wf(),
            r == (Ref { kind, id: old(self).counter(kind) }),
            final(self).counter(kind) == next_counter(old(self).counter(kind)),
            forall|k: RefKind| k != kind ==> #[trigger] final(self).counter(k) == old(self).counter(k),
            final(self)@ == old(self)@,
    {
        let id = match kind {
            RefKind::Video => {
                let v = self.next_video;
                self.next_video = v.wrapping_add(1);
                v
            },
            RefKind::Audio => {
                let v = self.next_audio;
                self.next_audio = v.wrapping_add(1);
                v
            },
            RefKind::Image => {
                let v = self.next_image;
                self.next_image = v.wrapping_add(1);
                v
            },
            RefKind::Animation => {
                let v = self.next_animation;
                self.next_animation = v.wrapping_add(1);
                v
            },
            RefKind::Generated => {
                let v = self.next_generated;
                self.next_generated = v.wrapping_add(1);
                v
            },
        };
        Ref { kind, id }
    }

    fn find(&self, r: &Ref) -> (idx: Option<usize>)
        requires
            self.wf(),
        ensures
            match idx {
                Some(i) => i < self.entries@.len() && self.entries@[i as int].0 == *r,
                None => !self@.contains_key(*r),
            },
    {
        let mut i: usize = 0;
        while i < self.entries.len()
            invariant
                i <= self.entries@.len(),
                forall|j: int| 0 <= j < i ==> self.entries@[j].0 != *r,
            decreases self.entries.len() - i,
        {
            if self.entries[i].0 == *r {
                return Some(i);
            }
            i = i + 1;
        }
        None
    }

    /// Registers `asset` under `r`; fails, changing nothing, when `r` is already registered.
    pub fn register(&mut self, r: Ref, asset: Asset) -> (res: Result<(), AetherError>)
        requires
            old(self).wf(),
        ensures
            final(self).wf(),
            forall|k: RefKind| #[trigger] final(self).counter(k) == old(self).counter(k),
            old(self)@.contains_key(r) ==> res == Err::<(), AetherError>(AetherError::RefAlreadyExists(r))
                && final(self)@ == old(self)@,
            !old(self)@.contains_key(r) ==> res == Ok::<(), AetherError>(()) && final(self)@
                == old(self)@.insert(r, asset),
    {
        match self.find(&r) {
            Some(i) => {
                proof {
                    lemma_assets_map_index(self.entries@, i as int);
                }
                Err(AetherError::RefAlreadyExists(r))
            },
            None => {
                let ghost old_entries = self.entries@;
                self.entries.push((r, asset));
                proof {
                    let s = self.entries@;
                    assert(s == old_entries.push((r, asset)));
                    assert(distinct_keys(s));
                    assert forall|k: Ref| #[trigger] assets_map(s).contains_key(k) == old(self)@.insert(r, asset).contains_key(k) by {
                        if exists|i: int| 0 <= i < old_entries.len() && old_entries[i].0 == k {
                            let i = choose|i: int| 0 <= i < old_entries.len() && old_entries[i].0 == k;
                            assert(s[i].0 == k);
                        }
                        if exists|i: int| 0 <= i < s.len() && s[i].0 == k {
                            let i = choose|i: int| 0 <= i < s.len() && s[i].0 == k;
                            if i < old_entries.len() {
                                assert(old_entries[i].0 == k);
                            }
                        }
                        if k == r {
                            assert(s[s.len() - 1].0 == r);
                        }
                    }
                    assert forall|k: Ref| #[trigger] assets_map(s).contains_key(k) implies assets_map(s)[k] == old(self)@.insert(r, asset)[k] by {
                        let i = choose|i: int| 0 <= i < s.len() && s[i].0 == k;
                        lemma_assets_map_index(s, i);
                        if i < old_entries.len() {
                            assert(old_entries[i] == s[i]);
                            lemma_assets_map_index(old_entries, i);
                        }
                    }
                    assert(assets_map(s) =~= old(self)@.insert(r, asset));
                }
                Ok(())
            },
        }
    }

    /// The asset registered under `r`, or `RefNotFound(r)`.
    pub fn resolve(&self, r: &Ref) -> (res: Result<Asset, AetherError>)
        requires
            self.wf(),
        ensures
            self@.contains_key(*r) ==> res == Ok::<Asset, AetherError>(self@[*r]),
            !self@.contains_key(*r) ==> res == Err::<Asset, AetherError>(AetherError::RefNotFound(*r)),
    {
        match self.find(r) {
            Some(i) => {
                proof {
                    lemma_assets_map_index(self.entries@, i as int);
                }
                Ok(self.entries[i].1.duplicate())
            },
            None => Err(AetherError::RefNotFound(*r)),
        }
    }

    /// Unregisters `r`; returns whether it was registered.
    pub fn free(&mut self, r: &Ref) -> (was: bool)
        requires
            old(self).wf(),
        ensures
            final(self).wf(),
            was == old(self)@.contains_key(*r),
            final(self)@ == old(self)@.remove(*r),
            forall|k: RefKind| #[trigger] final(self).counter(k) == old(self).counter(k),
    {
        match self.find(r) {
            Some(i) => {
                let ghost old_assets = self.entries@;
                proof {
                    lemma_assets_map_index(old_assets, i as int);
                }
                self.entries.remove(i);
                proof {
                    let s = self.entries@;
                    assert(s =~= old_assets.remove(i as int));
                    assert forall|a: int, b: int| 0 <= a < s.len() && 0 <= b < s.len() && a != b implies s[a].0 != s[b].0 by {
                        let oa = if a < i { a } else { a + 1 };
                        let ob = if b < i { b } else { b + 1 };
                        assert(s[a] == old_assets[oa]);
                        assert(s[b] == old_assets[ob]);
                    }
                    assert forall|k: Ref| #[trigger] assets_map(s).contains_key(k) == old(self)@.remove(*r).contains_key(k) by {
                        if exists|j: int| 0 <= j < s.len() && s[j].0 == k {
                            let j = choose|j: int| 0 <= j < s.len() && s[j].0 == k;
                            let oj = if j < i { j } else { j + 1 };
                            assert(old_assets[oj].0 == k);
                            assert(oj != i);
                        }
                        if exists|j: int| 0 <= j < old_assets.len() && old_assets[j].0 == k {
                            let j = choose|j: int| 0 <= j < old_assets.len() && old_assets[j].0 == k;
                            if k != *r {
                                assert(j != i);
                                let sj = if j < i { j } else { j - 1 };
                                assert(s[sj].0 == k);
                            }
                        }
                    }
                    assert forall|k: Ref| #[trigger] assets_map(s).contains_key(k) implies assets_map(s)[k] == old(self)@.remove(*r)[k] by {
                        let j = choose|j: int| 0 <= j < s.len() && s[j].0 == k;
                        lemma_assets_map_index(s, j);
                        let oj = if j < i { j } else { j + 1 };
                        assert(old_assets[oj] == s[j]);
                        lemma_assets_map_index(old_assets, oj);
                    }
                    assert(assets_map(s) =~= old(self)@.remove(*r));
                }
                true
            },
            None => {
                assert(self@ =~= old(self)@.remove(*r));
                false
            },
        }
    }

    /// A copy of the registry: the same counters and the same registered assets.
    pub fn duplicate(&self) -> (c: Self)
        requires
            self.wf(),
        ensures
            c.wf(),
            c@ == self@,
            forall|k: RefKind| #[trigger] c.counter(k) == self.counter(k),
    {
        let mut entries: Vec<(Ref, Asset)> = Vec::new();
        let mut i: usize = 0;
        while i < self.entries.len()
            invariant
                i <= self.entries@.len(),
                entries@ == self.entries@.take(i as int),
            decreases self.entries.len() - i,
        {
            let e = &self.entries[i];
            entries.push((e.0, e.1.duplicate()));
            proof {
                assert(self.entries@.take(i + 1) =~= self.entries@.take(i as int).push(self.entries@[i as int]));
            }
            i = i + 1;
        }
        assert(entries@ =~= self.entries@);
        RefRegistry {
            next_video: self.next_video,
            next_audio: self.next_audio,
            next_image: self.next_image,
            next_animation: self.next_animation,
            next_generated: self.next_generated,
            entries,
        }
    }

    /// Replaces the registered assets by `assets`, one after the other (a later
    /// asset with the reference of an earlier one takes its place); the counters
    /// stay as they are.
    pub fn replace_assets(&mut self, assets: &Vec<Asset>)
        requires
            old(self).wf(),
        ensures
            final(self).wf(),
            final(self)@ == assets_by_ref(assets@),
            forall|k: RefKind| #[trigger] final(self).counter(k) == old(self).counter(k),
    {
        self.entries = Vec::new();
        assert(self@ =~= Map::<Ref, Asset>::empty());
        let mut i: usize = 0;
        while i < assets.len()
            invariant
                self.wf(),
                i <= assets@.len(),
                self@ == assets_by_ref(assets@.take(i as int)),
                forall|k: RefKind| #[trigger] self.counter(k) == old(self).counter(k),
            decreases assets.len() - i,
        {
            let a = &assets[i];
            self.free(&a.r);
            let _ = self.register(a.r, a.duplicate());
            proof {
                assert(assets@.take(i + 1).drop_last() =~= assets@.take(i as int));
            }
            i = i + 1;
        }
        assert(assets@.take(assets@.len() as int) =~= assets@);
    }

    /// Every registered asset, once each, in no particular order.
    pub fn list_assets(&self) -> (v: Vec<Asset>)
        requires
            self.wf(),
        ensures
            v@.len() == self@.len(),
            exists|keys: Seq<Ref>| #![trigger keys.len()]
                keys.len() == v@.len() && keys.no_duplicates() && keys.to_set() == self@.dom()
                && forall|i: int| 0 <= i < keys.len() ==> #[trigger] self@[keys[i]] == v@[i],
    {
        let mut v: Vec<Asset> = Vec::new();
        let mut i: usize = 0;
        while i < self.entries.len()
            invariant
                self.wf(),
                i <= self.entries@.len(),
                v@.len() == i,
                forall|j: int| 0 <= j < i ==> #[trigger] v@[j] == self.entries@[j].1,
            decreases self.entries.len() - i,
        {
            v.push(self.entries[i].1.duplicate());
            i = i + 1;
        }
        proof {
            let s = self.entries@;
            let keys = s.map_values(|e: (Ref, Asset)| e.0);
            assert(keys.no_duplicates()) by {
                assert forall|a: int, b: int| 0 <= a < keys.len() && 0 <= b < keys.len() && a != b implies keys[a] != keys[b] by {}
            }
            assert(keys.to_set() =~= self@.dom()) by {
                assert forall|k: Ref| #[trigger] keys.to_set().contains(k) == self@.dom().contains(k) by {
                    if keys.to_set().contains(k) {
                        assert(keys.contains(k));
                        let j = choose|j: int| 0 <= j < keys.len() && keys[j] == k;
                        assert(s[j].0 == k);
                    }
                    if self@.dom().contains(k) {
                        let j = choose|j: int| 0 <= j < s.len() && s[j].0 == k;
                        assert(keys[j] == k);
                        assert(keys.contains(k));
                    }
                }
            }
            assert forall|j: int| 0 <= j < keys.len() implies #[trigger] self@[keys[j]] == v@[j] by {
                lemma_assets_map_index(s, j);
            }
            lemma_assets_map_len(s);
        }
        v
    }
}

proof fn lemma_assets_map_len(s: Seq<(Ref, Asset)>)
    requires
        distinct_keys(s),
    ensures
        assets_map(s).dom().finite(),
        assets_map(s).len() == s.len(),
    decreases s.len(),
{
    if s.len() == 0 {
        assert(assets_map(s).dom() =~= Set::<Ref>::empty());
    } else {
        let t = s.drop_last();
        assert(distinct_keys(t));
        lemma_assets_map_len(t);
        assert(assets_map(s).dom() =~= assets_map(t).dom().insert(s.last().0)) by {
            assert forall|k: Ref| #[trigger] assets_map(s).dom().contains(k) == assets_map(t).dom().insert(s.last().0).contains(k) by {
                if exists|j: int| 0 <= j < s.len() && s[j].0 == k {
                    let j = choose|j: int| 0 <= j < s.len() && s[j].0 == k;
                    if j < t.len() {
                        assert(t[j].0 == k);
                    }
                }
                if exists|j: int| 0 <= j < t.len() && t[j].0 == k {
                    let j = choose|j: int| 0 <= j < t.len() && t[j].0 == k;
                    assert(s[j].0 == k);
                }
                if k == s.last().0 {
                    assert(s[s.len() - 1].0 == k);
                }
            }
        }
        assert(!assets_map(t).dom().contains(s.last().0)) by {
            if exists|j: int| 0 <= j < t.len() && t[j].0 == s.last().0 {
                let j = choose|j: int| 0 <= j < t.len() && t[j].0 == s.last().0;
                assert(s[j].0 == s[s.len() - 1].0);
            }
        }
    }
}

/// Registering an unregistered reference and then resolving it gives back the asset
/// that was registered; freeing it then makes it unresolvable again.
pub proof fn law_register_resolve_free(m: Map<Ref, Asset>, r: Ref, a: Asset)
    requires
        !m.contains_key(r),
    ensures
        m.insert(r, a).contains_key(r),
        m.insert(r, a)[r] == a,
        !m.insert(r, a).remove(r).contains_key(r),
        m.insert(r, a).remove(r) == m,
{
    assert(m.insert(r, a).remove(r) =~= m);
}

/// Successive allocations of one kind hand out distinct ids until the counter wraps
/// around `u32::MAX`: `n` allocations starting from counter `c` give `c, c+1, ...`.
pub proof fn law_allocation_fresh(c: u32, n: nat)
    requires
        c as nat + n <= u32::MAX as nat + 1,
    ensures
        forall|i: nat| #![trigger iter_counter(c, i)] i < n ==> iter_counter(c, i) == c as nat + i,
        forall|i: nat, j: nat| i < j < n ==> #[trigger] iter_counter(c, i) != #[trigger] iter_counter(c, j),
    decreases n,
{
    if n > 1 {
        law_allocation_fresh(c, (n - 1) as nat);
        let m = (n - 2) as nat;
        assert(iter_counter(c, m) == c as nat + m);
        assert(iter_counter(c, (n - 1) as nat) == next_counter(iter_counter(c, m)));
    } else if n == 1 {
        assert(iter_counter(c, 0) == c);
    }
}

/// The counter after `i` allocations starting from `c`.
pub open spec fn iter_counter(c: u32, i: nat) -> u32
    decreases i,
{
    if i == 0 {
        c
    } else {
        next_counter(iter_counter(c, (i - 1) as nat))
    }
}

} // verus!
