use vstd::prelude::*;

use crate::text::{insert_sorted_unique, lemma_push_to_set, seq_lt, str_eq, strictly_ascending, texts};

verus! {

/// The modules each strategy mounted in the end.
#[derive(Debug)]
pub struct ExecutionResult {
    pub overlay_module_ids: Vec<String>,
    pub magic_module_ids: Vec<String>,
}

/// Follows the outcome of each overlay operation, moving the modules of a failed one to
/// magic mount.
pub struct ExecutionTracker {
    overlay: Vec<String>,
    magic: Vec<String>,
}

/// Tells whether a strictly ascending list holds `s`.
pub fn sorted_contains(v: &Vec<String>, s: &str) -> (r: bool)
    ensures
        r == texts(v@).contains(s@),
{
    let n = v.len();
    let mut i: usize = 0;
    while i < n
        invariant
            n == v@.len(),
            i <= n,
            forall|k: int| 0 <= k < i ==> (#[trigger] v@[k])@ != s@,
        decreases n - i,
    {
        if str_eq(v[i].as_str(), s) {
            assert(texts(v@)[i as int] == s@);
            return true;
        }
        i = i + 1;
    }
    proof {
        if texts(v@).contains(s@) {
            let k = choose|k: int| 0 <= k < texts(v@).len() && #[trigger] texts(v@)[k] == s@;
            assert(v@[k]@ == s@);
        }
    }
    false
}

/// Copies a strictly ascending list.
pub fn copy_ids(v: &Vec<String>) -> (r: Vec<String>)
    ensures
        texts(r@) == texts(v@),
{
    let n = v.len();
    let mut r: Vec<String> = Vec::new();
    let mut i: usize = 0;
    while i < n
        invariant
            n == v@.len(),
            i <= n,
            r@.len() == i,
            forall|j: int| 0 <= j < i ==> (#[trigger] r@[j])@ == v@[j]@,
        decreases n - i,
    {
        r.push(v[i].clone());
        i = i + 1;
    }
    assert(texts(r@) =~= texts(v@));
    r
}

impl ExecutionTracker {
    pub closed spec fn wf(&self) -> bool {
        &&& strictly_ascending(texts(self.overlay@))
        &&& strictly_ascending(texts(self.magic@))
    }

    /// Modules whose overlay operations all succeeded so far (a module that also goes by
    /// magic mount is taken out in the end).
    pub closed spec fn overlay_set(&self) -> Set<Seq<char>> {
        texts(self.overlay@).to_set()
    }

    /// Modules due for magic mount: those the plan gave it, and those of failed overlays.
    pub closed spec fn magic_set(&self) -> Set<Seq<char>> {
        texts(self.magic@).to_set()
    }

    /// Starts from the modules that the plan gives to magic mount.
    pub fn new(plan_magic_ids: &Vec<String>) -> (r: ExecutionTracker)
        ensures
            r.wf(),
            r.overlay_set() == Set::<Seq<char>>::empty(),
            r.magic_set() == texts(plan_magic_ids@).to_set(),
    {
        let mut magic: Vec<String> = Vec::new();
        let n = plan_magic_ids.len();
        let mut i: usize = 0;
        assert(texts(magic@).to_set() =~= texts(plan_magic_ids@).subrange(0, 0).to_set());
        while i < n
            invariant
                n == plan_magic_ids@.len(),
                i <= n,
                strictly_ascending(texts(magic@)),
                texts(magic@).to_set() == texts(plan_magic_ids@).subrange(0, i as int).to_set(),
            decreases n - i,
        {
            insert_sorted_unique(&mut magic, plan_magic_ids[i].clone());
            assert(texts(plan_magic_ids@).subrange(0, i + 1) =~= texts(plan_magic_ids@).subrange(
                0,
                i as int,
            ).push(plan_magic_ids@[i as int]@));
            proof {
                lemma_push_to_set(texts(plan_magic_ids@).subrange(0, i as int), plan_magic_ids@[i as int]@);
            }
            i = i + 1;
        }
        assert(texts(plan_magic_ids@).subrange(0, n as int) =~= texts(plan_magic_ids@));
        let r = ExecutionTracker { overlay: Vec::new(), magic };
        assert(texts(r.overlay@).to_set() =~= Set::<Seq<char>>::empty());
        r
    }

    /// Records the outcome of one overlay operation over the modules `ids`.
    pub fn record_overlay(&mut self, ids: &Vec<String>, mounted: bool)
        requires
            old(self).wf(),
        ensures
            final(self).wf(),
            mounted ==> final(self).overlay_set() == old(self).overlay_set().union(
                texts(ids@).to_set(),
            ) && final(self).magic_set() == old(self).magic_set(),
            !mounted ==> final(self).magic_set() == old(self).magic_set().union(
                texts(ids@).to_set(),
            ) && final(self).overlay_set() == old(self).overlay_set(),
    {
        let n = ids.len();
        let mut i: usize = 0;
        let ghost o0 = self.overlay_set();
        let ghost m0 = self.magic_set();
        assert(texts(ids@).subrange(0, 0).to_set() =~= Set::<Seq<char>>::empty());
        assert(o0.union(Set::<Seq<char>>::empty()) =~= o0);
        assert(m0.union(Set::<Seq<char>>::empty()) =~= m0);
        while i < n
            invariant
                n == ids@.len(),
                i <= n,
                self.wf(),
                mounted ==> self.overlay_set() == o0.union(
                    texts(ids@).subrange(0, i as int).to_set(),
                ) && self.magic_set() == m0,
                !mounted ==> self.magic_set() == m0.union(
                    texts(ids@).subrange(0, i as int).to_set(),
                ) && self.overlay_set() == o0,
            decreases n - i,
        {
            let ghost x = ids@[i as int]@;
            assert(texts(ids@).subrange(0, i + 1) =~= texts(ids@).subrange(0, i as int).push(x));
            proof {
                lemma_push_to_set(texts(ids@).subrange(0, i as int), x);
            }
            if mounted {
                insert_sorted_unique(&mut self.overlay, ids[i].clone());
                assert(self.overlay_set() =~= o0.union(
                    texts(ids@).subrange(0, i + 1).to_set(),
                ));
            } else {
                insert_sorted_unique(&mut self.magic, ids[i].clone());
                assert(self.magic_set() =~= m0.union(texts(ids@).subrange(0, i + 1).to_set()));
            }
            i = i + 1;
        }
        assert(texts(ids@).subrange(0, n as int) =~= texts(ids@));
    }

    /// The modules due for magic mount, in ascending order.
    pub fn magic_queue(&self) -> (r: Vec<String>)
        requires
            self.wf(),
        ensures
            strictly_ascending(texts(r@)),
            texts(r@).to_set() == self.magic_set(),
    {
        copy_ids(&self.magic)
    }

    /// The final classification. A module is reported by its final outcome: one due for
    /// magic mount is not an overlay module; when the magic mount failed as a whole
    /// (`magic_ok` false), no module is reported as magic.
    pub fn finish(self, magic_ok: bool) -> (r: ExecutionResult)
        requires
            self.wf(),
        ensures
            strictly_ascending(texts(r.overlay_module_ids@)),
            strictly_ascending(texts(r.magic_module_ids@)),
            texts(r.overlay_module_ids@).to_set() == self.overlay_set().difference(
                self.magic_set(),
            ),
            texts(r.magic_module_ids@).to_set() == (if magic_ok {
                self.magic_set()
            } else {
                Set::<Seq<char>>::empty()
            }),
            texts(r.overlay_module_ids@).to_set().disjoint(texts(r.magic_module_ids@).to_set()),
    {
        let ExecutionTracker { overlay, magic } = self;
        let ghost ot = texts(overlay@);
        let n = overlay.len();
        let mut kept: Vec<String> = Vec::new();
        let mut i: usize = 0;
        while i < n
            invariant
                n == overlay@.len(),
                ot == texts(overlay@),
                strictly_ascending(ot),
                i <= n,
                strictly_ascending(texts(kept@)),
                forall|a: int, b: int|
                    0 <= a < kept@.len() && i <= b < n ==> seq_lt(
                        #[trigger] texts(kept@)[a],
                        #[trigger] ot[b],
                    ),
                texts(kept@).to_set() == ot.subrange(0, i as int).to_set().difference(
                    texts(magic@).to_set(),
                ),
            decreases n - i,
        {
            let ghost x = ot[i as int];
            assert(ot.subrange(0, i + 1) =~= ot.subrange(0, i as int).push(x));
            proof {
                lemma_push_to_set(ot.subrange(0, i as int), x);
            }
            if !sorted_contains(&magic, overlay[i].as_str()) {
                let ghost k0 = texts(kept@);
                kept.push(overlay[i].clone());
                assert(texts(kept@) =~= k0.push(x));
                assert(texts(kept@).to_set() =~= ot.subrange(0, i + 1).to_set().difference(
                    texts(magic@).to_set(),
                )) by {
                    lemma_push_to_set(k0, x);
                }
            } else {
                assert(texts(kept@).to_set() =~= ot.subrange(0, i + 1).to_set().difference(
                    texts(magic@).to_set(),
                ));
            }
            i = i + 1;
        }
        assert(ot.subrange(0, n as int) =~= ot);
        let magic_ids = if magic_ok {
            magic
        } else {
            Vec::new()
        };
        assert(texts(Seq::<String>::empty()).to_set() =~= Set::<Seq<char>>::empty());
        assert(texts(kept@).to_set().disjoint(texts(magic_ids@).to_set()));
        ExecutionResult { overlay_module_ids: kept, magic_module_ids: magic_ids }
    }
}

/// A module is never reported by both strategies: the overlay and magic results of any
/// finished tracker are disjoint.
pub proof fn lemma_strategies_disjoint(o: Set<Seq<char>>, m: Set<Seq<char>>, magic_ok: bool)
    ensures
        o.difference(m).disjoint(if magic_ok { m } else { Set::empty() }),
{
}

} // verus!
