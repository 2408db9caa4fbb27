use vstd::prelude::*;

use crate::config::{ModuleRules, MountMode};
use crate::paths::{
    file_name, join, joined, last_component, parent_dir, parent_of, partition_label,
    top_component,
};
use crate::text::{insert_sorted_unique, str_eq, strictly_ascending, texts};

verus! {

/// The partitions the engine knows without being told.
pub open spec fn is_builtin_partition(n: Seq<char>) -> bool {
    ||| n == "system"@
    ||| n == "vendor"@
    ||| n == "product"@
    ||| n == "system_ext"@
    ||| n == "odm"@
    ||| n == "oem"@
    ||| n == "apex"@
}

/// A target whose final component is a partition root (`system` or a sensitive one) is
/// never overlaid whole: the module's subdirectories are overlaid one by one instead.
pub open spec fn splits_at(target: Seq<char>) -> bool {
    is_builtin_partition(last_component(target))
}

/// The readable partition label of a target.
pub open spec fn label_of(target: Seq<char>) -> Seq<char> {
    if top_component(target).len() > 0 {
        top_component(target)
    } else {
        "unknown"@
    }
}

pub fn is_builtin_partition_name(n: &str) -> (r: bool)
    ensures
        r == is_builtin_partition(n@),
{
    str_eq(n, "system") || str_eq(n, "vendor") || str_eq(n, "product") || str_eq(n, "system_ext")
        || str_eq(n, "odm") || str_eq(n, "oem") || str_eq(n, "apex")
}

/// One overlay mount: the lower directories stacked on a live target, topmost first.
#[derive(Debug)]
pub struct OverlayOperation {
    pub partition_name: String,
    pub target: String,
    pub lowerdirs: Vec<String>,
    /// The module that contributes each lower directory.
    pub module_ids: Vec<String>,
}

impl OverlayOperation {
    /// The laws every operation of a plan obeys.
    pub open spec fn well_formed(&self) -> bool {
        &&& self.lowerdirs@.len() >= 1
        &&& self.lowerdirs@.len() == self.module_ids@.len()
        &&& !splits_at(self.target@)
        &&& self.partition_name@ == label_of(self.target@)
    }
}

/// What the planner decided: overlay operations and the modules that go by magic mount.
#[derive(Debug)]
pub struct MountPlan {
    pub overlay_ops: Vec<OverlayOperation>,
    pub overlay_module_ids: Vec<String>,
    pub magic_module_ids: Vec<String>,
}

/// A piece of a module waiting to be placed: its directory in the mirror, the live path
/// it covers, and the path relative to the module root.
#[derive(Debug)]
pub struct ProcessingItem {
    pub module_id: String,
    pub module_source: String,
    pub system_target: String,
    pub relative_path: String,
}

/// The texts of a processing item.
pub struct ItemView {
    pub module_id: Seq<char>,
    pub module_source: Seq<char>,
    pub system_target: Seq<char>,
    pub relative_path: Seq<char>,
}

impl View for ProcessingItem {
    type V = ItemView;

    open spec fn view(&self) -> ItemView {
        ItemView {
            module_id: self.module_id@,
            module_source: self.module_source@,
            system_target: self.system_target@,
            relative_path: self.relative_path@,
        }
    }
}

/// What becomes of one top-level directory of a module.
#[derive(Clone, Copy, Debug, PartialEq, Eq, Structural)]
pub enum PartitionAction {
    Skip,
    Magic,
    Overlay,
}

/// The decision for a top-level directory `name` of a module.
pub open spec fn partition_action(
    rules: ModuleRules,
    name: Seq<char>,
    extra: Seq<Seq<char>>,
) -> PartitionAction {
    if !is_builtin_partition(name) && !extra.contains(name) {
        PartitionAction::Skip
    } else {
        match rules.mode_of(name) {
            MountMode::Ignore => PartitionAction::Skip,
            MountMode::Magic => PartitionAction::Magic,
            MountMode::Overlay => PartitionAction::Overlay,
        }
    }
}

/// Decides what becomes of a module's top-level directory: a partition the engine does not
/// handle is skipped, else the module's rules for it decide.
pub fn classify_partition(rules: &ModuleRules, dir_name: &str, extra_partitions: &Vec<String>) -> (r:
    PartitionAction)
    ensures
        r == partition_action(*rules, dir_name@, texts(extra_partitions@)),
{
    let mut allowed = is_builtin_partition_name(dir_name);
    let n = extra_partitions.len();
    let mut i: usize = 0;
    while i < n && !allowed
        invariant
            n == extra_partitions@.len(),
            i <= n,
            allowed == (is_builtin_partition(dir_name@) || texts(extra_partitions@).subrange(
                0,
                i as int,
            ).contains(dir_name@)),
        decreases n - i,
    {
        let ghost t = texts(extra_partitions@);
        if str_eq(extra_partitions[i].as_str(), dir_name) {
            allowed = true;
            assert(t.subrange(0, i + 1)[i as int] == dir_name@);
        }
        assert forall|x: Seq<char>| t.subrange(0, i + 1).contains(x) implies (t.subrange(
            0,
            i as int,
        ).contains(x) || x == t[i as int]) by {
            let k = choose|k: int| 0 <= k < i + 1 && #[trigger] t.subrange(0, i + 1)[k] == x;
            if k < i {
                assert(t.subrange(0, i as int)[k] == x);
            }
        }
        i = i + 1;
    }
    proof {
        let t = texts(extra_partitions@);
        if !allowed {
            assert(t.subrange(0, n as int) =~= t);
        } else if !is_builtin_partition(dir_name@) {
            let k = choose|k: int| 0 <= k < i && #[trigger] t.subrange(0, i as int)[k] == dir_name@;
            assert(t[k] == dir_name@);
        }
    }
    if !allowed {
        return PartitionAction::Skip;
    }
    match rules.get_mode(dir_name) {
        MountMode::Ignore => PartitionAction::Skip,
        MountMode::Magic => PartitionAction::Magic,
        MountMode::Overlay => PartitionAction::Overlay,
    }
}

/// Where a symlink at `system_target` leads: an absolute link as it stands, a relative
/// one against the link's directory.
pub open spec fn link_destination(system_target: Seq<char>, link: Seq<char>) -> Seq<char> {
    if link.len() > 0 && link[0] == '/' {
        link
    } else {
        joined(parent_of(system_target), link)
    }
}

pub fn resolve_link(system_target: &str, link: &str) -> (r: String)
    ensures
        r@ == link_destination(system_target@, link@),
{
    if link.unicode_len() > 0 && link.get_char(0) == '/' {
        String::from_str(link)
    } else {
        let parent = parent_dir(system_target);
        join(parent.as_str(), link)
    }
}

/// Computes a mount plan step by step. The caller feeds it each module's top-level
/// directories, then takes items off its queue, resolves each live target on the system,
/// and hands back the canonical target and the item's subdirectories.
pub struct Planner {
    queue: Vec<ProcessingItem>,
    head: usize,
    groups: Vec<OverlayOperation>,
    overlay_ids: Vec<String>,
    magic_ids: Vec<String>,
}

impl Planner {
    pub closed spec fn wf(&self) -> bool {
        &&& self.head <= self.queue@.len()
        &&& strictly_ascending(texts(self.overlay_ids@))
        &&& strictly_ascending(texts(self.magic_ids@))
        &&& forall|k: int| 0 <= k < self.groups@.len() ==> (#[trigger] self.groups@[k]).well_formed()
        &&& forall|i: int, j: int|
            0 <= i < j < self.groups@.len() ==> (#[trigger] self.groups@[i]).target@ != (
            #[trigger] self.groups@[j]).target@
    }

    /// The items still to be placed, in order.
    pub closed spec fn pending(&self) -> Seq<ItemView> {
        self.queue@.subrange(self.head as int, self.queue@.len() as int).map_values(
            |it: ProcessingItem| it@,
        )
    }

    /// The overlay groups so far, in the order their targets first came.
    pub closed spec fn groups_view(&self) -> Seq<OverlayOperation> {
        self.groups@
    }

    pub closed spec fn overlay_set(&self) -> Set<Seq<char>> {
        texts(self.overlay_ids@).to_set()
    }

    pub closed spec fn magic_set(&self) -> Set<Seq<char>> {
        texts(self.magic_ids@).to_set()
    }

    pub fn new() -> (r: Planner)
        ensures
            r.wf(),
            r.pending().len() == 0,
            r.groups_view().len() == 0,
            r.overlay_set() == Set::<Seq<char>>::empty(),
            r.magic_set() == Set::<Seq<char>>::empty(),
    {
        let r = Planner {
            queue: Vec::new(),
            head: 0,
            groups: Vec::new(),
            overlay_ids: Vec::new(),
            magic_ids: Vec::new(),
        };
        assert(texts(r.overlay_ids@).to_set() =~= Set::<Seq<char>>::empty());
        assert(texts(r.magic_ids@).to_set() =~= Set::<Seq<char>>::empty());
        r
    }

    /// Records what `classify_partition` decided for a module's top-level directory
    /// `dir_name`, whose content lies at `dir_path`.
    pub fn add_partition(
        &mut self,
        module_id: &str,
        dir_name: &str,
        dir_path: &str,
        action: PartitionAction,
    )
        requires
            old(self).wf(),
        ensures
            final(self).wf(),
            final(self).groups_view() == old(self).groups_view(),
            final(self).magic_set() == (if action == PartitionAction::Magic {
                old(self).magic_set().insert(module_id@)
            } else {
                old(self).magic_set()
            }),
            final(self).overlay_set() == (if action == PartitionAction::Overlay {
                old(self).overlay_set().insert(module_id@)
            } else {
                old(self).overlay_set()
            }),
            action == PartitionAction::Overlay ==> final(self).pending().len() == old(
                self,
            ).pending().len() + 1 && final(self).pending().drop_last() == old(self).pending()
                && final(self).pending().last().module_id == module_id@
                && final(self).pending().last().module_source == dir_path@
                && final(self).pending().last().system_target == joined("/"@, dir_name@)
                && final(self).pending().last().relative_path == dir_name@,
            action != PartitionAction::Overlay ==> final(self).pending() == old(self).pending(),
    {
        match action {
            PartitionAction::Skip => {},
            PartitionAction::Magic => {
                insert_sorted_unique(&mut self.magic_ids, String::from_str(module_id));
            },
            PartitionAction::Overlay => {
                insert_sorted_unique(&mut self.overlay_ids, String::from_str(module_id));
                let ghost before = self.queue@;
                self.queue.push(
                    ProcessingItem {
                        module_id: String::from_str(module_id),
                        module_source: String::from_str(dir_path),
                        system_target: join("/", dir_name),
                        relative_path: String::from_str(dir_name),
                    },
                );
                assert(self.queue@.subrange(self.head as int, self.queue@.len() as int).map_values(
                    |it: ProcessingItem| it@,
                ).drop_last() =~= before.subrange(self.head as int, before.len() as int).map_values(
                    |it: ProcessingItem| it@,
                ));
            },
        }
    }

    /// Takes the next item off the queue.
    pub fn next_item(&mut self) -> (r: Option<ProcessingItem>)
        requires
            old(self).wf(),
        ensures
            final(self).wf(),
            final(self).groups_view() == old(self).groups_view(),
            final(self).overlay_set() == old(self).overlay_set(),
            final(self).magic_set() == old(self).magic_set(),
            old(self).pending().len() == 0 ==> r is None && final(self).pending() == old(
                self,
            ).pending(),
            old(self).pending().len() > 0 ==> r is Some && final(self).pending() == old(
                self,
            ).pending().drop_first() && r->0@ == old(self).pending()[0],
    {
        if self.head >= self.queue.len() {
            return None;
        }
        let item = &self.queue[self.head];
        let r = ProcessingItem {
            module_id: item.module_id.clone(),
            module_source: item.module_source.clone(),
            system_target: item.system_target.clone(),
            relative_path: item.relative_path.clone(),
        };
        self.head = self.head + 1;
        assert(self.queue@.subrange(self.head as int, self.queue@.len() as int).map_values(
            |it: ProcessingItem| it@,
        ) =~= self.queue@.subrange(self.head - 1, self.queue@.len() as int).map_values(
            |it: ProcessingItem| it@,
        ).drop_first());
        Some(r)
    }

    /// Index of the group whose target is `target`, if there is one.
    fn find_group(&self, target: &str) -> (r: Option<usize>)
        ensures
            r is Some ==> r->0 < self.groups@.len() && self.groups@[r->0 as int].target@
                == target@,
            r is None ==> forall|k: int|
                0 <= k < self.groups@.len() ==> (#[trigger] self.groups@[k]).target@ != target@,
    {
        let n = self.groups.len();
        let mut i: usize = 0;
        while i < n
            invariant
                n == self.groups@.len(),
                i <= n,
                forall|k: int| 0 <= k < i ==> (#[trigger] self.groups@[k]).target@ != target@,
            decreases n - i,
        {
            if str_eq(self.groups[i].target.as_str(), target) {
                return Some(i);
            }
            i = i + 1;
        }
        None
    }

    /// Places an item whose live target resolved to `canonical`. At a partition root the
    /// item is split: each subdirectory in `subdirs` that the module's rules leave to
    /// overlay is queued, one that they give to magic mount marks the module for it.
    /// Elsewhere the item's directory joins the group of its target.
    pub fn place(
        &mut self,
        item: ProcessingItem,
        canonical: String,
        subdirs: &Vec<String>,
        rules: &ModuleRules,
    )
        requires
            old(self).wf(),
        ensures
            final(self).wf(),
            final(self).overlay_set() == old(self).overlay_set(),
            splits_at(canonical@) ==> final(self).groups_view() == old(self).groups_view()
                && final(self).magic_set() == old(self).magic_set().union(
                if exists|k: int|
                    0 <= k < subdirs@.len() && rules.mode_of(
                        joined(item.relative_path@, #[trigger] subdirs@[k]@),
                    ) == MountMode::Magic {
                    set![item.module_id@]
                } else {
                    Set::empty()
                },
            ) && final(self).pending() == old(self).pending() + split_items(
                item@,
                canonical@,
                texts(subdirs@),
                *rules,
            ),
            !splits_at(canonical@) ==> final(self).pending() == old(self).pending()
                && final(self).magic_set() == old(self).magic_set() && grouped(
                old(self).groups_view(),
                final(self).groups_view(),
                canonical@,
                item.module_source@,
                item.module_id@,
            ),
    {
        let name = file_name(canonical.as_str());
        if is_builtin_partition_name(name.as_str()) {
            let n = subdirs.len();
            let mut i: usize = 0;
            let ghost q0 = self.queue@;
            let ghost m0 = self.magic_set();
            let ghost subs = texts(subdirs@);
            while i < n
                invariant
                    n == subdirs@.len(),
                    subs == texts(subdirs@),
                    i <= n,
                    self.wf(),
                    self.head == old(self).head,
                    q0 == old(self).queue@,
                    m0 == old(self).magic_set(),
                    self.groups@ == old(self).groups@,
                    self.overlay_set() == old(self).overlay_set(),
                    self.queue@.map_values(|it: ProcessingItem| it@) == q0.map_values(|it: ProcessingItem| it@) + split_items(item@, canonical@, subs.subrange(0, i as int), *rules),
                    self.magic_set() == m0.union(
                        if exists|k: int|
                            0 <= k < i && rules.mode_of(
                                joined(item.relative_path@, #[trigger] subdirs@[k]@),
                            ) == MountMode::Magic {
                            set![item.module_id@]
                        } else {
                            Set::empty()
                        },
                    ),
                decreases n - i,
            {
                let rel = join(item.relative_path.as_str(), subdirs[i].as_str());
                let mode = rules.get_mode(rel.as_str());
                let ghost qv = self.queue@.map_values(|it: ProcessingItem| it@);
                let ghost prev = split_items(item@, canonical@, subs.subrange(0, i as int), *rules);
                let ghost sub = subs[i as int];
                proof {
                    lemma_split_items_step(subs, i as int);
                    assert(sub == subdirs@[i as int]@);
                    assert(rel@ == joined(item.relative_path@, sub));
                }
                let ghost next = split_items(item@, canonical@, subs.subrange(0, i + 1), *rules);
                match mode {
                    MountMode::Magic => {
                        insert_sorted_unique(&mut self.magic_ids, item.module_id.clone());
                        assert(next == prev);
                    },
                    MountMode::Ignore => {
                        assert(next == prev);
                    },
                    MountMode::Overlay => {
                        let it = ProcessingItem {
                            module_id: item.module_id.clone(),
                            module_source: join(item.module_source.as_str(), subdirs[i].as_str()),
                            system_target: join(canonical.as_str(), subdirs[i].as_str()),
                            relative_path: rel,
                        };
                        assert(next == prev.push(it@));
                        self.queue.push(it);
                        assert(self.queue@.map_values(|it: ProcessingItem| it@) =~= qv.push(it@));
                    },
                }
                assert(self.queue@.map_values(|it: ProcessingItem| it@) =~= q0.map_values(
                    |it: ProcessingItem| it@,
                ) + next);
                assert(self.magic_set() =~= m0.union(
                    if exists|k: int|
                        0 <= k < i + 1 && rules.mode_of(
                            joined(item.relative_path@, #[trigger] subdirs@[k]@),
                        ) == MountMode::Magic {
                        set![item.module_id@]
                    } else {
                        Set::empty()
                    },
                ));
                i = i + 1;
            }
            assert(subs.subrange(0, n as int) =~= subs);
            proof {
                let sv = split_items(item@, canonical@, subs, *rules);
                let qm = self.queue@.map_values(|it: ProcessingItem| it@);
                let q0m = q0.map_values(|it: ProcessingItem| it@);
                let h = self.head as int;
                assert(qm == q0m + sv);
                assert(self.queue@.subrange(h, self.queue@.len() as int).map_values(
                    |it: ProcessingItem| it@,
                ) =~= qm.subrange(h, qm.len() as int));
                assert(q0.subrange(h, q0.len() as int).map_values(|it: ProcessingItem| it@)
                    =~= q0m.subrange(h, q0m.len() as int));
                assert(qm.subrange(h, qm.len() as int) =~= q0m.subrange(h, q0m.len() as int) + sv);
            }
        } else {
            let found = self.find_group(canonical.as_str());
            let ghost g0 = self.groups@;
            match found {
                Some(k) => {
                    let mut g = self.groups.remove(k);
                    let ghost gk = g;
                    g.lowerdirs.push(item.module_source);
                    g.module_ids.push(item.module_id);
                    assert(texts(g.lowerdirs@) =~= texts(gk.lowerdirs@).push(item.module_source@));
                    assert(texts(g.module_ids@) =~= texts(gk.module_ids@).push(item.module_id@));
                    self.groups.insert(k, g);
                    assert(self.groups@.len() == g0.len());
                    assert(forall|j: int|
                        0 <= j < g0.len() && j != k ==> self.groups@[j] == g0[j]);
                    assert(self.groups@[k as int] == g);
                    assert(g0[k as int].target@ == canonical@);
                    assert forall|i: int, j: int|
                        0 <= i < j < self.groups@.len() implies (#[trigger] self.groups@[i]).target@
                        != (#[trigger] self.groups@[j]).target@ by {
                        assert(self.groups@[i].target@ == g0[i].target@);
                        assert(self.groups@[j].target@ == g0[j].target@);
                    }
                    assert forall|i: int| 0 <= i < self.groups@.len() implies (
                    #[trigger] self.groups@[i]).well_formed() by {
                        if i != k {
                            assert(self.groups@[i] == g0[i]);
                        }
                    }
                },
                None => {
                    let label = partition_label(canonical.as_str());
                    let mut lowerdirs: Vec<String> = Vec::new();
                    lowerdirs.push(item.module_source);
                    let mut module_ids: Vec<String> = Vec::new();
                    module_ids.push(item.module_id);
                    assert(texts(lowerdirs@) =~= seq![item.module_source@]);
                    assert(texts(module_ids@) =~= seq![item.module_id@]);
                    self.groups.push(
                        OverlayOperation {
                            partition_name: label,
                            target: canonical,
                            lowerdirs,
                            module_ids,
                        },
                    );
                    assert(self.groups@.drop_last() =~= g0);
                    assert forall|i: int, j: int|
                        0 <= i < j < self.groups@.len() implies (#[trigger] self.groups@[i]).target@
                        != (#[trigger] self.groups@[j]).target@ by {
                        if j < g0.len() {
                            assert(self.groups@[i].target@ == g0[i].target@);
                            assert(self.groups@[j].target@ == g0[j].target@);
                        } else {
                            assert(self.groups@[i].target@ == g0[i].target@);
                        }
                    }
                    assert forall|i: int| 0 <= i < self.groups@.len() implies (
                    #[trigger] self.groups@[i]).well_formed() by {
                        if i < g0.len() {
                            assert(self.groups@[i] == g0[i]);
                        }
                    }
                },
            }
        }
    }

    /// The live targets of the groups so far, in order.
    pub fn group_targets(&self) -> (r: Vec<String>)
        ensures
            texts(r@) == self.groups_view().map_values(|g: OverlayOperation| g.target@),
    {
        let n = self.groups.len();
        let mut r: Vec<String> = Vec::new();
        let mut i: usize = 0;
        while i < n
            invariant
                n == self.groups@.len(),
                i <= n,
                r@.len() == i,
                forall|j: int| 0 <= j < i ==> (#[trigger] r@[j])@ == self.groups@[j].target@,
            decreases n - i,
        {
            r.push(self.groups[i].target.clone());
            i = i + 1;
        }
        assert(texts(r@) =~= self.groups_view().map_values(|g: OverlayOperation| g.target@));
        r
    }

    /// The plan: one operation for each group whose target is a real directory
    /// (`target_is_dir[k]` for group `k`), and the modules marked for each strategy.
    pub fn finish(self, target_is_dir: &Vec<bool>) -> (r: MountPlan)
        requires
            self.wf(),
            target_is_dir@.len() == self.groups_view().len(),
        ensures
            forall|i: int|
                0 <= i < r.overlay_ops@.len() ==> (#[trigger] r.overlay_ops@[i]).well_formed(),
            r.overlay_ops@ == kept_groups(self.groups_view(), target_is_dir@),
            distinct_targets(r.overlay_ops@),
            strictly_ascending(texts(r.overlay_module_ids@)),
            strictly_ascending(texts(r.magic_module_ids@)),
            texts(r.overlay_module_ids@).to_set() == self.overlay_set(),
            texts(r.magic_module_ids@).to_set() == self.magic_set(),
    {
        let Planner { queue, head, groups, overlay_ids, magic_ids } = self;
        let ghost g0 = groups@;
        let mut rest = groups;
        let mut ops: Vec<OverlayOperation> = Vec::new();
        let n = rest.len();
        let mut i: usize = 0;
        while i < n
            invariant
                n == g0.len(),
                n == target_is_dir@.len(),
                i <= n,
                rest@ == g0.subrange(i as int, n as int),
                ops@ == kept_groups(g0.subrange(0, i as int), target_is_dir@.subrange(0, i as int)),
                forall|k: int| 0 <= k < g0.len() ==> (#[trigger] g0[k]).well_formed(),
            decreases n - i,
        {
            let g = rest.remove(0);
            assert(g0.subrange(0, i + 1).drop_last() =~= g0.subrange(0, i as int));
            assert(target_is_dir@.subrange(0, i + 1).drop_last() =~= target_is_dir@.subrange(
                0,
                i as int,
            ));
            if target_is_dir[i] {
                ops.push(g);
            }
            assert(rest@ =~= g0.subrange(i + 1, n as int));
            i = i + 1;
        }
        assert(g0.subrange(0, n as int) =~= g0);
        assert(target_is_dir@.subrange(0, n as int) =~= target_is_dir@);
        proof {
            lemma_kept_groups_well_formed(g0, target_is_dir@);
            lemma_kept_groups_distinct(g0, target_is_dir@);
        }
        MountPlan { overlay_ops: ops, overlay_module_ids: overlay_ids, magic_module_ids: magic_ids }
    }
}

/// `v` has no operation before one whose target lies above its own.
pub open spec fn parents_first(v: Seq<OverlayOperation>) -> bool {
    forall|i: int, j: int|
        0 <= i < j < v.len() ==> (#[trigger] v[i]).target@.len() <= (#[trigger] v[j]).target@.len()
}

proof fn lemma_below_is_longer(child: Seq<char>, dir: Seq<char>)
    requires
        crate::paths::strictly_below(child, dir),
    ensures
        child.len() > dir.len(),
{
    if dir.len() > 0 && dir.last() == '/' {
        if child.len() == dir.len() {
            assert(child =~= child.subrange(0, dir.len() as int));
        }
    }
}

/// Orders operations for execution: shorter targets first, so that an operation on a
/// nested target runs after the one on the target above it.
pub fn order_for_execution(ops: Vec<OverlayOperation>) -> (r: Vec<OverlayOperation>)
    ensures
        parents_first(r@),
        r@.len() == ops@.len(),
        forall|k: int| 0 <= k < r@.len() ==> ops@.contains(#[trigger] r@[k]),
        forall|j: int| 0 <= j < ops@.len() ==> r@.contains(#[trigger] ops@[j]),
        forall|i: int, j: int|
            0 <= i < j < r@.len() ==> !crate::paths::strictly_below(
                (#[trigger] r@[i]).target@,
                (#[trigger] r@[j]).target@,
            ),
{
    let ghost vs = ops@;
    let mut rest = ops;
    let mut out: Vec<OverlayOperation> = Vec::new();
    let n = rest.len();
    let mut i: usize = 0;
    while i < n
        invariant
            n == vs.len(),
            i <= n,
            rest@ == vs.subrange(i as int, n as int),
            out@.len() == i,
            parents_first(out@),
            forall|k: int| 0 <= k < out@.len() ==> vs.subrange(0, i as int).contains(#[trigger] out@[k]),
            forall|j: int| 0 <= j < i ==> out@.contains(#[trigger] vs[j]),
        decreases n - i,
    {
        let op = rest.remove(0);
        assert(op == vs[i as int]);
        assert(rest@ =~= vs.subrange(i + 1, n as int));
        let len = op.target.as_str().unicode_len();
        let m = out.len();
        let mut p: usize = 0;
        while p < m && out[p].target.as_str().unicode_len() <= len
            invariant
                m == out@.len(),
                p <= m,
                len == op.target@.len(),
                forall|k: int| 0 <= k < p ==> (#[trigger] out@[k]).target@.len() <= len,
            decreases m - p,
        {
            p = p + 1;
        }
        let ghost o0 = out@;
        out.insert(p, op);
        proof {
            let prev = vs.subrange(0, i as int);
            let next = vs.subrange(0, i + 1);
            assert(next =~= prev.push(vs[i as int]));
            assert forall|a: int, b: int| 0 <= a < b < out@.len() implies (#[trigger] out@[a]).target@.len()
                <= (#[trigger] out@[b]).target@.len() by {
                if a < p && b > p {
                    assert(out@[a] == o0[a]);
                    assert(out@[b] == o0[b - 1]);
                } else if a == p && b > p {
                    assert(out@[b] == o0[b - 1]);
                    if b - 1 > p {
                        assert(o0[p as int].target@.len() <= o0[b - 1].target@.len());
                    }
                } else if b == p {
                    assert(out@[a] == o0[a]);
                } else if b < p {
                    assert(out@[a] == o0[a]);
                    assert(out@[b] == o0[b]);
                } else {
                    assert(out@[a] == o0[a - 1]);
                    assert(out@[b] == o0[b - 1]);
                }
            }
            assert forall|k: int| 0 <= k < out@.len() implies next.contains(#[trigger] out@[k]) by {
                if k < p {
                    assert(out@[k] == o0[k]);
                    let j = choose|j: int| 0 <= j < prev.len() && prev[j] == o0[k];
                    assert(next[j] == o0[k]);
                } else if k > p {
                    assert(out@[k] == o0[k - 1]);
                    let j = choose|j: int| 0 <= j < prev.len() && prev[j] == o0[k - 1];
                    assert(next[j] == o0[k - 1]);
                } else {
                    assert(next[i as int] == out@[k]);
                }
            }
            assert forall|j: int| 0 <= j < i + 1 implies out@.contains(#[trigger] vs[j]) by {
                if j < i {
                    let k = choose|k: int| 0 <= k < o0.len() && o0[k] == vs[j];
                    if k < p {
                        assert(out@[k] == vs[j]);
                    } else {
                        assert(out@[k + 1] == vs[j]);
                    }
                } else {
                    assert(out@[p as int] == vs[j]);
                }
            }
        }
        i = i + 1;
    }
    assert(vs.subrange(0, n as int) =~= vs);
    assert forall|a: int, b: int| 0 <= a < b < out@.len() implies !crate::paths::strictly_below(
        (#[trigger] out@[a]).target@,
        (#[trigger] out@[b]).target@,
    ) by {
        if crate::paths::strictly_below(out@[a].target@, out@[b].target@) {
            lemma_below_is_longer(out@[a].target@, out@[b].target@);
        }
    }
    out
}

/// The items a split queues, for the subdirectories `subs` in order: those that the rules
/// leave to overlay.
pub open spec fn split_items(
    item: ItemView,
    canonical: Seq<char>,
    subs: Seq<Seq<char>>,
    rules: ModuleRules,
) -> Seq<ItemView>
    decreases subs.len(),
{
    if subs.len() == 0 {
        Seq::empty()
    } else {
        let prev = split_items(item, canonical, subs.drop_last(), rules);
        let sub = subs.last();
        if rules.mode_of(joined(item.relative_path, sub)) == MountMode::Overlay {
            prev.push(
                ItemView {
                    module_id: item.module_id,
                    module_source: joined(item.module_source, sub),
                    system_target: joined(canonical, sub),
                    relative_path: joined(item.relative_path, sub),
                },
            )
        } else {
            prev
        }
    }
}

proof fn lemma_split_items_step(subs: Seq<Seq<char>>, i: int)
    requires
        0 <= i < subs.len(),
    ensures
        subs.subrange(0, i + 1).drop_last() == subs.subrange(0, i),
        subs.subrange(0, i + 1).last() == subs[i],
{
    assert(subs.subrange(0, i + 1).drop_last() =~= subs.subrange(0, i));
}

/// The groups, in order, whose flag is set.
pub open spec fn kept_groups(g: Seq<OverlayOperation>, keep: Seq<bool>) -> Seq<OverlayOperation>
    decreases g.len(),
{
    if g.len() == 0 || keep.len() == 0 {
        Seq::empty()
    } else {
        let prev = kept_groups(g.drop_last(), keep.drop_last());
        if keep.last() {
            prev.push(g.last())
        } else {
            prev
        }
    }
}

/// No two operations share a target.
pub open spec fn distinct_targets(g: Seq<OverlayOperation>) -> bool {
    forall|i: int, j: int|
        0 <= i < j < g.len() ==> (#[trigger] g[i]).target@ != (#[trigger] g[j]).target@
}

/// The groups of a planner never share a target, so each target has one group, whose
/// lower directories grow in the order the items were placed.
pub proof fn lemma_planner_targets_distinct(p: &Planner)
    requires
        p.wf(),
    ensures
        distinct_targets(p.groups_view()),
{
}

proof fn lemma_kept_groups_from(g: Seq<OverlayOperation>, keep: Seq<bool>)
    ensures
        forall|k: int|
            0 <= k < kept_groups(g, keep).len() ==> g.contains(#[trigger] kept_groups(g, keep)[k]),
    decreases g.len(),
{
    if g.len() > 0 && keep.len() > 0 {
        let prev = kept_groups(g.drop_last(), keep.drop_last());
        lemma_kept_groups_from(g.drop_last(), keep.drop_last());
        assert forall|k: int| 0 <= k < kept_groups(g, keep).len() implies g.contains(
            #[trigger] kept_groups(g, keep)[k],
        ) by {
            if k < prev.len() {
                assert(g.drop_last().contains(prev[k]));
                let j = choose|j: int| 0 <= j < g.len() - 1 && g.drop_last()[j] == prev[k];
                assert(kept_groups(g, keep)[k] == g[j]);
            } else {
                assert(kept_groups(g, keep)[k] == g[g.len() - 1]);
            }
        }
    } else {
        assert(kept_groups(g, keep) =~= Seq::<OverlayOperation>::empty());
    }
}

proof fn lemma_kept_groups_distinct(g: Seq<OverlayOperation>, keep: Seq<bool>)
    requires
        distinct_targets(g),
    ensures
        distinct_targets(kept_groups(g, keep)),
    decreases g.len(),
{
    if g.len() > 0 && keep.len() > 0 {
        let prev = kept_groups(g.drop_last(), keep.drop_last());
        assert(distinct_targets(g.drop_last())) by {
            assert forall|i: int, j: int| 0 <= i < j < g.drop_last().len() implies (
            #[trigger] g.drop_last()[i]).target@ != (#[trigger] g.drop_last()[j]).target@ by {
                assert(g.drop_last()[i] == g[i] && g.drop_last()[j] == g[j]);
            }
        }
        lemma_kept_groups_distinct(g.drop_last(), keep.drop_last());
        lemma_kept_groups_from(g.drop_last(), keep.drop_last());
        let r = kept_groups(g, keep);
        assert forall|i: int, j: int| 0 <= i < j < r.len() implies (#[trigger] r[i]).target@ != (
        #[trigger] r[j]).target@ by {
            if j < prev.len() {
                assert(r[i] == prev[i] && r[j] == prev[j]);
            } else {
                assert(r[i] == prev[i]);
                assert(g.drop_last().contains(prev[i]));
                let a = choose|a: int| 0 <= a < g.len() - 1 && g.drop_last()[a] == prev[i];
                assert(r[j] == g[g.len() - 1]);
                assert(g[a].target@ != g[g.len() - 1].target@);
            }
        }
    }
}

proof fn lemma_kept_groups_well_formed(g: Seq<OverlayOperation>, keep: Seq<bool>)
    requires
        forall|k: int| 0 <= k < g.len() ==> (#[trigger] g[k]).well_formed(),
    ensures
        forall|k: int|
            0 <= k < kept_groups(g, keep).len() ==> (#[trigger] kept_groups(g, keep)[k]).well_formed(),
    decreases g.len(),
{
    if g.len() > 0 && keep.len() > 0 {
        let prev = kept_groups(g.drop_last(), keep.drop_last());
        lemma_kept_groups_well_formed(g.drop_last(), keep.drop_last());
        assert(g.last().well_formed()) by {
            assert(g[g.len() - 1].well_formed());
        }
        assert forall|k: int|
            0 <= k < kept_groups(g, keep).len() implies (#[trigger] kept_groups(g, keep)[k]).well_formed() by {
            if k < prev.len() {
                assert(kept_groups(g, keep)[k] == prev[k]);
            }
        }
    }
}

/// `after` is `before` with `source` (of module `id`) added to the group of `target`: at
/// the end of that group where it exists, else as a new group at the end.
pub open spec fn grouped(
    before: Seq<OverlayOperation>,
    after: Seq<OverlayOperation>,
    target: Seq<char>,
    source: Seq<char>,
    id: Seq<char>,
) -> bool {
    if exists|k: int| 0 <= k < before.len() && (#[trigger] before[k]).target@ == target {
        exists|k: int|
            0 <= k < before.len() && (#[trigger] before[k]).target@ == target && after.len()
                == before.len() && (forall|j: int|
                0 <= j < before.len() && j != k ==> after[j] == before[j]) && after[k].target@
                == target && after[k].partition_name@ == before[k].partition_name@
                && texts(after[k].lowerdirs@) == texts(before[k].lowerdirs@).push(source)
                && texts(after[k].module_ids@) == texts(before[k].module_ids@).push(id)
    } else {
        &&& after.len() == before.len() + 1
        &&& after.drop_last() == before
        &&& after.last().target@ == target
        &&& after.last().partition_name@ == label_of(target)
        &&& texts(after.last().lowerdirs@) == seq![source]
        &&& texts(after.last().module_ids@) == seq![id]
    }
}

} // verus!
