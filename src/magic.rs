use vstd::prelude::*;

use crate::paths::joined;
use crate::text::{str_eq, texts};

verus! {

/// The kind of one path in the magic-mount tree.
#[derive(Clone, Copy, Debug, PartialEq, Eq, Structural)]
pub enum FileKind {
    RegularFile,
    Directory,
    Symlink,
    /// A character device numbered 0:0: the path is to be absent.
    Whiteout,
}

/// The file kind that a mode and device number stand for; `None` for other special files.
pub open spec fn kind_of(mode: u32, rdev: u64) -> Option<FileKind> {
    let t = mode & 0o170000u32;
    if t == 0o100000u32 {
        Some(FileKind::RegularFile)
    } else if t == 0o040000u32 {
        Some(FileKind::Directory)
    } else if t == 0o120000u32 {
        Some(FileKind::Symlink)
    } else if t == 0o020000u32 && rdev == 0 {
        Some(FileKind::Whiteout)
    } else {
        None
    }
}

pub fn file_kind(mode: u32, rdev: u64) -> (r: Option<FileKind>)
    ensures
        r == kind_of(mode, rdev),
{
    let t = mode & 0o170000u32;
    if t == 0o100000u32 {
        Some(FileKind::RegularFile)
    } else if t == 0o040000u32 {
        Some(FileKind::Directory)
    } else if t == 0o120000u32 {
        Some(FileKind::Symlink)
    } else if t == 0o020000u32 && rdev == 0 {
        Some(FileKind::Whiteout)
    } else {
        None
    }
}

/// One path that some module supplies.
#[derive(Debug)]
pub struct MagicEntry {
    /// Path relative to the root of the tree.
    pub path: String,
    pub kind: FileKind,
    /// Where the content comes from; none for a directory that only holds others.
    pub module_source: Option<String>,
    /// The directory replaces the live one instead of merging with it.
    pub replace: bool,
}

/// The union of the modules' trees, one entry per path. The first module to supply a
/// path decides it.
pub struct MagicTree {
    entries: Vec<MagicEntry>,
}

impl MagicTree {
    pub closed spec fn wf(&self) -> bool {
        forall|i: int, j: int|
            0 <= i < j < self.entries@.len() ==> (#[trigger] self.entries@[i]).path@ != (
            #[trigger] self.entries@[j]).path@
    }

    /// The paths the tree holds.
    pub closed spec fn paths(&self) -> Set<Seq<char>> {
        self.entries@.map_values(|e: MagicEntry| e.path@).to_set()
    }

    /// The kind the tree holds for a path it holds.
    pub closed spec fn kind_at(&self, p: Seq<char>) -> FileKind {
        self.entries@[self.index_of(p)].kind
    }

    /// Where the tree takes the content of a path it holds from.
    pub closed spec fn source_at(&self, p: Seq<char>) -> Option<String> {
        self.entries@[self.index_of(p)].module_source
    }

    /// Whether the tree marks the directory at a path it holds as replacing the live one.
    pub closed spec fn replace_at(&self, p: Seq<char>) -> bool {
        self.entries@[self.index_of(p)].replace
    }

    pub closed spec fn index_of(&self, p: Seq<char>) -> int {
        choose|k: int| 0 <= k < self.entries@.len() && self.entries@[k].path@ == p
    }

    pub fn new() -> (r: MagicTree)
        ensures
            r.wf(),
            r.paths() == Set::<Seq<char>>::empty(),
    {
        let r = MagicTree { entries: Vec::new() };
        assert(r.paths() =~= Set::<Seq<char>>::empty());
        r
    }

    fn find(&self, path: &str) -> (r: Option<usize>)
        ensures
            r is Some ==> r->0 < self.entries@.len() && self.entries@[r->0 as int].path@ == path@,
            r is None ==> !self.paths().contains(path@),
    {
        let n = self.entries.len();
        let mut i: usize = 0;
        while i < n
            invariant
                n == self.entries@.len(),
                i <= n,
                forall|k: int| 0 <= k < i ==> (#[trigger] self.entries@[k]).path@ != path@,
            decreases n - i,
        {
            if str_eq(self.entries[i].path.as_str(), path) {
                return Some(i);
            }
            i = i + 1;
        }
        proof {
            if self.paths().contains(path@) {
                let s = self.entries@.map_values(|e: MagicEntry| e.path@);
                let k = choose|k: int| 0 <= k < s.len() && #[trigger] s[k] == path@;
                assert(self.entries@[k].path@ == path@);
            }
        }
        None
    }

    /// Adds what a module supplies at `path`, unless an earlier module supplied it.
    pub fn add(&mut self, path: &str, kind: FileKind, module_source: Option<String>)
        requires
            old(self).wf(),
        ensures
            final(self).wf(),
            final(self).paths() == old(self).paths().insert(path@),
            !old(self).paths().contains(path@) ==> final(self).kind_at(path@) == kind
                && final(self).source_at(path@) == module_source && !final(self).replace_at(
                path@,
            ),
            forall|p: Seq<char>|
                old(self).paths().contains(p) ==> #[trigger] final(self).kind_at(p) == old(
                    self,
                ).kind_at(p) && final(self).source_at(p) == old(self).source_at(p)
                    && final(self).replace_at(p) == old(self).replace_at(p),
    {
        match self.find(path) {
            Some(k) => {
                let ghost s = self.entries@.map_values(|e: MagicEntry| e.path@);
                assert(s[k as int] == path@);
                assert(s.contains(path@));
                assert(self.paths() =~= self.paths().insert(path@));
            },
            None => {
                let ghost e0 = self.entries@;
                let ghost s0 = e0.map_values(|e: MagicEntry| e.path@);
                self.entries.push(
                    MagicEntry { path: String::from_str(path), kind, module_source, replace: false },
                );
                let ghost s1 = self.entries@.map_values(|e: MagicEntry| e.path@);
                assert(s1 =~= s0.push(path@));
                proof {
                    crate::text::lemma_push_to_set(s0, path@);
                }
                assert forall|i: int, j: int|
                    0 <= i < j < self.entries@.len() implies (#[trigger] self.entries@[i]).path@
                    != (#[trigger] self.entries@[j]).path@ by {
                    if j == e0.len() {
                        assert(s0[i] == e0[i].path@);
                        assert(s0.contains(e0[i].path@));
                    }
                }
                let ghost last = e0.len() as int;
                assert(self.entries@[last].path@ == path@);
                assert(self.index_of(path@) == last);
                assert forall|p: Seq<char>| old(self).paths().contains(p) implies #[trigger] self.kind_at(
                    p,
                ) == old(self).kind_at(p) && self.source_at(p) == old(self).source_at(p)
                    && self.replace_at(p) == old(self).replace_at(p) by {
                    let k = old(self).index_of(p);
                    let k0 = choose|k0: int| 0 <= k0 < s0.len() && s0[k0] == p;
                    assert(e0[k0].path@ == p);
                    assert(self.entries@[k0].path@ == p);
                    let k1 = self.index_of(p);
                    assert(k1 == k0 && k == k0);
                }
            },
        }
    }

    /// Marks the directory at `path` as replacing the live one.
    pub fn mark_replace(&mut self, path: &str)
        requires
            old(self).wf(),
        ensures
            final(self).wf(),
            final(self).paths() == old(self).paths(),
            old(self).paths().contains(path@) ==> final(self).replace_at(path@),
            forall|p: Seq<char>|
                old(self).paths().contains(p) ==> #[trigger] final(self).kind_at(p) == old(
                    self,
                ).kind_at(p) && final(self).source_at(p) == old(self).source_at(p) && (p
                    != path@ ==> final(self).replace_at(p) == old(self).replace_at(p)),
    {
        match self.find(path) {
            Some(k) => {
                let ghost e0 = self.entries@;
                let mut e = self.entries.remove(k);
                e.replace = true;
                self.entries.insert(k, e);
                assert(self.entries@.map_values(|e: MagicEntry| e.path@) =~= e0.map_values(
                    |e: MagicEntry| e.path@,
                ));
                assert forall|i: int, j: int|
                    0 <= i < j < self.entries@.len() implies (#[trigger] self.entries@[i]).path@
                    != (#[trigger] self.entries@[j]).path@ by {
                    assert(self.entries@[i].path@ == e0[i].path@);
                    assert(self.entries@[j].path@ == e0[j].path@);
                }
                assert forall|p: Seq<char>| old(self).paths().contains(p) implies self.index_of(p)
                    == old(self).index_of(p) by {
                    let a = old(self).index_of(p);
                    let s0 = e0.map_values(|e: MagicEntry| e.path@);
                    let k0 = choose|k0: int| 0 <= k0 < s0.len() && s0[k0] == p;
                    assert(e0[k0].path@ == p);
                    assert(self.entries@[k0].path@ == p);
                    let b = self.index_of(p);
                    assert(self.entries@[b].path@ == e0[b].path@);
                }
                assert(self.entries@[k as int].replace);
                assert(self.index_of(path@) == k as int) by {
                    let b = self.index_of(path@);
                    assert(self.entries@[k as int].path@ == path@);
                }
                assert forall|p: Seq<char>| old(self).paths().contains(p) implies #[trigger] self.kind_at(
                    p,
                ) == old(self).kind_at(p) && self.source_at(p) == old(self).source_at(p) && (p
                    != path@ ==> self.replace_at(p) == old(self).replace_at(p)) by {
                    assert(self.index_of(p) == old(self).index_of(p));
                    if p != path@ {
                        let a = old(self).index_of(p);
                        assert(e0[a].path@ == p);
                        assert(a != k as int);
                        assert(self.entries@[a] == e0[a]);
                    }
                }
            },
            None => {},
        }
    }

    pub closed spec fn entries_view(&self) -> Seq<MagicEntry> {
        self.entries@
    }

    /// The entries, in the order they were added.
    pub fn entries(&self) -> (r: &Vec<MagicEntry>)
        ensures
            r@ == self.entries_view(),
    {
        &self.entries
    }
}

/// A child of a directory in the tree, beside what the live system holds at its path.
#[derive(Clone, Copy, Debug, PartialEq, Eq, Structural)]
pub struct ChildState {
    pub kind: FileKind,
    /// The live kind; `None` where nothing exists.
    pub live: Option<FileKind>,
}

/// A child that the live directory cannot show by bind mounts alone.
pub open spec fn child_needs_tmpfs(c: ChildState) -> bool {
    match c.kind {
        FileKind::Symlink => true,
        FileKind::Whiteout => c.live is Some,
        _ => match c.live {
            None => true,
            Some(ft) => ft != c.kind || ft == FileKind::Symlink,
        },
    }
}

/// A directory gets a fresh tmpfs when an ancestor has one, when it replaces the live
/// directory, or when a child needs one; the last two only for a directory that is
/// anchored: a module supplies it or it exists on the live system (a tmpfs cannot be
/// built from nothing).
pub open spec fn tmpfs_needed(
    has_tmpfs: bool,
    replace: bool,
    anchored: bool,
    children: Seq<ChildState>,
) -> bool {
    ||| has_tmpfs
    ||| (anchored && replace)
    ||| (anchored && exists|k: int| 0 <= k < children.len() && child_needs_tmpfs(#[trigger] children[k]))
}

pub fn should_create_tmpfs(
    has_tmpfs: bool,
    replace: bool,
    anchored: bool,
    children: &Vec<ChildState>,
) -> (r: bool)
    ensures
        r == tmpfs_needed(has_tmpfs, replace, anchored, children@),
{
    if has_tmpfs {
        return true;
    }
    if !anchored {
        return false;
    }
    if replace {
        return true;
    }
    let n = children.len();
    let mut i: usize = 0;
    while i < n
        invariant
            n == children@.len(),
            i <= n,
            anchored,
            !has_tmpfs,
            !replace,
            forall|k: int| 0 <= k < i ==> !child_needs_tmpfs(#[trigger] children@[k]),
        decreases n - i,
    {
        let c = children[i];
        let need = match c.kind {
            FileKind::Symlink => true,
            FileKind::Whiteout => c.live.is_some(),
            _ => match c.live {
                None => true,
                Some(ft) => ft != c.kind || ft == FileKind::Symlink,
            },
        };
        if need {
            assert(child_needs_tmpfs(children@[i as int]));
            assert(exists|k: int| 0 <= k < children@.len() && child_needs_tmpfs(#[trigger] children@[k]));
            return true;
        }
        i = i + 1;
    }
    false
}

/// What becomes of a live child that no module supplies, inside a fresh tmpfs.
#[derive(Clone, Copy, Debug, PartialEq, Eq, Structural)]
pub enum MirrorAction {
    /// Bind the live file onto its place in the tmpfs.
    Bind,
    /// Recreate the symlink.
    Relink,
    /// Recreate the directory and mirror what it holds.
    Descend,
    /// Leave it out.
    Skip,
}

pub fn mirror_action(live: FileKind) -> (r: MirrorAction)
    ensures
        live == FileKind::RegularFile ==> r == MirrorAction::Bind,
        live == FileKind::Symlink ==> r == MirrorAction::Relink,
        live == FileKind::Directory ==> r == MirrorAction::Descend,
        live == FileKind::Whiteout ==> r == MirrorAction::Skip,
{
    match live {
        FileKind::RegularFile => MirrorAction::Bind,
        FileKind::Symlink => MirrorAction::Relink,
        FileKind::Directory => MirrorAction::Descend,
        FileKind::Whiteout => MirrorAction::Skip,
    }
}

/// Partitions that sit under `/system` on older devices: their module content is moved
/// to the root only where `/system/<name>` is a symlink.
pub open spec fn needs_system_link(name: Seq<char>) -> bool {
    name == "vendor"@ || name == "system_ext"@ || name == "product"@
}

/// Partitions magic mount looks at besides `system`: the built-in ones, then each extra
/// partition that is neither one of them nor `system`, in order.
pub open spec fn magic_candidates(extra: Seq<Seq<char>>) -> Seq<Seq<char>>
    decreases extra.len(),
{
    if extra.len() == 0 {
        seq!["vendor"@, "system_ext"@, "product"@, "odm"@]
    } else {
        let prev = magic_candidates(extra.drop_last());
        let x = extra.last();
        if needs_system_link(x) || x == "odm"@ || x == "system"@ {
            prev
        } else {
            prev.push(x)
        }
    }
}

fn is_builtin_magic(x: &str) -> (r: bool)
    ensures
        r == (needs_system_link(x@) || x@ == "odm"@ || x@ == "system"@),
{
    str_eq(x, "vendor") || str_eq(x, "system_ext") || str_eq(x, "product") || str_eq(x, "odm")
        || str_eq(x, "system")
}

pub fn magic_partition_candidates(extra_partitions: &Vec<String>) -> (r: Vec<String>)
    ensures
        texts(r@) == magic_candidates(texts(extra_partitions@)),
{
    let mut r: Vec<String> = Vec::new();
    r.push(String::from_str("vendor"));
    r.push(String::from_str("system_ext"));
    r.push(String::from_str("product"));
    r.push(String::from_str("odm"));
    let n = extra_partitions.len();
    let mut i: usize = 0;
    assert(texts(r@) =~= magic_candidates(texts(extra_partitions@).subrange(0, 0)));
    while i < n
        invariant
            n == extra_partitions@.len(),
            i <= n,
            texts(r@) == magic_candidates(texts(extra_partitions@).subrange(0, i as int)),
        decreases n - i,
    {
        let ghost r0 = texts(r@);
        assert(texts(extra_partitions@).subrange(0, i + 1).drop_last() =~= texts(
            extra_partitions@,
        ).subrange(0, i as int));
        if !is_builtin_magic(extra_partitions[i].as_str()) {
            r.push(extra_partitions[i].clone());
            assert(texts(r@) =~= r0.push(extra_partitions@[i as int]@));
        }
        i = i + 1;
    }
    assert(texts(extra_partitions@).subrange(0, n as int) =~= texts(extra_partitions@));
    r
}

/// A candidate partition is mounted at the root when `/<name>` is a real directory and,
/// for those that need it, `/system/<name>` is a symlink.
pub open spec fn lands_at_root(name: Seq<char>, root_is_dir: bool, system_is_link: bool) -> bool {
    root_is_dir && (!needs_system_link(name) || system_is_link)
}

/// The partitions that go to the root, among `names`, in order.
pub open spec fn moved_partitions(
    names: Seq<Seq<char>>,
    root_is_dir: Seq<bool>,
    system_is_link: Seq<bool>,
) -> Seq<Seq<char>>
    decreases names.len(),
{
    if names.len() == 0 {
        Seq::empty()
    } else {
        let k = names.len() - 1;
        let prev = moved_partitions(names.drop_last(), root_is_dir, system_is_link);
        if lands_at_root(names[k], root_is_dir[k], system_is_link[k]) {
            prev.push(names[k])
        } else {
            prev
        }
    }
}

/// One directory of a module to walk, and the live path it stands for.
pub open spec fn walk_pairs(moved: Seq<Seq<char>>) -> Seq<(Seq<char>, Seq<char>)>
    decreases moved.len(),
{
    if moved.len() == 0 {
        seq![("system"@, "/system"@)]
    } else {
        let x = moved.last();
        walk_pairs(moved.drop_last()).push((joined("system"@, x), joined("/"@, x))).push(
            (x, joined("/"@, x)),
        )
    }
}

/// Where magic mount takes a module's content from.
#[derive(Debug)]
pub struct MagicRoots {
    /// Directories of a module to walk (relative to the module), each with the live path
    /// it is mounted over: `system` over `/system`, and for each moved partition `X` both
    /// `system/X` and `X` over `/X`.
    pub walks: Vec<(String, String)>,
    /// The partitions moved to the root; the walk of `system` leaves them out.
    pub moved: Vec<String>,
}

/// Chooses the module directories magic mount walks, from the flags of each candidate
/// partition (`root_is_dir[k]`: `/<name>` is a directory; `system_is_link[k]`:
/// `/system/<name>` is a symlink).
pub fn magic_roots(candidates: &Vec<String>, root_is_dir: &Vec<bool>, system_is_link: &Vec<bool>) -> (r:
    MagicRoots)
    requires
        root_is_dir@.len() == candidates@.len(),
        system_is_link@.len() == candidates@.len(),
    ensures
        texts(r.moved@) == moved_partitions(texts(candidates@), root_is_dir@, system_is_link@),
        r.walks@.map_values(|w: (String, String)| (w.0@, w.1@)) == walk_pairs(texts(r.moved@)),
{
    let mut moved: Vec<String> = Vec::new();
    let mut walks: Vec<(String, String)> = Vec::new();
    walks.push((String::from_str("system"), String::from_str("/system")));
    proof {
        reveal_strlit("system");
        reveal_strlit("/system");
    }
    let n = candidates.len();
    let mut i: usize = 0;
    assert(walks@.map_values(|w: (String, String)| (w.0@, w.1@)) =~= walk_pairs(texts(moved@)));
    while i < n
        invariant
            n == candidates@.len(),
            n == root_is_dir@.len(),
            n == system_is_link@.len(),
            i <= n,
            texts(moved@) == moved_partitions(
                texts(candidates@).subrange(0, i as int),
                root_is_dir@,
                system_is_link@,
            ),
            walks@.map_values(|w: (String, String)| (w.0@, w.1@)) == walk_pairs(texts(moved@)),
        decreases n - i,
    {
        let ghost m0 = texts(moved@);
        let ghost w0 = walks@.map_values(|w: (String, String)| (w.0@, w.1@));
        assert(texts(candidates@).subrange(0, i + 1).drop_last() =~= texts(candidates@).subrange(
            0,
            i as int,
        ));
        let name = candidates[i].as_str();
        let needs_link = str_eq(name, "vendor") || str_eq(name, "system_ext") || str_eq(
            name,
            "product",
        );
        if root_is_dir[i] && (!needs_link || system_is_link[i]) {
            let under_system = crate::paths::join("system", name);
            let at_root = crate::paths::join("/", name);
            walks.push((under_system, crate::paths::join("/", name)));
            walks.push((String::from_str(name), at_root));
            moved.push(candidates[i].clone());
            assert(texts(moved@) =~= m0.push(candidates@[i as int]@));
            assert(texts(moved@).drop_last() =~= m0);
            assert(walks@.map_values(|w: (String, String)| (w.0@, w.1@)) =~= w0.push(
                (joined("system"@, name@), joined("/"@, name@)),
            ).push((name@, joined("/"@, name@))));
        }
        i = i + 1;
    }
    assert(texts(candidates@).subrange(0, n as int) =~= texts(candidates@));
    MagicRoots { walks, moved }
}

/// What realizing a child of a directory does.
#[derive(Clone, Copy, Debug, PartialEq, Eq, Structural)]
pub enum NodeAction {
    /// Bind the module's file, then make it read-only.
    BindFile,
    /// Recreate the module's symlink.
    CloneLink,
    /// Realize the directory's own children.
    Descend,
    /// A whiteout: nothing is mounted, the path is simply absent from the tmpfs.
    Nothing,
}

/// Where and how a child is realized.
#[derive(Clone, Copy, Debug, PartialEq, Eq, Structural)]
pub struct ChildPlacement {
    pub action: NodeAction,
    /// The child goes into the work tmpfs (true) or straight onto the live path (false).
    pub into_work: bool,
}

pub open spec fn action_for(kind: FileKind) -> NodeAction {
    match kind {
        FileKind::RegularFile => NodeAction::BindFile,
        FileKind::Symlink => NodeAction::CloneLink,
        FileKind::Directory => NodeAction::Descend,
        FileKind::Whiteout => NodeAction::Nothing,
    }
}

/// How a child of kind `kind` is realized: inside a tmpfs everything goes into the work
/// copy; outside one, files are bound over the live paths.
pub fn place_child(kind: FileKind, inside_tmpfs: bool) -> (r: ChildPlacement)
    ensures
        r.action == action_for(kind),
        r.into_work == inside_tmpfs,
{
    let action = match kind {
        FileKind::RegularFile => NodeAction::BindFile,
        FileKind::Symlink => NodeAction::CloneLink,
        FileKind::Directory => NodeAction::Descend,
        FileKind::Whiteout => NodeAction::Nothing,
    };
    ChildPlacement { action, into_work: inside_tmpfs }
}

/// A directory opens a fresh tmpfs of its own when it needs one and no ancestor has one.
pub fn opens_fresh_tmpfs(needs_tmpfs: bool, ancestor_tmpfs: bool) -> (r: bool)
    ensures
        r == (needs_tmpfs && !ancestor_tmpfs),
{
    needs_tmpfs && !ancestor_tmpfs
}

/// An error while realizing a node ends the magic mount inside a fresh tmpfs, which is
/// then half built; outside one, where only live bind mounts are used, the node is
/// skipped.
pub fn child_error_is_fatal(inside_tmpfs: bool) -> (r: bool)
    ensures
        r == inside_tmpfs,
{
    inside_tmpfs
}

/// The live entries of a directory are mirrored into its tmpfs unless the directory
/// replaces the live one.
pub fn mirrors_live_entries(replace: bool) -> (r: bool)
    ensures
        r == !replace,
{
    !replace
}

} // verus!
