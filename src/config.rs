use vstd::prelude::*;

use crate::text::{str_eq, texts};

verus! {

/// How one module, or one path of it, is mounted.
#[derive(Clone, Copy, Debug, PartialEq, Eq, Structural)]
pub enum MountMode {
    Overlay,
    Magic,
    Ignore,
}

/// The mode a module gets when neither it nor the user says otherwise.
#[derive(Clone, Copy, Debug, PartialEq, Eq, Structural)]
pub enum DefaultMode {
    Overlay,
    Magic,
}

/// Which backing store holds the mirror of module content.
#[derive(Clone, Copy, Debug, PartialEq, Eq, Structural)]
pub enum OverlayMode {
    Tmpfs,
    Ext4,
    Erofs,
}

/// How many snapshots are kept, and for how long.
#[derive(Clone, Copy, Debug, PartialEq, Eq, Structural)]
pub struct BackupConfig {
    pub max_backups: usize,
    pub retention_days: u64,
}

/// Snapshots kept when the configuration does not say.
pub const DEFAULT_MAX_BACKUPS: usize = 20;

/// Directory that holds the installed modules.
pub const DEFAULT_MODULE_DIR: &'static str = "/data/adb/modules";

/// Directory where the module mirror is mounted.
pub const DEFAULT_HYBRID_MNT_DIR: &'static str = "/data/adb/meta-hybrid/mnt";

pub fn default_max_backups() -> (r: usize)
    ensures
        r == 20,
{
    DEFAULT_MAX_BACKUPS
}

pub fn default_retention_days() -> (r: u64)
    ensures
        r == 0,
{
    0
}

pub fn default_moduledir() -> (r: String)
    ensures
        r@ == DEFAULT_MODULE_DIR@,
{
    String::from_str(DEFAULT_MODULE_DIR)
}

pub fn default_hybrid_mnt_dir() -> (r: String)
    ensures
        r@ == DEFAULT_HYBRID_MNT_DIR@,
{
    String::from_str(DEFAULT_HYBRID_MNT_DIR)
}

/// The mount source tag: `KSU` where the KernelSU driver answers, `APatch` elsewhere.
pub fn default_mountsource(ksu_present: bool) -> (r: String)
    ensures
        ksu_present ==> r@ == "KSU"@,
        !ksu_present ==> r@ == "APatch"@,
{
    if ksu_present {
        String::from_str("KSU")
    } else {
        String::from_str("APatch")
    }
}

impl BackupConfig {
    pub fn new() -> (r: BackupConfig)
        ensures
            r.max_backups == 20,
            r.retention_days == 0,
    {
        BackupConfig { max_backups: default_max_backups(), retention_days: default_retention_days() }
    }
}

impl MountMode {
    /// The mode that a configured default stands for.
    pub fn from_default(d: DefaultMode) -> (r: MountMode)
        ensures
            r == mode_of_default(d),
    {
        match d {
            DefaultMode::Overlay => MountMode::Overlay,
            DefaultMode::Magic => MountMode::Magic,
        }
    }
}

pub open spec fn mode_of_default(d: DefaultMode) -> MountMode {
    match d {
        DefaultMode::Overlay => MountMode::Overlay,
        DefaultMode::Magic => MountMode::Magic,
    }
}

/// Path overrides as a map; where a path occurs twice, the later entry wins.
pub open spec fn path_map(v: Seq<(String, MountMode)>) -> Map<Seq<char>, MountMode>
    decreases v.len(),
{
    if v.len() == 0 {
        Map::empty()
    } else {
        path_map(v.drop_last()).insert(v.last().0@, v.last().1)
    }
}

/// A module's mount policy: a default mode and per-path overrides.
#[derive(Debug)]
pub struct ModuleRules {
    pub default_mode: MountMode,
    pub paths: Vec<(String, MountMode)>,
}

/// Rules as one source states them; a missing key leaves the earlier layer in force.
#[derive(Debug)]
pub struct RuleOverrides {
    pub default_mode: Option<MountMode>,
    pub paths: Option<Vec<(String, MountMode)>>,
}

impl ModuleRules {
    pub open spec fn paths_view(&self) -> Map<Seq<char>, MountMode> {
        path_map(self.paths@)
    }

    /// The mode of one relative path: its override if there is one, else the default.
    pub open spec fn mode_of(&self, rel: Seq<char>) -> MountMode {
        if self.paths_view().contains_key(rel) {
            self.paths_view()[rel]
        } else {
            self.default_mode
        }
    }

    pub fn get_mode(&self, relative_path: &str) -> (r: MountMode)
        ensures
            r == self.mode_of(relative_path@),
    {
        let n = self.paths.len();
        let mut i: usize = n;
        assert(self.paths@.subrange(0, n as int) =~= self.paths@);
        while i > 0
            invariant
                n == self.paths@.len(),
                i <= n,
                forall|k: int|
                    i <= k < n ==> (#[trigger] self.paths@[k]).0@ != relative_path@,
                self.mode_of(relative_path@) == (if path_map(
                    self.paths@.subrange(0, i as int),
                ).contains_key(relative_path@) {
                    path_map(self.paths@.subrange(0, i as int))[relative_path@]
                } else {
                    self.default_mode
                }),
            decreases i,
        {
            let ghost pre = self.paths@.subrange(0, i as int);
            assert(pre.drop_last() =~= self.paths@.subrange(0, i - 1));
            if str_eq(self.paths[i - 1].0.as_str(), relative_path) {
                return self.paths[i - 1].1;
            }
            i = i - 1;
        }
        proof {
            assert(self.paths@.subrange(0, 0) =~= Seq::<(String, MountMode)>::empty());
        }
        self.default_mode
    }

    /// Rules of a module that states none, under a configured default.
    pub fn with_default(d: DefaultMode) -> (r: ModuleRules)
        ensures
            r.default_mode == mode_of_default(d),
            r.paths@.len() == 0,
    {
        ModuleRules { default_mode: MountMode::from_default(d), paths: Vec::new() }
    }

    /// The three layers of policy: the configured default, then the rules that the
    /// module ships (whose path table replaces the earlier one), then the user's rules
    /// (whose entries are added over the module's).
    pub fn layered(
        default_mode: DefaultMode,
        module: Option<&RuleOverrides>,
        user: Option<&RuleOverrides>,
    ) -> (r: ModuleRules)
        ensures
            r.default_mode == layered_default(default_mode, deref_opt(module), deref_opt(user)),
            r.paths_view() == layered_paths(deref_opt(module), deref_opt(user)),
    {
        let mut rules = ModuleRules::with_default(default_mode);
        if let Some(m) = module {
            if let Some(d) = m.default_mode {
                rules.default_mode = d;
            }
            if let Some(p) = &m.paths {
                rules.paths = copy_paths(p);
            }
        }
        if let Some(u) = user {
            if let Some(d) = u.default_mode {
                rules.default_mode = d;
            }
            if let Some(p) = &u.paths {
                let ghost base = rules.paths@;
                let mut extra = copy_paths(p);
                rules.paths.append(&mut extra);
                proof {
                    lemma_path_map_concat(base, p@);
                }
            }
        }
        proof {
            assert(path_map(Seq::<(String, MountMode)>::empty()) =~= Map::empty());
        }
        rules
    }
}

/// A copy of a path table.
pub fn copy_paths(v: &Vec<(String, MountMode)>) -> (r: Vec<(String, MountMode)>)
    ensures
        r@ == v@,
{
    let n = v.len();
    let mut r: Vec<(String, MountMode)> = Vec::new();
    let mut i: usize = 0;
    while i < n
        invariant
            n == v@.len(),
            i <= n,
            r@ == v@.subrange(0, i as int),
        decreases n - i,
    {
        r.push((v[i].0.clone(), v[i].1));
        assert(r@ =~= v@.subrange(0, i + 1));
        i = i + 1;
    }
    assert(v@.subrange(0, n as int) =~= v@);
    r
}

impl RuleOverrides {
    /// Both state the same default and the same path table.
    pub open spec fn same_as(&self, other: &RuleOverrides) -> bool {
        &&& self.default_mode == other.default_mode
        &&& (self.paths is Some <==> other.paths is Some)
        &&& (self.paths is Some ==> self.paths->0@ == other.paths->0@)
    }

    /// A copy of these rules.
    pub fn duplicate(&self) -> (r: RuleOverrides)
        ensures
            r.same_as(self),
    {
        RuleOverrides {
            default_mode: self.default_mode,
            paths: match &self.paths {
                Some(p) => Some(copy_paths(p)),
                None => None,
            },
        }
    }
}

/// The rules a reference points at, if any.
pub open spec fn deref_opt(o: Option<&RuleOverrides>) -> Option<RuleOverrides> {
    match o {
        Some(r) => Some(*r),
        None => None,
    }
}

/// The rules of the first entry of a user table under `id`.
pub open spec fn first_user_rules(table: Seq<(String, RuleOverrides)>, id: Seq<char>) -> Option<
    RuleOverrides,
>
    decreases table.len(),
{
    if table.len() == 0 {
        None
    } else if table[0].0@ == id {
        Some(table[0].1)
    } else {
        first_user_rules(table.drop_first(), id)
    }
}

/// Layering depends only on what the layers state, so equal copies layer alike.
pub proof fn lemma_layered_same(
    d: DefaultMode,
    module: Option<RuleOverrides>,
    a: Option<RuleOverrides>,
    b: Option<RuleOverrides>,
)
    requires
        a is Some <==> b is Some,
        a is Some ==> a->0.same_as(&b->0),
    ensures
        layered_default(d, module, a) == layered_default(d, module, b),
        layered_paths(module, a) == layered_paths(module, b),
{
}

/// The default mode after layering.
pub open spec fn layered_default(
    d: DefaultMode,
    module: Option<RuleOverrides>,
    user: Option<RuleOverrides>,
) -> MountMode {
    if user is Some && user->0.default_mode is Some {
        user->0.default_mode->0
    } else if module is Some && module->0.default_mode is Some {
        module->0.default_mode->0
    } else {
        mode_of_default(d)
    }
}

/// The path table after layering: the module's table, with the user's entries over it.
pub open spec fn layered_paths(module: Option<RuleOverrides>, user: Option<RuleOverrides>) -> Map<
    Seq<char>,
    MountMode,
> {
    let base = if module is Some && module->0.paths is Some {
        path_map(module->0.paths->0@)
    } else {
        Map::empty()
    };
    if user is Some && user->0.paths is Some {
        base.union_prefer_right(path_map(user->0.paths->0@))
    } else {
        base
    }
}

proof fn lemma_path_map_concat(a: Seq<(String, MountMode)>, b: Seq<(String, MountMode)>)
    ensures
        path_map(a + b) == path_map(a).union_prefer_right(path_map(b)),
    decreases b.len(),
{
    if b.len() == 0 {
        assert(a + b =~= a);
        assert(path_map(a).union_prefer_right(Map::empty()) =~= path_map(a));
    } else {
        lemma_path_map_concat(a, b.drop_last());
        assert((a + b).drop_last() =~= a + b.drop_last());
        assert(path_map(a + b) =~= path_map(a).union_prefer_right(path_map(b)));
    }
}

/// Layering with nothing from the module and nothing from the user leaves the configured
/// default and no path overrides.
pub proof fn lemma_layering_without_files(d: DefaultMode)
    ensures
        layered_default(d, None, None) == mode_of_default(d),
        layered_paths(None, None) == Map::<Seq<char>, MountMode>::empty(),
{
}

/// The engine's configuration.
#[derive(Debug)]
pub struct Config {
    pub moduledir: String,
    pub mountsource: String,
    pub partitions: Vec<String>,
    pub overlay_mode: OverlayMode,
    pub disable_umount: bool,
    pub allow_umount_coexistence: bool,
    pub backup: BackupConfig,
    pub hybrid_mnt_dir: String,
    pub default_mode: DefaultMode,
    pub rules: Vec<(String, RuleOverrides)>,
}

impl Config {
    /// The configuration in force when no file gives one.
    pub fn with_mount_source(mountsource: String) -> (r: Config)
        ensures
            r.moduledir@ == DEFAULT_MODULE_DIR@,
            r.mountsource@ == mountsource@,
            r.partitions@.len() == 0,
            r.overlay_mode == OverlayMode::Tmpfs,
            !r.disable_umount,
            !r.allow_umount_coexistence,
            r.backup.max_backups == 20,
            r.backup.retention_days == 0,
            r.hybrid_mnt_dir@ == DEFAULT_HYBRID_MNT_DIR@,
            r.default_mode == DefaultMode::Overlay,
            r.rules@.len() == 0,
    {
        Config {
            moduledir: default_moduledir(),
            mountsource,
            partitions: Vec::new(),
            overlay_mode: OverlayMode::Tmpfs,
            disable_umount: false,
            allow_umount_coexistence: false,
            backup: BackupConfig::new(),
            hybrid_mnt_dir: default_hybrid_mnt_dir(),
            default_mode: DefaultMode::Overlay,
            rules: Vec::new(),
        }
    }

    /// Lets command-line values override the file's.
    pub fn merge_with_cli(
        &mut self,
        moduledir: Option<String>,
        mountsource: Option<String>,
        partitions: Vec<String>,
    )
        ensures
            final(self).moduledir@ == (match moduledir {
                Some(d) => d@,
                None => old(self).moduledir@,
            }),
            final(self).mountsource@ == (match mountsource {
                Some(s) => s@,
                None => old(self).mountsource@,
            }),
            texts(final(self).partitions@) == (if partitions@.len() > 0 {
                texts(partitions@)
            } else {
                texts(old(self).partitions@)
            }),
            final(self).overlay_mode == old(self).overlay_mode,
            final(self).disable_umount == old(self).disable_umount,
            final(self).allow_umount_coexistence == old(self).allow_umount_coexistence,
            final(self).backup == old(self).backup,
            final(self).hybrid_mnt_dir@ == old(self).hybrid_mnt_dir@,
            final(self).default_mode == old(self).default_mode,
            final(self).rules@ == old(self).rules@,
    {
        if let Some(dir) = moduledir {
            self.moduledir = dir;
        }
        if let Some(source) = mountsource {
            self.mountsource = source;
        }
        if partitions.len() > 0 {
            self.partitions = partitions;
        }
    }

    /// Whether unmounting is off: by the user's choice, or forced where the zygisk
    /// denylist is enforced and coexistence was not asked for.
    pub fn effective_disable_umount(&self, denylist_enforced: bool) -> (r: bool)
        ensures
            r == (self.disable_umount || (denylist_enforced && !self.allow_umount_coexistence)),
    {
        self.disable_umount || (denylist_enforced && !self.allow_umount_coexistence)
    }

    /// The user's rules for one module: the first entry of the configuration's table
    /// under its id.
    pub fn user_rules(&self, module_id: &str) -> (r: Option<RuleOverrides>)
        ensures
            r is None <==> forall|k: int|
                0 <= k < self.rules@.len() ==> (#[trigger] self.rules@[k]).0@ != module_id@,
            r is Some ==> exists|k: int|
                0 <= k < self.rules@.len() && (#[trigger] self.rules@[k]).0@ == module_id@
                    && r->0.same_as(&self.rules@[k].1) && forall|j: int|
                    0 <= j < k ==> (#[trigger] self.rules@[j]).0@ != module_id@,
            r is Some <==> first_user_rules(self.rules@, module_id@) is Some,
            r is Some ==> r->0.same_as(&first_user_rules(self.rules@, module_id@)->0),
    {
        let n = self.rules.len();
        let mut i: usize = 0;
        assert(self.rules@.subrange(0, n as int) =~= self.rules@);
        while i < n
            invariant
                n == self.rules@.len(),
                i <= n,
                forall|k: int| 0 <= k < i ==> (#[trigger] self.rules@[k]).0@ != module_id@,
                first_user_rules(self.rules@, module_id@) == first_user_rules(
                    self.rules@.subrange(i as int, n as int),
                    module_id@,
                ),
            decreases n - i,
        {
            assert(self.rules@.subrange(i as int, n as int).drop_first() =~= self.rules@.subrange(
                i + 1,
                n as int,
            ));
            if str_eq(self.rules[i].0.as_str(), module_id) {
                return Some(self.rules[i].1.duplicate());
            }
            i = i + 1;
        }
        None
    }
}

} // verus!
