use vstd::prelude::*;

use crate::executor::ExecutionResult;
use crate::inventory::Module;
use crate::numbers::{decimal, decimal_string};
use crate::planner::{MountPlan, OverlayOperation};
use crate::storage::{StorageHandle, StorageMode};
use crate::text::{insert_sorted_unique, str_eq, strictly_ascending, texts};

verus! {

/// What the engine records once the mounts are in place.
#[derive(Debug)]
pub struct RuntimeState {
    pub timestamp: u64,
    pub pid: u32,
    pub storage_mode: String,
    pub mount_point: String,
    pub overlay_modules: Vec<String>,
    pub magic_modules: Vec<String>,
    pub active_mounts: Vec<String>,
    pub zygisksu_enforce: bool,
    pub tmpfs_xattr_supported: bool,
}

impl RuntimeState {
    /// The state a missing file stands for.
    pub fn empty() -> (r: RuntimeState)
        ensures
            r.timestamp == 0,
            r.pid == 0,
            r.storage_mode@.len() == 0,
            r.overlay_modules@.len() == 0,
            r.magic_modules@.len() == 0,
            r.active_mounts@.len() == 0,
    {
        RuntimeState {
            timestamp: 0,
            pid: 0,
            storage_mode: String::new(),
            mount_point: String::new(),
            overlay_modules: Vec::new(),
            magic_modules: Vec::new(),
            active_mounts: Vec::new(),
            zygisksu_enforce: false,
            tmpfs_xattr_supported: false,
        }
    }
}

/// The partitions that the plan overlays, each once, in ascending order.
pub fn active_mounts(ops: &Vec<OverlayOperation>) -> (r: Vec<String>)
    ensures
        strictly_ascending(texts(r@)),
        texts(r@).to_set() == ops@.map_values(|op: OverlayOperation| op.partition_name@).to_set(),
{
    let n = ops.len();
    let mut r: Vec<String> = Vec::new();
    let mut i: usize = 0;
    let ghost names = ops@.map_values(|op: OverlayOperation| op.partition_name@);
    assert(texts(r@).to_set() =~= names.subrange(0, 0).to_set());
    while i < n
        invariant
            n == ops@.len(),
            i <= n,
            names == ops@.map_values(|op: OverlayOperation| op.partition_name@),
            strictly_ascending(texts(r@)),
            texts(r@).to_set() == names.subrange(0, i as int).to_set(),
        decreases n - i,
    {
        insert_sorted_unique(&mut r, ops[i].partition_name.clone());
        assert(names.subrange(0, i + 1) =~= names.subrange(0, i as int).push(names[i as int]));
        proof {
            crate::text::lemma_push_to_set(names.subrange(0, i as int), names[i as int]);
        }
        i = i + 1;
    }
    assert(names.subrange(0, n as int) =~= names);
    r
}

/// The label the module description gives a storage mode.
pub open spec fn mode_label(mode: Seq<char>) -> Seq<char> {
    if mode == "tmpfs"@ {
        "Tmpfs"@
    } else if mode == "erofs"@ {
        "EROFS"@
    } else {
        "Ext4"@
    }
}

/// The `description=` line of the module descriptor after a boot.
pub open spec fn description_text(mode: Seq<char>, overlay_count: u64, magic_count: u64) -> Seq<char> {
    "description=Running ("@ + mode_label(mode) + ") | Overlay: "@ + decimal(overlay_count as nat)
        + " | Magic: "@ + decimal(magic_count as nat)
}

pub fn description_line(storage_mode: &str, overlay_count: u64, magic_count: u64) -> (r: String)
    ensures
        r@ == description_text(storage_mode@, overlay_count, magic_count),
{
    let label = if str_eq(storage_mode, "tmpfs") {
        "Tmpfs"
    } else if str_eq(storage_mode, "erofs") {
        "EROFS"
    } else {
        "Ext4"
    };
    let mut s = String::from_str("description=Running (");
    s.append(label);
    s.append(") | Overlay: ");
    let o = decimal_string(overlay_count);
    s.append(o.as_str());
    s.append(" | Magic: ");
    let m = decimal_string(magic_count);
    s.append(m.as_str());
    s
}

/// A line that carries the module description.
pub open spec fn is_description(line: Seq<char>) -> bool {
    line.len() >= "description="@.len() && line.subrange(0, "description="@.len() as int)
        == "description="@
}

pub fn starts_with_description(line: &str) -> (r: bool)
    ensures
        r == is_description(line@),
{
    let key = "description=";
    let k = key.unicode_len();
    if line.unicode_len() < k {
        return false;
    }
    str_eq(line.substring_char(0, k), key)
}

/// The descriptor's lines with every `description=` line replaced by `replacement`.
pub fn replace_description(lines: &Vec<String>, replacement: &str) -> (r: Vec<String>)
    ensures
        r@.len() == lines@.len(),
        forall|i: int|
            0 <= i < r@.len() ==> (#[trigger] r@[i])@ == (if is_description(lines@[i]@) {
                replacement@
            } else {
                lines@[i]@
            }),
{
    let n = lines.len();
    let mut r: Vec<String> = Vec::new();
    let mut i: usize = 0;
    while i < n
        invariant
            n == lines@.len(),
            i <= n,
            r@.len() == i,
            forall|k: int|
                0 <= k < i ==> (#[trigger] r@[k])@ == (if is_description(lines@[k]@) {
                    replacement@
                } else {
                    lines@[k]@
                }),
        decreases n - i,
    {
        if starts_with_description(lines[i].as_str()) {
            r.push(String::from_str(replacement));
        } else {
            r.push(lines[i].clone());
        }
        i = i + 1;
    }
    r
}

/// The controller before anything is set up.
pub struct Init;

/// Storage is provisioned.
pub struct StorageReady {
    pub handle: StorageHandle,
}

/// Modules are scanned and mirrored into storage.
pub struct ModulesReady {
    pub handle: StorageHandle,
    pub modules: Vec<Module>,
}

/// The mount plan is computed.
pub struct Planned {
    pub handle: StorageHandle,
    pub plan: MountPlan,
}

/// The plan was carried out.
pub struct Executed {
    pub handle: StorageHandle,
    pub plan: MountPlan,
    pub result: ExecutionResult,
}

impl StorageReady {
    /// Moves on once the modules are scanned; a staging handle must have been committed.
    pub fn with_modules(self, modules: Vec<Module>) -> (r: ModulesReady)
        requires
            self.handle.mode != StorageMode::ErofsStaging,
        ensures
            r.handle == self.handle,
            r.modules@ == modules@,
    {
        ModulesReady { handle: self.handle, modules }
    }
}

impl ModulesReady {
    pub fn with_plan(self, plan: MountPlan) -> (r: Planned)
        ensures
            r.handle == self.handle,
            r.plan == plan,
    {
        Planned { handle: self.handle, plan }
    }
}

impl Planned {
    pub fn with_result(self, result: ExecutionResult) -> (r: Executed)
        ensures
            r.handle == self.handle,
            r.plan == self.plan,
            r.result == result,
    {
        Executed { handle: self.handle, plan: self.plan, result }
    }
}

impl Executed {
    /// The runtime state this boot leaves, at `timestamp` by process `pid`.
    pub fn runtime_state(
        self,
        timestamp: u64,
        pid: u32,
        zygisksu_enforce: bool,
        tmpfs_xattr_supported: bool,
    ) -> (r: RuntimeState)
        ensures
            r.timestamp == timestamp,
            r.pid == pid,
            r.storage_mode@ == crate::storage::mode_text(self.handle.mode),
            r.mount_point@ == self.handle.mount_point@,
            r.overlay_modules@ == self.result.overlay_module_ids@,
            r.magic_modules@ == self.result.magic_module_ids@,
            texts(r.active_mounts@).to_set() == self.plan.overlay_ops@.map_values(
                |op: OverlayOperation| op.partition_name@,
            ).to_set(),
            r.zygisksu_enforce == zygisksu_enforce,
            r.tmpfs_xattr_supported == tmpfs_xattr_supported,
    {
        let active = active_mounts(&self.plan.overlay_ops);
        RuntimeState {
            timestamp,
            pid,
            storage_mode: crate::storage::mode_name(self.handle.mode),
            mount_point: self.handle.mount_point,
            overlay_modules: self.result.overlay_module_ids,
            magic_modules: self.result.magic_module_ids,
            active_mounts: active,
            zygisksu_enforce,
            tmpfs_xattr_supported,
        }
    }
}

} // verus!
