use hybrid_mount::executor::ExecutionTracker;
use hybrid_mount::planner::Planner;
use hybrid_mount::state::StorageReady;
use hybrid_mount::storage::{StorageHandle, StorageMode};
use hybrid_mount::paths::{file_name, is_strictly_below, join, parent_dir, partition_label};
use hybrid_mount::planner::OverlayOperation;
use hybrid_mount::process::{random_kworker_name, select_temp_dir};
use hybrid_mount::state::{active_mounts, description_line, replace_description, RuntimeState};
use hybrid_mount::sync::{
    backup_name, copies_xattr, is_orphan, opaque_dirs, rewrite_context, should_sync, staging_name,
};

fn s(v: &str) -> String {
    v.to_string()
}

#[test]
fn sync_twice_does_nothing_the_second_time() {
    let prop = b"id=a\nversion=1\n".to_vec();
    assert!(should_sync(true, false, &Some(prop.clone()), &None));
    assert!(!should_sync(true, true, &Some(prop.clone()), &Some(prop.clone())));
    let newer = b"id=a\nversion=2\n".to_vec();
    assert!(should_sync(true, true, &Some(newer), &Some(prop.clone())));
    assert!(should_sync(true, true, &None, &Some(prop.clone())));
    assert!(!should_sync(false, false, &None, &None));
}

#[test]
fn orphans_in_the_mirror() {
    let ids = vec![s("a"), s("b")];
    assert!(is_orphan("c", &ids));
    assert!(!is_orphan("a", &ids));
    assert!(!is_orphan("lost+found", &ids));
    assert!(!is_orphan("meta-hybrid", &ids));
    assert!(!is_orphan(".tmp_c", &ids));
    assert_eq!(staging_name("a"), ".tmp_a");
    assert_eq!(backup_name("a"), ".backup_a");
}

#[test]
fn copied_labels_and_attributes() {
    assert_eq!(rewrite_context("u:object_r:rootfs:s0"), "u:object_r:system_file:s0");
    assert_eq!(rewrite_context("u:object_r:vendor_file:s0"), "u:object_r:vendor_file:s0");
    assert!(copies_xattr("security.selinux"));
    assert!(copies_xattr("trusted.overlay.opaque"));
    assert!(!copies_xattr("trusted.overlay"));
    assert!(!copies_xattr("user.comment"));
}

#[test]
fn replace_marker_makes_its_directory_opaque() {
    let files = vec![s("A/system/fonts/.replace"), s("A/system/fonts/Roboto.ttf"), s("A/system/bin/.replaced")];
    assert_eq!(opaque_dirs(&files), vec![s("A/system/fonts")]);
}

#[test]
fn path_pieces() {
    assert_eq!(file_name("/system/lib"), "lib");
    assert_eq!(file_name("/"), "");
    assert_eq!(parent_dir("/system/lib"), "/system");
    assert_eq!(parent_dir("/system"), "/");
    assert_eq!(join("/", "system"), "/system");
    assert_eq!(join("/system", "bin"), "/system/bin");
    assert_eq!(partition_label("/system/lib"), "system");
    assert_eq!(partition_label("/vendor"), "vendor");
    assert_eq!(partition_label("/"), "unknown");
    assert!(is_strictly_below("/system/bin", "/system"));
    assert!(is_strictly_below("/system/bin", "/system/"));
    assert!(!is_strictly_below("/system", "/system"));
    assert!(!is_strictly_below("/systemx/a", "/system"));
}

#[test]
fn descriptor_line_and_rewrite() {
    let line = description_line("tmpfs", 3, 1);
    assert_eq!(line, "description=Running (Tmpfs) | Overlay: 3 | Magic: 1");
    assert_eq!(description_line("erofs", 0, 0), "description=Running (EROFS) | Overlay: 0 | Magic: 0");
    assert_eq!(description_line("ext4", 10, 2), "description=Running (Ext4) | Overlay: 10 | Magic: 2");
    let lines = vec![s("id=hybrid"), s("description=old"), s("version=1")];
    assert_eq!(replace_description(&lines, &line), vec![s("id=hybrid"), line.clone(), s("version=1")]);
}

#[test]
fn active_mounts_are_unique_and_sorted() {
    let op = |p: &str, t: &str| OverlayOperation {
        partition_name: s(p),
        target: s(t),
        lowerdirs: vec![s("/m/x")],
        module_ids: vec![s("x")],
    };
    let ops = vec![op("vendor", "/vendor/lib"), op("system", "/system/bin"), op("vendor", "/vendor/etc")];
    assert_eq!(active_mounts(&ops), vec![s("system"), s("vendor")]);
    assert!(active_mounts(&Vec::new()).is_empty());
    let st = RuntimeState::empty();
    assert_eq!(st.timestamp, 0);
    assert!(st.overlay_modules.is_empty());
}

#[test]
fn process_names_and_temp_dirs() {
    assert_eq!(random_kworker_name(0), "kworker/u0:0");
    assert_eq!(random_kworker_name(0x35), "kworker/u5:3");
    assert_eq!(random_kworker_name(0xAF), "kworker/u15:0");
    let cands = vec![s("/debug_ramdisk"), s("/patch_hw"), s("/oem")];
    assert_eq!(select_temp_dir(&cands, &vec![false, true, true], "/run/x"), "/patch_hw");
    assert_eq!(select_temp_dir(&cands, &vec![false, false, false], "/run/x"), "/run/x/workdir");
}

#[test]
fn empty_boot_still_records_runtime_state() {
    let handle = StorageHandle { mount_point: s("/mnt/mirror"), mode: StorageMode::Tmpfs, backing_image: None, final_target: None };
    let ready = StorageReady { handle }.with_modules(Vec::new());
    let plan = Planner::new().finish(&Vec::new());
    let planned = ready.with_plan(plan);
    let result = ExecutionTracker::new(&planned.plan.magic_module_ids).finish(true);
    let executed = planned.with_result(result);
    let state = executed.runtime_state(1700000000, 42, false, true);
    assert_eq!(state.timestamp, 1700000000);
    assert_eq!(state.pid, 42);
    assert_eq!(state.storage_mode, "tmpfs");
    assert_eq!(state.mount_point, "/mnt/mirror");
    assert!(state.overlay_modules.is_empty());
    assert!(state.magic_modules.is_empty());
    assert!(state.active_mounts.is_empty());
    assert!(state.tmpfs_xattr_supported);
}
