use hybrid_mount::executor::ExecutionTracker;
use hybrid_mount::umount::{commit_flag, UmountScheduler, HIDE_FROM_ALL, HIDE_FROM_ZYGOTE};

fn s(v: &str) -> String {
    v.to_string()
}

#[test]
fn overlay_failure_falls_back_to_magic() {
    let mut t = ExecutionTracker::new(&vec![s("m")]);
    t.record_overlay(&vec![s("a"), s("b")], true);
    t.record_overlay(&vec![s("b"), s("c")], false);
    assert_eq!(t.magic_queue(), vec![s("b"), s("c"), s("m")]);
    let r = t.finish(true);
    assert_eq!(r.overlay_module_ids, vec![s("a")]);
    assert_eq!(r.magic_module_ids, vec![s("b"), s("c"), s("m")]);
    for id in &r.overlay_module_ids {
        assert!(!r.magic_module_ids.contains(id));
    }
}

#[test]
fn failed_magic_mount_reports_no_magic_modules() {
    let mut t = ExecutionTracker::new(&Vec::new());
    t.record_overlay(&vec![s("x")], false);
    t.record_overlay(&vec![s("y")], true);
    let r = t.finish(false);
    assert_eq!(r.overlay_module_ids, vec![s("y")]);
    assert!(r.magic_module_ids.is_empty());
}

#[test]
fn empty_execution_result() {
    let t = ExecutionTracker::new(&Vec::new());
    assert!(t.magic_queue().is_empty());
    let r = t.finish(true);
    assert!(r.overlay_module_ids.is_empty());
    assert!(r.magic_module_ids.is_empty());
}

#[test]
fn umount_queue_holds_each_path_once() {
    let mut u = UmountScheduler::new(true);
    u.send_umountable("/system/bin");
    u.send_umountable("/vendor/lib");
    u.send_umountable("/system/bin");
    let batch = u.commit();
    assert_eq!(batch, vec![s("/system/bin"), s("/vendor/lib")]);
    assert!(u.commit().is_empty());
}

#[test]
fn umount_without_kernel_helper_takes_nothing() {
    let mut u = UmountScheduler::new(false);
    u.send_umountable("/system/bin");
    assert!(u.commit().is_empty());
}

#[test]
fn umount_commit_flags_in_order() {
    assert_eq!(commit_flag(0), Some(HIDE_FROM_ALL));
    assert_eq!(commit_flag(1), Some(HIDE_FROM_ZYGOTE));
    assert_eq!(HIDE_FROM_ZYGOTE, 2);
    assert_eq!(commit_flag(2), None);
}
