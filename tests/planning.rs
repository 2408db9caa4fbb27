use hybrid_mount::analysis::{conflicts_for, LayerFiles};
use hybrid_mount::config::{ModuleRules, MountMode, DefaultMode};
use hybrid_mount::planner::{
    classify_partition, is_builtin_partition_name, resolve_link, MountPlan, PartitionAction,
    Planner, ProcessingItem,
};

fn overlay_rules() -> ModuleRules {
    ModuleRules::with_default(DefaultMode::Overlay)
}

fn s(v: &str) -> String {
    v.to_string()
}

/// Drives the planner the way the engine does, with a fixed view of the live system:
/// `canonical` maps a target to its canonical path, `subdirs` gives each module
/// directory's subdirectories.
fn drive(
    planner: &mut Planner,
    rules: &ModuleRules,
    canonical: &dyn Fn(&str) -> String,
    subdirs: &dyn Fn(&str) -> Vec<String>,
) {
    while let Some(item) = planner.next_item() {
        let c = canonical(&item.system_target);
        let subs = subdirs(&item.module_source);
        planner.place(item, c, &subs, rules);
    }
}

fn identity(p: &str) -> String {
    p.to_string()
}

#[test]
fn single_overlay_single_module() {
    let rules = overlay_rules();
    let mut planner = Planner::new();
    let action = classify_partition(&rules, "system", &Vec::new());
    assert_eq!(action, PartitionAction::Overlay);
    planner.add_partition("A", "system", "/mirror/A/system", action);
    drive(&mut planner, &rules, &identity, &|src: &str| {
        if src == "/mirror/A/system" { vec![s("bin")] } else { Vec::new() }
    });
    let targets = planner.group_targets();
    assert_eq!(targets, vec![s("/system/bin")]);
    let plan: MountPlan = planner.finish(&vec![true]);
    assert_eq!(plan.overlay_ops.len(), 1);
    let op = &plan.overlay_ops[0];
    assert_eq!(op.partition_name, "system");
    assert_eq!(op.target, "/system/bin");
    assert_eq!(op.lowerdirs, vec![s("/mirror/A/system/bin")]);
    assert_eq!(op.module_ids, vec![s("A")]);
    assert_eq!(plan.overlay_module_ids, vec![s("A")]);
    assert!(plan.magic_module_ids.is_empty());
}

#[test]
fn two_modules_with_conflict() {
    let rules = overlay_rules();
    let mut planner = Planner::new();
    // inventory order: descending ids, so B comes before A
    for id in ["B", "A"] {
        let src = format!("/mirror/{}/system", id);
        planner.add_partition(id, "system", &src, PartitionAction::Overlay);
    }
    drive(&mut planner, &rules, &identity, &|src: &str| {
        if src.ends_with("/system") { vec![s("lib")] } else { Vec::new() }
    });
    let plan = planner.finish(&vec![true]);
    assert_eq!(plan.overlay_ops.len(), 1);
    let op = &plan.overlay_ops[0];
    assert_eq!(op.target, "/system/lib");
    assert_eq!(op.lowerdirs, vec![s("/mirror/B/system/lib"), s("/mirror/A/system/lib")]);
    let layers = vec![
        LayerFiles { module_id: s("A"), files: vec![s("libx.so")] },
        LayerFiles { module_id: s("B"), files: vec![s("libx.so"), s("liby.so")] },
    ];
    let conflicts = conflicts_for("system", &layers);
    assert_eq!(conflicts.len(), 1);
    assert_eq!(conflicts[0].partition, "system");
    assert_eq!(conflicts[0].relative_path, "libx.so");
    assert_eq!(conflicts[0].contending_modules, vec![s("A"), s("B")]);
}

#[test]
fn conflicts_are_sorted_by_path() {
    let layers = vec![
        LayerFiles { module_id: s("m1"), files: vec![s("z"), s("a")] },
        LayerFiles { module_id: s("m2"), files: vec![s("a"), s("z"), s("q")] },
    ];
    let c = conflicts_for("vendor", &layers);
    let paths: Vec<&str> = c.iter().map(|e| e.relative_path.as_str()).collect();
    assert_eq!(paths, vec!["a", "z"]);
}

#[test]
fn partition_roots_are_never_overlay_targets() {
    let rules = overlay_rules();
    let mut planner = Planner::new();
    planner.add_partition("A", "vendor", "/mirror/A/vendor", PartitionAction::Overlay);
    planner.add_partition("A", "system", "/mirror/A/system", PartitionAction::Overlay);
    // /system/vendor is a link to /vendor on this device
    let canon = |p: &str| if p == "/system/vendor" { s("/vendor") } else { s(p) };
    drive(&mut planner, &rules, &canon, &|src: &str| match src {
        "/mirror/A/vendor" => vec![s("etc")],
        "/mirror/A/system" => vec![s("vendor"), s("fonts")],
        "/mirror/A/system/vendor" => vec![s("lib")],
        _ => Vec::new(),
    });
    let n = planner.group_targets().len();
    let plan = planner.finish(&vec![true; n]);
    let targets: Vec<&str> = plan.overlay_ops.iter().map(|o| o.target.as_str()).collect();
    assert_eq!(targets, vec!["/vendor/etc", "/system/fonts", "/vendor/lib"]);
    for op in &plan.overlay_ops {
        let last = op.target.rsplit('/').next().unwrap();
        assert!(!is_builtin_partition_name(last));
        assert!(!op.lowerdirs.is_empty());
    }
    assert_eq!(plan.overlay_ops[0].partition_name, "vendor");
    assert_eq!(plan.overlay_ops[1].partition_name, "system");
}

#[test]
fn one_module_with_magic_and_overlay_paths() {
    let rules = ModuleRules {
        default_mode: MountMode::Overlay,
        paths: vec![(s("system/lib"), MountMode::Magic), (s("system/bin"), MountMode::Overlay)],
    };
    let mut planner = Planner::new();
    planner.add_partition("A", "system", "/mirror/A/system", classify_partition(&rules, "system", &Vec::new()));
    drive(&mut planner, &rules, &identity, &|src: &str| {
        if src == "/mirror/A/system" { vec![s("lib"), s("bin")] } else { Vec::new() }
    });
    let plan = planner.finish(&vec![true]);
    assert_eq!(plan.overlay_ops.len(), 1);
    assert_eq!(plan.overlay_ops[0].target, "/system/bin");
    assert_eq!(plan.magic_module_ids, vec![s("A")]);
}

#[test]
fn empty_inventory_gives_empty_plan() {
    let planner = Planner::new();
    assert!(planner.group_targets().is_empty());
    let plan = planner.finish(&Vec::new());
    assert!(plan.overlay_ops.is_empty());
    assert!(plan.overlay_module_ids.is_empty());
    assert!(plan.magic_module_ids.is_empty());
}

#[test]
fn targets_that_are_not_directories_are_dropped() {
    let rules = overlay_rules();
    let mut planner = Planner::new();
    planner.add_partition("A", "system", "/mirror/A/system", PartitionAction::Overlay);
    drive(&mut planner, &rules, &identity, &|src: &str| {
        if src == "/mirror/A/system" { vec![s("bin"), s("xbin")] } else { Vec::new() }
    });
    let plan = planner.finish(&vec![true, false]);
    assert_eq!(plan.overlay_ops.len(), 1);
    assert_eq!(plan.overlay_ops[0].target, "/system/bin");
}

#[test]
fn partitions_outside_the_known_set_are_skipped() {
    let rules = overlay_rules();
    assert_eq!(classify_partition(&rules, "webroot", &Vec::new()), PartitionAction::Skip);
    assert_eq!(classify_partition(&rules, "my_part", &vec![s("my_part")]), PartitionAction::Overlay);
    let magic = ModuleRules::with_default(DefaultMode::Magic);
    assert_eq!(classify_partition(&magic, "vendor", &Vec::new()), PartitionAction::Magic);
    let ignore = ModuleRules { default_mode: MountMode::Overlay, paths: vec![(s("odm"), MountMode::Ignore)] };
    assert_eq!(classify_partition(&ignore, "odm", &Vec::new()), PartitionAction::Skip);
}

#[test]
fn links_resolve_against_their_directory() {
    assert_eq!(resolve_link("/system/vendor", "/vendor"), "/vendor");
    assert_eq!(resolve_link("/system/vendor", "../vendor"), "/system/../vendor");
    assert_eq!(resolve_link("/product", "system/product"), "/system/product");
}

#[test]
fn queue_items_carry_relative_paths() {
    let mut planner = Planner::new();
    planner.add_partition("A", "odm", "/m/A/odm", PartitionAction::Overlay);
    let item: ProcessingItem = planner.next_item().unwrap();
    assert_eq!(item.system_target, "/odm");
    assert_eq!(item.relative_path, "odm");
    assert!(planner.next_item().is_none());
}

#[test]
fn nested_targets_run_after_their_parents() {
    let op = |t: &str| hybrid_mount::planner::OverlayOperation {
        partition_name: s("system"),
        target: s(t),
        lowerdirs: vec![s("/m")],
        module_ids: vec![s("m")],
    };
    let ordered = hybrid_mount::planner::order_for_execution(vec![
        op("/system/app/Foo"),
        op("/system/app"),
        op("/vendor/etc"),
    ]);
    let targets: Vec<&str> = ordered.iter().map(|o| o.target.as_str()).collect();
    assert_eq!(targets, vec!["/system/app", "/vendor/etc", "/system/app/Foo"]);
}

#[test]
fn one_group_per_target_in_placement_order() {
    let rules = overlay_rules();
    let mut planner = Planner::new();
    for id in ["C", "B", "A"] {
        let src = format!("/mirror/{}/system", id);
        planner.add_partition(id, "system", &src, PartitionAction::Overlay);
    }
    drive(&mut planner, &rules, &identity, &|src: &str| {
        if src.ends_with("/system") { vec![s("etc"), s("lib")] } else { Vec::new() }
    });
    let plan = planner.finish(&vec![true, true]);
    let targets: Vec<&str> = plan.overlay_ops.iter().map(|o| o.target.as_str()).collect();
    assert_eq!(targets, vec!["/system/etc", "/system/lib"]);
    assert_eq!(plan.overlay_ops[1].module_ids, vec![s("C"), s("B"), s("A")]);
}
