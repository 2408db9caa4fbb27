use hybrid_mount::config::{
    default_hybrid_mnt_dir, default_max_backups, default_moduledir, default_mountsource,
    default_retention_days, BackupConfig, Config, DefaultMode, ModuleRules, MountMode,
    OverlayMode, RuleOverrides,
};
use hybrid_mount::inventory::{scan, ModuleCandidate};
use hybrid_mount::validation::{validate_module_id, ValidationError};

fn s(v: &str) -> String {
    v.to_string()
}

fn candidate(name: &str, is_dir: bool, has_marker: bool) -> ModuleCandidate {
    ModuleCandidate {
        name: s(name),
        path: format!("/data/adb/modules/{}", name),
        is_dir,
        has_marker,
        shipped_rules: None,
    }
}

#[test]
fn rules_without_files_take_the_configured_default() {
    let r = ModuleRules::layered(DefaultMode::Magic, None, None);
    assert_eq!(r.default_mode, MountMode::Magic);
    assert!(r.paths.is_empty());
    let r = ModuleRules::layered(DefaultMode::Overlay, None, None);
    assert_eq!(r.default_mode, MountMode::Overlay);
    assert!(r.paths.is_empty());
}

#[test]
fn rule_layers_override_in_order() {
    let shipped = RuleOverrides {
        default_mode: Some(MountMode::Magic),
        paths: Some(vec![(s("system"), MountMode::Overlay), (s("vendor"), MountMode::Ignore)]),
    };
    let user = RuleOverrides { default_mode: None, paths: Some(vec![(s("vendor"), MountMode::Magic)]) };
    let r = ModuleRules::layered(DefaultMode::Overlay, Some(&shipped), Some(&user));
    assert_eq!(r.default_mode, MountMode::Magic);
    assert_eq!(r.get_mode("system"), MountMode::Overlay);
    assert_eq!(r.get_mode("vendor"), MountMode::Magic);
    assert_eq!(r.get_mode("odm"), MountMode::Magic);
    let user_default = RuleOverrides { default_mode: Some(MountMode::Ignore), paths: None };
    let r = ModuleRules::layered(DefaultMode::Overlay, Some(&shipped), Some(&user_default));
    assert_eq!(r.default_mode, MountMode::Ignore);
    assert_eq!(r.get_mode("vendor"), MountMode::Ignore);
}

#[test]
fn configuration_defaults() {
    let c = Config::with_mount_source(default_mountsource(true));
    assert_eq!(c.mountsource, "KSU");
    assert_eq!(default_mountsource(false), "APatch");
    assert_eq!(c.moduledir, "/data/adb/modules");
    assert_eq!(default_moduledir(), "/data/adb/modules");
    assert_eq!(default_hybrid_mnt_dir(), c.hybrid_mnt_dir);
    assert_eq!(c.backup, BackupConfig::new());
    assert_eq!(default_max_backups(), 20);
    assert_eq!(default_retention_days(), 0);
    assert_eq!(c.overlay_mode, OverlayMode::Tmpfs);
    assert_eq!(c.default_mode, DefaultMode::Overlay);
    assert!(c.partitions.is_empty());
    assert!(!c.disable_umount);
}

#[test]
fn command_line_overrides_the_file() {
    let mut c = Config::with_mount_source(s("KSU"));
    c.merge_with_cli(Some(s("/tmp/mods")), None, vec![s("my_part")]);
    assert_eq!(c.moduledir, "/tmp/mods");
    assert_eq!(c.mountsource, "KSU");
    assert_eq!(c.partitions, vec![s("my_part")]);
    c.merge_with_cli(None, Some(s("APatch")), Vec::new());
    assert_eq!(c.mountsource, "APatch");
    assert_eq!(c.partitions, vec![s("my_part")]);
}

#[test]
fn denylist_enforcement_forces_umount_off() {
    let mut c = Config::with_mount_source(s("KSU"));
    assert!(c.effective_disable_umount(true));
    assert!(!c.effective_disable_umount(false));
    c.allow_umount_coexistence = true;
    assert!(!c.effective_disable_umount(true));
}

#[test]
fn user_rules_are_found_by_module_id() {
    let mut c = Config::with_mount_source(s("KSU"));
    c.rules.push((s("mod_a"), RuleOverrides { default_mode: Some(MountMode::Magic), paths: None }));
    assert_eq!(c.user_rules("mod_a").unwrap().default_mode, Some(MountMode::Magic));
    assert!(c.user_rules("mod_b").is_none());
}

#[test]
fn module_ids_are_validated() {
    assert_eq!(validate_module_id("zygisk_lsposed"), Ok(()));
    assert_eq!(validate_module_id("a1"), Ok(()));
    assert_eq!(validate_module_id("a"), Err(ValidationError::InvalidModuleId));
    assert_eq!(validate_module_id("1abc"), Err(ValidationError::InvalidModuleId));
    assert_eq!(validate_module_id("bad/id"), Err(ValidationError::InvalidModuleId));
    assert_eq!(validate_module_id(""), Err(ValidationError::InvalidModuleId));
}

#[test]
fn scan_keeps_enabled_modules_in_descending_order() {
    let mut cfg = Config::with_mount_source(s("KSU"));
    cfg.default_mode = DefaultMode::Magic;
    let found = scan(
        vec![
            candidate("alpha", true, false),
            candidate("gamma", true, false),
            candidate("disabled_one", true, true),
            candidate("notes.txt", false, false),
            candidate("lost+found", true, false),
            candidate("meta-hybrid", true, false),
            candidate("beta", true, false),
        ],
        &cfg,
    );
    let ids: Vec<&str> = found.iter().map(|m| m.id.as_str()).collect();
    assert_eq!(ids, vec!["gamma", "beta", "alpha"]);
    assert_eq!(found[0].source_path, "/data/adb/modules/gamma");
    assert_eq!(found[0].rules.default_mode, MountMode::Magic);
}

#[test]
fn empty_module_directory_gives_no_modules() {
    let cfg = Config::with_mount_source(s("KSU"));
    assert!(scan(Vec::new(), &cfg).is_empty());
}

#[test]
fn scan_layers_each_module_rules_once() {
    let mut cfg = Config::with_mount_source(s("KSU"));
    cfg.rules.push((s("beta"), RuleOverrides { default_mode: Some(MountMode::Ignore), paths: None }));
    let mut shipped = candidate("alpha", true, false);
    shipped.shipped_rules = Some(RuleOverrides { default_mode: None, paths: Some(vec![(s("vendor"), MountMode::Magic)]) });
    let found = scan(vec![shipped, candidate("beta", true, false), candidate("alpha2", true, false)], &cfg);
    let ids: Vec<&str> = found.iter().map(|m| m.id.as_str()).collect();
    assert_eq!(ids, vec!["beta", "alpha2", "alpha"]);
    assert_eq!(found[0].rules.default_mode, MountMode::Ignore);
    assert_eq!(found[1].rules.default_mode, MountMode::Overlay);
    assert_eq!(found[2].rules.get_mode("vendor"), MountMode::Magic);
    assert_eq!(found[2].rules.get_mode("system"), MountMode::Overlay);
}
