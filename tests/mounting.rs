use hybrid_mount::overlay::{child_restore, ChildRestore};
use hybrid_mount::magic::{opens_fresh_tmpfs, place_child, ChildPlacement, NodeAction};
use hybrid_mount::magic::{child_error_is_fatal, magic_partition_candidates, magic_roots, mirrors_live_entries};
use hybrid_mount::magic::{
    file_kind, mirror_action, should_create_tmpfs, ChildState, FileKind, MagicTree, MirrorAction,
};
use hybrid_mount::overlay::{child_mounts, lowerdir_option, mount_data, needs_staging, split_batches, use_rw_layer};
use hybrid_mount::storage::{image_size, mode_name, storage_attempts, StorageError, StorageHandle, StorageMode};
use hybrid_mount::config::OverlayMode;

fn s(v: &str) -> String {
    v.to_string()
}

#[test]
fn lowerdir_value_joins_layers_then_stock() {
    assert_eq!(lowerdir_option(&vec![s("/a"), s("/b")], "/proc/self/fd/5"), "/a:/b:/proc/self/fd/5");
    assert_eq!(lowerdir_option(&Vec::new(), "/stock"), "/stock");
}

#[test]
fn staging_threshold_around_four_thousand() {
    let under = "x".repeat(4000);
    let over = "x".repeat(4001);
    assert!(!needs_staging(&under));
    assert!(needs_staging(&over));
    // forty layers of a hundred bytes: 4040 bytes with separators
    let layers: Vec<String> = (0..40).map(|i| format!("/{:0>99}", i)).collect();
    let joined = lowerdir_option(&layers, "/s");
    assert!(needs_staging(&joined));
    let batches = split_batches(&layers);
    assert!(batches.len() >= 2);
    let flat: Vec<String> = batches.iter().flatten().cloned().collect();
    assert_eq!(flat, layers);
    for b in &batches {
        let w: usize = b.iter().map(|d| d.len() + 1).sum();
        assert!(w <= 3500);
    }
    // just under the threshold: one batch
    let few: Vec<String> = (0..30).map(|i| format!("/{:0>99}", i)).collect();
    assert!(!needs_staging(&lowerdir_option(&few, "/s")));
    assert_eq!(split_batches(&few).len(), 1);
}

#[test]
fn an_oversized_layer_stands_alone() {
    let big = format!("/{}", "y".repeat(5000));
    let batches = split_batches(&vec![s("/a"), big.clone(), s("/b")]);
    assert_eq!(batches, vec![vec![s("/a")], vec![big], vec![s("/b")]]);
}

#[test]
fn child_mounts_lie_strictly_below() {
    let mounts = vec![s("/"), s("/system"), s("/system/bin/app"), s("/systemx"), s("/system/etc")];
    assert_eq!(child_mounts("/system", &mounts), vec![s("/system/bin/app"), s("/system/etc")]);
}

#[test]
fn whiteouts_come_from_device_zero() {
    assert_eq!(file_kind(0o020644, 0), Some(FileKind::Whiteout));
    assert_eq!(file_kind(0o020644, 5), None);
    assert_eq!(file_kind(0o100644, 0), Some(FileKind::RegularFile));
    assert_eq!(file_kind(0o040755, 0), Some(FileKind::Directory));
    assert_eq!(file_kind(0o120777, 0), Some(FileKind::Symlink));
}

#[test]
fn magic_whiteout_needs_tmpfs() {
    // /system/etc/hosts whited out while it exists live
    let kids = vec![ChildState { kind: FileKind::Whiteout, live: Some(FileKind::RegularFile) }];
    assert!(should_create_tmpfs(false, false, true, &kids));
    let plain = vec![ChildState { kind: FileKind::RegularFile, live: Some(FileKind::RegularFile) }];
    assert!(!should_create_tmpfs(false, false, true, &plain));
    let gone = vec![ChildState { kind: FileKind::Whiteout, live: None }];
    assert!(!should_create_tmpfs(false, false, true, &gone));
    let fresh = vec![ChildState { kind: FileKind::RegularFile, live: None }];
    assert!(should_create_tmpfs(false, false, true, &fresh));
    assert!(!should_create_tmpfs(false, false, false, &fresh));
}

#[test]
fn replace_directory_gets_tmpfs() {
    assert!(should_create_tmpfs(false, true, true, &Vec::new()));
    assert!(should_create_tmpfs(true, false, false, &Vec::new()));
    let mut tree = MagicTree::new();
    tree.add("system/fonts", FileKind::Directory, Some(s("/m/A/system/fonts")));
    tree.mark_replace("system/fonts");
    assert!(tree.entries()[0].replace);
}

#[test]
fn first_module_decides_a_path() {
    let mut tree = MagicTree::new();
    tree.add("system/bin/foo", FileKind::RegularFile, Some(s("/m/B/system/bin/foo")));
    tree.add("system/bin/foo", FileKind::Symlink, Some(s("/m/A/system/bin/foo")));
    assert_eq!(tree.entries().len(), 1);
    assert_eq!(tree.entries()[0].kind, FileKind::RegularFile);
    assert_eq!(tree.entries()[0].module_source.as_deref(), Some("/m/B/system/bin/foo"));
    assert_eq!(mirror_action(FileKind::Symlink), MirrorAction::Relink);
    assert_eq!(mirror_action(FileKind::Directory), MirrorAction::Descend);
}

#[test]
fn image_size_rules() {
    assert_eq!(image_size(0), 64 * 1024 * 1024);
    assert_eq!(image_size(100 * 1024 * 1024), 120 * 1024 * 1024);
    assert_eq!(image_size(100_000_001), 120_000_002);
    assert_eq!(image_size(u64::MAX), u64::MAX);
}

#[test]
fn storage_backends_in_order() {
    assert_eq!(storage_attempts(OverlayMode::Erofs, true), vec![StorageMode::ErofsStaging, StorageMode::Tmpfs, StorageMode::Ext4]);
    assert_eq!(storage_attempts(OverlayMode::Erofs, false), vec![StorageMode::Tmpfs, StorageMode::Ext4]);
    assert_eq!(storage_attempts(OverlayMode::Ext4, true), vec![StorageMode::Ext4]);
    assert_eq!(storage_attempts(OverlayMode::Tmpfs, false), vec![StorageMode::Tmpfs, StorageMode::Ext4]);
    assert_eq!(mode_name(StorageMode::ErofsStaging), "erofs_staging");
}

#[test]
fn staging_handle_commits_to_erofs() {
    let mut h = StorageHandle {
        mount_point: s("/run/staging"),
        mode: StorageMode::ErofsStaging,
        backing_image: Some(s("/data/modules.erofs")),
        final_target: Some(s("/mnt/final")),
    };
    assert_eq!(h.commit(), Ok(()));
    assert_eq!(h.mode, StorageMode::Erofs);
    assert_eq!(h.mount_point, "/mnt/final");
    assert_eq!(h.commit(), Err(StorageError::NotStaging));
    let mut bare = StorageHandle { mount_point: s("/x"), mode: StorageMode::ErofsStaging, backing_image: None, final_target: None };
    assert_eq!(bare.commit(), Err(StorageError::MissingTarget));
}

#[test]
fn replace_mark_on_an_unknown_path_changes_nothing() {
    let mut tree = MagicTree::new();
    tree.mark_replace("system/fonts");
    assert!(tree.entries().is_empty());
    tree.add("system", FileKind::Directory, None);
    tree.add("system/fonts", FileKind::Directory, Some(s("/m/A/system/fonts")));
    tree.mark_replace("system/fonts");
    assert!(!tree.entries()[0].replace);
    assert!(tree.entries()[1].replace);
}

#[test]
fn overlay_mount_options() {
    assert_eq!(mount_data("/a:/b", None, false, false), "lowerdir=/a:/b");
    assert_eq!(
        mount_data("/a", Some(("/rw/u", "/rw/w")), true, true),
        "lowerdir=/a,upperdir=/rw/u,workdir=/rw/w,redirect_dir=on,metacopy=on"
    );
    assert!(use_rw_layer(true, true));
    assert!(!use_rw_layer(true, false));
}

#[test]
fn child_mounts_restore_by_module_content() {
    let roots = vec![s("/m/A/system/app"), s("/m/B/system/app"), s("/m/C/system/app")];
    assert!(matches!(child_restore("Foo", &roots, &vec![false, false, false], &vec![false, false, false]), ChildRestore::Move));
    assert!(matches!(child_restore("Foo", &roots, &vec![true, true, false], &vec![true, false, false]), ChildRestore::Leave));
    match child_restore("Foo", &roots, &vec![true, false, true], &vec![true, false, true]) {
        ChildRestore::Overlay(ds) => assert_eq!(ds, vec![s("/m/A/system/app/Foo"), s("/m/C/system/app/Foo")]),
        other => panic!("unexpected {:?}", other),
    }
}

#[test]
fn magic_walks_system_and_moved_partitions() {
    let cands = magic_partition_candidates(&vec![s("my_part"), s("vendor"), s("system")]);
    assert_eq!(cands, vec![s("vendor"), s("system_ext"), s("product"), s("odm"), s("my_part")]);
    // vendor: /vendor is a dir and /system/vendor a link; system_ext: no link;
    // product: no /product; odm: a dir, needs no link; my_part: a dir
    let roots = magic_roots(
        &cands,
        &vec![true, true, false, true, true],
        &vec![true, false, true, false, false],
    );
    assert_eq!(roots.moved, vec![s("vendor"), s("odm"), s("my_part")]);
    assert_eq!(roots.walks[0], (s("system"), s("/system")));
    assert_eq!(roots.walks[1], (s("system/vendor"), s("/vendor")));
    assert_eq!(roots.walks[2], (s("vendor"), s("/vendor")));
    assert_eq!(roots.walks.len(), 7);
    assert!(!roots.walks.iter().any(|(d, _)| d == "META-INF" || d == "webroot"));
    assert!(child_error_is_fatal(true));
    assert!(!child_error_is_fatal(false));
    assert!(mirrors_live_entries(false));
    assert!(!mirrors_live_entries(true));
}

#[test]
fn tree_keeps_the_first_source() {
    let mut tree = MagicTree::new();
    tree.add("system/etc/hosts", FileKind::Whiteout, None);
    tree.add("system/etc/hosts", FileKind::RegularFile, Some(s("/m/B/system/etc/hosts")));
    assert_eq!(tree.entries()[0].kind, FileKind::Whiteout);
    assert_eq!(tree.entries()[0].module_source, None);
}

#[test]
fn children_are_placed_by_kind() {
    let p = place_child(FileKind::RegularFile, false);
    assert_eq!(p.action, NodeAction::BindFile);
    assert!(!p.into_work);
    assert_eq!(place_child(FileKind::Symlink, true).action, NodeAction::CloneLink);
    assert_eq!(place_child(FileKind::Directory, true).action, NodeAction::Descend);
    assert_eq!(place_child(FileKind::Whiteout, true), ChildPlacement { action: NodeAction::Nothing, into_work: true });
    assert!(opens_fresh_tmpfs(true, false));
    assert!(!opens_fresh_tmpfs(true, true));
    assert!(!opens_fresh_tmpfs(false, false));
}

#[test]
fn live_directory_without_module_entry_can_get_tmpfs() {
    // /system itself: no module entry, but it exists on the live system
    let kids = vec![ChildState { kind: FileKind::Symlink, live: None }];
    assert!(should_create_tmpfs(false, false, true, &kids));
    assert!(!should_create_tmpfs(false, false, false, &kids));
}

#[test]
fn batches_are_filled_before_the_next_starts() {
    let layers: Vec<String> = (0..40).map(|i| format!("/{:0>99}", i)).collect();
    let batches = split_batches(&layers);
    for w in batches.windows(2) {
        let weight: usize = w[0].iter().map(|d| d.len() + 1).sum();
        assert!(weight + w[1][0].len() + 1 > 3500);
    }
    assert_eq!(batches[0].len(), 34);
}
