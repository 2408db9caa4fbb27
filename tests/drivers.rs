use hybrid_mount::cli::decode_hex_payload;
use hybrid_mount::hymo::{parse_i32, split_pieces, split_words, HymoFs, HymoFsStatus};
use hybrid_mount::umount::UmountScheduler;
use hybrid_mount::validation::extract_module_id;
use hybrid_mount::xattr::{copy_path_context, is_overlay_xattr_supported, trim};

fn s(v: &str) -> String {
    v.to_string()
}

#[test]
fn driver_status_follows_its_device() {
    assert_eq!(HymoFs::check_status(true), HymoFsStatus::Available);
    assert_eq!(HymoFs::check_status(false), HymoFsStatus::NotPresent);
    assert!(HymoFs::is_available(true));
    assert!(!HymoFs::is_available(false));
    let st = HymoFs::get_kernel_status(false, Some(9), Some("hide /x"));
    assert!(!st.available);
    assert_eq!(st.protocol_version, 0);
    assert!(st.rules.hides.is_empty());
}

#[test]
fn driver_listing_is_parsed() {
    let listing = "HymoFS Protocol: 12\nHymoFS Config Version: 3\nadd /system/a /data/b 1\nhide /system/x\r\ninject /vendor\nhide_xattr_sb sb1\nbogus line\n\n";
    let st = HymoFs::get_kernel_status(true, None, Some(listing));
    assert!(st.available);
    assert_eq!(st.protocol_version, 12);
    assert_eq!(st.config_version, 3);
    assert_eq!(st.rules.redirects.len(), 1);
    assert_eq!(st.rules.redirects[0].src, "/system/a");
    assert_eq!(st.rules.redirects[0].target, "/data/b");
    assert_eq!(st.rules.redirects[0].type_, 1);
    assert_eq!(st.rules.hides, vec![s("/system/x")]);
    assert_eq!(st.rules.injects, vec![s("/vendor")]);
    assert_eq!(st.rules.xattr_sbs, vec![s("sb1")]);
    // a version from the driver wins over the listing's
    let st = HymoFs::get_kernel_status(true, Some(7), Some("HymoFS Protocol: 12"));
    assert_eq!(st.protocol_version, 7);
    let st = HymoFs::get_kernel_status(true, Some(7), None);
    assert_eq!(st.protocol_version, 7);
}

#[test]
fn words_numbers_and_pieces() {
    assert_eq!(split_words("  add\t/a  /b 3 "), vec![s("add"), s("/a"), s("/b"), s("3")]);
    assert!(split_words("   ").is_empty());
    assert_eq!(split_pieces("a\n\nb", '\n'), vec![s("a"), s(""), s("b")]);
    assert_eq!(parse_i32("42"), 42);
    assert_eq!(parse_i32("-2147483648"), i32::MIN);
    assert_eq!(parse_i32("2147483647"), i32::MAX);
    assert_eq!(parse_i32("2147483648"), 0);
    assert_eq!(parse_i32("+5"), 5);
    assert_eq!(parse_i32("x1"), 0);
    assert_eq!(parse_i32("-"), 0);
}

#[test]
fn tmpfs_xattr_from_probe() {
    let written = b"y".to_vec();
    assert!(is_overlay_xattr_supported(&written, &Some(b"y".to_vec())));
    assert!(!is_overlay_xattr_supported(&written, &Some(b"n".to_vec())));
    assert!(!is_overlay_xattr_supported(&written, &Some(Vec::new())));
    assert!(!is_overlay_xattr_supported(&written, &None));
    assert_eq!(trim("  a b \n"), "a b");
}

#[test]
fn copied_context_defaults_to_system() {
    assert_eq!(copy_path_context(None), "u:object_r:system_file:s0");
    assert_eq!(copy_path_context(Some("u:object_r:rootfs:s0")), "u:object_r:system_file:s0");
    assert_eq!(copy_path_context(Some("u:object_r:vendor_file:s0")), "u:object_r:vendor_file:s0");
    assert_eq!(copy_path_context(Some("u:object_r:rootfs:s0:c1")), "u:object_r:system_file:s0");
    assert_eq!(copy_path_context(Some("u:object_r:rootfs")), "u:object_r:rootfs");
}

#[test]
fn unmountable_ignores_empty_paths() {
    let mut u = UmountScheduler::new(true);
    u.send_unmountable("");
    u.send_unmountable("/data/adb/meta-hybrid/mnt");
    u.send_unmountable("/data/adb/meta-hybrid/mnt");
    assert_eq!(u.commit(), vec![s("/data/adb/meta-hybrid/mnt")]);
}

#[test]
fn module_id_from_layer_path() {
    // /mnt/A/system/lib: module.prop sits in /mnt/A, two levels up
    assert_eq!(extract_module_id("/mnt/A/system/lib", &vec![false, false, true, false]), Some(s("A")));
    assert_eq!(extract_module_id("/mnt/A/system", &vec![false, false]), Some(s("A")));
    assert_eq!(extract_module_id("/x", &vec![false]), None);
}

#[test]
fn hex_payloads_decode() {
    assert_eq!(decode_hex_payload("7b7D"), Some(vec![0x7b, 0x7d]));
    assert_eq!(decode_hex_payload(""), Some(Vec::new()));
    assert_eq!(decode_hex_payload("+f"), Some(vec![15]));
    assert_eq!(decode_hex_payload("abc"), None);
    assert_eq!(decode_hex_payload("zz"), None);
}

#[test]
fn nul_padding_is_stripped() {
    assert_eq!(hybrid_mount::xattr::strip_nul_padding("u:object_r:system_file:s0\0"), "u:object_r:system_file:s0");
    assert_eq!(hybrid_mount::xattr::strip_nul_padding("\0\0"), "");
    assert_eq!(hybrid_mount::xattr::strip_nul_padding("a\0b"), "a\0b");
}

#[test]
fn module_prop_fields_and_listing_row() {
    let text = "id=demo\nname=Demo Module\nversion = v1\r\nauthor=Someone\ndescription=first\ndescription=second=part\n=broken\n";
    let prop = hybrid_mount::module_info::parse_module_prop(text);
    assert_eq!(prop.name, "Demo Module");
    assert_eq!(prop.version, "");
    assert_eq!(prop.author, "Someone");
    assert_eq!(prop.description, "second=part");
    let module = hybrid_mount::inventory::Module {
        id: s("demo"),
        source_path: s("/data/adb/modules/demo"),
        rules: hybrid_mount::config::ModuleRules::with_default(hybrid_mount::config::DefaultMode::Magic),
    };
    let row = hybrid_mount::module_info::ModuleInfo::new(&module, prop, &vec![s("other"), s("demo")]);
    assert_eq!(row.id, "demo");
    assert_eq!(row.mode, "magic");
    assert!(row.is_mounted);
    let empty = hybrid_mount::module_info::parse_module_prop("");
    let row = hybrid_mount::module_info::ModuleInfo::new(&module, empty, &Vec::new());
    assert!(!row.is_mounted);
    assert_eq!(row.name, "");
}
