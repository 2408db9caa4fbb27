use hybrid_mount::config::Config;
use hybrid_mount::recovery::{
    boot_step, counter_text, parse_counter, prune_marks, rescue_notice, restore_config_source,
    snapshot_id, sort_newest_first, ConfigSource, Snapshot,
};

fn snap(id: &str, ts: u64, raw: Option<&str>) -> Snapshot {
    Snapshot {
        id: id.to_string(),
        timestamp: ts,
        label: "Boot Backup".to_string(),
        reason: "Automatic Pre-Mount".to_string(),
        config_snapshot: Config::with_mount_source("KSU".to_string()),
        raw_config: raw.map(|r| r.to_string()),
        raw_state: None,
    }
}

#[test]
fn counter_text_is_read_back() {
    assert_eq!(parse_counter("2"), 2);
    assert_eq!(parse_counter(" 2\n"), 2);
    assert_eq!(parse_counter("+7"), 7);
    assert_eq!(parse_counter("007"), 7);
    assert_eq!(parse_counter("255"), 255);
    assert_eq!(parse_counter("256"), 0);
    assert_eq!(parse_counter("abc"), 0);
    assert_eq!(parse_counter(""), 0);
    assert_eq!(parse_counter("+"), 0);
    assert_eq!(parse_counter("1 2"), 0);
    assert_eq!(counter_text(42), "42");
}

#[test]
fn bootloop_recovery_triggers_at_three() {
    let step = boot_step("2");
    assert_eq!(step.count, 3);
    assert!(step.restore);
    let notice = rescue_notice("snap_100");
    assert_eq!(notice, "System recovered from bootloop by restoring snapshot: snap_100");
}

#[test]
fn boot_counter_progression() {
    let mut file: Option<String> = None;
    let mut seen = Vec::new();
    for _ in 0..4 {
        let step = boot_step(file.as_deref().unwrap_or(""));
        seen.push(step.count);
        file = if step.restore { None } else { Some(counter_text(step.count)) };
    }
    assert_eq!(seen, vec![1, 2, 3, 1]);
    assert_eq!(boot_step("255").count, 255);
}

#[test]
fn prune_keeps_newest_and_limit() {
    let ts = vec![500u64, 400, 300, 200, 100];
    let marks = prune_marks(&ts, 2, 0, 600);
    assert_eq!(marks, vec![false, false, true, true, true]);
    // retention of one day at t = 2 days: older than one day goes, but never the newest
    let day = 86400u64;
    let ts = vec![10u64, 5, 2 * day];
    let marks = prune_marks(&ts, 0, 1, 2 * day);
    assert_eq!(marks, vec![false, true, false]);
    let marks = prune_marks(&vec![1u64], 0, 1, 10 * day);
    assert_eq!(marks, vec![false]);
    assert_eq!(prune_marks(&vec![1u64, 2], 0, 0, 5), vec![false, false]);
    // a retention longer than the clock has run keeps everything
    assert_eq!(prune_marks(&vec![1u64, 2], 0, u64::MAX, 5), vec![false, false]);
}

#[test]
fn snapshots_sort_newest_first() {
    let v = vec![snap("a", 10, None), snap("b", 30, None), snap("c", 20, None)];
    let sorted = sort_newest_first(v);
    let ids: Vec<&str> = sorted.iter().map(|s| s.id.as_str()).collect();
    assert_eq!(ids, vec!["b", "c", "a"]);
}

#[test]
fn snapshot_ids_and_restore_source() {
    assert_eq!(snapshot_id(1700000000), "snap_1700000000");
    assert_eq!(snapshot_id(0), "snap_0");
    assert_eq!(restore_config_source(&snap("x", 1, Some("moduledir = \"/a\""))), ConfigSource::Raw);
    assert_eq!(restore_config_source(&snap("x", 1, None)), ConfigSource::Structured);
}
