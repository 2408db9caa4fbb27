use vstd::prelude::*;

use crate::config::Config;
use crate::numbers::{
    all_digits, decimal, decimal_string, digit_value, digits_value, is_digit, lemma_decimal_digits,
    lemma_digits_value_grows,
};

verus! {

/// Boots in a row after which the newest snapshot is restored.
pub const BOOT_THRESHOLD: u8 = 3;

/// Seconds in a day.
pub const SECONDS_PER_DAY: u64 = 86400;

/// The characters that Unicode calls white space, which trimming removes.
pub open spec fn is_space(c: char) -> bool {
    ||| c == ' '
    ||| c == '\t'
    ||| c == '\n'
    ||| c == '\u{0B}'
    ||| c == '\u{0C}'
    ||| c == '\r'
    ||| c == '\u{85}'
    ||| c == '\u{A0}'
    ||| c == '\u{1680}'
    ||| ('\u{2000}' <= c && c <= '\u{200A}')
    ||| c == '\u{2028}'
    ||| c == '\u{2029}'
    ||| c == '\u{202F}'
    ||| c == '\u{205F}'
    ||| c == '\u{3000}'
}

pub fn is_space_char(c: char) -> (r: bool)
    ensures
        r == is_space(c),
{
    c == ' ' || c == '\t' || c == '\n' || c == '\u{0B}' || c == '\u{0C}' || c == '\r' || c
        == '\u{85}' || c == '\u{A0}' || c == '\u{1680}' || ('\u{2000}' <= c && c <= '\u{200A}')
        || c == '\u{2028}' || c == '\u{2029}' || c == '\u{202F}' || c == '\u{205F}' || c
        == '\u{3000}'
}

/// The text without white space at either end.
pub open spec fn trimmed(s: Seq<char>) -> Seq<char> {
    let a = first_non_space(s, 0);
    let b = last_non_space_end(s, s.len() as int);
    if a < b {
        s.subrange(a, b)
    } else {
        Seq::empty()
    }
}

/// Index of the first character at or after `i` that is not white space.
pub open spec fn first_non_space(s: Seq<char>, i: int) -> int
    decreases s.len() - i,
{
    if i >= s.len() || i < 0 {
        s.len() as int
    } else if is_space(s[i]) {
        first_non_space(s, i + 1)
    } else {
        i
    }
}

/// End of the text once white space before `j` is dropped.
pub open spec fn last_non_space_end(s: Seq<char>, j: int) -> int
    decreases j,
{
    if j <= 0 || j > s.len() {
        0
    } else if is_space(s[j - 1]) {
        last_non_space_end(s, j - 1)
    } else {
        j
    }
}

/// The value a boot counter file holds: its trimmed text read as an unsigned 8-bit
/// number (an optional `+`, then digits); anything else counts as zero.
pub open spec fn counter_value(text: Seq<char>) -> u8 {
    let t = trimmed(text);
    let d = if t.len() > 0 && t[0] == '+' {
        t.drop_first()
    } else {
        t
    };
    if d.len() > 0 && all_digits(d) && digits_value(d) <= 255 {
        digits_value(d) as u8
    } else {
        0
    }
}

/// Reads a boot counter file's text.
pub fn parse_counter(text: &str) -> (r: u8)
    ensures
        r == counter_value(text@),
{
    let n = text.unicode_len();
    let mut a: usize = 0;
    while a < n && is_space_char(text.get_char(a))
        invariant
            n == text@.len(),
            a <= n,
            first_non_space(text@, 0) == first_non_space(text@, a as int),
        decreases n - a,
    {
        a = a + 1;
    }
    let mut b: usize = n;
    while b > 0 && is_space_char(text.get_char(b - 1))
        invariant
            n == text@.len(),
            b <= n,
            last_non_space_end(text@, n as int) == last_non_space_end(text@, b as int),
        decreases b,
    {
        b = b - 1;
    }
    if a >= b {
        return 0;
    }
    let ghost t = text@.subrange(a as int, b as int);
    assert(t == trimmed(text@));
    let mut i: usize = a;
    if text.get_char(a) == '+' {
        i = a + 1;
    }
    let ghost d = text@.subrange(i as int, b as int);
    assert(d == (if t.len() > 0 && t[0] == '+' {
        t.drop_first()
    } else {
        t
    }));
    if i >= b {
        return 0;
    }
    let start = i;
    let mut value: u32 = 0;
    assert(counter_value(text@) == (if d.len() > 0 && all_digits(d) && digits_value(d) <= 255 {
        digits_value(d) as u8
    } else {
        0
    }));
    assert(text@.subrange(start as int, start as int) =~= Seq::<char>::empty());
    while i < b
        invariant
            counter_value(text@) == (if d.len() > 0 && all_digits(d) && digits_value(d) <= 255 {
                digits_value(d) as u8
            } else {
                0
            }),
            d.len() > 0,
            n == text@.len(),
            start <= i <= b <= n,
            d == text@.subrange(start as int, b as int),
            all_digits(text@.subrange(start as int, i as int)),
            value as nat == digits_value(text@.subrange(start as int, i as int)),
            value <= 255,
        decreases b - i,
    {
        let c = text.get_char(i);
        assert(text@.subrange(start as int, i + 1).drop_last() =~= text@.subrange(
            start as int,
            i as int,
        ));
        if !('0' <= c && c <= '9') {
            assert(!all_digits(d)) by {
                assert(d[i - start] == c);
            }
            return 0;
        }
        let dv = (c as u32) - ('0' as u32);
        assert(dv as int == digit_value(c));
        let next = value * 10 + dv;
        assert(text@.subrange(start as int, i + 1).last() == c);
        assert(digits_value(text@.subrange(start as int, i + 1)) == 10 * digits_value(
            text@.subrange(start as int, i as int),
        ) + digit_value(c));
        if next > 255 {
            proof {
                assert forall|k: int| 0 <= k < i + 1 - start implies is_digit(
                    #[trigger] text@.subrange(start as int, i + 1)[k],
                ) by {
                    if k < i - start {
                        assert(text@.subrange(start as int, i + 1)[k] == text@.subrange(
                            start as int,
                            i as int,
                        )[k]);
                    }
                }
                if all_digits(d) {
                    assert(d.subrange(0, i + 1 - start) =~= text@.subrange(start as int, i + 1));
                    lemma_digits_value_grows(d, i + 1 - start);
                }
            }
            return 0;
        }
        value = next;
        assert forall|k: int| 0 <= k < i + 1 - start implies is_digit(
            #[trigger] text@.subrange(start as int, i + 1)[k],
        ) by {
            if k < i - start {
                assert(text@.subrange(start as int, i + 1)[k] == text@.subrange(
                    start as int,
                    i as int,
                )[k]);
            }
        }
        i = i + 1;
    }
    assert(text@.subrange(start as int, b as int) == d);
    value as u8
}

/// One more boot, without going past the largest count.
pub open spec fn next_count(c: u8) -> u8 {
    if c < 255 {
        (c + 1) as u8
    } else {
        255
    }
}

/// What a boot makes of the counter.
#[derive(Clone, Copy, Debug, PartialEq, Eq, Structural)]
pub struct BootStep {
    /// The counter after this boot.
    pub count: u8,
    /// The threshold is reached: restore the newest snapshot and delete the counter.
    pub restore: bool,
}

/// The counter step at startup: read, add one, and decide on recovery.
pub fn boot_step(counter_text: &str) -> (r: BootStep)
    ensures
        r.count == next_count(counter_value(counter_text@)),
        r.restore == (r.count >= BOOT_THRESHOLD),
{
    let c = parse_counter(counter_text);
    let count = if c < 255 {
        c + 1
    } else {
        255
    };
    BootStep { count, restore: count >= BOOT_THRESHOLD }
}

/// The text written back to the counter file.
pub fn counter_text(count: u8) -> (r: String)
    ensures
        r@ == decimal(count as nat),
{
    decimal_string(count as u64)
}

/// Whether recovery restored a snapshot at this boot.
#[derive(Clone, Copy, Debug, PartialEq, Eq, Structural)]
pub enum RecoveryStatus {
    Standby,
    Restored,
}

/// What the counter file holds after a boot that found `prev` (`None`: no file). When
/// recovery is due the file is deleted, whether or not the restore succeeds.
pub open spec fn file_after(prev: Option<Seq<char>>) -> Option<Seq<char>> {
    let c = observed(prev);
    if c >= BOOT_THRESHOLD {
        None
    } else {
        Some(decimal(c as nat))
    }
}

/// The counter a boot observes when it finds `prev`.
pub open spec fn observed(prev: Option<Seq<char>>) -> u8 {
    match prev {
        Some(t) => next_count(counter_value(t)),
        None => next_count(0),
    }
}

proof fn lemma_counter_reads_back(n: u8)
    ensures
        counter_value(decimal(n as nat)) == n,
{
    let d = decimal(n as nat);
    lemma_decimal_digits(n as nat);
    assert(first_non_space(d, 0) == 0) by {
        assert(!is_space(d[0])) by {
            assert(is_digit(d[0]));
        }
    }
    assert(last_non_space_end(d, d.len() as int) == d.len()) by {
        assert(is_digit(d[d.len() - 1]));
    }
    assert(trimmed(d) =~= d);
    assert(is_digit(d[0]));
}

/// Boots without a reset observe the counter 1, 2, 3, ...: a boot that finds the count
/// `n` below the threshold observes `n + 1`, writes it back unless that reaches the
/// threshold, and at the threshold restores and leaves no counter, so that the next boot
/// observes 1 again.
pub proof fn lemma_boot_counter_progression(n: u8)
    requires
        n < BOOT_THRESHOLD,
    ensures
        observed(if n == 0 {
            None
        } else {
            Some(decimal(n as nat))
        }) == n + 1,
        file_after(if n == 0 {
            None
        } else {
            Some(decimal(n as nat))
        }) == (if n + 1 < BOOT_THRESHOLD {
            Some(decimal((n + 1) as nat))
        } else {
            None
        }),
        observed(None) == 1,
{
    if n > 0 {
        lemma_counter_reads_back(n);
    }
}

/// The oldest timestamp that retention keeps: `retention_days` before `now`, or no limit.
pub open spec fn expiration(now: u64, retention_days: u64) -> int {
    if retention_days > 0 && now >= retention_days * SECONDS_PER_DAY {
        now - retention_days * SECONDS_PER_DAY
    } else {
        0
    }
}

/// Whether the snapshot at position `i` of the newest-first list is pruned: it is beyond
/// `max_backups` (0: no limit), or older than the retention period (0: no limit) and not
/// the newest.
pub open spec fn pruned(i: int, timestamp: u64, max_backups: usize, retention_days: u64, now: u64) -> bool {
    ||| (max_backups > 0 && i >= max_backups)
    ||| (retention_days > 0 && timestamp < expiration(now, retention_days) && i > 0)
}

/// For each snapshot of the newest-first list, whether pruning deletes it.
pub fn prune_marks(timestamps: &Vec<u64>, max_backups: usize, retention_days: u64, now: u64) -> (r:
    Vec<bool>)
    ensures
        r@.len() == timestamps@.len(),
        forall|i: int|
            0 <= i < r@.len() ==> #[trigger] r@[i] == pruned(
                i,
                timestamps@[i],
                max_backups,
                retention_days,
                now,
            ),
{
    let expire: u64 = if retention_days > 0 && retention_days <= now / SECONDS_PER_DAY {
        assert(retention_days * SECONDS_PER_DAY <= now) by (nonlinear_arith)
            requires
                retention_days <= now / 86400,
        ;
        now - retention_days * SECONDS_PER_DAY
    } else {
        proof {
            if retention_days > 0 {
                assert(retention_days * SECONDS_PER_DAY > now) by (nonlinear_arith)
                    requires
                        retention_days > now / 86400,
                ;
            }
        }
        0
    };
    assert(expire as int == expiration(now, retention_days));
    let n = timestamps.len();
    let mut r: Vec<bool> = Vec::new();
    let mut i: usize = 0;
    while i < n
        invariant
            n == timestamps@.len(),
            i <= n,
            expire as int == expiration(now, retention_days),
            r@.len() == i,
            forall|k: int|
                0 <= k < i ==> #[trigger] r@[k] == pruned(
                    k,
                    timestamps@[k],
                    max_backups,
                    retention_days,
                    now,
                ),
        decreases n - i,
    {
        let by_count = max_backups > 0 && i >= max_backups;
        let by_age = retention_days > 0 && timestamps[i] < expire && i > 0;
        r.push(by_count || by_age);
        i = i + 1;
    }
    r
}

/// The positions that survive pruning.
pub open spec fn kept_positions(
    timestamps: Seq<u64>,
    max_backups: usize,
    retention_days: u64,
    now: u64,
) -> Set<int> {
    Set::new(
        |i: int|
            0 <= i < timestamps.len() && !pruned(
                i,
                timestamps[i],
                max_backups,
                retention_days,
                now,
            ),
    )
}

/// Pruning never deletes the newest snapshot, whatever the retention period, and with a
/// limit it keeps at most `max_backups` snapshots.
pub proof fn lemma_prune_bounds(
    timestamps: Seq<u64>,
    max_backups: usize,
    retention_days: u64,
    now: u64,
)
    ensures
        timestamps.len() > 0 ==> kept_positions(timestamps, max_backups, retention_days, now).contains(
            0,
        ),
        max_backups > 0 ==> kept_positions(timestamps, max_backups, retention_days, now).len()
            <= max_backups,
        kept_positions(timestamps, max_backups, retention_days, now).finite(),
{
    let kept = kept_positions(timestamps, max_backups, retention_days, now);
    let all = vstd::set_lib::set_int_range(0, timestamps.len() as int);
    assert(kept.subset_of(all));
    vstd::set_lib::lemma_int_range(0, timestamps.len() as int);
    vstd::set_lib::lemma_len_subset(kept, all);
    if max_backups > 0 {
        let head = vstd::set_lib::set_int_range(0, max_backups as int);
        vstd::set_lib::lemma_int_range(0, max_backups as int);
        assert(kept.subset_of(head));
        vstd::set_lib::lemma_len_subset(kept, head);
    }
}

/// A saved copy of the configuration and state, taken before a risky change.
#[derive(Debug)]
pub struct Snapshot {
    pub id: String,
    pub timestamp: u64,
    pub label: String,
    pub reason: String,
    pub config_snapshot: Config,
    pub raw_config: Option<String>,
    pub raw_state: Option<String>,
}

/// The id of a snapshot taken at `now`: `snap_` and the seconds.
pub fn snapshot_id(now: u64) -> (r: String)
    ensures
        r@ == "snap_"@ + decimal(now as nat),
{
    let mut s = String::from_str("snap_");
    let digits = decimal_string(now);
    s.append(digits.as_str());
    s
}

pub open spec fn newest_first(v: Seq<Snapshot>) -> bool {
    forall|i: int, j: int| 0 <= i < j < v.len() ==> (#[trigger] v[i]).timestamp >= (#[trigger] v[j]).timestamp
}

/// Orders snapshots newest first.
pub fn sort_newest_first(v: Vec<Snapshot>) -> (r: Vec<Snapshot>)
    ensures
        newest_first(r@),
        r@.len() == v@.len(),
        forall|k: int| 0 <= k < r@.len() ==> v@.contains(#[trigger] r@[k]),
        forall|j: int| 0 <= j < v@.len() ==> r@.contains(#[trigger] v@[j]),
{
    let ghost vs = v@;
    let mut rest = v;
    let mut out: Vec<Snapshot> = Vec::new();
    let n = rest.len();
    let mut i: usize = 0;
    while i < n
        invariant
            n == vs.len(),
            i <= n,
            rest@ == vs.subrange(i as int, n as int),
            out@.len() == i,
            newest_first(out@),
            forall|k: int| 0 <= k < out@.len() ==> vs.subrange(0, i as int).contains(#[trigger] out@[k]),
            forall|j: int| 0 <= j < i ==> out@.contains(#[trigger] vs[j]),
        decreases n - i,
    {
        let s = rest.remove(0);
        assert(s == vs[i as int]);
        assert(rest@ =~= vs.subrange(i + 1, n as int));
        let m = out.len();
        let mut p: usize = 0;
        while p < m && out[p].timestamp >= s.timestamp
            invariant
                m == out@.len(),
                p <= m,
                forall|k: int| 0 <= k < p ==> (#[trigger] out@[k]).timestamp >= s.timestamp,
            decreases m - p,
        {
            p = p + 1;
        }
        let ghost o0 = out@;
        out.insert(p, s);
        proof {
            let prev = vs.subrange(0, i as int);
            let next = vs.subrange(0, i + 1);
            assert(next =~= prev.push(s));
            assert forall|a: int, b: int| 0 <= a < b < out@.len() implies (#[trigger] out@[a]).timestamp
                >= (#[trigger] out@[b]).timestamp by {
                if a < p && b > p {
                    assert(out@[a] == o0[a]);
                    assert(out@[b] == o0[b - 1]);
                } else if a == p && b > p {
                    assert(out@[b] == o0[b - 1]);
                    assert(o0[p as int].timestamp < s.timestamp);
                    if b - 1 > p {
                        assert(o0[p as int].timestamp >= o0[b - 1].timestamp);
                    }
                } else if b == p {
                    assert(out@[a] == o0[a]);
                } else if b < p {
                    assert(out@[a] == o0[a]);
                    assert(out@[b] == o0[b]);
                } else {
                    assert(out@[a] == o0[a - 1]);
                    assert(out@[b] == o0[b - 1]);
                }
            }
            assert forall|k: int| 0 <= k < out@.len() implies next.contains(#[trigger] out@[k]) by {
                if k < p {
                    assert(out@[k] == o0[k]);
                    assert(prev.contains(o0[k]));
                    let j = choose|j: int| 0 <= j < prev.len() && prev[j] == o0[k];
                    assert(next[j] == o0[k]);
                } else if k > p {
                    assert(out@[k] == o0[k - 1]);
                    assert(prev.contains(o0[k - 1]));
                    let j = choose|j: int| 0 <= j < prev.len() && prev[j] == o0[k - 1];
                    assert(next[j] == o0[k - 1]);
                } else {
                    assert(next[i as int] == s);
                }
            }
            assert forall|j: int| 0 <= j < i + 1 implies out@.contains(#[trigger] vs[j]) by {
                if j < i {
                    assert(o0.contains(vs[j]));
                    let k = choose|k: int| 0 <= k < o0.len() && o0[k] == vs[j];
                    if k < p {
                        assert(out@[k] == vs[j]);
                    } else {
                        assert(out@[k + 1] == vs[j]);
                    }
                } else {
                    assert(out@[p as int] == vs[j]);
                }
            }
        }
        i = i + 1;
    }
    assert(vs.subrange(0, n as int) =~= vs);
    out
}

/// Where a restored configuration comes from.
#[derive(Clone, Copy, Debug, PartialEq, Eq, Structural)]
pub enum ConfigSource {
    /// The file's own text, with its comments and layout.
    Raw,
    /// The structured copy, written out anew.
    Structured,
}

/// A restore writes back the raw configuration text where the snapshot holds it.
pub fn restore_config_source(s: &Snapshot) -> (r: ConfigSource)
    ensures
        s.raw_config is Some ==> r == ConfigSource::Raw,
        s.raw_config is None ==> r == ConfigSource::Structured,
{
    match s.raw_config {
        Some(_) => ConfigSource::Raw,
        None => ConfigSource::Structured,
    }
}

/// The notice left after a rollback from a bootloop.
pub fn rescue_notice(snapshot_id: &str) -> (r: String)
    ensures
        r@ == "System recovered from bootloop by restoring snapshot: "@ + snapshot_id@,
{
    let mut s = String::from_str("System recovered from bootloop by restoring snapshot: ");
    s.append(snapshot_id);
    s
}

} // verus!
