use vstd::prelude::*;

use crate::hymo::{pieces, split_pieces};
use crate::recovery::trimmed;
use crate::text::texts;
use crate::xattr::trim;

verus! {

/// The command line: global options and an optional management command.
#[derive(Debug)]
pub struct Cli {
    pub config: Option<String>,
    pub moduledir: Option<String>,
    pub mountsource: Option<String>,
    pub verbose: bool,
    pub partitions: Vec<String>,
    pub command: Option<Commands>,
}

/// The management commands; without one the engine runs the boot sequence.
#[derive(Debug)]
pub enum Commands {
    GenConfig { output: String },
    ShowConfig,
    SaveConfig { payload: String },
    SaveModuleRules { module: String, payload: String },
    Storage,
    Modules,
    Conflicts,
    Diagnostics,
}

pub open spec fn hex_value(c: char) -> Option<u8> {
    if '0' <= c && c <= '9' {
        Some((c as int - '0' as int) as u8)
    } else if 'a' <= c && c <= 'f' {
        Some((c as int - 'a' as int + 10) as u8)
    } else if 'A' <= c && c <= 'F' {
        Some((c as int - 'A' as int + 10) as u8)
    } else {
        None
    }
}

/// A pair of characters read as one byte in base 16, as `u8::from_str_radix` reads it:
/// two hex digits, or `+` and one hex digit.
pub open spec fn hex_pair(a: char, b: char) -> Option<u8> {
    if a == '+' {
        hex_value(b)
    } else if hex_value(a) is Some && hex_value(b) is Some {
        Some((hex_value(a)->0 * 16 + hex_value(b)->0) as u8)
    } else {
        None
    }
}

/// The bytes a hex payload stands for, two characters each; none where its length is
/// odd or a pair is not a byte.
pub open spec fn hex_bytes(s: Seq<char>) -> Option<Seq<u8>>
    decreases s.len(),
{
    if s.len() % 2 == 1 {
        None
    } else if s.len() == 0 {
        Some(Seq::empty())
    } else {
        match (hex_bytes(s.subrange(0, s.len() - 2)), hex_pair(s[s.len() - 2], s[s.len() - 1])) {
            (Some(prev), Some(b)) => Some(prev.push(b)),
            _ => None,
        }
    }
}

fn hex_digit(c: char) -> (r: Option<u8>)
    ensures
        r == hex_value(c),
{
    if '0' <= c && c <= '9' {
        Some(((c as u32) - ('0' as u32)) as u8)
    } else if 'a' <= c && c <= 'f' {
        Some(((c as u32) - ('a' as u32) + 10) as u8)
    } else if 'A' <= c && c <= 'F' {
        Some(((c as u32) - ('A' as u32) + 10) as u8)
    } else {
        None
    }
}

proof fn lemma_hex_prefix_fails(s: Seq<char>, i: int)
    requires
        0 <= i <= s.len(),
        i % 2 == 0,
        s.len() % 2 == 0,
        hex_bytes(s.subrange(0, i)) is None,
    ensures
        hex_bytes(s) is None,
    decreases s.len() - i,
{
    if i < s.len() {
        let p = s.subrange(0, i + 2);
        assert(p.subrange(0, i) =~= s.subrange(0, i));
        lemma_hex_prefix_fails(s, i + 2);
    } else {
        assert(s.subrange(0, i) =~= s);
    }
}

/// Decodes the hex payload of `save-config` and `save-module-rules`.
pub fn decode_hex_payload(payload: &str) -> (r: Option<Vec<u8>>)
    ensures
        match r {
            Some(v) => hex_bytes(payload@) == Some(v@),
            None => hex_bytes(payload@) is None,
        },
{
    let n = payload.unicode_len();
    if n % 2 == 1 {
        return None;
    }
    let mut out: Vec<u8> = Vec::new();
    let mut i: usize = 0;
    assert(payload@.subrange(0, 0) =~= Seq::<char>::empty());
    while i < n
        invariant
            n == payload@.len(),
            n % 2 == 0,
            i % 2 == 0,
            i <= n,
            hex_bytes(payload@.subrange(0, i as int)) == Some(out@),
        decreases n - i,
    {
        let a = payload.get_char(i);
        let b = payload.get_char(i + 1);
        let ghost p = payload@.subrange(0, i + 2);
        assert(p.subrange(0, i as int) =~= payload@.subrange(0, i as int));
        assert(p[i as int] == a && p[i + 1] == b);
        let byte = if a == '+' {
            hex_digit(b)
        } else {
            match (hex_digit(a), hex_digit(b)) {
                (Some(x), Some(y)) => Some(x * 16 + y),
                _ => None,
            }
        };
        match byte {
            Some(v) => {
                out.push(v);
            },
            None => {
                proof {
                    lemma_hex_prefix_fails(payload@, i + 2);
                }
                return None;
            },
        }
        i = i + 2;
    }
    assert(payload@.subrange(0, n as int) =~= payload@);
    Some(out)
}

/// The non-empty items of a list, each trimmed.
pub open spec fn kept_items(items: Seq<Seq<char>>) -> Seq<Seq<char>>
    decreases items.len(),
{
    if items.len() == 0 {
        Seq::empty()
    } else {
        let prev = kept_items(items.drop_last());
        let t = trimmed(items.last());
        if t.len() > 0 {
            prev.push(t)
        } else {
            prev
        }
    }
}

/// The partitions a comma-separated list names: each item trimmed, empty ones dropped.
pub fn partition_list(s: &str) -> (r: Vec<String>)
    ensures
        texts(r@) == kept_items(pieces(s@, ',')),
{
    let items = split_pieces(s, ',');
    let n = items.len();
    let mut r: Vec<String> = Vec::new();
    let mut i: usize = 0;
    while i < n
        invariant
            n == items@.len(),
            i <= n,
            texts(r@) == kept_items(texts(items@).subrange(0, i as int)),
            texts(items@) == pieces(s@, ','),
        decreases n - i,
    {
        assert(texts(items@).subrange(0, i + 1).drop_last() =~= texts(items@).subrange(0, i as int));
        let t = trim(items[i].as_str());
        let ghost r0 = texts(r@);
        if t.as_str().unicode_len() > 0 {
            r.push(t);
            assert(texts(r@) =~= r0.push(trimmed(items@[i as int]@)));
        }
        i = i + 1;
    }
    assert(texts(items@).subrange(0, n as int) =~= texts(items@));
    r
}

} // verus!
