use vstd::prelude::*;

use crate::numbers::{all_digits, digit_value, digits_value, is_digit, lemma_digits_value_grows};
use crate::recovery::{is_space, is_space_char};
use crate::text::{str_eq, texts};

verus! {

/// Whether the in-kernel redirect driver can be used.
#[derive(Clone, Copy, Debug, PartialEq, Eq, Structural)]
pub enum HymoFsStatus {
    Available,
    NotPresent,
    KernelTooOld,
    ModuleTooOld,
}

/// A redirect rule the driver reports.
#[derive(Debug)]
pub struct HymoRuleRedirect {
    pub src: String,
    pub target: String,
    pub type_: i32,
}

/// The rules the driver reports, by kind.
#[derive(Debug)]
pub struct HymoRules {
    pub redirects: Vec<HymoRuleRedirect>,
    pub hides: Vec<String>,
    pub injects: Vec<String>,
    pub xattr_sbs: Vec<String>,
}

/// What the driver reports about itself.
#[derive(Debug)]
pub struct HymoKernelStatus {
    pub available: bool,
    pub protocol_version: i32,
    pub config_version: i32,
    pub rules: HymoRules,
    pub stealth_active: bool,
    pub debug_active: bool,
}

/// The redirect driver, reached through its control device.
pub struct HymoFs;

/// The pieces of `s` between `sep` characters, empty pieces included.
pub open spec fn pieces(s: Seq<char>, sep: char) -> Seq<Seq<char>>
    decreases s.len(),
{
    if s.len() == 0 {
        seq![Seq::empty()]
    } else {
        let prev = pieces(s.drop_last(), sep);
        if s.last() == sep {
            prev.push(Seq::empty())
        } else {
            prev.update(prev.len() - 1, prev.last().push(s.last()))
        }
    }
}

proof fn lemma_pieces_nonempty(s: Seq<char>, sep: char)
    ensures
        pieces(s, sep).len() >= 1,
    decreases s.len(),
{
    if s.len() > 0 {
        lemma_pieces_nonempty(s.drop_last(), sep);
    }
}

/// Splits `s` at every `sep`.
pub fn split_pieces(s: &str, sep: char) -> (r: Vec<String>)
    ensures
        texts(r@) == pieces(s@, sep),
{
    let n = s.unicode_len();
    let mut r: Vec<String> = Vec::new();
    let mut start: usize = 0;
    let mut i: usize = 0;
    assert(texts(r@) =~= Seq::<Seq<char>>::empty());
    assert(s@.subrange(0, 0) =~= Seq::<char>::empty());
    assert(texts(r@).push(s@.subrange(0, 0)) =~= pieces(s@.subrange(0, 0), sep));
    while i < n
        invariant
            n == s@.len(),
            start <= i <= n,
            texts(r@).push(s@.subrange(start as int, i as int)) == pieces(s@.subrange(0, i as int), sep),
        decreases n - i,
    {
        let c = s.get_char(i);
        let ghost pre = s@.subrange(0, i + 1);
        assert(pre.drop_last() =~= s@.subrange(0, i as int));
        assert(pre.last() == c);
        proof {
            lemma_pieces_nonempty(s@.subrange(0, i as int), sep);
        }
        if c == sep {
            let ghost t0 = texts(r@);
            r.push(String::from_str(s.substring_char(start, i)));
            assert(texts(r@) =~= t0.push(s@.subrange(start as int, i as int)));
            start = i + 1;
            assert(s@.subrange(start as int, i + 1) =~= Seq::<char>::empty());
            assert(texts(r@).push(s@.subrange(start as int, i + 1)) =~= pieces(pre, sep));
        } else {
            assert(s@.subrange(start as int, i + 1) =~= s@.subrange(start as int, i as int).push(c));
            assert(texts(r@).push(s@.subrange(start as int, i + 1)) =~= pieces(pre, sep));
        }
        i = i + 1;
    }
    r.push(String::from_str(s.substring_char(start, n)));
    assert(s@.subrange(0, n as int) =~= s@);
    r
}

/// The words of `s`: its maximal runs of characters that are not white space.
pub open spec fn words(s: Seq<char>) -> Seq<Seq<char>>
    decreases s.len(),
{
    if s.len() == 0 {
        Seq::empty()
    } else {
        let prev = words(s.drop_last());
        let c = s.last();
        if is_space(c) {
            prev
        } else if s.len() >= 2 && !is_space(s[s.len() - 2]) && prev.len() > 0 {
            prev.update(prev.len() - 1, prev.last().push(c))
        } else {
            prev.push(seq![c])
        }
    }
}

/// Splits `s` into its words.
pub fn split_words(s: &str) -> (r: Vec<String>)
    ensures
        texts(r@) == words(s@),
{
    let n = s.unicode_len();
    let mut r: Vec<String> = Vec::new();
    let mut start: usize = 0;
    let mut in_word = false;
    let mut i: usize = 0;
    assert(s@.subrange(0, 0) =~= Seq::<char>::empty());
    while i < n
        invariant
            n == s@.len(),
            start <= i <= n,
            in_word ==> start < i && texts(r@).push(s@.subrange(start as int, i as int)) == words(
                s@.subrange(0, i as int),
            ) && !is_space(s@[i - 1]),
            !in_word ==> texts(r@) == words(s@.subrange(0, i as int)) && (i > 0 ==> is_space(
                s@[i - 1],
            )),
        decreases n - i,
    {
        let c = s.get_char(i);
        let ghost pre = s@.subrange(0, i + 1);
        assert(pre.drop_last() =~= s@.subrange(0, i as int));
        assert(pre.last() == c);
        if is_space_char(c) {
            if in_word {
                r.push(String::from_str(s.substring_char(start, i)));
                in_word = false;
            }
            assert(texts(r@) =~= words(pre));
        } else {
            if !in_word {
                start = i;
                in_word = true;
                assert(s@.subrange(start as int, i + 1) =~= seq![c]);
                assert(texts(r@).push(s@.subrange(start as int, i + 1)) =~= words(pre));
            } else {
                assert(pre[i - 1] == s@[i - 1]);
                assert(s@.subrange(start as int, i + 1) =~= s@.subrange(start as int, i as int).push(c));
                assert(texts(r@).push(s@.subrange(start as int, i + 1)) =~= words(pre));
            }
        }
        i = i + 1;
    }
    if in_word {
        r.push(String::from_str(s.substring_char(start, n)));
    }
    assert(s@.subrange(0, n as int) =~= s@);
    r
}

/// What `str::parse::<i32>` gives for a word, or 0 where it fails.
pub open spec fn i32_or_zero(t: Seq<char>) -> i32 {
    let neg = t.len() > 0 && t[0] == '-';
    let d = if t.len() > 0 && (t[0] == '-' || t[0] == '+') {
        t.drop_first()
    } else {
        t
    };
    if d.len() == 0 || !all_digits(d) {
        0
    } else if neg && digits_value(d) <= 2147483648 {
        (-(digits_value(d) as int)) as i32
    } else if !neg && digits_value(d) <= 2147483647 {
        digits_value(d) as i32
    } else {
        0
    }
}

/// Reads a word as a 32-bit signed number; 0 where it is none.
pub fn parse_i32(t: &str) -> (r: i32)
    ensures
        r == i32_or_zero(t@),
{
    let n = t.unicode_len();
    if n == 0 {
        return 0;
    }
    let first = t.get_char(0);
    let neg = first == '-';
    let start: usize = if first == '-' || first == '+' {
        1
    } else {
        0
    };
    let ghost d = t@.subrange(start as int, n as int);
    assert(d == (if t@.len() > 0 && (t@[0] == '-' || t@[0] == '+') {
        t@.drop_first()
    } else {
        t@
    }));
    if start >= n {
        return 0;
    }
    let limit: u64 = if neg {
        2147483648
    } else {
        2147483647
    };
    let mut value: u64 = 0;
    let mut i: usize = start;
    assert(t@.subrange(start as int, start as int) =~= Seq::<char>::empty());
    while i < n
        invariant
            n == t@.len(),
            start <= i <= n,
            start < n,
            d == t@.subrange(start as int, n as int),
            i32_or_zero(t@) == (if d.len() == 0 || !all_digits(d) {
                0
            } else if neg && digits_value(d) <= 2147483648 {
                (-(digits_value(d) as int)) as i32
            } else if !neg && digits_value(d) <= 2147483647 {
                digits_value(d) as i32
            } else {
                0
            }),
            limit == (if neg {
                2147483648u64
            } else {
                2147483647u64
            }),
            all_digits(t@.subrange(start as int, i as int)),
            value as nat == digits_value(t@.subrange(start as int, i as int)),
            value <= limit,
        decreases n - i,
    {
        let c = t.get_char(i);
        let ghost p = t@.subrange(start as int, i + 1);
        assert(p.drop_last() =~= t@.subrange(start as int, i as int));
        assert(p.last() == c);
        if !('0' <= c && c <= '9') {
            assert(!all_digits(d)) by {
                assert(d[i - start] == c);
            }
            return 0;
        }
        assert forall|k: int| 0 <= k < p.len() implies is_digit(#[trigger] p[k]) by {
            if k < p.len() - 1 {
                assert(p[k] == t@.subrange(start as int, i as int)[k]);
            }
        }
        let dv = ((c as u32) - ('0' as u32)) as u64;
        assert(dv as int == digit_value(c));
        let next = value * 10 + dv;
        assert(digits_value(p) == 10 * digits_value(p.drop_last()) + digit_value(c));
        if next > limit {
            proof {
                if all_digits(d) {
                    assert(d.subrange(0, i + 1 - start) =~= p);
                    lemma_digits_value_grows(d, i + 1 - start);
                }
            }
            return 0;
        }
        value = next;
        i = i + 1;
    }
    assert(t@.subrange(start as int, n as int) == d);
    if neg {
        (0 - (value as i64)) as i32
    } else {
        value as i32
    }
}

impl HymoFs {
    /// The driver is there iff its control device is.
    pub fn check_status(device_present: bool) -> (r: HymoFsStatus)
        ensures
            device_present ==> r == HymoFsStatus::Available,
            !device_present ==> r == HymoFsStatus::NotPresent,
    {
        if device_present {
            HymoFsStatus::Available
        } else {
            HymoFsStatus::NotPresent
        }
    }

    pub fn is_available(device_present: bool) -> (r: bool)
        ensures
            r == device_present,
    {
        HymoFs::check_status(device_present) == HymoFsStatus::Available
    }

    /// The driver's status: unavailable without its device; else the version it answers
    /// (0 when it does not), refined by the rule listing it returns, if any.
    pub fn get_kernel_status(device_present: bool, version: Option<i32>, listing: Option<&str>) -> (r:
        HymoKernelStatus)
        ensures
            r.available == device_present,
            !device_present ==> r.protocol_version == 0 && r.config_version == 0
                && r.rules.redirects@.len() == 0 && r.rules.hides@.len() == 0
                && r.rules.injects@.len() == 0 && r.rules.xattr_sbs@.len() == 0,
            device_present && listing is None ==> r.protocol_version == (match version {
                Some(v) => v,
                None => 0,
            }) && r.config_version == 0 && r.rules.hides@.len() == 0,
            device_present && listing is Some ==> status_view(r) == listed_status(
                match version {
                    Some(v) => v,
                    None => 0,
                },
                pieces(listing->0@, '\n'),
            ),
            !r.stealth_active,
            !r.debug_active,
    {
        let mut status = HymoKernelStatus {
            available: device_present,
            protocol_version: 0,
            config_version: 0,
            rules: HymoRules {
                redirects: Vec::new(),
                hides: Vec::new(),
                injects: Vec::new(),
                xattr_sbs: Vec::new(),
            },
            stealth_active: false,
            debug_active: false,
        };
        if !device_present {
            return status;
        }
        if let Some(v) = version {
            status.protocol_version = v;
        }
        match listing {
            None => status,
            Some(text) => {
                let lines = split_pieces(text, '\n');
                let n = lines.len();
                let mut i: usize = 0;
                let ghost ls = texts(lines@);
                let ghost v0 = status.protocol_version;
                assert(ls.subrange(0, 0) =~= Seq::<Seq<char>>::empty());
                assert(status.rules.redirects@.map_values(
                    |r: HymoRuleRedirect| (r.src@, r.target@, r.type_),
                ) =~= Seq::<(Seq<char>, Seq<char>, i32)>::empty());
                assert(texts(status.rules.hides@) =~= Seq::<Seq<char>>::empty());
                assert(texts(status.rules.injects@) =~= Seq::<Seq<char>>::empty());
                assert(texts(status.rules.xattr_sbs@) =~= Seq::<Seq<char>>::empty());
                assert(status_view(status) == empty_status_view(v0));
                while i < n
                    invariant
                        n == lines@.len(),
                        ls == texts(lines@),
                        i <= n,
                        status.available,
                        !status.stealth_active,
                        !status.debug_active,
                        status_view(status) == fold_lines(empty_status_view(v0), ls.subrange(0, i as int)),
                    decreases n - i,
                {
                    let ws = split_words(lines[i].as_str());
                    apply_words(&mut status, &ws);
                    assert(ls.subrange(0, i + 1).drop_last() =~= ls.subrange(0, i as int));
                    i = i + 1;
                }
                assert(ls.subrange(0, n as int) =~= ls);
                status
            },
        }
    }
}

/// The parts of a status that a listing changes.
pub struct StatusView {
    pub protocol_version: i32,
    pub config_version: i32,
    pub redirects: Seq<(Seq<char>, Seq<char>, i32)>,
    pub hides: Seq<Seq<char>>,
    pub injects: Seq<Seq<char>>,
    pub xattr_sbs: Seq<Seq<char>>,
}

pub open spec fn status_view(s: HymoKernelStatus) -> StatusView {
    StatusView {
        protocol_version: s.protocol_version,
        config_version: s.config_version,
        redirects: s.rules.redirects@.map_values(
            |r: HymoRuleRedirect| (r.src@, r.target@, r.type_),
        ),
        hides: texts(s.rules.hides@),
        injects: texts(s.rules.injects@),
        xattr_sbs: texts(s.rules.xattr_sbs@),
    }
}

pub open spec fn empty_status_view(version: i32) -> StatusView {
    StatusView {
        protocol_version: version,
        config_version: 0,
        redirects: Seq::empty(),
        hides: Seq::empty(),
        injects: Seq::empty(),
        xattr_sbs: Seq::empty(),
    }
}

/// What one line of the listing, split into words, does to the status.
pub open spec fn apply_line(s: StatusView, w: Seq<Seq<char>>) -> StatusView {
    if w.len() == 0 {
        s
    } else if w[0] == "HymoFS"@ {
        if w.len() >= 3 && w[1] == "Protocol:"@ && s.protocol_version == 0 {
            StatusView { protocol_version: i32_or_zero(w[2]), ..s }
        } else if w.len() >= 4 && w[1] == "Config"@ && w[2] == "Version:"@ {
            StatusView { config_version: i32_or_zero(w[3]), ..s }
        } else {
            s
        }
    } else if w[0] == "add"@ && w.len() >= 4 {
        StatusView { redirects: s.redirects.push((w[1], w[2], i32_or_zero(w[3]))), ..s }
    } else if w[0] == "hide"@ && w.len() >= 2 {
        StatusView { hides: s.hides.push(w[1]), ..s }
    } else if w[0] == "inject"@ && w.len() >= 2 {
        StatusView { injects: s.injects.push(w[1]), ..s }
    } else if w[0] == "hide_xattr_sb"@ && w.len() >= 2 {
        StatusView { xattr_sbs: s.xattr_sbs.push(w[1]), ..s }
    } else {
        s
    }
}

pub open spec fn fold_lines(s: StatusView, lines: Seq<Seq<char>>) -> StatusView
    decreases lines.len(),
{
    if lines.len() == 0 {
        s
    } else {
        apply_line(fold_lines(s, lines.drop_last()), words(lines.last()))
    }
}

/// The status a listing gives, starting from the version the driver answered.
pub open spec fn listed_status(version: i32, lines: Seq<Seq<char>>) -> StatusView {
    fold_lines(empty_status_view(version), lines)
}

fn apply_words(status: &mut HymoKernelStatus, w: &Vec<String>)
    ensures
        status_view(*final(status)) == apply_line(status_view(*old(status)), texts(w@)),
        final(status).available == old(status).available,
        final(status).stealth_active == old(status).stealth_active,
        final(status).debug_active == old(status).debug_active,
{
    let ghost tw = texts(w@);
    if w.len() == 0 {
        return;
    }
    let head = w[0].as_str();
    if str_eq(head, "HymoFS") {
        if w.len() >= 3 && str_eq(w[1].as_str(), "Protocol:") && status.protocol_version == 0 {
            status.protocol_version = parse_i32(w[2].as_str());
        } else if w.len() >= 4 && str_eq(w[1].as_str(), "Config") && str_eq(
            w[2].as_str(),
            "Version:",
        ) {
            status.config_version = parse_i32(w[3].as_str());
        }
    } else if str_eq(head, "add") && w.len() >= 4 {
        let ghost r0 = status.rules.redirects@;
        status.rules.redirects.push(
            HymoRuleRedirect {
                src: w[1].clone(),
                target: w[2].clone(),
                type_: parse_i32(w[3].as_str()),
            },
        );
        assert(status.rules.redirects@.map_values(
            |r: HymoRuleRedirect| (r.src@, r.target@, r.type_),
        ) =~= r0.map_values(|r: HymoRuleRedirect| (r.src@, r.target@, r.type_)).push(
            (tw[1], tw[2], i32_or_zero(tw[3])),
        ));
    } else if str_eq(head, "hide") && w.len() >= 2 {
        let ghost h0 = texts(status.rules.hides@);
        status.rules.hides.push(w[1].clone());
        assert(texts(status.rules.hides@) =~= h0.push(tw[1]));
    } else if str_eq(head, "inject") && w.len() >= 2 {
        let ghost h0 = texts(status.rules.injects@);
        status.rules.injects.push(w[1].clone());
        assert(texts(status.rules.injects@) =~= h0.push(tw[1]));
    } else if str_eq(head, "hide_xattr_sb") && w.len() >= 2 {
        let ghost h0 = texts(status.rules.xattr_sbs@);
        status.rules.xattr_sbs.push(w[1].clone());
        assert(texts(status.rules.xattr_sbs@) =~= h0.push(tw[1]));
    }
}

} // verus!
