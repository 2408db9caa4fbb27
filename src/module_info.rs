use vstd::prelude::*;

use crate::config::MountMode;
use crate::hymo::{pieces, split_pieces};
use crate::inventory::Module;
use crate::recovery::trimmed;
use crate::text::{str_eq, texts};
use crate::xattr::trim;

verus! {

/// The fields of a `module.prop` that the module listing shows.
#[derive(Debug)]
pub struct ModuleProp {
    pub name: String,
    pub version: String,
    pub author: String,
    pub description: String,
}

pub type PropView = (Seq<char>, Seq<char>, Seq<char>, Seq<char>);

impl ModuleProp {
    pub open spec fn view_of(&self) -> PropView {
        (self.name@, self.version@, self.author@, self.description@)
    }
}

/// Index of the first `=` of `s`, or -1.
pub open spec fn eq_pos(s: Seq<char>) -> int
    decreases s.len(),
{
    if s.len() == 0 {
        -1
    } else if s[0] == '=' {
        0
    } else {
        let r = eq_pos(s.drop_first());
        if r < 0 {
            -1
        } else {
            r + 1
        }
    }
}

/// What one line does to the fields: a trimmed `key=value` line with one of the four
/// keys sets that field; other lines leave them.
pub open spec fn apply_prop_line(p: PropView, line: Seq<char>) -> PropView {
    let t = trimmed(line);
    let e = eq_pos(t);
    if e <= 0 {
        p
    } else {
        let k = t.subrange(0, e);
        let v = t.subrange(e + 1, t.len() as int);
        if k == "name"@ {
            (v, p.1, p.2, p.3)
        } else if k == "version"@ {
            (p.0, v, p.2, p.3)
        } else if k == "author"@ {
            (p.0, p.1, v, p.3)
        } else if k == "description"@ {
            (p.0, p.1, p.2, v)
        } else {
            p
        }
    }
}

pub open spec fn fold_prop(lines: Seq<Seq<char>>) -> PropView
    decreases lines.len(),
{
    if lines.len() == 0 {
        (Seq::empty(), Seq::empty(), Seq::empty(), Seq::empty())
    } else {
        apply_prop_line(fold_prop(lines.drop_last()), lines.last())
    }
}

fn find_eq(s: &str) -> (r: Option<usize>)
    ensures
        match r {
            Some(i) => i as int == eq_pos(s@) && i < s@.len(),
            None => eq_pos(s@) == -1,
        },
{
    let n = s.unicode_len();
    let mut i: usize = 0;
    assert(s@.subrange(0, n as int) =~= s@);
    while i < n
        invariant
            n == s@.len(),
            i <= n,
            forall|j: int| 0 <= j < i ==> s@[j] != '=',
            eq_pos(s@) == (if eq_pos(s@.subrange(i as int, n as int)) < 0 {
                -1
            } else {
                eq_pos(s@.subrange(i as int, n as int)) + i
            }),
        decreases n - i,
    {
        let ghost rest = s@.subrange(i as int, n as int);
        assert(rest.drop_first() =~= s@.subrange(i + 1, n as int));
        if s.get_char(i) == '=' {
            assert(rest[0] == '=');
            return Some(i);
        }
        i = i + 1;
    }
    assert(s@.subrange(n as int, n as int).len() == 0);
    None
}

fn apply_line(p: &mut ModuleProp, line: &str)
    ensures
        final(p).view_of() == apply_prop_line(old(p).view_of(), line@),
{
    let t = trim(line);
    let ts = t.as_str();
    match find_eq(ts) {
        None => {},
        Some(e) => {
            if e == 0 {
                return;
            }
            let n = ts.unicode_len();
            let k = ts.substring_char(0, e);
            let v = String::from_str(ts.substring_char(e + 1, n));
            if str_eq(k, "name") {
                p.name = v;
            } else if str_eq(k, "version") {
                p.version = v;
            } else if str_eq(k, "author") {
                p.author = v;
            } else if str_eq(k, "description") {
                p.description = v;
            }
        },
    }
}

/// Reads the listing fields of a `module.prop` text; for a key given twice the later
/// line wins, and a missing key is empty.
pub fn parse_module_prop(text: &str) -> (r: ModuleProp)
    ensures
        r.view_of() == fold_prop(pieces(text@, '\n')),
{
    let lines = split_pieces(text, '\n');
    let mut p = ModuleProp {
        name: String::new(),
        version: String::new(),
        author: String::new(),
        description: String::new(),
    };
    let n = lines.len();
    let mut i: usize = 0;
    let ghost ls = texts(lines@);
    assert(ls.subrange(0, 0) =~= Seq::<Seq<char>>::empty());
    while i < n
        invariant
            n == lines@.len(),
            ls == texts(lines@),
            i <= n,
            p.view_of() == fold_prop(ls.subrange(0, i as int)),
        decreases n - i,
    {
        apply_line(&mut p, lines[i].as_str());
        assert(ls.subrange(0, i + 1).drop_last() =~= ls.subrange(0, i as int));
        i = i + 1;
    }
    assert(ls.subrange(0, n as int) =~= ls);
    p
}

/// The mode the listing shows for a module's default.
pub open spec fn mode_text(m: MountMode) -> Seq<char> {
    match m {
        MountMode::Overlay => "auto"@,
        MountMode::Magic => "magic"@,
        MountMode::Ignore => "ignore"@,
    }
}

/// One row of the module listing.
#[derive(Debug)]
pub struct ModuleInfo {
    pub id: String,
    pub name: String,
    pub version: String,
    pub author: String,
    pub description: String,
    pub mode: String,
    pub is_mounted: bool,
}

impl ModuleInfo {
    /// The row for a module: its `module.prop` fields, its default mode, and whether the
    /// last boot mounted it (it is among `mounted`, the runtime state's overlay and magic
    /// modules).
    pub fn new(m: &Module, prop: ModuleProp, mounted: &Vec<String>) -> (r: ModuleInfo)
        ensures
            r.id@ == m.id@,
            (r.name@, r.version@, r.author@, r.description@) == prop.view_of(),
            r.mode@ == mode_text(m.rules.default_mode),
            r.is_mounted == texts(mounted@).contains(m.id@),
    {
        let mode = match m.rules.default_mode {
            MountMode::Overlay => String::from_str("auto"),
            MountMode::Magic => String::from_str("magic"),
            MountMode::Ignore => String::from_str("ignore"),
        };
        let mut is_mounted = false;
        let n = mounted.len();
        let mut i: usize = 0;
        while i < n
            invariant
                n == mounted@.len(),
                i <= n,
                is_mounted == texts(mounted@).subrange(0, i as int).contains(m.id@),
            decreases n - i,
        {
            let ghost t = texts(mounted@);
            assert(t.subrange(0, i + 1) =~= t.subrange(0, i as int).push(t[i as int]));
            if str_eq(mounted[i].as_str(), m.id.as_str()) {
                is_mounted = true;
                assert(t.subrange(0, i + 1)[i as int] == m.id@);
            } else {
                assert forall|x: Seq<char>| #[trigger] t.subrange(0, i + 1).contains(x) implies t.subrange(
                    0,
                    i as int,
                ).contains(x) || x == t[i as int] by {
                    let k = choose|k: int| 0 <= k < i + 1 && #[trigger] t.subrange(0, i + 1)[k] == x;
                    if k < i {
                        assert(t.subrange(0, i as int)[k] == x);
                    }
                }
            }
            i = i + 1;
        }
        assert(texts(mounted@).subrange(0, n as int) =~= texts(mounted@));
        ModuleInfo {
            id: m.id.clone(),
            name: prop.name,
            version: prop.version,
            author: prop.author,
            description: prop.description,
            mode,
            is_mounted,
        }
    }
}

} // verus!
