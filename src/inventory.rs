use vstd::prelude::*;

use crate::config::{
    deref_opt, first_user_rules, layered_default, layered_paths, lemma_layered_same, Config,
    ModuleRules, MountMode, RuleOverrides,
};
use crate::text::{descending, lemma_lt_transitive, lemma_lt_trichotomy, seq_lt, str_lt};
use crate::validation::{is_reserved, is_reserved_name, valid_module_id, validate_module_id};

verus! {

/// An enabled module.
#[derive(Debug)]
pub struct Module {
    pub id: String,
    pub source_path: String,
    pub rules: ModuleRules,
}

/// What the scan of the module directory found for one entry.
#[derive(Debug)]
pub struct ModuleCandidate {
    pub name: String,
    pub path: String,
    pub is_dir: bool,
    /// One of `disable`, `remove`, `skip_mount` lies at its root.
    pub has_marker: bool,
    /// The rules the module ships, if it ships readable ones.
    pub shipped_rules: Option<RuleOverrides>,
}

/// A directory entry is a module iff it is a directory with a valid, unreserved id and
/// no marker file.
pub open spec fn qualifies(c: ModuleCandidate) -> bool {
    &&& c.is_dir
    &&& !c.has_marker
    &&& valid_module_id(c.name@)
    &&& !is_reserved_name(c.name@)
}

pub fn module_qualifies(c: &ModuleCandidate) -> (r: bool)
    ensures
        r == qualifies(*c),
{
    c.is_dir && !c.has_marker && validate_module_id(c.name.as_str()).is_ok() && !is_reserved(
        c.name.as_str(),
    )
}

pub open spec fn ids(v: Seq<Module>) -> Seq<Seq<char>> {
    v.map_values(|m: Module| m.id@)
}

/// Inserts a module into a list ordered by descending id, after those with an equal id.
fn insert_descending(v: &mut Vec<Module>, m: Module)
    requires
        descending(ids(old(v)@)),
    ensures
        descending(ids(final(v)@)),
        exists|p: int| 0 <= p <= old(v)@.len() && final(v)@ == old(v)@.insert(p, m),
{
    let n = v.len();
    let mut p: usize = 0;
    while p < n && !str_lt(v[p].id.as_str(), m.id.as_str())
        invariant
            n == v@.len(),
            p <= n,
            descending(ids(v@)),
            forall|k: int| 0 <= k < p ==> !seq_lt(#[trigger] ids(v@)[k], m.id@),
        decreases n - p,
    {
        p = p + 1;
    }
    let ghost old_v = v@;
    let ghost old_t = ids(v@);
    v.insert(p, m);
    let ghost new_t = ids(v@);
    assert(new_t =~= old_t.insert(p as int, m.id@));
    assert forall|i: int, j: int| 0 <= i < j < new_t.len() implies !seq_lt(
        #[trigger] new_t[i],
        #[trigger] new_t[j],
    ) by {
        if i == p {
            // old_t[p] < m: a later id above m would sit above old_t[p] too
            if seq_lt(m.id@, new_t[j]) {
                assert(seq_lt(old_t[p as int], m.id@));
                lemma_lt_transitive(old_t[p as int], m.id@, old_t[j - 1]);
                if j - 1 == p {
                    lemma_lt_trichotomy(old_t[p as int], old_t[p as int]);
                } else {
                    assert(!seq_lt(old_t[p as int], old_t[j - 1]));
                }
            }
        } else if j == p {
        } else if i < p && j > p {
            assert(!seq_lt(old_t[i], old_t[j - 1]));
        }
    }
}

/// What the library knows of a module: id, directory, default mode and path table.
pub type ModuleView = (Seq<char>, Seq<char>, MountMode, Map<Seq<char>, MountMode>);

pub open spec fn module_view(m: Module) -> ModuleView {
    (m.id@, m.source_path@, m.rules.default_mode, m.rules.paths_view())
}

pub open spec fn views(v: Seq<Module>) -> Seq<ModuleView> {
    v.map_values(|m: Module| module_view(m))
}

proof fn lemma_insert_multiset<A>(s: Seq<A>, p: int, x: A)
    requires
        0 <= p <= s.len(),
    ensures
        s.insert(p, x).to_multiset() == s.to_multiset().insert(x),
{
    broadcast use vstd::seq_lib::group_to_multiset_ensures;

    let t = s.insert(p, x);
    assert(t.remove(p) =~= s);
    assert(t[p] == x);
    assert(t.contains(x));
    assert(t.to_multiset().count(x) > 0);
    assert(t.to_multiset() =~= s.to_multiset().insert(x));
}

/// Orders modules by descending id, keeping every module once.
pub fn sort_descending(v: Vec<Module>) -> (r: Vec<Module>)
    ensures
        descending(ids(r@)),
        views(r@).to_multiset() == views(v@).to_multiset(),
{
    broadcast use vstd::seq_lib::group_to_multiset_ensures;

    let ghost vs = v@;
    let mut rest = v;
    let mut out: Vec<Module> = Vec::new();
    let n = rest.len();
    let mut i: usize = 0;
    assert(views(out@) =~= views(vs.subrange(0, 0)));
    while i < n
        invariant
            n == vs.len(),
            i <= n,
            rest@ == vs.subrange(i as int, n as int),
            descending(ids(out@)),
            views(out@).to_multiset() == views(vs.subrange(0, i as int)).to_multiset(),
        decreases n - i,
    {
        let m = rest.remove(0);
        assert(m == vs[i as int]);
        assert(rest@ =~= vs.subrange(i + 1, n as int));
        let ghost o0 = out@;
        insert_descending(&mut out, m);
        let ghost p = choose|p: int| 0 <= p <= o0.len() && out@ == o0.insert(p, m);
        proof {
            assert(views(out@) =~= views(o0).insert(p, module_view(m)));
            lemma_insert_multiset(views(o0), p, module_view(m));
            let pv = views(vs.subrange(0, i as int));
            assert(views(vs.subrange(0, i + 1)) =~= pv.push(module_view(m)));
            pv.to_multiset_ensures();
            assert(pv.push(module_view(m)).to_multiset() =~= pv.to_multiset().insert(
                module_view(m),
            ));
        }
        i = i + 1;
    }
    assert(vs.subrange(0, n as int) =~= vs);
    out
}

/// The module each qualifying entry becomes, in order: its id, directory, and rules layered
/// from the configured default, the rules it ships and the user's first entry for it.
pub open spec fn enabled_of(cs: Seq<ModuleCandidate>, cfg: Config) -> Seq<ModuleView>
    decreases cs.len(),
{
    if cs.len() == 0 {
        Seq::empty()
    } else {
        let prev = enabled_of(cs.drop_last(), cfg);
        let c = cs.last();
        if qualifies(c) {
            let user = first_user_rules(cfg.rules@, c.name@);
            prev.push(
                (
                    c.name@,
                    c.path@,
                    layered_default(cfg.default_mode, c.shipped_rules, user),
                    layered_paths(c.shipped_rules, user),
                ),
            )
        } else {
            prev
        }
    }
}

/// The modules of the qualifying entries, in the order of the entries.
fn enabled_modules(candidates: Vec<ModuleCandidate>, cfg: &Config) -> (r: Vec<Module>)
    ensures
        views(r@) == enabled_of(candidates@, *cfg),
{
    let ghost cs = candidates@;
    let mut rest = candidates;
    let mut out: Vec<Module> = Vec::new();
    let n = rest.len();
    let mut i: usize = 0;
    assert(views(out@) =~= Seq::<ModuleView>::empty());
    while i < n
        invariant
            n == cs.len(),
            i <= n,
            rest@ == cs.subrange(i as int, n as int),
            views(out@) == enabled_of(cs.subrange(0, i as int), *cfg),
        decreases n - i,
    {
        let c = rest.remove(0);
        assert(c == cs[i as int]);
        assert(rest@ =~= cs.subrange(i + 1, n as int));
        assert(cs.subrange(0, i + 1).drop_last() =~= cs.subrange(0, i as int));
        let ghost o0 = out@;
        if module_qualifies(&c) {
            let user = cfg.user_rules(c.name.as_str());
            let shipped = c.shipped_rules.as_ref();
            let theirs = user.as_ref();
            let rules = ModuleRules::layered(cfg.default_mode, shipped, theirs);
            proof {
                let first = first_user_rules(cfg.rules@, c.name@);
                lemma_layered_same(cfg.default_mode, c.shipped_rules, deref_opt(theirs), first);
                assert(deref_opt(shipped) == c.shipped_rules);
            }
            let m = Module { id: c.name, source_path: c.path, rules };
            let ghost mv = module_view(m);
            out.push(m);
            assert(views(out@) =~= views(o0).push(mv));
        }
        i = i + 1;
    }
    assert(cs.subrange(0, n as int) =~= cs);
    out
}

/// The enabled modules among the entries of the module directory, by descending id, each
/// qualifying entry exactly once: an entry is a module iff `qualifies` holds of it. Each
/// module's rules layer the configured default, the rules it ships, and the user's rules
/// for it in the configuration.
pub fn scan(candidates: Vec<ModuleCandidate>, cfg: &Config) -> (r: Vec<Module>)
    ensures
        descending(ids(r@)),
        views(r@).to_multiset() == enabled_of(candidates@, *cfg).to_multiset(),
{
    let found = enabled_modules(candidates, cfg);
    sort_descending(found)
}

} // verus!
