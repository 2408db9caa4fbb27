use vstd::prelude::*;

use crate::text::{insert_sorted_unique, strictly_ascending, texts};

verus! {

/// The regular files one lower directory holds, relative to it, and the module it is of.
#[derive(Debug)]
pub struct LayerFiles {
    pub module_id: String,
    pub files: Vec<String>,
}

/// A relative path that two or more modules supply for one partition.
#[derive(Debug)]
pub struct ConflictEntry {
    pub partition: String,
    pub relative_path: String,
    pub contending_modules: Vec<String>,
}

#[derive(Clone, Copy, Debug, PartialEq, Eq, Structural)]
pub enum DiagnosticLevel {
    Warning,
    Critical,
}

#[derive(Debug)]
pub struct DiagnosticIssue {
    pub level: DiagnosticLevel,
    pub context: String,
    pub message: String,
}

/// Conflicts and diagnostics of a plan.
#[derive(Debug)]
pub struct AnalysisReport {
    pub conflicts: Vec<ConflictEntry>,
    pub diagnostics: Vec<DiagnosticIssue>,
}

/// The modules whose layers hold `path`, in layer order.
pub open spec fn contenders(layers: Seq<LayerFiles>, path: Seq<char>) -> Seq<Seq<char>>
    decreases layers.len(),
{
    if layers.len() == 0 {
        Seq::empty()
    } else {
        let prev = contenders(layers.drop_last(), path);
        if texts(layers.last().files@).contains(path) {
            prev.push(layers.last().module_id@)
        } else {
            prev
        }
    }
}

/// Every relative path that some layer holds.
pub open spec fn all_paths(layers: Seq<LayerFiles>) -> Set<Seq<char>> {
    Set::new(
        |p: Seq<char>|
            exists|k: int| 0 <= k < layers.len() && texts((#[trigger] layers[k]).files@).contains(p),
    )
}

/// Tells whether a list, in any order, holds `s`.
fn holds(v: &Vec<String>, s: &str) -> (r: bool)
    ensures
        r == texts(v@).contains(s@),
{
    let n = v.len();
    let mut i: usize = 0;
    while i < n
        invariant
            n == v@.len(),
            i <= n,
            forall|k: int| 0 <= k < i ==> (#[trigger] v@[k])@ != s@,
        decreases n - i,
    {
        if crate::text::str_eq(v[i].as_str(), s) {
            assert(texts(v@)[i as int] == s@);
            return true;
        }
        i = i + 1;
    }
    proof {
        if texts(v@).contains(s@) {
            let k = choose|k: int| 0 <= k < texts(v@).len() && #[trigger] texts(v@)[k] == s@;
            assert(v@[k]@ == s@);
        }
    }
    false
}

/// The modules whose layers hold `path`.
pub fn contending_modules(layers: &Vec<LayerFiles>, path: &str) -> (r: Vec<String>)
    ensures
        texts(r@) == contenders(layers@, path@),
{
    let n = layers.len();
    let mut r: Vec<String> = Vec::new();
    let mut i: usize = 0;
    while i < n
        invariant
            n == layers@.len(),
            i <= n,
            texts(r@) == contenders(layers@.subrange(0, i as int), path@),
        decreases n - i,
    {
        assert(layers@.subrange(0, i + 1).drop_last() =~= layers@.subrange(0, i as int));
        let ghost r0 = texts(r@);
        if holds(&layers[i].files, path) {
            r.push(layers[i].module_id.clone());
            assert(texts(r@) =~= r0.push(layers@[i as int].module_id@));
        }
        i = i + 1;
    }
    assert(layers@.subrange(0, n as int) =~= layers@);
    r
}

/// Every relative path the layers hold, each once, in ascending order.
pub fn distinct_paths(layers: &Vec<LayerFiles>) -> (r: Vec<String>)
    ensures
        strictly_ascending(texts(r@)),
        texts(r@).to_set() == all_paths(layers@),
{
    let n = layers.len();
    let mut r: Vec<String> = Vec::new();
    let mut i: usize = 0;
    assert(texts(r@).to_set() =~= all_paths(layers@.subrange(0, 0)));
    while i < n
        invariant
            n == layers@.len(),
            i <= n,
            strictly_ascending(texts(r@)),
            texts(r@).to_set() == all_paths(layers@.subrange(0, i as int)),
        decreases n - i,
    {
        let files = &layers[i].files;
        let m = files.len();
        let mut j: usize = 0;
        let ghost before = all_paths(layers@.subrange(0, i as int));
        while j < m
            invariant
                n == layers@.len(),
                i < n,
                files == &layers@[i as int].files,
                m == files@.len(),
                j <= m,
                strictly_ascending(texts(r@)),
                texts(r@).to_set() == before.union(texts(files@).subrange(0, j as int).to_set()),
            decreases m - j,
        {
            insert_sorted_unique(&mut r, files[j].clone());
            assert(texts(files@).subrange(0, j + 1) =~= texts(files@).subrange(0, j as int).push(
                files@[j as int]@,
            ));
            proof {
                crate::text::lemma_push_to_set(
                    texts(files@).subrange(0, j as int),
                    files@[j as int]@,
                );
            }
            assert(texts(r@).to_set() =~= before.union(
                texts(files@).subrange(0, j + 1).to_set(),
            ));
            j = j + 1;
        }
        assert(texts(files@).subrange(0, m as int) =~= texts(files@));
        assert(all_paths(layers@.subrange(0, i + 1)) =~= before.union(texts(files@).to_set())) by {
            let prev = layers@.subrange(0, i as int);
            let next = layers@.subrange(0, i + 1);
            assert forall|p: Seq<char>| all_paths(next).contains(p) implies before.union(
                texts(files@).to_set(),
            ).contains(p) by {
                let k = choose|k: int|
                    0 <= k < next.len() && texts((#[trigger] next[k]).files@).contains(p);
                if k < i {
                    assert(prev[k] == next[k]);
                }
            }
            assert forall|p: Seq<char>| before.union(texts(files@).to_set()).contains(p) implies all_paths(
                next,
            ).contains(p) by {
                if before.contains(p) {
                    let k = choose|k: int|
                        0 <= k < prev.len() && texts((#[trigger] prev[k]).files@).contains(p);
                    assert(next[k] == prev[k]);
                } else {
                    assert(next[i as int] == layers@[i as int]);
                }
            }
        }
        i = i + 1;
    }
    assert(layers@.subrange(0, n as int) =~= layers@);
    r
}

/// The file conflicts of one overlay operation: each relative path that two or more of
/// its layers hold, in ascending order of path, with the modules in layer order.
pub fn conflicts_for(partition: &str, layers: &Vec<LayerFiles>) -> (r: Vec<ConflictEntry>)
    ensures
        forall|k: int|
            0 <= k < r@.len() ==> (#[trigger] r@[k]).partition@ == partition@ && texts(
                r@[k].contending_modules@,
            ) == contenders(layers@, r@[k].relative_path@) && contenders(
                layers@,
                r@[k].relative_path@,
            ).len() >= 2 && all_paths(layers@).contains(r@[k].relative_path@),
        forall|i: int, j: int|
            0 <= i < j < r@.len() ==> crate::text::seq_lt(
                (#[trigger] r@[i]).relative_path@,
                (#[trigger] r@[j]).relative_path@,
            ),
        forall|p: Seq<char>|
            all_paths(layers@).contains(p) && contenders(layers@, p).len() >= 2 ==> exists|k: int|
                0 <= k < r@.len() && (#[trigger] r@[k]).relative_path@ == p,
{
    let paths = distinct_paths(layers);
    let n = paths.len();
    let mut r: Vec<ConflictEntry> = Vec::new();
    let mut i: usize = 0;
    let ghost pt = texts(paths@);
    while i < n
        invariant
            n == paths@.len(),
            pt == texts(paths@),
            strictly_ascending(pt),
            pt.to_set() == all_paths(layers@),
            i <= n,
            forall|k: int|
                0 <= k < r@.len() ==> (#[trigger] r@[k]).partition@ == partition@ && texts(
                    r@[k].contending_modules@,
                ) == contenders(layers@, r@[k].relative_path@) && contenders(
                    layers@,
                    r@[k].relative_path@,
                ).len() >= 2 && all_paths(layers@).contains(r@[k].relative_path@),
            forall|k: int|
                0 <= k < r@.len() ==> exists|j: int|
                    0 <= j < i && pt[j] == (#[trigger] r@[k]).relative_path@,
            forall|a: int, b: int|
                0 <= a < b < r@.len() ==> crate::text::seq_lt(
                    (#[trigger] r@[a]).relative_path@,
                    (#[trigger] r@[b]).relative_path@,
                ),
            forall|j: int|
                0 <= j < i && contenders(layers@, #[trigger] pt[j]).len() >= 2 ==> exists|k: int|
                    0 <= k < r@.len() && (#[trigger] r@[k]).relative_path@ == pt[j],
        decreases n - i,
    {
        let who = contending_modules(layers, paths[i].as_str());
        assert(pt.to_set().contains(pt[i as int]));
        if who.len() >= 2 {
            let ghost r0 = r@;
            r.push(
                ConflictEntry {
                    partition: String::from_str(partition),
                    relative_path: paths[i].clone(),
                    contending_modules: who,
                },
            );
            assert forall|a: int, b: int| 0 <= a < b < r@.len() implies crate::text::seq_lt(
                (#[trigger] r@[a]).relative_path@,
                (#[trigger] r@[b]).relative_path@,
            ) by {
                if b == r0.len() {
                    assert(r@[a] == r0[a]);
                    let j = choose|j: int| 0 <= j < i && pt[j] == r0[a].relative_path@;
                    assert(crate::text::seq_lt(pt[j], pt[i as int]));
                } else {
                    assert(r@[a] == r0[a]);
                    assert(r@[b] == r0[b]);
                }
            }
            assert forall|k: int| 0 <= k < r@.len() implies exists|j: int|
                0 <= j < i + 1 && pt[j] == (#[trigger] r@[k]).relative_path@ by {
                if k < r0.len() {
                    assert(r@[k] == r0[k]);
                    let j = choose|j: int| 0 <= j < i && pt[j] == r0[k].relative_path@;
                    assert(pt[j] == r@[k].relative_path@);
                } else {
                    assert(pt[i as int] == r@[k].relative_path@);
                }
            }
            assert forall|j: int|
                0 <= j < i + 1 && contenders(layers@, #[trigger] pt[j]).len() >= 2 implies exists|
                k: int,
            | 0 <= k < r@.len() && (#[trigger] r@[k]).relative_path@ == pt[j] by {
                if j < i {
                    let k = choose|k: int|
                        0 <= k < r0.len() && (#[trigger] r0[k]).relative_path@ == pt[j];
                    assert(r@[k] == r0[k]);
                } else {
                    assert(r@[r0.len() as int].relative_path@ == pt[j]);
                }
            }
        }
        i = i + 1;
    }
    assert forall|p: Seq<char>|
        all_paths(layers@).contains(p) && contenders(layers@, p).len() >= 2 implies exists|k: int|
        0 <= k < r@.len() && (#[trigger] r@[k]).relative_path@ == p by {
        assert(pt.to_set().contains(p));
        let j = choose|j: int| 0 <= j < pt.len() && pt[j] == p;
        assert(contenders(layers@, pt[j]).len() >= 2);
    }
    r
}

/// The issue for an operation whose target does not exist.
pub fn missing_target_issue(partition: &str, target: &str) -> (r: DiagnosticIssue)
    ensures
        r.level == DiagnosticLevel::Critical,
        r.context@ == partition@,
        r.message@ == "Target mount point does not exist: "@ + target@,
{
    let mut message = String::from_str("Target mount point does not exist: ");
    message.append(target);
    DiagnosticIssue {
        level: DiagnosticLevel::Critical,
        context: String::from_str(partition),
        message,
    }
}

/// The issue for an absolute symlink whose target does not exist.
pub fn dead_symlink_issue(module_id: &str, link: &str, target: &str) -> (r: DiagnosticIssue)
    ensures
        r.level == DiagnosticLevel::Warning,
        r.context@ == module_id@,
        r.message@ == "Dead absolute symlink: "@ + link@ + " -> "@ + target@,
{
    let mut message = String::from_str("Dead absolute symlink: ");
    message.append(link);
    message.append(" -> ");
    message.append(target);
    DiagnosticIssue { level: DiagnosticLevel::Warning, context: String::from_str(module_id), message }
}

} // verus!
