use vstd::prelude::*;

use crate::text::str_eq;

verus! {

/// The text after the last `/` of a path; all of it when it holds no `/`.
pub open spec fn last_component(p: Seq<char>) -> Seq<char>
    decreases p.len(),
{
    if p.len() == 0 {
        Seq::empty()
    } else if p.last() == '/' {
        Seq::empty()
    } else {
        last_component(p.drop_last()).push(p.last())
    }
}

/// The text before the first `/` of a path; all of it when it holds no `/`.
pub open spec fn first_component(p: Seq<char>) -> Seq<char>
    decreases p.len(),
{
    if p.len() == 0 {
        Seq::empty()
    } else if p[0] == '/' {
        Seq::empty()
    } else {
        seq![p[0]] + first_component(p.drop_first())
    }
}

/// The path up to, and without, its last `/`; `/` for a name directly under the root, and
/// the empty path for a path that holds no `/`.
pub open spec fn parent_of(p: Seq<char>) -> Seq<char> {
    let name = last_component(p);
    let dir = p.subrange(0, p.len() - name.len());
    if dir.len() <= 1 {
        dir
    } else {
        dir.drop_last()
    }
}

/// `base` and `name` joined by one `/`.
pub open spec fn joined(base: Seq<char>, name: Seq<char>) -> Seq<char> {
    if base.len() > 0 && base.last() == '/' {
        base + name
    } else {
        base + seq!['/'] + name
    }
}

/// The first component under the root of an absolute path (`/system/lib` gives `system`).
pub open spec fn top_component(p: Seq<char>) -> Seq<char> {
    if p.len() > 0 && p[0] == '/' {
        first_component(p.drop_first())
    } else {
        Seq::empty()
    }
}

/// `child` lies strictly below the directory `dir`.
pub open spec fn strictly_below(child: Seq<char>, dir: Seq<char>) -> bool {
    let prefix = if dir.len() > 0 && dir.last() == '/' {
        dir
    } else {
        dir.push('/')
    };
    &&& prefix.len() <= child.len()
    &&& child.subrange(0, prefix.len() as int) == prefix
    &&& child != dir
}

proof fn lemma_last_component_suffix(p: Seq<char>)
    ensures
        last_component(p).len() <= p.len(),
        last_component(p) == p.subrange(p.len() - last_component(p).len(), p.len() as int),
        !last_component(p).contains('/'),
        last_component(p).len() < p.len() ==> p[p.len() - last_component(p).len() - 1] == '/',
    decreases p.len(),
{
    if p.len() > 0 && p.last() != '/' {
        lemma_last_component_suffix(p.drop_last());
        let q = p.drop_last();
        assert(last_component(p) =~= p.subrange(
            p.len() - last_component(p).len(),
            p.len() as int,
        ));
        assert forall|i: int| 0 <= i < last_component(p).len() implies last_component(p)[i]
            != '/' by {
            if i < last_component(q).len() {
                assert(!last_component(q).contains('/'));
                assert(last_component(q)[i] != '/');
            }
        }
    }
}

/// Index in `p` where its last component starts.
fn last_component_start(p: &str) -> (r: usize)
    ensures
        r <= p@.len(),
        r as int == p@.len() - last_component(p@).len(),
{
    proof {
        lemma_last_component_suffix(p@);
    }
    let n = p.unicode_len();
    let mut i: usize = n;
    assert(p@.subrange(0, n as int) =~= p@);
    assert(last_component(p@) + p@.subrange(n as int, n as int) =~= last_component(p@));
    while i > 0 && p.get_char(i - 1) != '/'
        invariant
            n == p@.len(),
            i <= n,
            last_component(p@) == last_component(p@.subrange(0, i as int)) + p@.subrange(
                i as int,
                n as int,
            ),
        decreases i,
    {
        let ghost q = p@.subrange(0, i as int);
        assert(q.drop_last() =~= p@.subrange(0, i - 1));
        assert(p@.subrange(i - 1, n as int) =~= seq![q.last()] + p@.subrange(i as int, n as int));
        assert(last_component(q) == last_component(q.drop_last()).push(q.last()));
        assert(last_component(q.drop_last()).push(q.last()) + p@.subrange(i as int, n as int)
            =~= last_component(q.drop_last()) + p@.subrange(i - 1, n as int));
        i = i - 1;
    }
    proof {
        let q = p@.subrange(0, i as int);
        assert(last_component(q) =~= Seq::<char>::empty());
        assert(last_component(p@) =~= p@.subrange(i as int, n as int));
    }
    i
}

/// The final component of a path.
pub fn file_name(p: &str) -> (r: String)
    ensures
        r@ == last_component(p@),
{
    let n = p.unicode_len();
    let start = last_component_start(p);
    proof {
        lemma_last_component_suffix(p@);
    }
    String::from_str(p.substring_char(start, n))
}

/// The directory that holds a path.
pub fn parent_dir(p: &str) -> (r: String)
    ensures
        r@ == parent_of(p@),
{
    let start = last_component_start(p);
    if start <= 1 {
        String::from_str(p.substring_char(0, start))
    } else {
        String::from_str(p.substring_char(0, start - 1))
    }
}

/// Joins a directory and a name with one `/`.
pub fn join(base: &str, name: &str) -> (r: String)
    ensures
        r@ == joined(base@, name@),
{
    let n = base.unicode_len();
    let mut r = String::from_str(base);
    if n > 0 && base.get_char(n - 1) == '/' {
        r.append(name);
    } else {
        r.append("/");
        proof {
            reveal_strlit("/");
        }
        r.append(name);
        assert(r@ =~= base@ + seq!['/'] + name@);
    }
    r
}

/// The first component under the root of an absolute path, or `unknown` when there is none.
pub fn partition_label(p: &str) -> (r: String)
    ensures
        top_component(p@).len() > 0 ==> r@ == top_component(p@),
        top_component(p@).len() == 0 ==> r@ == "unknown"@,
{
    let n = p.unicode_len();
    if n == 0 || p.get_char(0) != '/' {
        return String::from_str("unknown");
    }
    let mut end: usize = 1;
    while end < n && p.get_char(end) != '/'
        invariant
            n == p@.len(),
            1 <= end <= n,
            p@[0] == '/',
            first_component(p@.drop_first()) == p@.subrange(1, end as int) + first_component(
                p@.subrange(end as int, n as int),
            ),
        decreases n - end,
    {
        let ghost rest = p@.subrange(end as int, n as int);
        assert(rest.drop_first() =~= p@.subrange(end + 1, n as int));
        assert(p@.subrange(1, end + 1) =~= p@.subrange(1, end as int) + seq![rest[0]]);
        end = end + 1;
    }
    proof {
        let rest = p@.subrange(end as int, n as int);
        assert(first_component(rest) =~= Seq::<char>::empty());
        assert(p@.drop_first() =~= p@.subrange(1, n as int));
    }
    if end == 1 {
        return String::from_str("unknown");
    }
    assert(first_component(p@.drop_first()) =~= p@.subrange(1, end as int));
    String::from_str(p.substring_char(1, end))
}

/// Tells whether `child` lies strictly below the directory `dir`.
pub fn is_strictly_below(child: &str, dir: &str) -> (r: bool)
    ensures
        r == strictly_below(child@, dir@),
{
    let n = dir.unicode_len();
    let prefix = if n > 0 && dir.get_char(n - 1) == '/' {
        String::from_str(dir)
    } else {
        let mut s = String::from_str(dir);
        s.append("/");
        proof {
            reveal_strlit("/");
        }
        assert(s@ =~= dir@.push('/'));
        s
    };
    let plen = prefix.as_str().unicode_len();
    let clen = child.unicode_len();
    if plen > clen {
        return false;
    }
    let head = child.substring_char(0, plen);
    str_eq(head, prefix.as_str()) && !str_eq(child, dir)
}

} // verus!
