use vstd::prelude::*;

verus! {

/// Lexicographic order on character sequences, the order `String` uses.
pub open spec fn seq_lt(a: Seq<char>, b: Seq<char>) -> bool
    decreases a.len(),
{
    if a.len() == 0 {
        b.len() > 0
    } else if b.len() == 0 {
        false
    } else if a[0] != b[0] {
        (a[0] as int) < (b[0] as int)
    } else {
        seq_lt(a.drop_first(), b.drop_first())
    }
}

pub proof fn lemma_lt_irreflexive(a: Seq<char>)
    ensures
        !seq_lt(a, a),
    decreases a.len(),
{
    if a.len() > 0 {
        lemma_lt_irreflexive(a.drop_first());
    }
}

pub proof fn lemma_lt_trichotomy(a: Seq<char>, b: Seq<char>)
    ensures
        a != b ==> (seq_lt(a, b) || seq_lt(b, a)),
        !(seq_lt(a, b) && seq_lt(b, a)),
    decreases a.len(),
{
    if a.len() > 0 && b.len() > 0 && a[0] == b[0] {
        lemma_lt_trichotomy(a.drop_first(), b.drop_first());
        if a != b {
            assert(a =~= seq![a[0]] + a.drop_first());
            assert(b =~= seq![b[0]] + b.drop_first());
        }
    } else if a.len() == 0 && b.len() == 0 {
        assert(a =~= b);
    } else if a.len() > 0 && b.len() > 0 {
        assert(a[0] as int != b[0] as int);
    }
}

pub proof fn lemma_lt_transitive(a: Seq<char>, b: Seq<char>, c: Seq<char>)
    requires
        seq_lt(a, b),
        seq_lt(b, c),
    ensures
        seq_lt(a, c),
    decreases a.len(),
{
    if a.len() > 0 && b.len() > 0 && c.len() > 0 && a[0] == b[0] && b[0] == c[0] {
        lemma_lt_transitive(a.drop_first(), b.drop_first(), c.drop_first());
    }
}

/// The characters of every string in `v`, in order.
pub open spec fn texts(v: Seq<String>) -> Seq<Seq<char>> {
    v.map_values(|s: String| s@)
}

/// `v` is strictly increasing: sorted and free of repeats.
pub open spec fn strictly_ascending(v: Seq<Seq<char>>) -> bool {
    forall|i: int, j: int| 0 <= i < j < v.len() ==> seq_lt(#[trigger] v[i], #[trigger] v[j])
}

/// `v` is in non-increasing order.
pub open spec fn descending(v: Seq<Seq<char>>) -> bool {
    forall|i: int, j: int| 0 <= i < j < v.len() ==> !seq_lt(#[trigger] v[i], #[trigger] v[j])
}

pub proof fn lemma_push_to_set(s: Seq<Seq<char>>, x: Seq<char>)
    ensures
        s.push(x).to_set() == s.to_set().insert(x),
{
    assert(s.push(x) =~= s + seq![x]);
    Seq::lemma_to_set_insert_commutes(s, x);
}

/// Compares two strings in the order `String` uses.
pub fn str_lt(a: &str, b: &str) -> (r: bool)
    ensures
        r == seq_lt(a@, b@),
{
    let la = a.unicode_len();
    let lb = b.unicode_len();
    let mut i: usize = 0;
    assert(a@.subrange(0, la as int) =~= a@);
    assert(b@.subrange(0, lb as int) =~= b@);
    while i < la && i < lb
        invariant
            la == a@.len(),
            lb == b@.len(),
            i <= la,
            i <= lb,
            a@.subrange(0, i as int) == b@.subrange(0, i as int),
            seq_lt(a@, b@) == seq_lt(a@.subrange(i as int, la as int), b@.subrange(i as int, lb as int)),
        decreases la - i,
    {
        let ca = a.get_char(i);
        let cb = b.get_char(i);
        let ghost sa = a@.subrange(i as int, la as int);
        let ghost sb = b@.subrange(i as int, lb as int);
        if ca != cb {
            assert(sa[0] == ca && sb[0] == cb);
            return (ca as u32) < (cb as u32);
        }
        assert(sa.drop_first() =~= a@.subrange(i + 1, la as int));
        assert(sb.drop_first() =~= b@.subrange(i + 1, lb as int));
        assert(a@.subrange(0, i + 1) =~= a@.subrange(0, i as int).push(ca));
        assert(b@.subrange(0, i + 1) =~= b@.subrange(0, i as int).push(cb));
        i = i + 1;
    }
    i < lb
}

/// Tells whether two strings hold the same characters.
pub fn str_eq(a: &str, b: &str) -> (r: bool)
    ensures
        r == (a@ == b@),
{
    let la = a.unicode_len();
    let lb = b.unicode_len();
    if la != lb {
        return false;
    }
    let mut i: usize = 0;
    while i < la
        invariant
            la == a@.len(),
            lb == b@.len(),
            la == lb,
            i <= la,
            a@.subrange(0, i as int) == b@.subrange(0, i as int),
        decreases la - i,
    {
        if a.get_char(i) != b.get_char(i) {
            return false;
        }
        assert(a@.subrange(0, i + 1) =~= a@.subrange(0, i as int).push(a@[i as int]));
        assert(b@.subrange(0, i + 1) =~= b@.subrange(0, i as int).push(b@[i as int]));
        i = i + 1;
    }
    assert(a@ =~= a@.subrange(0, la as int));
    assert(b@ =~= b@.subrange(0, lb as int));
    true
}

/// Inserts `s` into a strictly ascending list unless it is already there.
pub fn insert_sorted_unique(v: &mut Vec<String>, s: String)
    requires
        strictly_ascending(texts(old(v)@)),
    ensures
        strictly_ascending(texts(final(v)@)),
        texts(final(v)@).to_set() == texts(old(v)@).to_set().insert(s@),
{
    let n = v.len();
    let mut p: usize = 0;
    while p < n && str_lt(v[p].as_str(), s.as_str())
        invariant
            n == v@.len(),
            p <= n,
            strictly_ascending(texts(v@)),
            forall|k: int| 0 <= k < p ==> seq_lt(#[trigger] texts(v@)[k], s@),
        decreases n - p,
    {
        p = p + 1;
    }
    let ghost old_t = texts(v@);
    if p < n && str_eq(v[p].as_str(), s.as_str()) {
        assert(old_t.to_set() =~= old_t.to_set().insert(s@)) by {
            assert(old_t[p as int] == s@);
        }
        return;
    }
    proof {
        if p < n {
            lemma_lt_trichotomy(old_t[p as int], s@);
        }
    }
    v.insert(p, s);
    let ghost new_t = texts(v@);
    assert(new_t =~= old_t.insert(p as int, s@));
    assert forall|i: int, j: int| 0 <= i < j < new_t.len() implies seq_lt(
        #[trigger] new_t[i],
        #[trigger] new_t[j],
    ) by {
        if j > p && i <= p {
            assert(seq_lt(s@, old_t[p as int]));
            if j - 1 > p {
                lemma_lt_transitive(s@, old_t[p as int], old_t[j - 1]);
            }
            if i < p {
                lemma_lt_transitive(old_t[i], s@, old_t[j - 1]);
            }
        }
    }
    assert(new_t.to_set() =~= old_t.to_set().insert(s@)) by {
        assert forall|x: Seq<char>| new_t.to_set().contains(x) implies old_t.to_set().insert(
            s@,
        ).contains(x) by {
            let k = choose|k: int| 0 <= k < new_t.len() && new_t[k] == x;
            if k < p {
                assert(old_t[k] == x);
            } else if k > p {
                assert(old_t[k - 1] == x);
            }
        }
        assert forall|x: Seq<char>| old_t.to_set().insert(s@).contains(x) implies new_t.to_set().contains(
            x,
        ) by {
            if x == s@ {
                assert(new_t[p as int] == x);
            } else {
                let k = choose|k: int| 0 <= k < old_t.len() && old_t[k] == x;
                if k < p {
                    assert(new_t[k] == x);
                } else {
                    assert(new_t[k + 1] == x);
                }
            }
        }
    }
}

} // verus!
