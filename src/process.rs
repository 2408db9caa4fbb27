use vstd::prelude::*;

use crate::numbers::{decimal, decimal_string};
use crate::paths::joined;

verus! {

/// A process name in the shape of a kernel worker's, drawn from `seed`:
/// `kworker/u<seed mod 16>:<(seed / 16) mod 10>`.
pub open spec fn kworker_name(seed: u32) -> Seq<char> {
    "kworker/u"@ + decimal((seed % 16) as nat) + ":"@ + decimal(((seed / 16) % 10) as nat)
}

pub fn random_kworker_name(seed: u32) -> (r: String)
    ensures
        r@ == kworker_name(seed),
{
    let x = seed % 16;
    let y = (seed >> 4) % 10;
    assert(seed >> 4 == seed / 16) by (bit_vector);
    let mut s = String::from_str("kworker/u");
    let xs = decimal_string(x as u64);
    s.append(xs.as_str());
    s.append(":");
    let ys = decimal_string(y as u64);
    s.append(ys.as_str());
    s
}

/// The temporary root: the first candidate that is an empty directory
/// (`is_empty_dir[k]` for candidate `k`), else `workdir` under the run directory.
pub open spec fn temp_dir_choice(
    candidates: Seq<Seq<char>>,
    is_empty_dir: Seq<bool>,
    run_dir: Seq<char>,
) -> Seq<char>
    decreases candidates.len(),
{
    if candidates.len() == 0 || is_empty_dir.len() == 0 {
        joined(run_dir, "workdir"@)
    } else if is_empty_dir[0] {
        candidates[0]
    } else {
        temp_dir_choice(candidates.drop_first(), is_empty_dir.drop_first(), run_dir)
    }
}

pub fn select_temp_dir(candidates: &Vec<String>, is_empty_dir: &Vec<bool>, run_dir: &str) -> (r:
    String)
    requires
        candidates@.len() == is_empty_dir@.len(),
    ensures
        r@ == temp_dir_choice(crate::text::texts(candidates@), is_empty_dir@, run_dir@),
{
    let n = candidates.len();
    let mut i: usize = 0;
    assert(crate::text::texts(candidates@).subrange(0, n as int) =~= crate::text::texts(candidates@));
    assert(is_empty_dir@.subrange(0, n as int) =~= is_empty_dir@);
    while i < n
        invariant
            n == candidates@.len(),
            n == is_empty_dir@.len(),
            i <= n,
            temp_dir_choice(crate::text::texts(candidates@), is_empty_dir@, run_dir@)
                == temp_dir_choice(
                crate::text::texts(candidates@).subrange(i as int, n as int),
                is_empty_dir@.subrange(i as int, n as int),
                run_dir@,
            ),
        decreases n - i,
    {
        let ghost c = crate::text::texts(candidates@).subrange(i as int, n as int);
        let ghost e = is_empty_dir@.subrange(i as int, n as int);
        if is_empty_dir[i] {
            assert(c[0] == candidates@[i as int]@);
            return candidates[i].clone();
        }
        assert(c.drop_first() =~= crate::text::texts(candidates@).subrange(i + 1, n as int));
        assert(e.drop_first() =~= is_empty_dir@.subrange(i + 1, n as int));
        i = i + 1;
    }
    crate::paths::join(run_dir, "workdir")
}

} // verus!
