use vstd::prelude::*;

use crate::recovery::{is_space_char, trimmed};
use crate::sync::{bytes_equal, CONTEXT_ROOTFS, CONTEXT_SYSTEM};

verus! {

/// `t` occurs in `s`.
pub open spec fn holds_text(s: Seq<char>, t: Seq<char>) -> bool {
    exists|i: int| 0 <= i && i + t.len() <= s.len() && #[trigger] s.subrange(i, i + t.len()) == t
}

/// Tells whether `t` occurs in `s`.
pub fn contains_text(s: &str, t: &str) -> (r: bool)
    ensures
        r == holds_text(s@, t@),
{
    let n = s.unicode_len();
    let m = t.unicode_len();
    if m > n {
        return false;
    }
    let mut i: usize = 0;
    while i <= n - m
        invariant
            n == s@.len(),
            m == t@.len(),
            m <= n,
            i <= n - m + 1,
            forall|j: int| 0 <= j < i ==> #[trigger] s@.subrange(j, j + m) != t@,
        decreases n - m + 1 - i,
    {
        if crate::text::str_eq(s.substring_char(i, i + m), t) {
            return true;
        }
        if i == n - m {
            return false;
        }
        i = i + 1;
    }
    false
}

/// The label a path context copy gives: a label that holds the root filesystem's label
/// becomes the system label; any other stays as it is.
pub open spec fn copied_path_context(ctx: Seq<char>) -> Seq<char> {
    if holds_text(ctx, CONTEXT_ROOTFS@) {
        CONTEXT_SYSTEM@
    } else {
        ctx
    }
}

/// The label to give a copy: the source's label, with one that holds the root
/// filesystem's label turned into the system label; the system label where the source
/// has none to read.
pub fn copy_path_context(source_context: Option<&str>) -> (r: String)
    ensures
        r@ == (match source_context {
            Some(c) => copied_path_context(c@),
            None => CONTEXT_SYSTEM@,
        }),
{
    match source_context {
        Some(c) => {
            if contains_text(c, CONTEXT_ROOTFS) {
                String::from_str(CONTEXT_SYSTEM)
            } else {
                String::from_str(c)
            }
        },
        None => String::from_str(CONTEXT_SYSTEM),
    }
}

/// Index of the first character at or after `i` that is not NUL.
pub open spec fn first_non_nul(s: Seq<char>, i: int) -> int
    decreases s.len() - i,
{
    if i >= s.len() || i < 0 {
        s.len() as int
    } else if s[i] == '\0' {
        first_non_nul(s, i + 1)
    } else {
        i
    }
}

/// End of the text once NULs before `j` are dropped.
pub open spec fn last_non_nul_end(s: Seq<char>, j: int) -> int
    decreases j,
{
    if j <= 0 || j > s.len() {
        0
    } else if s[j - 1] == '\0' {
        last_non_nul_end(s, j - 1)
    } else {
        j
    }
}

/// A label without the NUL padding an attribute value may carry at either end.
pub open spec fn without_nuls(s: Seq<char>) -> Seq<char> {
    let a = first_non_nul(s, 0);
    let b = last_non_nul_end(s, s.len() as int);
    if a < b {
        s.subrange(a, b)
    } else {
        Seq::empty()
    }
}

/// Strips the NUL padding from a label read from `security.selinux`.
pub fn strip_nul_padding(s: &str) -> (r: String)
    ensures
        r@ == without_nuls(s@),
{
    let n = s.unicode_len();
    let mut a: usize = 0;
    while a < n && s.get_char(a) == '\0'
        invariant
            n == s@.len(),
            a <= n,
            first_non_nul(s@, 0) == first_non_nul(s@, a as int),
        decreases n - a,
    {
        a = a + 1;
    }
    let mut b: usize = n;
    while b > 0 && s.get_char(b - 1) == '\0'
        invariant
            n == s@.len(),
            b <= n,
            last_non_nul_end(s@, n as int) == last_non_nul_end(s@, b as int),
        decreases b,
    {
        b = b - 1;
    }
    if a >= b {
        String::new()
    } else {
        String::from_str(s.substring_char(a, b))
    }
}

/// The text without white space at either end.
pub fn trim(s: &str) -> (r: String)
    ensures
        r@ == trimmed(s@),
{
    let n = s.unicode_len();
    let mut a: usize = 0;
    while a < n && is_space_char(s.get_char(a))
        invariant
            n == s@.len(),
            a <= n,
            crate::recovery::first_non_space(s@, 0) == crate::recovery::first_non_space(
                s@,
                a as int,
            ),
        decreases n - a,
    {
        a = a + 1;
    }
    let mut b: usize = n;
    while b > 0 && is_space_char(s.get_char(b - 1))
        invariant
            n == s@.len(),
            b <= n,
            crate::recovery::last_non_space_end(s@, n as int)
                == crate::recovery::last_non_space_end(s@, b as int),
        decreases b,
    {
        b = b - 1;
    }
    if a >= b {
        String::new()
    } else {
        String::from_str(s.substring_char(a, b))
    }
}

/// Whether tmpfs keeps `trusted.overlay.*` attributes, from a probe: the value written on a
/// file in the tmpfs, and what reading the attribute back gave (none where it failed).
/// Supported exactly when the same bytes came back.
pub fn is_overlay_xattr_supported(written: &Vec<u8>, read_back: &Option<Vec<u8>>) -> (r: bool)
    ensures
        r == (read_back is Some && read_back->0@ == written@),
{
    match read_back {
        Some(v) => bytes_equal(v, written),
        None => false,
    }
}

} // verus!
