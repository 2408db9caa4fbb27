use vstd::prelude::*;

use crate::paths::{last_component, parent_of, parent_dir, file_name};
use crate::text::{str_eq, texts};

verus! {

/// The SELinux label that the root filesystem carries.
pub const CONTEXT_ROOTFS: &'static str = "u:object_r:rootfs:s0";

/// The label that module content gets in place of the root filesystem's.
pub const CONTEXT_SYSTEM: &'static str = "u:object_r:system_file:s0";

/// The sentinel file that makes its directory replace the live one.
pub const REPLACE_MARKER: &'static str = ".replace";

/// Two `module.prop` files, where both could be read, hold the same bytes.
pub open spec fn props_match(src: Option<Seq<u8>>, dst: Option<Seq<u8>>) -> bool {
    src is Some && dst is Some && src->0 == dst->0
}

/// A module is copied into the mirror iff it has content and its copy there is missing
/// or carries another `module.prop`.
pub open spec fn needs_sync(
    has_content: bool,
    dest_exists: bool,
    src_prop: Option<Seq<u8>>,
    dst_prop: Option<Seq<u8>>,
) -> bool {
    has_content && (!dest_exists || !props_match(src_prop, dst_prop))
}

pub fn bytes_equal(a: &Vec<u8>, b: &Vec<u8>) -> (r: bool)
    ensures
        r == (a@ == b@),
{
    if a.len() != b.len() {
        return false;
    }
    let n = a.len();
    let mut i: usize = 0;
    while i < n
        invariant
            n == a@.len(),
            n == b@.len(),
            i <= n,
            forall|k: int| 0 <= k < i ==> a@[k] == b@[k],
        decreases n - i,
    {
        if a[i] != b[i] {
            return false;
        }
        i = i + 1;
    }
    assert(a@ =~= b@);
    true
}

/// Decides whether one module is copied into the mirror.
pub fn should_sync(
    has_content: bool,
    dest_exists: bool,
    src_prop: &Option<Vec<u8>>,
    dst_prop: &Option<Vec<u8>>,
) -> (r: bool)
    ensures
        r == needs_sync(
            has_content,
            dest_exists,
            match src_prop {
                Some(v) => Some(v@),
                None => None,
            },
            match dst_prop {
                Some(v) => Some(v@),
                None => None,
            },
        ),
{
    if !has_content {
        return false;
    }
    if !dest_exists {
        return true;
    }
    match (src_prop, dst_prop) {
        (Some(s), Some(d)) => !bytes_equal(s, d),
        _ => true,
    }
}

/// Syncing is idempotent: once a module was copied, with its `module.prop`, a second run
/// finds nothing to do for it.
pub proof fn lemma_sync_idempotent(has_content: bool, prop: Seq<u8>)
    ensures
        !needs_sync(has_content, true, Some(prop), Some(prop)),
{
}

/// An entry of the mirror that no current module owns, and that is not kept for other
/// reasons (`lost+found`, `meta-hybrid`, hidden names).
pub open spec fn orphan(name: Seq<char>, module_ids: Seq<Seq<char>>) -> bool {
    &&& name != "lost+found"@
    &&& name != "meta-hybrid"@
    &&& !(name.len() > 0 && name[0] == '.')
    &&& !module_ids.contains(name)
}

pub fn is_orphan(name: &str, module_ids: &Vec<String>) -> (r: bool)
    ensures
        r == orphan(name@, texts(module_ids@)),
{
    if str_eq(name, "lost+found") || str_eq(name, "meta-hybrid") {
        return false;
    }
    if name.unicode_len() > 0 && name.get_char(0) == '.' {
        return false;
    }
    let n = module_ids.len();
    let mut i: usize = 0;
    while i < n
        invariant
            n == module_ids@.len(),
            i <= n,
            forall|k: int| 0 <= k < i ==> (#[trigger] module_ids@[k])@ != name@,
        decreases n - i,
    {
        if str_eq(module_ids[i].as_str(), name) {
            assert(texts(module_ids@)[i as int] == name@);
            return false;
        }
        i = i + 1;
    }
    proof {
        if texts(module_ids@).contains(name@) {
            let k = choose|k: int|
                0 <= k < texts(module_ids@).len() && #[trigger] texts(module_ids@)[k] == name@;
            assert(module_ids@[k]@ == name@);
        }
    }
    true
}

/// Name of the directory a module is first copied into, beside its final place.
pub fn staging_name(module_id: &str) -> (r: String)
    ensures
        r@ == ".tmp_"@ + module_id@,
{
    let mut s = String::from_str(".tmp_");
    s.append(module_id);
    s
}

/// Name the previous copy of a module takes while the new one is moved in.
pub fn backup_name(module_id: &str) -> (r: String)
    ensures
        r@ == ".backup_"@ + module_id@,
{
    let mut s = String::from_str(".backup_");
    s.append(module_id);
    s
}

/// The label a copy gets: the root filesystem's label becomes the system label.
pub open spec fn copied_context(ctx: Seq<char>) -> Seq<char> {
    if ctx == CONTEXT_ROOTFS@ {
        CONTEXT_SYSTEM@
    } else {
        ctx
    }
}

pub fn rewrite_context(ctx: &str) -> (r: String)
    ensures
        r@ == copied_context(ctx@),
{
    if str_eq(ctx, CONTEXT_ROOTFS) {
        String::from_str(CONTEXT_SYSTEM)
    } else {
        String::from_str(ctx)
    }
}

/// The extended attributes copied along with content: the SELinux label and every
/// overlay attribute.
pub open spec fn copied_xattr(name: Seq<char>) -> bool {
    name == "security.selinux"@ || (name.len() >= "trusted.overlay."@.len() && name.subrange(
        0,
        "trusted.overlay."@.len() as int,
    ) == "trusted.overlay."@)
}

pub fn copies_xattr(name: &str) -> (r: bool)
    ensures
        r == copied_xattr(name@),
{
    if str_eq(name, "security.selinux") {
        return true;
    }
    let prefix = "trusted.overlay.";
    let plen = prefix.unicode_len();
    if name.unicode_len() < plen {
        return false;
    }
    str_eq(name.substring_char(0, plen), prefix)
}

/// The directories that a `.replace` file among `files` marks opaque, in order.
pub open spec fn opaque_dirs_of(files: Seq<Seq<char>>) -> Seq<Seq<char>>
    decreases files.len(),
{
    if files.len() == 0 {
        Seq::empty()
    } else {
        let prev = opaque_dirs_of(files.drop_last());
        if last_component(files.last()) == REPLACE_MARKER@ {
            prev.push(parent_of(files.last()))
        } else {
            prev
        }
    }
}

/// The directories of the synced tree to mark with `trusted.overlay.opaque=y`: the parent
/// of each regular file named `.replace` among `files`.
pub fn opaque_dirs(files: &Vec<String>) -> (r: Vec<String>)
    ensures
        texts(r@) == opaque_dirs_of(texts(files@)),
{
    let n = files.len();
    let mut r: Vec<String> = Vec::new();
    let mut i: usize = 0;
    while i < n
        invariant
            n == files@.len(),
            i <= n,
            texts(r@) == opaque_dirs_of(texts(files@).subrange(0, i as int)),
        decreases n - i,
    {
        let ghost f = texts(files@).subrange(0, i + 1);
        assert(f.drop_last() =~= texts(files@).subrange(0, i as int));
        let ghost r0 = texts(r@);
        let name = file_name(files[i].as_str());
        if str_eq(name.as_str(), REPLACE_MARKER) {
            r.push(parent_dir(files[i].as_str()));
            assert(texts(r@) =~= r0.push(parent_of(files@[i as int]@)));
        }
        i = i + 1;
    }
    assert(texts(files@).subrange(0, n as int) =~= texts(files@));
    r
}

} // verus!
