use vstd::prelude::*;

use crate::paths::{is_strictly_below, join, joined, strictly_below};
use crate::text::texts;

verus! {

/// Length of a `lowerdir=` value above which the overlay is staged in batches.
pub const MAX_LOWERDIR_LEN: usize = 4000;

/// Largest weight of one staged batch.
pub const BATCH_LIMIT: usize = 3500;

/// The parts joined by `:`.
pub open spec fn colon_joined(parts: Seq<Seq<char>>) -> Seq<char>
    decreases parts.len(),
{
    if parts.len() == 0 {
        Seq::empty()
    } else if parts.len() == 1 {
        parts[0]
    } else {
        colon_joined(parts.drop_last()) + seq![':'] + parts.last()
    }
}

/// The `lowerdir=` value: the module layers, topmost first, then the stock directory.
pub fn lowerdir_option(layers: &Vec<String>, stock: &str) -> (r: String)
    ensures
        r@ == colon_joined(texts(layers@).push(stock@)),
{
    let n = layers.len();
    let mut r = String::new();
    let mut i: usize = 0;
    proof {
        reveal_strlit(":");
    }
    while i < n
        invariant
            n == layers@.len(),
            i <= n,
            r@ == colon_joined(texts(layers@).subrange(0, i as int)),
        decreases n - i,
    {
        let ghost parts = texts(layers@).subrange(0, i + 1);
        assert(parts.drop_last() =~= texts(layers@).subrange(0, i as int));
        proof {
            reveal_strlit(":");
        }
        if i > 0 {
            r.append(":");
        }
        r.append(layers[i].as_str());
        assert(r@ =~= colon_joined(parts));
        i = i + 1;
    }
    let ghost all = texts(layers@).push(stock@);
    assert(texts(layers@).subrange(0, n as int) =~= all.drop_last());
    proof {
        reveal_strlit(":");
    }
    if n > 0 {
        r.append(":");
    }
    r.append(stock);
    assert(r@ =~= colon_joined(all));
    r
}

/// A mount argument this long is beyond what the kernel takes in one piece.
pub fn needs_staging(lowerdir: &str) -> (r: bool)
    ensures
        r == (lowerdir@.len() > MAX_LOWERDIR_LEN),
{
    lowerdir.unicode_len() > MAX_LOWERDIR_LEN
}

/// What a directory costs in a batch: its length and one separator.
pub open spec fn weight(dirs: Seq<Seq<char>>) -> int
    decreases dirs.len(),
{
    if dirs.len() == 0 {
        0
    } else {
        weight(dirs.drop_last()) + dirs.last().len() + 1
    }
}

/// The batches put back together.
pub open spec fn flatten(batches: Seq<Seq<Seq<char>>>) -> Seq<Seq<char>>
    decreases batches.len(),
{
    if batches.len() == 0 {
        Seq::empty()
    } else {
        flatten(batches.drop_last()) + batches.last()
    }
}

/// A batch is never empty, and stays within the limit unless it holds a single directory
/// that alone exceeds it.
pub open spec fn batch_ok(b: Seq<Seq<char>>) -> bool {
    b.len() > 0 && (weight(b) <= BATCH_LIMIT || b.len() == 1)
}

pub open spec fn batch_views(b: Seq<Vec<String>>) -> Seq<Seq<Seq<char>>> {
    b.map_values(|v: Vec<String>| texts(v@))
}

proof fn lemma_weight_push(d: Seq<Seq<char>>, x: Seq<char>)
    ensures
        weight(d.push(x)) == weight(d) + x.len() + 1,
{
    assert(d.push(x).drop_last() =~= d);
}

proof fn lemma_weight_nonneg(d: Seq<Seq<char>>)
    ensures
        weight(d) >= d.len(),
    decreases d.len(),
{
    if d.len() > 0 {
        lemma_weight_nonneg(d.drop_last());
    }
}

/// Batch `b` is full before `next`: adding the first directory of `next` would pass the
/// limit.
pub open spec fn full_before(b: Seq<Seq<char>>, next: Seq<Seq<char>>) -> bool {
    next.len() > 0 && weight(b) + next[0].len() + 1 > BATCH_LIMIT
}

/// Cuts the layers into consecutive batches for staged mounting, in order, each within
/// the limit where it can be.
pub fn split_batches(dirs: &Vec<String>) -> (r: Vec<Vec<String>>)
    ensures
        flatten(batch_views(r@)) == texts(dirs@),
        forall|k: int| 0 <= k < r@.len() ==> batch_ok(#[trigger] batch_views(r@)[k]),
        forall|k: int|
            0 <= k < r@.len() - 1 ==> full_before(
                #[trigger] batch_views(r@)[k],
                batch_views(r@)[k + 1],
            ),
{
    let n = dirs.len();
    let mut batches: Vec<Vec<String>> = Vec::new();
    let mut current: Vec<String> = Vec::new();
    let mut current_len: usize = 0;
    let mut i: usize = 0;
    while i < n
        invariant
            n == dirs@.len(),
            i <= n,
            flatten(batch_views(batches@)) + texts(current@) == texts(dirs@).subrange(0, i as int),
            forall|k: int| 0 <= k < batches@.len() ==> batch_ok(#[trigger] batch_views(batches@)[k]),
            current_len <= BATCH_LIMIT ==> current_len as int == weight(texts(current@)),
            current_len > BATCH_LIMIT ==> current@.len() == 1,
            current_len <= BATCH_LIMIT + 1,
            current@.len() == 0 || batch_ok(texts(current@)),
            current@.len() == 0 ==> current_len == 0,
            current_len > BATCH_LIMIT ==> weight(texts(current@)) > BATCH_LIMIT,
            forall|k: int|
                0 <= k < batches@.len() - 1 ==> full_before(
                    #[trigger] batch_views(batches@)[k],
                    batch_views(batches@)[k + 1],
                ),
            batches@.len() > 0 ==> current@.len() > 0,
            batches@.len() > 0 && current@.len() > 0 ==> full_before(
                batch_views(batches@).last(),
                texts(current@),
            ),
        decreases n - i,
    {
        let len = dirs[i].as_str().unicode_len();
        let ghost cv = texts(current@);
        let ghost bv = batch_views(batches@);
        let ghost flushed = current.len() > 0 && (current_len > BATCH_LIMIT || len >= BATCH_LIMIT
            - current_len);
        if current.len() > 0 && (current_len > BATCH_LIMIT || len >= BATCH_LIMIT - current_len) {
            batches.push(current);
            assert(batch_views(batches@) =~= bv.push(cv));
            assert(batch_views(batches@).drop_last() =~= bv);
            assert(weight(cv) + dirs@[i as int]@.len() + 1 > BATCH_LIMIT);
            assert forall|k: int| 0 <= k < batch_views(batches@).len() - 1 implies full_before(
                #[trigger] batch_views(batches@)[k],
                batch_views(batches@)[k + 1],
            ) by {
                if k < bv.len() - 1 {
                    assert(batch_views(batches@)[k] == bv[k]);
                    assert(batch_views(batches@)[k + 1] == bv[k + 1]);
                } else {
                    assert(batch_views(batches@)[k] == bv.last());
                    assert(batch_views(batches@)[k + 1] == cv);
                }
            }
            assert(flatten(batch_views(batches@)) == flatten(bv) + cv);
            current = Vec::new();
            current_len = 0;
            assert(texts(current@) =~= Seq::<Seq<char>>::empty());
            assert(flatten(batch_views(batches@)) + texts(current@) =~= texts(dirs@).subrange(
                0,
                i as int,
            ));
        }
        let ghost cv2 = texts(current@);
        let ghost was_empty = current@.len() == 0;
        let ghost fb = flatten(batch_views(batches@));
        current.push(dirs[i].clone());
        proof {
            lemma_weight_push(cv2, dirs@[i as int]@);
            assert(texts(current@) =~= cv2.push(dirs@[i as int]@));
            lemma_weight_nonneg(cv2);
        }
        if len >= BATCH_LIMIT - current_len {
            current_len = BATCH_LIMIT + 1;
        } else {
            current_len = current_len + len + 1;
        }
        assert(fb + texts(current@) =~= texts(dirs@).subrange(0, i + 1));
        assert(texts(current@)[0] == (if was_empty {
            dirs@[i as int]@
        } else {
            cv2[0]
        }));
        proof {
            if flushed {
                assert(texts(current@)[0] == dirs@[i as int]@);
                assert(batch_views(batches@).last() == cv);
            }
        }
        i = i + 1;
    }
    if current.len() > 0 {
        let ghost bv = batch_views(batches@);
        let ghost cv = texts(current@);
        batches.push(current);
        assert(batch_views(batches@) =~= bv.push(cv));
        assert(batch_views(batches@).drop_last() =~= bv);
        assert forall|k: int| 0 <= k < batch_views(batches@).len() - 1 implies full_before(
            #[trigger] batch_views(batches@)[k],
            batch_views(batches@)[k + 1],
        ) by {
            if k < bv.len() - 1 {
                assert(batch_views(batches@)[k] == bv[k]);
                assert(batch_views(batches@)[k + 1] == bv[k + 1]);
            } else {
                assert(batch_views(batches@)[k] == bv.last());
                assert(batch_views(batches@)[k + 1] == cv);
            }
        }
    } else {
        assert(flatten(batch_views(batches@)) =~= flatten(batch_views(batches@)) + texts(current@));
    }
    assert(texts(dirs@).subrange(0, n as int) =~= texts(dirs@));
    batches
}

/// More than one layer, too heavy for one batch: staging needs an intermediate mount.
pub proof fn lemma_heavy_layers_need_stages(dirs: Seq<Seq<char>>, batches: Seq<Seq<Seq<char>>>)
    requires
        flatten(batches) == dirs,
        forall|k: int| 0 <= k < batches.len() ==> batch_ok(#[trigger] batches[k]),
        dirs.len() >= 2,
        weight(dirs) > BATCH_LIMIT,
    ensures
        batches.len() >= 2,
{
    if batches.len() == 1 {
        assert(batches.drop_last() =~= Seq::<Seq<Seq<char>>>::empty());
        assert(flatten(batches.drop_last()) == Seq::<Seq<char>>::empty());
        assert(batches.last() == batches[0]);
        assert(flatten(batches) =~= batches[0]);
        assert(batch_ok(batches[0]));
    } else if batches.len() == 0 {
        assert(flatten(batches) =~= Seq::<Seq<char>>::empty());
    }
}

proof fn lemma_joined_len(parts: Seq<Seq<char>>)
    requires
        parts.len() >= 1,
    ensures
        colon_joined(parts).len() == weight(parts) - 1,
    decreases parts.len(),
{
    if parts.len() == 1 {
        assert(parts.drop_last() =~= Seq::<Seq<char>>::empty());
        assert(weight(parts.drop_last()) == 0);
        assert(parts.last() == parts[0]);
        assert(weight(parts) == parts[0].len() + 1);
    } else {
        lemma_joined_len(parts.drop_last());
        assert(weight(parts) == weight(parts.drop_last()) + parts.last().len() + 1);
    }
}

/// A `lowerdir=` value over the threshold, of two or more module layers above a stock
/// path shorter than the gap between the threshold and the batch limit, is staged with
/// at least one intermediate mount: the batches are two or more.
pub proof fn lemma_over_threshold_stages(
    layers: Seq<Seq<char>>,
    stock: Seq<char>,
    batches: Seq<Seq<Seq<char>>>,
)
    requires
        flatten(batches) == layers,
        forall|k: int| 0 <= k < batches.len() ==> batch_ok(#[trigger] batches[k]),
        layers.len() >= 2,
        colon_joined(layers.push(stock)).len() > MAX_LOWERDIR_LEN,
        stock.len() < MAX_LOWERDIR_LEN - BATCH_LIMIT,
    ensures
        batches.len() >= 2,
{
    lemma_joined_len(layers.push(stock));
    lemma_weight_push(layers, stock);
    lemma_heavy_layers_need_stages(layers, batches);
}

/// The option text of an overlay mount: the lower directories, the writable layer where
/// both its directories exist, and the features the kernel offers.
pub open spec fn mount_data_text(
    lowerdir: Seq<char>,
    upper: Option<(Seq<char>, Seq<char>)>,
    redirect_dir: bool,
    metacopy: bool,
) -> Seq<char> {
    let base = "lowerdir="@ + lowerdir;
    let with_rw = match upper {
        Some((u, w)) => base + ",upperdir="@ + u + ",workdir="@ + w,
        None => base,
    };
    let with_redirect = if redirect_dir {
        with_rw + ",redirect_dir=on"@
    } else {
        with_rw
    };
    if metacopy {
        with_redirect + ",metacopy=on"@
    } else {
        with_redirect
    }
}

pub fn mount_data(
    lowerdir: &str,
    upper: Option<(&str, &str)>,
    redirect_dir: bool,
    metacopy: bool,
) -> (r: String)
    ensures
        r@ == mount_data_text(
            lowerdir@,
            match upper {
                Some((u, w)) => Some((u@, w@)),
                None => None,
            },
            redirect_dir,
            metacopy,
        ),
{
    let mut s = String::from_str("lowerdir=");
    s.append(lowerdir);
    if let Some((u, w)) = upper {
        s.append(",upperdir=");
        s.append(u);
        s.append(",workdir=");
        s.append(w);
    }
    if redirect_dir {
        s.append(",redirect_dir=on");
    }
    if metacopy {
        s.append(",metacopy=on");
    }
    s
}

/// The writable layer is used only when both its directories exist.
pub fn use_rw_layer(upper_exists: bool, work_exists: bool) -> (r: bool)
    ensures
        r == (upper_exists && work_exists),
{
    upper_exists && work_exists
}

/// The mount points strictly below `parent`, in the order given.
pub open spec fn children_below(parent: Seq<char>, mounts: Seq<Seq<char>>) -> Seq<Seq<char>>
    decreases mounts.len(),
{
    if mounts.len() == 0 {
        Seq::empty()
    } else {
        let prev = children_below(parent, mounts.drop_last());
        if strictly_below(mounts.last(), parent) {
            prev.push(mounts.last())
        } else {
            prev
        }
    }
}

/// The mounts that an overlay on `parent` would cover, and that must be carried over.
pub fn child_mounts(parent: &str, mount_points: &Vec<String>) -> (r: Vec<String>)
    ensures
        texts(r@) == children_below(parent@, texts(mount_points@)),
{
    let n = mount_points.len();
    let mut r: Vec<String> = Vec::new();
    let mut i: usize = 0;
    while i < n
        invariant
            n == mount_points@.len(),
            i <= n,
            texts(r@) == children_below(parent@, texts(mount_points@).subrange(0, i as int)),
        decreases n - i,
    {
        let ghost m = texts(mount_points@).subrange(0, i + 1);
        assert(m.drop_last() =~= texts(mount_points@).subrange(0, i as int));
        let ghost r0 = texts(r@);
        if is_strictly_below(mount_points[i].as_str(), parent) {
            r.push(mount_points[i].clone());
            assert(texts(r@) =~= r0.push(mount_points@[i as int]@));
        }
        i = i + 1;
    }
    assert(texts(mount_points@).subrange(0, n as int) =~= texts(mount_points@));
    r
}

/// How a mount found below an overlay target is put back.
#[derive(Debug)]
pub enum ChildRestore {
    /// No module has anything at its path: move the mount back as it was.
    Move,
    /// A module puts a non-directory at its path, which hides the mount: leave it.
    Leave,
    /// Modules supply directories at its path: overlay them on the mount first.
    Overlay(Vec<String>),
}

/// The directories that the roots holding a directory at `relative` contribute, in root order.
pub open spec fn child_dirs(
    relative: Seq<char>,
    roots: Seq<Seq<char>>,
    exists: Seq<bool>,
    is_dir: Seq<bool>,
) -> Seq<Seq<char>>
    decreases roots.len(),
{
    if roots.len() == 0 {
        Seq::empty()
    } else {
        let k = roots.len() - 1;
        let prev = child_dirs(relative, roots.drop_last(), exists, is_dir);
        if exists[k] && is_dir[k] {
            prev.push(joined(roots[k], relative))
        } else {
            prev
        }
    }
}

/// Decides how the child mount at `relative` (below the overlay target) is restored, from
/// whether each module root holds something there (`exists[k]`) and whether it is a
/// directory (`is_dir[k]`).
pub fn child_restore(
    relative: &str,
    module_roots: &Vec<String>,
    exists: &Vec<bool>,
    is_dir: &Vec<bool>,
) -> (r: ChildRestore)
    requires
        exists@.len() == module_roots@.len(),
        is_dir@.len() == module_roots@.len(),
    ensures
        (forall|k: int| 0 <= k < exists@.len() ==> !exists@[k]) ==> r is Move,
        (exists|k: int| 0 <= k < exists@.len() && exists@[k] && !is_dir@[k]) ==> r is Leave,
        (exists|k: int| 0 <= k < exists@.len() && exists@[k]) && (forall|k: int|
            0 <= k < exists@.len() && exists@[k] ==> is_dir@[k]) ==> r is Overlay && texts(
            r->Overlay_0@,
        ) == child_dirs(relative@, texts(module_roots@), exists@, is_dir@),
{
    let n = module_roots.len();
    let mut any = false;
    let mut blocked = false;
    let mut dirs: Vec<String> = Vec::new();
    let mut i: usize = 0;
    while i < n
        invariant
            n == module_roots@.len(),
            n == exists@.len(),
            n == is_dir@.len(),
            i <= n,
            any == (exists|k: int| 0 <= k < i && exists@[k]),
            blocked == (exists|k: int| 0 <= k < i && exists@[k] && !is_dir@[k]),
            texts(dirs@) == child_dirs(
                relative@,
                texts(module_roots@).subrange(0, i as int),
                exists@,
                is_dir@,
            ),
        decreases n - i,
    {
        let ghost d0 = texts(dirs@);
        assert(texts(module_roots@).subrange(0, i + 1).drop_last() =~= texts(
            module_roots@,
        ).subrange(0, i as int));
        if exists[i] {
            any = true;
            if is_dir[i] {
                dirs.push(join(module_roots[i].as_str(), relative));
                assert(texts(dirs@) =~= d0.push(joined(module_roots@[i as int]@, relative@)));
            } else {
                blocked = true;
            }
        }
        i = i + 1;
    }
    assert(texts(module_roots@).subrange(0, n as int) =~= texts(module_roots@));
    if !any {
        ChildRestore::Move
    } else if blocked {
        ChildRestore::Leave
    } else {
        ChildRestore::Overlay(dirs)
    }
}

} // verus!
