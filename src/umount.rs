use vstd::prelude::*;

use crate::text::{str_eq, texts};

verus! {

/// Flag for the kernel helper: hide the mounts from every process.
pub const HIDE_FROM_ALL: u32 = 0;

/// Flag for the kernel helper: hide the mounts from zygote-spawned processes.
pub const HIDE_FROM_ZYGOTE: u32 = 2;

/// Mount points to be hidden from process namespaces, handed to the kernel in one batch.
/// Where the kernel helper is missing, the scheduler takes nothing.
pub struct UmountScheduler {
    available: bool,
    queue: Vec<String>,
}

impl UmountScheduler {
    /// The paths queued so far, in order.
    pub closed spec fn queued(&self) -> Seq<Seq<char>> {
        texts(self.queue@)
    }

    pub closed spec fn is_available(&self) -> bool {
        self.available
    }

    pub fn new(available: bool) -> (r: UmountScheduler)
        ensures
            r.queued().no_duplicates(),
            r.queued().len() == 0,
            r.is_available() == available,
    {
        let r = UmountScheduler { available, queue: Vec::new() };
        assert(r.queued() =~= Seq::<Seq<char>>::empty());
        r
    }

    /// Queues `path` unless it is queued already.
    pub fn send_umountable(&mut self, path: &str)
        requires
            old(self).queued().no_duplicates(),
        ensures
            final(self).queued().no_duplicates(),
            final(self).is_available() == old(self).is_available(),
            final(self).queued() == (if old(self).is_available() && !old(
                self,
            ).queued().contains(path@) {
                old(self).queued().push(path@)
            } else {
                old(self).queued()
            }),
    {
        if !self.available {
            return;
        }
        let n = self.queue.len();
        let mut i: usize = 0;
        while i < n
            invariant
                n == self.queue@.len(),
                i <= n,
                self.available,
                self.queue@ == old(self).queue@,
                self.queued().no_duplicates(),
                forall|k: int| 0 <= k < i ==> (#[trigger] self.queue@[k])@ != path@,
            decreases n - i,
        {
            if str_eq(self.queue[i].as_str(), path) {
                assert(self.queued()[i as int] == path@);
                return;
            }
            i = i + 1;
        }
        let ghost q0 = self.queued();
        assert(!q0.contains(path@)) by {
            if q0.contains(path@) {
                let k = choose|k: int| 0 <= k < q0.len() && #[trigger] q0[k] == path@;
                assert(self.queue@[k]@ == path@);
            }
        }
        self.queue.push(String::from_str(path));
        assert(self.queued() =~= q0.push(path@));
        proof {
            lemma_queue_unique(q0, path@, true);
        }
    }

    /// Queues a mount point for hiding; an empty path is ignored, a queued one too.
    pub fn send_unmountable(&mut self, target: &str)
        requires
            old(self).queued().no_duplicates(),
        ensures
            final(self).queued().no_duplicates(),
            final(self).is_available() == old(self).is_available(),
            final(self).queued() == (if old(self).is_available() && target@.len() > 0 && !old(
                self,
            ).queued().contains(target@) {
                old(self).queued().push(target@)
            } else {
                old(self).queued()
            }),
    {
        if target.unicode_len() == 0 {
            return;
        }
        self.send_umountable(target);
    }

    /// Hands over the whole queue for the kernel and starts afresh.
    pub fn commit(&mut self) -> (r: Vec<String>)
        requires
            old(self).queued().no_duplicates(),
        ensures
            texts(r@) == old(self).queued(),
            final(self).queued().len() == 0,
            final(self).queued().no_duplicates(),
            final(self).is_available() == old(self).is_available(),
    {
        let r = self.queue.split_off(0);
        assert(texts(r@) =~= old(self).queued());
        assert(self.queued() =~= Seq::<Seq<char>>::empty());
        r
    }
}

/// The flag for an attempt to hide the batch: everyone first, then, after a failure,
/// zygote-spawned processes only; nothing after that.
pub fn commit_flag(attempt: u32) -> (r: Option<u32>)
    ensures
        attempt == 0 ==> r == Some(HIDE_FROM_ALL),
        attempt == 1 ==> r == Some(HIDE_FROM_ZYGOTE),
        attempt >= 2 ==> r is None,
{
    if attempt == 0 {
        Some(HIDE_FROM_ALL)
    } else if attempt == 1 {
        Some(HIDE_FROM_ZYGOTE)
    } else {
        None
    }
}

/// Whatever is sent, the queue never holds a path twice.
pub proof fn lemma_queue_unique(q: Seq<Seq<char>>, p: Seq<char>, available: bool)
    requires
        q.no_duplicates(),
    ensures
        (if available && !q.contains(p) {
            q.push(p)
        } else {
            q
        }).no_duplicates(),
{
    if available && !q.contains(p) {
        assert forall|i: int, j: int|
            0 <= i < q.push(p).len() && 0 <= j < q.push(p).len() && i != j implies q.push(p)[i]
            != q.push(p)[j] by {
            if i == q.len() {
                assert(q[j] == q.push(p)[j]);
            } else if j == q.len() {
                assert(q[i] == q.push(p)[i]);
            }
        }
    }
}

} // verus!
