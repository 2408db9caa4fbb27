use vstd::prelude::*;

use crate::config::OverlayMode;

verus! {

/// The smallest ext4 image: 64 MiB.
pub const MIN_IMAGE_SIZE: u64 = 67108864;

/// How the mirror of module content is stored.
#[derive(Clone, Copy, Debug, PartialEq, Eq, Structural)]
pub enum StorageMode {
    Tmpfs,
    Ext4,
    /// A tmpfs that is packed into an EROFS image on commit.
    ErofsStaging,
    Erofs,
}

/// Why a storage operation was refused.
#[derive(Clone, Copy, Debug, PartialEq, Eq, Structural)]
pub enum StorageError {
    /// Only a staging handle can be committed.
    NotStaging,
    /// A staging handle without the place its image is to be mounted.
    MissingTarget,
}

/// The provisioned storage.
#[derive(Debug)]
pub struct StorageHandle {
    pub mount_point: String,
    pub mode: StorageMode,
    pub backing_image: Option<String>,
    pub final_target: Option<String>,
}

/// The name of a storage mode, as the runtime state records it.
pub open spec fn mode_text(m: StorageMode) -> Seq<char> {
    match m {
        StorageMode::Tmpfs => "tmpfs"@,
        StorageMode::Ext4 => "ext4"@,
        StorageMode::ErofsStaging => "erofs_staging"@,
        StorageMode::Erofs => "erofs"@,
    }
}

pub fn mode_name(m: StorageMode) -> (r: String)
    ensures
        r@ == mode_text(m),
{
    match m {
        StorageMode::Tmpfs => String::from_str("tmpfs"),
        StorageMode::Ext4 => String::from_str("ext4"),
        StorageMode::ErofsStaging => String::from_str("erofs_staging"),
        StorageMode::Erofs => String::from_str("erofs"),
    }
}

impl StorageHandle {
    /// After the staging tmpfs was packed into an image and that image mounted at the
    /// final target, the handle describes the read-only image there.
    pub fn commit(&mut self) -> (r: Result<(), StorageError>)
        ensures
            old(self).mode != StorageMode::ErofsStaging ==> r == Err::<(), StorageError>(
                StorageError::NotStaging,
            ) && final(self).mode == old(self).mode && final(self).mount_point@ == old(
                self,
            ).mount_point@,
            old(self).mode == StorageMode::ErofsStaging && old(self).final_target is None ==> r
                == Err::<(), StorageError>(StorageError::MissingTarget) && final(self).mode == old(
                self,
            ).mode,
            old(self).mode == StorageMode::ErofsStaging && old(self).final_target is Some ==> r
                is Ok && final(self).mode == StorageMode::Erofs && final(self).mount_point@ == old(
                self,
            ).final_target->0@ && final(self).backing_image == old(self).backing_image,
    {
        if self.mode != StorageMode::ErofsStaging {
            return Err(StorageError::NotStaging);
        }
        match &self.final_target {
            None => Err(StorageError::MissingTarget),
            Some(t) => {
                self.mount_point = t.clone();
                self.mode = StorageMode::Erofs;
                Ok(())
            },
        }
    }
}

/// Size of the ext4 image for content of `total` bytes: a fifth more than the content,
/// rounded up, and at least 64 MiB; the largest size where that does not fit.
pub open spec fn image_size_for(total: u64) -> int {
    let grown = (total as int * 6 + 4) / 5;
    if grown > u64::MAX {
        u64::MAX as int
    } else if grown < MIN_IMAGE_SIZE {
        MIN_IMAGE_SIZE as int
    } else {
        grown
    }
}

pub fn image_size(total: u64) -> (r: u64)
    ensures
        r as int == image_size_for(total),
{
    let grown: u128 = ((total as u128) * 6 + 4) / 5;
    if grown > u64::MAX as u128 {
        u64::MAX
    } else if grown < MIN_IMAGE_SIZE as u128 {
        MIN_IMAGE_SIZE
    } else {
        grown as u64
    }
}

/// The backends to try, in order: EROFS staging where asked for and supported, tmpfs
/// unless ext4 was asked for, and the ext4 image in any case.
pub open spec fn backend_order(mode: OverlayMode, erofs_supported: bool) -> Seq<StorageMode> {
    let first = if mode == OverlayMode::Erofs && erofs_supported {
        seq![StorageMode::ErofsStaging]
    } else {
        Seq::empty()
    };
    let second = if mode != OverlayMode::Ext4 {
        seq![StorageMode::Tmpfs]
    } else {
        Seq::empty()
    };
    first + second + seq![StorageMode::Ext4]
}

pub fn storage_attempts(mode: OverlayMode, erofs_supported: bool) -> (r: Vec<StorageMode>)
    ensures
        r@ == backend_order(mode, erofs_supported),
{
    let mut r: Vec<StorageMode> = Vec::new();
    if mode == OverlayMode::Erofs && erofs_supported {
        r.push(StorageMode::ErofsStaging);
    }
    if mode != OverlayMode::Ext4 {
        r.push(StorageMode::Tmpfs);
    }
    r.push(StorageMode::Ext4);
    assert(r@ =~= backend_order(mode, erofs_supported));
    r
}

} // verus!
