//! The filesystem that holds a selected path.

use vstd::prelude::*;

use super::cgroup::{warn, warning_views, FileRead};
use super::mountinfo::{deepest_mount, parse_mountinfo, MountInfo, MountView};
use super::sysfs::into_u64;
use super::{StorageSnapshot, StorageView};
use crate::text::{lines, owned, push_str};

verus! {

/// What `statvfs` reports of a filesystem, in its own integer widths.
#[derive(Debug, Clone, Copy, PartialEq, Eq)]
pub struct FsStats {
    pub fragment_size: u128,
    pub block_size: u128,
    pub blocks: u128,
    pub available_blocks: u128,
}

/// A value as a `u64`, saturating.
pub open spec fn clamp_u64(v: u128) -> u64 {
    if v <= u64::MAX {
        v as u64
    } else {
        u64::MAX
    }
}

/// `a * b`, saturating at `u64::MAX`.
pub open spec fn mul_sat(a: u64, b: u64) -> u64 {
    if a * b > u64::MAX {
        u64::MAX
    } else {
        (a * b) as u64
    }
}

/// Computes `mul_sat`.
fn saturating_product(a: u64, b: u64) -> (r: u64)
    ensures
        r == mul_sat(a, b),
{
    if a == 0 {
        return 0;
    }
    if b > 0xFFFF_FFFF_FFFF_FFFF / a {
        assert(a * b > u64::MAX) by (nonlinear_arith)
            requires
                a > 0,
                b > 0xFFFF_FFFF_FFFF_FFFFu64 / a,
        ;
        0xFFFF_FFFF_FFFF_FFFF
    } else {
        assert(a * b <= u64::MAX) by (nonlinear_arith)
            requires
                a > 0,
                b <= 0xFFFF_FFFF_FFFF_FFFFu64 / a,
        ;
        a * b
    }
}

/// The size in bytes of the units that `statvfs` counts: the fragment size,
/// or the block size when the fragment size is 0.
pub open spec fn unit_size(s: FsStats) -> u64 {
    clamp_u64(
        if s.fragment_size == 0 {
            s.block_size
        } else {
            s.fragment_size
        },
    )
}

/// The mount that holds `path` according to the mountinfo read, and the
/// warnings: an unreadable file, and then any path that maps to no mount, get one.
pub open spec fn mount_outcome(path: Seq<char>, read: FileRead) -> (Option<MountView>, Seq<Seq<char>>) {
    let (mount, w1) = match read {
        FileRead::Text(t) => (deepest_mount(path, lines(t@)), Seq::<Seq<char>>::empty()),
        FileRead::Missing => (None, Seq::empty()),
        FileRead::Failed(e) => (None, seq!["could not read /proc/self/mountinfo: "@ + e@]),
    };
    if mount is None {
        (mount, w1.push("could not map "@ + path + " to a mounted filesystem"@))
    } else {
        (mount, w1)
    }
}

/// The view of an optional mount.
pub open spec fn mount_view(m: Option<MountInfo>) -> Option<MountView> {
    match m {
        Some(x) => Some(x@),
        None => None,
    }
}

/// Finds the mount that holds the canonical `path` (see `mount_outcome`).
pub fn locate_mount(path: &str, mountinfo: &FileRead, warnings: &mut Vec<String>) -> (r: Option<MountInfo>)
    ensures
        mount_view(r) == mount_outcome(path@, *mountinfo).0,
        warning_views(final(warnings)@) == warning_views(old(warnings)@) + mount_outcome(
            path@,
            *mountinfo,
        ).1,
{
    let ghost before = warning_views(warnings@);
    let mount = match mountinfo {
        FileRead::Text(t) => parse_mountinfo(path, t.as_str()),
        FileRead::Missing => None,
        FileRead::Failed(e) => {
            let mut w = owned("could not read /proc/self/mountinfo: ");
            push_str(&mut w, e.as_str());
            warn(warnings, w);
            None
        },
    };
    if mount.is_none() {
        let mut w = owned("could not map ");
        push_str(&mut w, path);
        push_str(&mut w, " to a mounted filesystem");
        warn(warnings, w);
    }
    assert(warning_views(warnings@) =~= before + mount_outcome(path@, *mountinfo).1);
    mount
}

/// The storage snapshot of a path: capacity from `statvfs` (saturating at
/// `u64::MAX`); filesystem, device and rotational flag only when its mount is
/// known.
pub open spec fn storage(path: Seq<char>, stats: FsStats, mount: Option<MountView>, rotational: Option<bool>) -> StorageView {
    StorageView {
        path,
        filesystem: match mount {
            Some(m) => Some(m.filesystem),
            None => None,
        },
        device: match mount {
            Some(m) => Some(m.device),
            None => None,
        },
        total_bytes: mul_sat(clamp_u64(stats.blocks), unit_size(stats)),
        available_bytes: mul_sat(clamp_u64(stats.available_blocks), unit_size(stats)),
        rotational: match mount {
            Some(_) => rotational,
            None => None,
        },
    }
}

/// Builds the storage snapshot of a path (see `storage`).
pub fn storage_snapshot(path: String, stats: FsStats, mount: &Option<MountInfo>, rotational: Option<bool>) -> (r: StorageSnapshot)
    ensures
        r@ == storage(path@, stats, mount_view(*mount), rotational),
        mount is None ==> r.filesystem is None && r.device is None && r.rotational is None,
{
    let unit = into_u64(
        if stats.fragment_size == 0 {
            stats.block_size
        } else {
            stats.fragment_size
        },
    );
    let total = saturating_product(into_u64(stats.blocks), unit);
    let available = saturating_product(into_u64(stats.available_blocks), unit);
    let (filesystem, device, rotational) = match mount {
        Some(m) => (Some(m.filesystem.clone()), Some(m.device.clone()), rotational),
        None => (None, None, None),
    };
    StorageSnapshot { path, filesystem, device, total_bytes: total, available_bytes: available, rotational }
}

} // verus!
