//! What the disk model answers, and what follows from an answer.
//!
//! The disks, their partitions and the volume groups are kept by a disk model
//! that this library does not own. Whoever carries a plan out asks the model
//! and hands its answer to one of these functions: an answer that is missing
//! becomes the error that names what was asked for.

use crate::error::{ConfigError, ConfigErrorView};
use crate::sector::Sector;
use vstd::prelude::*;

verus! {

/// The disk that was found under a name, or the error that names the disk.
pub fn found_disk<T>(found: Option<T>, name: &str) -> (disk: Result<T, ConfigError>)
    ensures
        match found {
            Some(d) => disk == Ok::<T, ConfigError>(d),
            None => disk is Err && disk->Err_0.deep_view() == ConfigErrorView::DiskNotFound(
                name@,
            ),
        },
{
    match found {
        Some(disk) => Ok(disk),
        None => Err(ConfigError::DiskNotFound(name.to_owned())),
    }
}

/// The partition that was found under a number, or the error that gives the
/// number.
pub fn found_partition<T>(found: Option<T>, number: u32) -> (partition: Result<T, ConfigError>)
    ensures
        match found {
            Some(p) => partition == Ok::<T, ConfigError>(p),
            None => partition is Err && partition->Err_0.deep_view()
                == ConfigErrorView::PartitionNotFound(number),
        },
{
    match found {
        Some(partition) => Ok(partition),
        None => Err(ConfigError::PartitionNotFound(number)),
    }
}

/// The volume group that was found under a name, or the error that names the
/// group. A group is found only once it has been set up.
pub fn found_volume_group<T>(found: Option<T>, name: &str) -> (group: Result<T, ConfigError>)
    ensures
        match found {
            Some(g) => group == Ok::<T, ConfigError>(g),
            None => group is Err && group->Err_0.deep_view()
                == ConfigErrorView::VolumeGroupNotFound(name@),
        },
{
    match found {
        Some(group) => Ok(group),
        None => Err(ConfigError::VolumeGroupNotFound(name.to_owned())),
    }
}

/// What the disk model made of the expression of a sector, or the error that
/// gives the token the sector was written as.
pub fn known_sector<T>(known: Option<T>, sector: &Sector) -> (position: Result<T, ConfigError>)
    ensures
        match known {
            Some(p) => position == Ok::<T, ConfigError>(p),
            None => position is Err && position->Err_0.deep_view()
                == ConfigErrorView::InvalidSector(sector.token@),
        },
{
    match known {
        Some(position) => Ok(position),
        None => Err(ConfigError::InvalidSector(sector.token.clone())),
    }
}

/// What the disk model made of the name of a file system, or the error that
/// gives the name.
pub fn known_filesystem<T>(known: Option<T>, name: &str) -> (filesystem: Result<T, ConfigError>)
    ensures
        match known {
            Some(f) => filesystem == Ok::<T, ConfigError>(f),
            None => filesystem is Err && filesystem->Err_0.deep_view()
                == ConfigErrorView::InvalidFilesystem(name@),
        },
{
    match known {
        Some(filesystem) => Ok(filesystem),
        None => Err(ConfigError::InvalidFilesystem(name.to_owned())),
    }
}

/// The first and the last sector of a new logical volume: it begins one
/// sector behind the last volume of its group, or at sector 0 where the group
/// is empty, and ends `length` sectors after its beginning.
pub open spec fn extent_of(last_end: Option<u64>, length: u64) -> (int, int) {
    let start = match last_end {
        Some(end) => end + 1,
        None => 0,
    };
    (start, start + length)
}

/// Where a new logical volume comes to lie in its group. `last_end` is the
/// last sector of the last volume that the group holds, `length` the size of
/// the new one in sectors. `None` where the end is beyond the last sector that
/// can be numbered.
pub fn volume_extent(last_end: Option<u64>, length: u64) -> (extent: Option<(u64, u64)>)
    ensures
        match extent {
            Some((start, end)) => (start as int, end as int) == extent_of(last_end, length),
            None => extent_of(last_end, length).1 > u64::MAX,
        },
{
    let start: u64 = match last_end {
        Some(end) => {
            if end == u64::MAX {
                return None;
            }
            end + 1
        },
        None => 0,
    };
    if length > u64::MAX - start {
        return None;
    }
    Some((start, start + length))
}

} // verus!
