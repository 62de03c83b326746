//! The acquisition scanner's decisions: device gating and inode recording.
//!
//! The walk itself reads the live filesystem and so lives with the caller;
//! it feeds every stat result through these functions, which hold the
//! scanner's whole policy: commit to one device when asked to, and record
//! each `(device, inode)` pair once.
use vstd::prelude::*;

use crate::fsmap::{assoc_map, FileInfo, Mounts};

verus! {

/// A progress sink for the scanner: one call per path visited or failed.
pub trait Watcher {
    /// A path is about to be read.
    fn notify(&mut self, path: &str);

    /// A path could not be read.
    fn error(&mut self, path: &str);
}

/// The scanner's state: its progress sink, whether it is restricted to one
/// device, and the device it committed to.
pub struct Scanner<W> {
    pub watcher: W,
    pub one_device: bool,
    pub device: Option<u64>,
}

impl<W: Watcher> Scanner<W> {
    pub fn new(watcher: W, one_device: bool) -> (r: Self)
        ensures
            r.one_device == one_device,
            r.device is None,
    {
        Scanner { watcher, one_device, device: None }
    }

    /// Tells the progress sink a path is being read.
    pub fn notify(&mut self, path: &str)
        ensures
            final(self).one_device == old(self).one_device,
            final(self).device == old(self).device,
    {
        self.watcher.notify(path);
    }

    /// Tells the progress sink a path failed.
    pub fn error(&mut self, path: &str)
        ensures
            final(self).one_device == old(self).one_device,
            final(self).device == old(self).device,
    {
        self.watcher.error(path);
    }

    /// Decides whether a directory on the given device is skipped: with the
    /// one-device restriction, a second device is; otherwise the device is
    /// committed.
    pub fn check_device(&mut self, dev: u64) -> (skip: bool)
        ensures
            skip == (old(self).one_device && match old(self).device {
                Some(d) => d != dev,
                None => false,
            }),
            final(self).one_device == old(self).one_device,
            final(self).device == if skip {
                old(self).device
            } else {
                Some(dev)
            },
    {
        let mismatch = match self.device {
            Some(d) => d != dev,
            None => false,
        };
        if self.one_device && mismatch {
            return true;
        }
        self.device = Some(dev);
        false
    }
}

/// The inode table recorded for one device, empty when the device is new.
pub open spec fn recorded_inodes(m: Mounts, dev: u64) -> Map<u64, FileInfo> {
    if m.device_map().dom().contains(dev) {
        assoc_map(m.device_map()[dev])
    } else {
        Map::empty()
    }
}

/// Records one stat result: makes sure the device has a record, and stores
/// the file info under its inode unless that inode was already seen — the
/// first record of a `(device, inode)` pair is the one that stays, so each
/// such pair owns exactly one `FileInfo`.
pub fn record_inode(mounts: &mut Mounts, dev: u64, ino: u64, fi: FileInfo)
    ensures
        final(mounts).device_map().dom() =~= old(mounts).device_map().dom().insert(dev),
        forall|d2: u64|
            d2 != dev && old(mounts).device_map().dom().contains(d2)
                ==> final(mounts).device_map()[d2] == old(mounts).device_map()[d2],
        recorded_inodes(*final(mounts), dev) == (if recorded_inodes(
            *old(mounts),
            dev,
        ).dom().contains(ino) {
            recorded_inodes(*old(mounts), dev)
        } else {
            recorded_inodes(*old(mounts), dev).insert(ino, fi)
        }),
{
    let ghost m0 = *mounts;
    let pos = match mounts.get_device_mut(dev) {
        Some(i) => i,
        None => {
            proof {
                assert(false);
            }
            0
        },
    };
    let ghost m1 = *mounts;
    let slot = &mut mounts.devices[pos];
    let already = slot.1.has_inode(ino);
    if !already {
        slot.1.insert_inode(ino, fi);
    }
    proof {
        let vold = m1@;
        let vnew = mounts@;
        assert(forall|j: int|
            0 <= j < vold.len() ==> #[trigger] vold[j] == (m1.devices@[j].0, m1.devices@[j].1@));
        assert(forall|j: int|
            0 <= j < vnew.len() ==> #[trigger] vnew[j] == (
                mounts.devices@[j].0,
                mounts.devices@[j].1@,
            ));
        let dn = mounts.devices@[pos as int].1@;
        assert(vnew =~= vold.update(pos as int, (dev, dn)));
        crate::fsmap::lemma_assoc_update(vold, pos as int, dev, dn);
        crate::fsmap::lemma_assoc_first_match(vold, pos as int, dev);
        assert(mounts.device_map() == m1.device_map().insert(dev, dn));
        assert(m1.device_map().dom().contains(dev)) by {
            crate::fsmap::lemma_assoc_from_contains(vold, 0, dev);
        }
        if m0.device_map().dom().contains(dev) {
            assert(m1 == m0);
        } else {
            assert(m1.device_map() == m0.device_map().insert(
                dev,
                Seq::<(u64, crate::fsmap::FileInfo)>::empty(),
            ));
            assert(m1.device_map()[dev] =~= Seq::<(u64, crate::fsmap::FileInfo)>::empty());
        }
        assert(m1.device_map()[dev] == vold[pos as int].1);
        assert(mounts.device_map().dom() =~= m0.device_map().dom().insert(dev));
        if recorded_inodes(m0, dev).dom().contains(ino) {
            assert(recorded_inodes(*mounts, dev) =~= recorded_inodes(m0, dev));
        } else {
            assert(recorded_inodes(*mounts, dev) =~= recorded_inodes(m0, dev).insert(ino, fi));
        }
    }
}

} // verus!
