//! The traverser: walks loaded snapshots in pre-order, evaluates a predicate
//! on each entry, drives an observer, and counts matching entries and bytes.
//!
//! The spec functions `s_entry`, `s_dir`, `s_fs` and `s_fss` say exactly what
//! a whole traversal does, in terms of the predicate's and the observer's own
//! spec functions; `dump` is proved to realize them.
use vstd::prelude::*;

use crate::errors::Error;
use crate::fsexpr::{pred_of, FsData, FsDataV, Predicate};
use crate::fsmap::{
    assoc_map, Device, Directory, DirectoryV, Entry, EntryV, FileInfo, FileSystemEntry,
    FileSystemEntryV, FileSystems,
};
use crate::watcher::{act_view, unit_view, Action, Watcher};

verus! {

broadcast use vstd::std_specs::vec::axiom_vec_index_decreases;

/// The traversal state: the observer's model and the two counters.
pub struct DumpSt<WV> {
    pub w: WV,
    pub entries: usize,
    pub bytes: u64,
}

/// `n + 1` with wrap-around.
pub open spec fn winc(n: usize) -> usize {
    if n == usize::MAX {
        0usize
    } else {
        (n + 1) as usize
    }
}

/// `a + b` with wrap-around.
pub open spec fn wadd(a: u64, b: u64) -> u64 {
    ((a + b) % 0x1_0000_0000_0000_0000) as u64
}

/// The path of a child under a parent.
pub open spec fn child_path(parent: Seq<char>, name: Seq<char>) -> Seq<char> {
    parent + "/"@ + name
}

/// Whether an interrupt poll can only ever answer false.  Under such a
/// poll an interruptible walk behaves exactly like an uninterrupted one.
pub open spec fn no_interrupt<F: Fn() -> bool>(intr: F) -> bool {
    forall|b: bool| call_ensures(intr, (), b) ==> !b
}

/// The data record the traverser shows for one entry: size and timestamp
/// come from the device record for files, and are absent otherwise.
pub open spec fn entry_data(
    drive: u64,
    name: Seq<char>,
    path: Seq<char>,
    entry: EntryV,
    dev: Seq<(u64, FileInfo)>,
) -> FsDataV {
    match entry {
        EntryV::File(ino) => if assoc_map(dev).dom().contains(ino) {
            let fi = assoc_map(dev)[ino];
            FsDataV {
                drive,
                name,
                path,
                timestamp: Some((fi.time as int * 60) as i64),
                size: Some(fi.size),
            }
        } else {
            FsDataV { drive, name, path, timestamp: None, size: None }
        },
        _ => FsDataV { drive, name, path, timestamp: None, size: None },
    }
}

/// What one entry's visit does: count and show it if the predicate accepts
/// it, then descend if it is a directory and nothing said `Skip`.  Returns
/// the action that gates the remaining siblings.
pub open spec fn s_entry<W: Watcher>(
    p: spec_fn(FsDataV) -> bool,
    fse: FileSystemEntryV,
    drive: u64,
    dev: Seq<(u64, FileInfo)>,
    path: Seq<char>,
    name: Seq<char>,
    entry: EntryV,
    st: DumpSt<W::V>,
) -> (DumpSt<W::V>, Result<Action, Seq<char>>)
    decreases entry, 0int, 2int,
{
    let d = entry_data(drive, name, child_path(path, name), entry, dev);
    let show = p(d);
    let st1 = if show {
        DumpSt {
            w: st.w,
            entries: winc(st.entries),
            bytes: wadd(
                st.bytes,
                match d.size {
                    Some(s) => s,
                    None => 0u64,
                },
            ),
        }
    } else {
        st
    };
    if show {
        let (w2, r2) = W::s_matching_entry(st1.w, fse, name, dev, entry, d);
        let st2 = DumpSt { w: w2, entries: st1.entries, bytes: st1.bytes };
        match r2 {
            Err(m) => (st2, Err(m)),
            Ok(action) => s_descend::<W>(p, fse, drive, dev, path, name, entry, st2, action),
        }
    } else {
        s_descend::<W>(p, fse, drive, dev, path, name, entry, st1, Action::Enter)
    }
}

/// The descent part of one entry's visit: enter the directory, walk it,
/// leave it; hand the gating action back unchanged.
pub open spec fn s_descend<W: Watcher>(
    p: spec_fn(FsDataV) -> bool,
    fse: FileSystemEntryV,
    drive: u64,
    dev: Seq<(u64, FileInfo)>,
    path: Seq<char>,
    name: Seq<char>,
    entry: EntryV,
    st: DumpSt<W::V>,
    action: Action,
) -> (DumpSt<W::V>, Result<Action, Seq<char>>)
    decreases entry, 0int, 1int,
{
    if action is Enter && entry matches EntryV::Dir(sub) {
        let (w3, r3) = W::s_enter_dir(st.w, name);
        let st3 = DumpSt { w: w3, entries: st.entries, bytes: st.bytes };
        match r3 {
            Err(m) => (st3, Err(m)),
            Ok(a3) => if a3 is Enter {
                let (st4, r4) = s_dir::<W>(
                    p,
                    fse,
                    drive,
                    entry->Dir_0,
                    child_path(path, name),
                    st3,
                );
                match r4 {
                    Err(m) => (st4, Err(m)),
                    Ok(u) => {
                        let (w5, r5) = W::s_leave_dir(st4.w);
                        let st5 = DumpSt { w: w5, entries: st4.entries, bytes: st4.bytes };
                        match r5 {
                            Err(m) => (st5, Err(m)),
                            Ok(u2) => (st5, Ok(action)),
                        }
                    },
                }
            } else {
                (st3, Ok(action))
            },
        }
    } else {
        (st, Ok(action))
    }
}

/// What walking one directory does: look its device up, then visit the
/// children in order; a child's `Skip` stops the remaining siblings.
pub open spec fn s_dir<W: Watcher>(
    p: spec_fn(FsDataV) -> bool,
    fse: FileSystemEntryV,
    drive: u64,
    dir: DirectoryV,
    path: Seq<char>,
    st: DumpSt<W::V>,
) -> (DumpSt<W::V>, Result<(), Seq<char>>)
    decreases dir, 0int, 0int,
{
    if assoc_map(fse.fs.mounts).dom().contains(dir.dev) {
        s_dir_from::<W>(
            p,
            fse,
            drive,
            assoc_map(fse.fs.mounts)[dir.dev],
            dir.entries,
            path,
            0,
            st,
        )
    } else {
        let (w2, r2) = W::s_device_not_found(st.w, dir.dev);
        (DumpSt { w: w2, entries: st.entries, bytes: st.bytes }, r2)
    }
}

/// Visits a directory's children from index `i` on.
pub open spec fn s_dir_from<W: Watcher>(
    p: spec_fn(FsDataV) -> bool,
    fse: FileSystemEntryV,
    drive: u64,
    dev: Seq<(u64, FileInfo)>,
    entries: Seq<(Seq<char>, EntryV)>,
    path: Seq<char>,
    i: int,
    st: DumpSt<W::V>,
) -> (DumpSt<W::V>, Result<(), Seq<char>>)
    decreases entries, entries.len() - i, 0int,
{
    if i < 0 || i >= entries.len() {
        (st, Ok(()))
    } else {
        let (st2, r2) = s_entry::<W>(
            p,
            fse,
            drive,
            dev,
            path,
            entries[i].0,
            entries[i].1,
            st,
        );
        match r2 {
            Err(m) => (st2, Err(m)),
            Ok(a) => if a is Skip {
                (st2, Ok(()))
            } else {
                s_dir_from::<W>(p, fse, drive, dev, entries, path, i + 1, st2)
            },
        }
    }
}

/// What one snapshot's visit does: enter it, walk its root from the empty
/// path with the snapshot's index as the drive id, leave it.
pub open spec fn s_fs<W: Watcher>(
    p: spec_fn(FsDataV) -> bool,
    i: int,
    fse: FileSystemEntryV,
    st: DumpSt<W::V>,
) -> (DumpSt<W::V>, Result<(), Seq<char>>)
    decreases fse, 0int, 1int,
{
    let (w1, r1) = W::s_enter_fs(st.w, i, fse);
    let st1 = DumpSt { w: w1, entries: st.entries, bytes: st.bytes };
    match r1 {
        Err(m) => (st1, Err(m)),
        Ok(a) => if a is Skip {
            (st1, Ok(()))
        } else {
            let (st2, r2) = s_dir::<W>(p, fse, i as u64, fse.fs.root, Seq::empty(), st1);
            match r2 {
                Err(m) => (st2, Err(m)),
                Ok(u) => {
                    let (w3, r3) = W::s_leave_fs(st2.w);
                    (DumpSt { w: w3, entries: st2.entries, bytes: st2.bytes }, r3)
                },
            }
        },
    }
}

/// What visiting the snapshots from index `i` on does; an error anywhere
/// stops the whole walk.
pub open spec fn s_fss<W: Watcher>(
    p: spec_fn(FsDataV) -> bool,
    fss: Seq<FileSystemEntryV>,
    i: int,
    st: DumpSt<W::V>,
) -> (DumpSt<W::V>, Result<(), Seq<char>>)
    decreases fss, fss.len() - i, 2int,
{
    if i < 0 || i >= fss.len() {
        (st, Ok(()))
    } else {
        let (st1, r1) = s_fs::<W>(p, i, fss[i], st);
        match r1 {
            Err(m) => (st1, Err(m)),
            Ok(u) => s_fss::<W>(p, fss, i + 1, st1),
        }
    }
}

/// What a whole traversal does.
pub open spec fn s_dump<W: Watcher>(
    p: spec_fn(FsDataV) -> bool,
    fss: Seq<FileSystemEntryV>,
    st: DumpSt<W::V>,
) -> (DumpSt<W::V>, Result<(), Seq<char>>) {
    s_fss::<W>(p, fss, 0, st)
}

/// Drives an observer over loaded snapshots and counts what matched.
pub struct Dumper<W> {
    pub matching_entries: usize,
    pub matching_bytes: u64,
    pub watcher: W,
}

impl<W: Watcher> Dumper<W> {
    /// The traversal state this dumper is in.
    pub open spec fn st(&self) -> DumpSt<W::V> {
        DumpSt { w: self.watcher@, entries: self.matching_entries, bytes: self.matching_bytes }
    }

    pub fn new(watcher: W) -> (r: Self)
        ensures
            r.st() == (DumpSt { w: watcher@, entries: 0usize, bytes: 0u64 }),
    {
        Dumper { matching_entries: 0, matching_bytes: 0, watcher }
    }

    /// Hands the observer back, with whatever it gathered.
    pub fn into_inner(self) -> (w: W)
        ensures
            w@ == self.st().w,
    {
        self.watcher
    }

    fn bump(&mut self, size: Option<u64>)
        ensures
            final(self).matching_entries == winc(old(self).matching_entries),
            final(self).matching_bytes == wadd(
                old(self).matching_bytes,
                match size {
                    Some(s) => s,
                    None => 0u64,
                },
            ),
            final(self).watcher == old(self).watcher,
    {
        if self.matching_entries == usize::MAX {
            self.matching_entries = 0;
        } else {
            self.matching_entries = self.matching_entries + 1;
        }
        let s: u64 = match size {
            Some(s) => s,
            None => 0u64,
        };
        if s > u64::MAX - self.matching_bytes {
            let w = s - (u64::MAX - self.matching_bytes) - 1;
            self.matching_bytes = w;
        } else {
            self.matching_bytes = self.matching_bytes + s;
        }
    }

    /// Visits one entry: data, predicate, counters, the observer's hooks,
    /// and the descent.  The interrupt poll happens in `dump_dir`, before
    /// each child, not here.
    fn dump_entry<P: Predicate, F: Fn() -> bool>(
        &mut self,
        fse: &FileSystemEntry,
        name: &String,
        device: &Device,
        entry: &Entry,
        drive: u64,
        path: &String,
        pred: &P,
        use_intr: bool, intr: &F,
    ) -> (r: Result<Action, Error>)
        requires
            call_requires(*intr, ()),
        ensures
            (!use_intr || no_interrupt(*intr)) ==> (final(self).st(), act_view(r)) == s_entry::<W>(
                pred_of(*pred),
                fse@,
                drive,
                device@,
                path@,
                name@,
                entry@,
                old(self).st(),
            ),
        decreases entry, 0int, 2int,
    {
        let mut cp = path.clone();
        cp.append("/");
        cp.append(name.as_str());
        let mut data = FsData {
            drive,
            name: name.as_str(),
            path: cp.as_str(),
            timestamp: None,
            size: None,
        };
        if let Entry::File(ino) = entry {
            match device.get_inode(*ino) {
                Some(fi) => {
                    data.size = Some(fi.size);
                    data.timestamp = Some(fi.unix_time());
                },
                None => {},
            }
        }
        proof {
            assert(data@ == entry_data(drive, name@, child_path(path@, name@), entry@, device@));
        }
        let show = pred.test(&data);
        let mut action = Action::Enter;
        if show {
            self.bump(data.size);
            action = match self.watcher.matching_entry(fse, name, device, entry, &data) {
                Ok(a) => a,
                Err(e) => {
                    return Err(e);
                },
            };
        }
        let descend = match action {
            Action::Enter => true,
            Action::Skip => false,
        };
        if descend {
            if let Entry::Dir(sub) = entry {
                let gate = match self.watcher.enter_dir(name) {
                    Ok(a) => a,
                    Err(e) => {
                        return Err(e);
                    },
                };
                if let Action::Enter = gate {
                    match self.dump_dir(fse, sub, drive, &cp, pred, use_intr, intr) {
                        Ok(u) => u,
                        Err(e) => {
                            return Err(e);
                        },
                    };
                    match self.watcher.leave_dir() {
                        Ok(u) => u,
                        Err(e) => {
                            return Err(e);
                        },
                    };
                }
            }
        }
        Ok(action)
    }

    /// Walks one directory: device lookup, then the children in order, with
    /// an interrupt poll before each child.
    fn dump_dir<P: Predicate, F: Fn() -> bool>(
        &mut self,
        fse: &FileSystemEntry,
        dir: &Directory,
        drive: u64,
        path: &String,
        pred: &P,
        use_intr: bool, intr: &F,
    ) -> (r: Result<(), Error>)
        requires
            call_requires(*intr, ()),
        ensures
            (!use_intr || no_interrupt(*intr)) ==> (final(self).st(), unit_view(r)) == s_dir::<W>(
                pred_of(*pred),
                fse@,
                drive,
                dir@,
                path@,
                old(self).st(),
            ),
        decreases dir, 0int, 0int,
    {
        let device = match fse.fs.mounts.get_device(dir.dev) {
            Some(d) => d,
            None => {
                return self.watcher.device_not_found(dir.dev);
            },
        };
        let ghost st0 = self.st();
        proof {
            crate::fsmap::lemma_entries_view_index(dir.entries, dir.entries@.len() as int);
            assert(st0 == old(self).st());
            assert(s_dir::<W>(pred_of(*pred), fse@, drive, dir@, path@, st0) == s_dir_from::<W>(
                pred_of(*pred),
                fse@,
                drive,
                device@,
                dir@.entries,
                path@,
                0,
                st0,
            ));
        }
        let n = dir.entries.len();
        let mut i: usize = 0;
        loop
            invariant_except_break
                (!use_intr || no_interrupt(*intr)) ==> s_dir_from::<W>(
                    pred_of(*pred),
                    fse@,
                    drive,
                    device@,
                    dir@.entries,
                    path@,
                    0,
                    st0,
                ) == s_dir_from::<W>(
                    pred_of(*pred),
                    fse@,
                    drive,
                    device@,
                    dir@.entries,
                    path@,
                    i as int,
                    self.st(),
                ),
            invariant
                i <= n,
                n == dir.entries@.len(),
                st0 == old(self).st(),
                device@ == assoc_map(fse.fs.mounts@)[dir@.dev],
                assoc_map(fse.fs.mounts@).dom().contains(dir@.dev),
                dir@.entries.len() == n,
                forall|j: int|
                    0 <= j < n ==> #[trigger] dir@.entries[j] == (
                        dir.entries[j].0@,
                        dir.entries[j].1@,
                    ),
                call_requires(*intr, ()),
            ensures
                (!use_intr || no_interrupt(*intr)) ==> s_dir_from::<W>(
                    pred_of(*pred),
                    fse@,
                    drive,
                    device@,
                    dir@.entries,
                    path@,
                    0,
                    st0,
                ) == (self.st(), Ok::<(), Seq<char>>(())),
            decreases n - i,
        {
            if i >= n {
                proof {
                    if !use_intr {
                        assert(s_dir_from::<W>(
                            pred_of(*pred),
                            fse@,
                            drive,
                            device@,
                            dir@.entries,
                            path@,
                            i as int,
                            self.st(),
                        ) == (self.st(), Ok::<(), Seq<char>>(())));
                    }
                }
                break;
            }
            if use_intr {
                if intr() {
                    match self.watcher.interrupted() {
                        Ok(u) => u,
                        Err(e) => {
                            return Err(e);
                        },
                    };
                }
            }
            let ghost st_pre = self.st();
            let pair = &dir.entries[i];
            let step = self.dump_entry(fse, &pair.0, device, &pair.1, drive, path, pred, use_intr, intr);
            proof {
                if !use_intr {
                    assert(dir@.entries[i as int] == (pair.0@, pair.1@));
                    assert(s_dir_from::<W>(
                        pred_of(*pred),
                        fse@,
                        drive,
                        device@,
                        dir@.entries,
                        path@,
                        i as int,
                        st_pre,
                    ) == (match s_entry::<W>(
                        pred_of(*pred),
                        fse@,
                        drive,
                        device@,
                        path@,
                        pair.0@,
                        pair.1@,
                        st_pre,
                    ) {
                        (st2, Err(m)) => (st2, Err::<(), Seq<char>>(m)),
                        (st2, Ok(a)) => if a is Skip {
                            (st2, Ok::<(), Seq<char>>(()))
                        } else {
                            s_dir_from::<W>(
                                pred_of(*pred),
                                fse@,
                                drive,
                                device@,
                                dir@.entries,
                                path@,
                                i as int + 1,
                                st2,
                            )
                        },
                    }));
                }
            }
            match step {
                Err(e) => {
                    return Err(e);
                },
                Ok(Action::Skip) => {
                    break;
                },
                Ok(Action::Enter) => {},
            }
            i = i + 1;
        }
        Ok(())
    }

    /// Walks every loaded snapshot in order, as `s_dump` describes: enter
    /// each snapshot, walk it from an empty path, leave it.  The observer's
    /// final model, the counters and the outcome are exactly `s_dump`'s.
    pub fn dump<P: Predicate>(&mut self, fss: &FileSystems, pred: &P) -> (r: Result<(), Error>)
        ensures
            (final(self).st(), unit_view(r)) == s_dump::<W>(pred_of(*pred), fss@, old(self).st()),
    {
        let f = (|| false);
        self.dump_loop(fss, pred, false, &f)
    }

    /// Like `dump`, but polls `intr` before each child visit; when a poll
    /// answers true the observer's `interrupted` hook decides, and its
    /// error aborts the walk.  What a poll answers may depend on the
    /// outside world, so the exact outcome is promised only for a poll
    /// that can never answer true; an empty snapshot list changes nothing
    /// whatever the poll does.
    pub fn dump_interruptible<P: Predicate, F: Fn() -> bool>(
        &mut self,
        fss: &FileSystems,
        pred: &P,
        intr: &F,
    ) -> (r: Result<(), Error>)
        requires
            call_requires(*intr, ()),
        ensures
            no_interrupt(*intr) ==> (final(self).st(), unit_view(r)) == s_dump::<W>(
                pred_of(*pred),
                fss@,
                old(self).st(),
            ),
            fss@.len() == 0 ==> final(self).st() == old(self).st() && r is Ok,
    {
        self.dump_loop(fss, pred, true, intr)
    }

    fn dump_loop<P: Predicate, F: Fn() -> bool>(
        &mut self,
        fss: &FileSystems,
        pred: &P,
        use_intr: bool, intr: &F,
    ) -> (r: Result<(), Error>)
        requires
            call_requires(*intr, ()),
        ensures
            (!use_intr || no_interrupt(*intr)) ==> (final(self).st(), unit_view(r)) == s_dump::<W>(
                pred_of(*pred),
                fss@,
                old(self).st(),
            ),
            fss@.len() == 0 ==> final(self).st() == old(self).st() && r is Ok,
    {
        let ghost st0 = self.st();
        let n = fss.systems.len();
        let mut i: usize = 0;
        loop
            invariant_except_break
                (!use_intr || no_interrupt(*intr)) ==> s_fss::<W>(pred_of(*pred), fss@, 0, st0) == s_fss::<W>(
                    pred_of(*pred),
                    fss@,
                    i as int,
                    self.st(),
                ),
            invariant
                i <= n,
                n == fss.systems@.len(),
                fss@.len() == n,
                st0 == old(self).st(),
                n == 0 ==> self.st() == st0,
                forall|j: int| 0 <= j < n ==> #[trigger] fss@[j] == fss.systems@[j]@,
                call_requires(*intr, ()),
            ensures
                (!use_intr || no_interrupt(*intr)) ==> s_fss::<W>(pred_of(*pred), fss@, 0, st0) == (
                    self.st(),
                    Ok::<(), Seq<char>>(()),
                ),
            decreases n - i,
        {
            if i >= n {
                proof {
                    if !use_intr {
                        assert(s_fss::<W>(pred_of(*pred), fss@, i as int, self.st()) == (
                            self.st(),
                            Ok::<(), Seq<char>>(()),
                        ));
                    }
                }
                break;
            }
            let ghost st_pre = self.st();
            let fse = &fss.systems[i];
            let r1 = self.dump_fs(i, fse, pred, use_intr, intr);
            proof {
                if !use_intr {
                    assert(fss@[i as int] == fse@);
                    assert(s_fss::<W>(pred_of(*pred), fss@, i as int, st_pre) == (
                        match s_fs::<W>(pred_of(*pred), i as int, fse@, st_pre) {
                            (st1, Err(m)) => (st1, Err::<(), Seq<char>>(m)),
                            (st1, Ok(u)) => s_fss::<W>(pred_of(*pred), fss@, i as int + 1, st1),
                        }
                    ));
                }
            }
            match r1 {
                Err(e) => {
                    return Err(e);
                },
                Ok(u) => {},
            }
            i = i + 1;
        }
        Ok(())
    }

    /// Visits one snapshot, as `s_fs` describes.
    fn dump_fs<P: Predicate, F: Fn() -> bool>(
        &mut self,
        i: usize,
        fse: &FileSystemEntry,
        pred: &P,
        use_intr: bool, intr: &F,
    ) -> (r: Result<(), Error>)
        requires
            call_requires(*intr, ()),
        ensures
            (!use_intr || no_interrupt(*intr)) ==> (final(self).st(), unit_view(r)) == s_fs::<W>(
                pred_of(*pred),
                i as int,
                fse@,
                old(self).st(),
            ),
    {
        let gate = match self.watcher.enter_fs(i, fse) {
            Ok(a) => a,
            Err(e) => {
                return Err(e);
            },
        };
        if let Action::Skip = gate {
            return Ok(());
        }
        let root_path = String::new();
        match self.dump_dir(fse, &fse.fs.root, i as u64, &root_path, pred, use_intr, intr) {
            Ok(u) => u,
            Err(e) => {
                return Err(e);
            },
        };
        self.watcher.leave_fs()
    }
}

/// The predicate `%t`: true of every entry.
pub open spec fn true_pred() -> spec_fn(FsDataV) -> bool {
    |d: FsDataV| true
}

/// The data of one entry and its subtree, in visit order.
pub open spec fn visited_entry(
    fse: FileSystemEntryV,
    drive: u64,
    dev: Seq<(u64, FileInfo)>,
    path: Seq<char>,
    name: Seq<char>,
    entry: EntryV,
) -> Seq<FsDataV>
    decreases entry, 0int, 1int,
{
    let d = entry_data(drive, name, child_path(path, name), entry, dev);
    seq![d] + (match entry {
        EntryV::Dir(sub) => visited_dir(fse, drive, sub, child_path(path, name)),
        _ => Seq::empty(),
    })
}

/// The data of a directory's subtree, in visit order; a directory whose
/// device is missing contributes nothing below itself.
pub open spec fn visited_dir(
    fse: FileSystemEntryV,
    drive: u64,
    dir: DirectoryV,
    path: Seq<char>,
) -> Seq<FsDataV>
    decreases dir, 0int, 0int,
{
    if assoc_map(fse.fs.mounts).dom().contains(dir.dev) {
        visited_from(fse, drive, assoc_map(fse.fs.mounts)[dir.dev], dir.entries, path, 0)
    } else {
        Seq::empty()
    }
}

pub open spec fn visited_from(
    fse: FileSystemEntryV,
    drive: u64,
    dev: Seq<(u64, FileInfo)>,
    entries: Seq<(Seq<char>, EntryV)>,
    path: Seq<char>,
    i: int,
) -> Seq<FsDataV>
    decreases entries, entries.len() - i, 2int,
{
    if i < 0 || i >= entries.len() {
        Seq::empty()
    } else {
        visited_entry(fse, drive, dev, path, entries[i].0, entries[i].1) + visited_from(
            fse,
            drive,
            dev,
            entries,
            path,
            i + 1,
        )
    }
}

/// The data of every entry of the snapshots from `i` on, in visit order.
pub open spec fn visited_all(fss: Seq<FileSystemEntryV>, i: int) -> Seq<FsDataV>
    decreases fss, fss.len() - i, 3int,
{
    if i < 0 || i >= fss.len() {
        Seq::empty()
    } else {
        visited_dir(fss[i], i as u64, fss[i].fs.root, Seq::empty()) + visited_all(fss, i + 1)
    }
}

proof fn lemma_p1_entry(
    fse: FileSystemEntryV,
    drive: u64,
    dev: Seq<(u64, FileInfo)>,
    path: Seq<char>,
    name: Seq<char>,
    entry: EntryV,
    st: DumpSt<Seq<FsDataV>>,
)
    ensures
        ({
            let (st1, r) = s_entry::<crate::entry_collector::EntryCollector>(
                true_pred(),
                fse,
                drive,
                dev,
                path,
                name,
                entry,
                st,
            );
            st1.w =~= st.w + visited_entry(fse, drive, dev, path, name, entry) && r == Ok::<
                Action,
                Seq<char>,
            >(Action::Enter)
        }),
    decreases entry, 0int, 2int,
{
    let d = entry_data(drive, name, child_path(path, name), entry, dev);
    assert(true_pred()(d));
    if entry matches EntryV::Dir(sub) {
        lemma_p1_dir(
            fse,
            drive,
            entry->Dir_0,
            child_path(path, name),
            DumpSt {
                w: st.w.push(d),
                entries: winc(st.entries),
                bytes: wadd(
                    st.bytes,
                    match d.size {
                        Some(x) => x,
                        None => 0u64,
                    },
                ),
            },
        );
    }
}

proof fn lemma_p1_dir(
    fse: FileSystemEntryV,
    drive: u64,
    dir: DirectoryV,
    path: Seq<char>,
    st: DumpSt<Seq<FsDataV>>,
)
    ensures
        ({
            let (st1, r) = s_dir::<crate::entry_collector::EntryCollector>(
                true_pred(),
                fse,
                drive,
                dir,
                path,
                st,
            );
            st1.w =~= st.w + visited_dir(fse, drive, dir, path) && r == Ok::<(), Seq<char>>(())
        }),
    decreases dir, 0int, 1int,
{
    if assoc_map(fse.fs.mounts).dom().contains(dir.dev) {
        lemma_p1_from(
            fse,
            drive,
            assoc_map(fse.fs.mounts)[dir.dev],
            dir.entries,
            path,
            0,
            st,
        );
    } else {
        assert(st.w + Seq::<FsDataV>::empty() =~= st.w);
    }
}

proof fn lemma_p1_from(
    fse: FileSystemEntryV,
    drive: u64,
    dev: Seq<(u64, FileInfo)>,
    entries: Seq<(Seq<char>, EntryV)>,
    path: Seq<char>,
    i: int,
    st: DumpSt<Seq<FsDataV>>,
)
    ensures
        ({
            let (st1, r) = s_dir_from::<crate::entry_collector::EntryCollector>(
                true_pred(),
                fse,
                drive,
                dev,
                entries,
                path,
                i,
                st,
            );
            st1.w =~= st.w + visited_from(fse, drive, dev, entries, path, i) && r == Ok::<
                (),
                Seq<char>,
            >(())
        }),
    decreases entries, entries.len() - i, 3int,
{
    if 0 <= i < entries.len() {
        lemma_p1_entry(fse, drive, dev, path, entries[i].0, entries[i].1, st);
        let (st2, r2) = s_entry::<crate::entry_collector::EntryCollector>(
            true_pred(),
            fse,
            drive,
            dev,
            path,
            entries[i].0,
            entries[i].1,
            st,
        );
        lemma_p1_from(fse, drive, dev, entries, path, i + 1, st2);
        assert(st.w + visited_entry(fse, drive, dev, path, entries[i].0, entries[i].1)
            + visited_from(fse, drive, dev, entries, path, i + 1) =~= st.w + (visited_entry(
            fse,
            drive,
            dev,
            path,
            entries[i].0,
            entries[i].1,
        ) + visited_from(fse, drive, dev, entries, path, i + 1)));
    } else {
        assert(st.w + Seq::<FsDataV>::empty() =~= st.w);
    }
}

/// With the predicate `%t` and an entry collector, walking the snapshots
/// from `i` on succeeds and appends to the collector the data of every
/// entry of every snapshot, each exactly once, in pre-order.
pub proof fn law_preorder_visit(fss: Seq<FileSystemEntryV>, i: int, st: DumpSt<Seq<FsDataV>>)
    requires
        0 <= i <= fss.len(),
    ensures
        ({
            let (st1, r) = s_fss::<crate::entry_collector::EntryCollector>(
                true_pred(),
                fss,
                i,
                st,
            );
            st1.w =~= st.w + visited_all(fss, i) && r == Ok::<(), Seq<char>>(())
        }),
    decreases fss, fss.len() - i, 4int,
{
    if i < fss.len() {
        lemma_p1_dir(fss[i], i as u64, fss[i].fs.root, Seq::empty(), st);
        let (st1, r1) = s_fs::<crate::entry_collector::EntryCollector>(
            true_pred(),
            i,
            fss[i],
            st,
        );
        law_preorder_visit(fss, i + 1, st1);
        assert(st.w + visited_dir(fss[i], i as u64, fss[i].fs.root, Seq::empty()) + visited_all(
            fss,
            i + 1,
        ) =~= st.w + (visited_dir(fss[i], i as u64, fss[i].fs.root, Seq::empty()) + visited_all(
            fss,
            i + 1,
        )));
    } else {
        assert(st.w + Seq::<FsDataV>::empty() =~= st.w);
    }
}

/// A snapshot whose root directory is empty touches the observer through
/// `enter_fs` and, when it was entered, `leave_fs` — nothing else.
pub proof fn law_empty_root<W: Watcher>(
    p: spec_fn(FsDataV) -> bool,
    i: int,
    fse: FileSystemEntryV,
    st: DumpSt<W::V>,
)
    requires
        fse.fs.root.entries.len() == 0,
        assoc_map(fse.fs.mounts).dom().contains(fse.fs.root.dev),
    ensures
        s_fs::<W>(p, i, fse, st) == ({
            let (w1, r1) = W::s_enter_fs(st.w, i, fse);
            let st1 = DumpSt { w: w1, entries: st.entries, bytes: st.bytes };
            match r1 {
                Err(m) => (st1, Err::<(), Seq<char>>(m)),
                Ok(a) => if a is Skip {
                    (st1, Ok::<(), Seq<char>>(()))
                } else {
                    let (w3, r3) = W::s_leave_fs(w1);
                    (DumpSt { w: w3, entries: st.entries, bytes: st.bytes }, r3)
                },
            }
        }),
{
}

/// A directory whose device is not in the mount table calls the observer's
/// `device_not_found` hook exactly once, with that device, and nothing else
/// of its subtree is visited.
pub proof fn law_device_not_found<W: Watcher>(
    p: spec_fn(FsDataV) -> bool,
    fse: FileSystemEntryV,
    drive: u64,
    dir: DirectoryV,
    path: Seq<char>,
    st: DumpSt<W::V>,
)
    requires
        !assoc_map(fse.fs.mounts).dom().contains(dir.dev),
    ensures
        s_dir::<W>(p, fse, drive, dir, path, st) == ({
            let (w2, r2) = W::s_device_not_found(st.w, dir.dev);
            (DumpSt { w: w2, entries: st.entries, bytes: st.bytes }, r2)
        }),
{
}

} // verus!
