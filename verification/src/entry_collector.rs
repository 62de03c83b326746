//! An observer that collects the data of every matching entry.
use vstd::prelude::*;

use crate::errors::{error, Error};
use crate::fsexpr::{FsData, FsDataGen, FsDataV};
use crate::fsmap::{Device, Entry, EntryV, FileInfo, FileSystemEntry, FileSystemEntryV};
use crate::watcher::{Action, Watcher};

verus! {

/// Entry data with owned text.
pub type FsDataOwned = FsDataGen<String>;

/// Collects an owned copy of each matching entry's data, in visit order.
pub struct EntryCollector {
    pub results: Vec<FsDataOwned>,
}

impl View for EntryCollector {
    type V = Seq<FsDataV>;

    open spec fn view(&self) -> Seq<FsDataV> {
        Seq::new(self.results@.len(), |i: int| self.results@[i]@)
    }
}

impl EntryCollector {
    pub fn new() -> (r: Self)
        ensures
            r@ =~= Seq::<FsDataV>::empty(),
    {
        EntryCollector { results: Vec::new() }
    }
}

impl Watcher for EntryCollector {
    open spec fn s_enter_fs(w: Seq<FsDataV>, i: int, fse: FileSystemEntryV) -> (Seq<FsDataV>,
        Result<Action, Seq<char>>,
    ) {
        (w, Ok(Action::Enter))
    }

    open spec fn s_leave_fs(w: Seq<FsDataV>) -> (Seq<FsDataV>, Result<(), Seq<char>>) {
        (w, Ok(()))
    }

    open spec fn s_enter_dir(w: Seq<FsDataV>, name: Seq<char>) -> (Seq<FsDataV>, Result<
        Action,
        Seq<char>,
    >) {
        (w, Ok(Action::Enter))
    }

    open spec fn s_leave_dir(w: Seq<FsDataV>) -> (Seq<FsDataV>, Result<(), Seq<char>>) {
        (w, Ok(()))
    }

    open spec fn s_matching_entry(
        w: Seq<FsDataV>,
        fse: FileSystemEntryV,
        name: Seq<char>,
        device: Seq<(u64, FileInfo)>,
        entry: EntryV,
        data: FsDataV,
    ) -> (Seq<FsDataV>, Result<Action, Seq<char>>) {
        (w.push(data), Ok(Action::Enter))
    }

    open spec fn s_interrupted(w: Seq<FsDataV>) -> (Seq<FsDataV>, Result<(), Seq<char>>) {
        (w, Err("Interrupted"@))
    }

    open spec fn s_device_not_found(w: Seq<FsDataV>, dev: u64) -> (Seq<FsDataV>, Result<
        (),
        Seq<char>,
    >) {
        (w, Ok(()))
    }

    fn enter_fs(&mut self, i: usize, fse: &FileSystemEntry) -> (r: Result<Action, Error>) {
        Ok(Action::Enter)
    }

    fn leave_fs(&mut self) -> (r: Result<(), Error>) {
        Ok(())
    }

    fn enter_dir(&mut self, name: &String) -> (r: Result<Action, Error>) {
        Ok(Action::Enter)
    }

    fn leave_dir(&mut self) -> (r: Result<(), Error>) {
        Ok(())
    }

    fn matching_entry(
        &mut self,
        fse: &FileSystemEntry,
        name: &String,
        device: &Device,
        entry: &Entry,
        data: &FsData<'_>,
    ) -> (r: Result<Action, Error>) {
        let ghost w0 = self@;
        self.results.push(data.map());
        proof {
            assert(self@ =~= w0.push(data@));
        }
        Ok(Action::Enter)
    }

    fn interrupted(&mut self) -> (r: Result<(), Error>) {
        Err(error("Interrupted"))
    }

    fn device_not_found(&mut self, dev: u64) -> (r: Result<(), Error>) {
        Ok(())
    }
}

} // verus!
