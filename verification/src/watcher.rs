//! The traverser's observer protocol.
//!
//! An observer receives enter-fs / enter-dir / matching-entry / leave-dir /
//! leave-fs hooks while a snapshot is walked, and answers `Enter` or `Skip`.
//! Each implementation also gives, as spec functions, exactly what every hook
//! does to its model and returns, so that whole traversals can be described.
use vstd::prelude::*;

use crate::errors::Error;
use crate::fsexpr::{FsData, FsDataV};
use crate::fsmap::{Device, Entry, EntryV, FileInfo, FileSystemEntry, FileSystemEntryV};

verus! {

/// An observer's answer: keep going, or cut this branch off.
#[derive(Debug, Copy, Clone, PartialEq, Eq, Structural)]
pub enum Action {
    Skip,
    Enter,
}

impl Action {
    /// Whether this action cuts the branch off.
    pub fn is_skip(&self) -> (r: bool)
        ensures
            r == (*self is Skip),
    {
        match self {
            Action::Skip => true,
            _ => false,
        }
    }
}

/// The model of an action result: the error as its message.
pub open spec fn act_view(r: Result<Action, Error>) -> Result<Action, Seq<char>> {
    match r {
        Ok(a) => Ok(a),
        Err(e) => Err(e@),
    }
}

/// The model of a unit result: the error as its message.
pub open spec fn unit_view(r: Result<(), Error>) -> Result<(), Seq<char>> {
    match r {
        Ok(u) => Ok(u),
        Err(e) => Err(e@),
    }
}

/// An observer of the traverser's visit protocol.  The `s_*` spec functions
/// say, for each hook, how the observer's model changes and what comes back;
/// every executable hook is bound to its spec function exactly.
pub trait Watcher: View + Sized {
    /// What `enter_fs` does to the model.
    spec fn s_enter_fs(w: Self::V, i: int, fse: FileSystemEntryV) -> (Self::V, Result<
        Action,
        Seq<char>,
    >);

    /// What `leave_fs` does to the model.
    spec fn s_leave_fs(w: Self::V) -> (Self::V, Result<(), Seq<char>>);

    /// What `enter_dir` does to the model.
    spec fn s_enter_dir(w: Self::V, name: Seq<char>) -> (Self::V, Result<Action, Seq<char>>);

    /// What `leave_dir` does to the model.
    spec fn s_leave_dir(w: Self::V) -> (Self::V, Result<(), Seq<char>>);

    /// What `matching_entry` does to the model.
    spec fn s_matching_entry(
        w: Self::V,
        fse: FileSystemEntryV,
        name: Seq<char>,
        device: Seq<(u64, FileInfo)>,
        entry: EntryV,
        data: FsDataV,
    ) -> (Self::V, Result<Action, Seq<char>>);

    /// What `interrupted` does to the model.
    spec fn s_interrupted(w: Self::V) -> (Self::V, Result<(), Seq<char>>);

    /// What `device_not_found` does to the model.
    spec fn s_device_not_found(w: Self::V, dev: u64) -> (Self::V, Result<(), Seq<char>>);

    /// Called before a snapshot is walked; `Skip` leaves it out.
    fn enter_fs(&mut self, i: usize, fse: &FileSystemEntry) -> (r: Result<Action, Error>)
        ensures
            (final(self)@, act_view(r)) == Self::s_enter_fs(old(self)@, i as int, fse@),
    ;

    /// Called after a snapshot's root returned, if it was entered.
    fn leave_fs(&mut self) -> (r: Result<(), Error>)
        ensures
            (final(self)@, unit_view(r)) == Self::s_leave_fs(old(self)@),
    ;

    /// Called before descending into a directory child; `Skip` stays out.
    fn enter_dir(&mut self, name: &String) -> (r: Result<Action, Error>)
        ensures
            (final(self)@, act_view(r)) == Self::s_enter_dir(old(self)@, name@),
    ;

    /// Called after a descended-into child returned.
    fn leave_dir(&mut self) -> (r: Result<(), Error>)
        ensures
            (final(self)@, unit_view(r)) == Self::s_leave_dir(old(self)@),
    ;

    /// Called for every entry the predicate accepts; `Skip` suppresses
    /// descent into this entry and stops its remaining siblings.
    fn matching_entry(
        &mut self,
        fse: &FileSystemEntry,
        name: &String,
        device: &Device,
        entry: &Entry,
        data: &FsData<'_>,
    ) -> (r: Result<Action, Error>)
        ensures
            (final(self)@, act_view(r)) == Self::s_matching_entry(
                old(self)@,
                fse@,
                name@,
                device@,
                entry@,
                data@,
            ),
    ;

    /// Called when the interrupt flag was observed; an error aborts.
    fn interrupted(&mut self) -> (r: Result<(), Error>)
        ensures
            (final(self)@, unit_view(r)) == Self::s_interrupted(old(self)@),
    ;

    /// Called when a directory's device is not in the mount table.
    fn device_not_found(&mut self, dev: u64) -> (r: Result<(), Error>)
        ensures
            (final(self)@, unit_view(r)) == Self::s_device_not_found(old(self)@, dev),
    ;
}

} // verus!
