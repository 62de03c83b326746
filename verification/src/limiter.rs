//! A decorator observer that bounds depth, breadth and entries per level.
//!
//! The limiter keeps a stack of per-level counters, pushed when a snapshot
//! or directory is entered and popped when it is left.  A snapshot is
//! entered only when `0 + 1 < max_depth`.  Entering a directory is allowed
//! while the parent has seen fewer than `max_breadth` entered children and
//! the new level stays below `max_depth`; a directory cut off by the depth
//! cap is announced to the inner observer as an immediate enter/leave pair,
//! so a printer can mark the truncation.  At most `max_entries` matching
//! entries are forwarded per level; later ones answer `Skip`.
use vstd::prelude::*;

use crate::errors::Error;
use crate::fsexpr::{FsData, FsDataV};
use crate::fsmap::{Device, Entry, EntryV, FileInfo, FileSystemEntry, FileSystemEntryV};
use crate::watcher::{Action, Watcher};

verus! {

/// The three caps; `usize::MAX` stands for unlimited.
#[derive(Clone, Copy, Debug, PartialEq, Eq, Structural)]
pub struct LimiterSettings {
    pub max_depth: usize,
    pub max_breadth: usize,
    pub max_entries: usize,
}

impl Default for LimiterSettings {
    /// All three caps unlimited.
    fn default() -> (r: Self)
        ensures
            r == (LimiterSettings {
                max_depth: usize::MAX,
                max_breadth: usize::MAX,
                max_entries: usize::MAX,
            }),
    {
        LimiterSettings { max_depth: usize::MAX, max_breadth: usize::MAX, max_entries: usize::MAX }
    }
}

/// Counters for one level: entered subdirectories, forwarded entries.
#[derive(Clone, Copy, Debug, PartialEq, Eq, Structural)]
struct DirState {
    breadth: usize,
    entries: usize,
}

/// Bounds an inner observer with the given caps.
pub struct Limiter<W> {
    settings: LimiterSettings,
    stack: Vec<DirState>,
    watcher: W,
}

/// Mathematical model of a limiter: caps, level counters, inner model.
pub struct LimV<WV> {
    pub settings: LimiterSettings,
    pub stack: Seq<(usize, usize)>,
    pub w: WV,
}

impl<W: View> View for Limiter<W> {
    type V = LimV<W::V>;

    closed spec fn view(&self) -> LimV<W::V> {
        LimV {
            settings: self.settings,
            stack: Seq::new(
                self.stack@.len(),
                |i: int| (self.stack@[i].breadth, self.stack@[i].entries),
            ),
            w: self.watcher@,
        }
    }
}

impl<W: Watcher> Limiter<W> {
    pub fn new(settings: &LimiterSettings, watcher: W) -> (r: Self)
        ensures
            r@.settings == *settings,
            r@.stack =~= Seq::<(usize, usize)>::empty(),
            r@.w == watcher@,
    {
        Limiter { settings: *settings, stack: Vec::new(), watcher }
    }

    /// Hands the inner observer back.
    pub fn into_inner(self) -> (w: W)
        ensures
            w@ == self@.w,
    {
        self.watcher
    }
}

impl<W: Watcher> Watcher for Limiter<W> {
    open spec fn s_enter_fs(l: LimV<W::V>, i: int, fse: FileSystemEntryV) -> (LimV<W::V>, Result<
        Action,
        Seq<char>,
    >) {
        if l.settings.max_depth <= 1 {
            (l, Ok(Action::Skip))
        } else {
            let (w1, r1) = W::s_enter_fs(l.w, i, fse);
            let l1 = LimV { settings: l.settings, stack: seq![(0usize, 0usize)], w: w1 };
            (l1, r1)
        }
    }

    open spec fn s_leave_fs(l: LimV<W::V>) -> (LimV<W::V>, Result<(), Seq<char>>) {
        let (w1, r1) = W::s_leave_fs(l.w);
        match r1 {
            Err(m) => (LimV { settings: l.settings, stack: l.stack, w: w1 }, Err(m)),
            Ok(u) => (
                LimV {
                    settings: l.settings,
                    stack: if l.stack.len() > 0 {
                        l.stack.drop_last()
                    } else {
                        l.stack
                    },
                    w: w1,
                },
                Ok(()),
            ),
        }
    }

    open spec fn s_enter_dir(l: LimV<W::V>, name: Seq<char>) -> (LimV<W::V>, Result<
        Action,
        Seq<char>,
    >) {
        if l.stack.len() == 0 {
            (l, Ok(Action::Skip))
        } else {
            let top = l.stack.last();
            if top.0 >= l.settings.max_breadth {
                (l, Ok(Action::Skip))
            } else if l.stack.len() >= l.settings.max_depth {
                let (w1, r1) = W::s_enter_dir(l.w, name);
                let l1 = LimV { settings: l.settings, stack: l.stack, w: w1 };
                match r1 {
                    Err(m) => (l1, Err(m)),
                    Ok(a1) => {
                        let (w2, r2) = W::s_leave_dir(w1);
                        let l2 = LimV { settings: l.settings, stack: l.stack, w: w2 };
                        match r2 {
                            Err(m) => (l2, Err(m)),
                            Ok(u) => (l2, Ok(Action::Skip)),
                        }
                    },
                }
            } else {
                let bumped = l.stack.update(
                    l.stack.len() - 1,
                    ((top.0 + 1) as usize, top.1),
                ).push((0usize, 0usize));
                let (w1, r1) = W::s_enter_dir(l.w, name);
                let l1 = LimV { settings: l.settings, stack: bumped, w: w1 };
                match r1 {
                    Err(m) => (l1, Err(m)),
                    Ok(a1) => if a1 is Skip {
                        let (w2, r2) = W::s_leave_dir(w1);
                        match r2 {
                            Err(m) => (
                                LimV { settings: l.settings, stack: bumped, w: w2 },
                                Err(m),
                            ),
                            Ok(u) => (
                                LimV {
                                    settings: l.settings,
                                    stack: bumped.drop_last(),
                                    w: w2,
                                },
                                Ok(Action::Skip),
                            ),
                        }
                    } else {
                        (l1, Ok(Action::Enter))
                    },
                }
            }
        }
    }

    open spec fn s_leave_dir(l: LimV<W::V>) -> (LimV<W::V>, Result<(), Seq<char>>) {
        let (w1, r1) = W::s_leave_dir(l.w);
        match r1 {
            Err(m) => (LimV { settings: l.settings, stack: l.stack, w: w1 }, Err(m)),
            Ok(u) => (
                LimV {
                    settings: l.settings,
                    stack: if l.stack.len() > 0 {
                        l.stack.drop_last()
                    } else {
                        l.stack
                    },
                    w: w1,
                },
                Ok(()),
            ),
        }
    }

    open spec fn s_matching_entry(
        l: LimV<W::V>,
        fse: FileSystemEntryV,
        name: Seq<char>,
        device: Seq<(u64, FileInfo)>,
        entry: EntryV,
        data: FsDataV,
    ) -> (LimV<W::V>, Result<Action, Seq<char>>) {
        if l.stack.len() == 0 {
            (l, Ok(Action::Skip))
        } else {
            let top = l.stack.last();
            if top.1 >= l.settings.max_entries {
                (l, Ok(Action::Skip))
            } else {
                let bumped = l.stack.update(l.stack.len() - 1, (top.0, (top.1 + 1) as usize));
                let (w1, r1) = W::s_matching_entry(l.w, fse, name, device, entry, data);
                (LimV { settings: l.settings, stack: bumped, w: w1 }, r1)
            }
        }
    }

    open spec fn s_interrupted(l: LimV<W::V>) -> (LimV<W::V>, Result<(), Seq<char>>) {
        let (w1, r1) = W::s_interrupted(l.w);
        (LimV { settings: l.settings, stack: l.stack, w: w1 }, r1)
    }

    open spec fn s_device_not_found(l: LimV<W::V>, dev: u64) -> (LimV<W::V>, Result<
        (),
        Seq<char>,
    >) {
        let (w1, r1) = W::s_device_not_found(l.w, dev);
        (LimV { settings: l.settings, stack: l.stack, w: w1 }, r1)
    }

    fn enter_fs(&mut self, i: usize, fse: &FileSystemEntry) -> (r: Result<Action, Error>) {
        if self.settings.max_depth <= 1 {
            return Ok(Action::Skip);
        }
        self.stack.clear();
        self.stack.push(DirState { breadth: 0, entries: 0 });
        let r = self.watcher.enter_fs(i, fse);
        proof {
            assert(self@.stack =~= seq![(0usize, 0usize)]);
        }
        r
    }

    fn leave_fs(&mut self) -> (r: Result<(), Error>) {
        let r = self.watcher.leave_fs();
        match r {
            Err(e) => Err(e),
            Ok(u) => {
                let ghost pre = self@.stack;
                if self.stack.len() > 0 {
                    self.stack.pop();
                    proof {
                        assert(self@.stack =~= pre.drop_last());
                    }
                }
                Ok(())
            },
        }
    }

    fn enter_dir(&mut self, name: &String) -> (r: Result<Action, Error>) {
        let n = self.stack.len();
        if n == 0 {
            return Ok(Action::Skip);
        }
        let top = self.stack[n - 1];
        proof {
            assert(self@.stack.last() == (top.breadth, top.entries));
        }
        if top.breadth >= self.settings.max_breadth {
            return Ok(Action::Skip);
        }
        if n >= self.settings.max_depth {
            let r1 = self.watcher.enter_dir(name);
            match r1 {
                Err(e) => Err(e),
                Ok(a1) => match self.watcher.leave_dir() {
                    Err(e) => Err(e),
                    Ok(u) => Ok(Action::Skip),
                },
            }
        } else {
            let ghost pre = self@.stack;
            let slot = &mut self.stack[n - 1];
            *slot = DirState { breadth: top.breadth + 1, entries: top.entries };
            self.stack.push(DirState { breadth: 0, entries: 0 });
            proof {
                assert(self@.stack =~= pre.update(
                    pre.len() - 1,
                    ((top.breadth + 1) as usize, top.entries),
                ).push((0usize, 0usize)));
            }
            let ghost bumped = self@.stack;
            let r1 = self.watcher.enter_dir(name);
            match r1 {
                Err(e) => Err(e),
                Ok(a1) => {
                    let skip = match a1 {
                        Action::Skip => true,
                        Action::Enter => false,
                    };
                    if skip {
                        match self.watcher.leave_dir() {
                            Err(e) => Err(e),
                            Ok(u) => {
                                self.stack.pop();
                                proof {
                                    assert(self@.stack =~= bumped.drop_last());
                                }
                                Ok(Action::Skip)
                            },
                        }
                    } else {
                        Ok(Action::Enter)
                    }
                },
            }
        }
    }

    fn leave_dir(&mut self) -> (r: Result<(), Error>) {
        let r = self.watcher.leave_dir();
        match r {
            Err(e) => Err(e),
            Ok(u) => {
                let ghost pre = self@.stack;
                if self.stack.len() > 0 {
                    self.stack.pop();
                    proof {
                        assert(self@.stack =~= pre.drop_last());
                    }
                }
                Ok(())
            },
        }
    }

    fn matching_entry(
        &mut self,
        fse: &FileSystemEntry,
        name: &String,
        device: &Device,
        entry: &Entry,
        data: &FsData<'_>,
    ) -> (r: Result<Action, Error>) {
        let n = self.stack.len();
        if n == 0 {
            return Ok(Action::Skip);
        }
        let top = self.stack[n - 1];
        proof {
            assert(self@.stack.last() == (top.breadth, top.entries));
        }
        if top.entries >= self.settings.max_entries {
            return Ok(Action::Skip);
        }
        let ghost pre = self@.stack;
        let slot = &mut self.stack[n - 1];
        *slot = DirState { breadth: top.breadth, entries: top.entries + 1 };
        proof {
            assert(self@.stack =~= pre.update(
                pre.len() - 1,
                (top.breadth, (top.entries + 1) as usize),
            ));
        }
        self.watcher.matching_entry(fse, name, device, entry, data)
    }

    fn interrupted(&mut self) -> (r: Result<(), Error>) {
        self.watcher.interrupted()
    }

    fn device_not_found(&mut self, dev: u64) -> (r: Result<(), Error>) {
        self.watcher.device_not_found(dev)
    }
}

/// With a depth cap of zero, entering a snapshot answers `Skip` and changes
/// nothing; the snapshot is left out entirely.
pub proof fn law_maxdepth_zero<W: Watcher>(l: LimV<W::V>, i: int, fse: FileSystemEntryV)
    requires
        l.settings.max_depth == 0,
    ensures
        <Limiter<W> as Watcher>::s_enter_fs(l, i, fse) == (l, Ok::<Action, Seq<char>>(
            Action::Skip,
        )),
{
}

/// Once a parent has seen `max_breadth` entered children, the next
/// `enter_dir` answers `Skip`, changes nothing, and the inner observer is
/// not consulted; below the cap the count rises by one.
pub proof fn law_maxbreadth<W: Watcher>(l: LimV<W::V>, name: Seq<char>)
    requires
        l.stack.len() > 0,
        l.stack.last().0 >= l.settings.max_breadth,
    ensures
        <Limiter<W> as Watcher>::s_enter_dir(l, name) == (l, Ok::<Action, Seq<char>>(
            Action::Skip,
        )),
{
}

/// Once a level has forwarded `max_entries` matching entries, the next one
/// answers `Skip`, changes nothing, and the inner observer is not consulted.
pub proof fn law_maxentries<W: Watcher>(
    l: LimV<W::V>,
    fse: FileSystemEntryV,
    name: Seq<char>,
    device: Seq<(u64, FileInfo)>,
    entry: EntryV,
    data: FsDataV,
)
    requires
        l.stack.len() > 0,
        l.stack.last().1 >= l.settings.max_entries,
    ensures
        <Limiter<W> as Watcher>::s_matching_entry(l, fse, name, device, entry, data) == (
            l,
            Ok::<Action, Seq<char>>(Action::Skip),
        ),
{
}

/// At the depth cap (with the parent below its breadth cap), `enter_dir`
/// answers `Skip` without opening a level, but first announces the cut to
/// the inner observer as an immediate enter/leave pair — which is how a
/// tree printer comes to mark the truncated subtree.
pub proof fn law_depth_cut<W: Watcher>(l: LimV<W::V>, name: Seq<char>)
    requires
        l.stack.len() > 0,
        l.stack.last().0 < l.settings.max_breadth,
        l.stack.len() >= l.settings.max_depth,
    ensures
        <Limiter<W> as Watcher>::s_enter_dir(l, name) == ({
            let (w1, r1) = W::s_enter_dir(l.w, name);
            match r1 {
                Err(m) => (
                    LimV { settings: l.settings, stack: l.stack, w: w1 },
                    Err::<Action, Seq<char>>(m),
                ),
                Ok(a1) => {
                    let (w2, r2) = W::s_leave_dir(w1);
                    match r2 {
                        Err(m) => (
                            LimV { settings: l.settings, stack: l.stack, w: w2 },
                            Err::<Action, Seq<char>>(m),
                        ),
                        Ok(u) => (
                            LimV { settings: l.settings, stack: l.stack, w: w2 },
                            Ok::<Action, Seq<char>>(Action::Skip),
                        ),
                    }
                },
            }
        }),
{
}

/// Below both caps, `enter_dir` bumps the parent's count, opens a new
/// level, and forwards to the inner observer, whose answer gates descent.
pub proof fn law_breadth_below_cap<W: Watcher>(l: LimV<W::V>, name: Seq<char>)
    requires
        l.stack.len() > 0,
        l.stack.last().0 < l.settings.max_breadth,
        l.stack.len() < l.settings.max_depth,
    ensures
        ({
            let (w1, r1) = W::s_enter_dir(l.w, name);
            let bumped = l.stack.update(
                l.stack.len() - 1,
                ((l.stack.last().0 + 1) as usize, l.stack.last().1),
            ).push((0usize, 0usize));
            r1 matches Ok(a) && a is Enter ==> <Limiter<W> as Watcher>::s_enter_dir(l, name) == (
                LimV { settings: l.settings, stack: bumped, w: w1 },
                Ok::<Action, Seq<char>>(Action::Enter),
            )
        }),
{
}

/// Below the cap, `matching_entry` bumps the level's count and forwards to
/// the inner observer, whose answer and error come back unchanged.
pub proof fn law_entries_below_cap<W: Watcher>(
    l: LimV<W::V>,
    fse: FileSystemEntryV,
    name: Seq<char>,
    device: Seq<(u64, FileInfo)>,
    entry: EntryV,
    data: FsDataV,
)
    requires
        l.stack.len() > 0,
        l.stack.last().1 < l.settings.max_entries,
    ensures
        ({
            let (w1, r1) = W::s_matching_entry(l.w, fse, name, device, entry, data);
            let bumped = l.stack.update(
                l.stack.len() - 1,
                (l.stack.last().0, (l.stack.last().1 + 1) as usize),
            );
            <Limiter<W> as Watcher>::s_matching_entry(l, fse, name, device, entry, data) == (
                LimV { settings: l.settings, stack: bumped, w: w1 },
                r1,
            )
        }),
{
}

} // verus!
