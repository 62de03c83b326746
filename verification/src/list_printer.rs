//! An observer that renders one `drive:path` line per matching entry.
use vstd::prelude::*;

use crate::dates::{civil_from_timestamp, civil_utc};
use crate::errors::{error, Error};
use crate::fsexpr::{FsData, FsDataV};
use crate::fsmap::{assoc_map, Device, Entry, EntryV, FileInfo, FileSystemEntry, FileSystemEntryV};
use crate::render::{dec_u64, push_char, spec_date_ymd, spec_dec_nat};
use crate::watcher::{Action, Watcher};

verus! {

/// The line for one matching entry: `drive:path`, and in long mode a
/// kind-specific tail.  A file whose timestamp the calendar cannot place
/// is an error, as is nothing else here.
pub open spec fn list_line(
    long: bool,
    drive: u64,
    path: Seq<char>,
    entry: EntryV,
    dev: Seq<(u64, FileInfo)>,
) -> Result<Seq<char>, Seq<char>> {
    let base = spec_dec_nat(drive as nat) + seq![':'] + path;
    if !long {
        Ok(base)
    } else {
        match entry {
            EntryV::Dir(d) => Ok(base + seq!['/']),
            EntryV::File(ino) => if assoc_map(dev).dom().contains(ino) {
                let fi = assoc_map(dev)[ino];
                match civil_utc((fi.time as int * 60) as i64) {
                    Some(c) => Ok(
                        base + seq![' '] + spec_dec_nat(fi.size as nat) + seq![' ']
                            + spec_date_ymd(c.0, c.1, c.2),
                    ),
                    None => Err("Time out of range"@),
                }
            } else {
                Ok(base + " NO-INODE "@ + spec_dec_nat(ino as nat))
            },
            EntryV::Symlink(t) => Ok(base + " -> \""@ + t + seq!['"']),
            EntryV::Other(ino) => Ok(base + " OTHER "@ + spec_dec_nat(ino as nat)),
            EntryV::Error(m) => Ok(base + " ERROR "@ + m),
        }
    }
}

/// Renders matching entries as lines, in visit order.
pub struct ListPrinter {
    long: bool,
    out: Vec<String>,
}

/// Mathematical model of a list printer: its mode and its lines.
pub struct ListPV {
    pub long: bool,
    pub lines: Seq<Seq<char>>,
}

impl View for ListPrinter {
    type V = ListPV;

    closed spec fn view(&self) -> ListPV {
        ListPV { long: self.long, lines: Seq::new(self.out@.len(), |i: int| self.out@[i]@) }
    }
}

impl ListPrinter {
    pub fn new(long: bool) -> (r: Self)
        ensures
            r@.long == long,
            r@.lines =~= Seq::<Seq<char>>::empty(),
    {
        ListPrinter { long, out: Vec::new() }
    }

    /// The rendered lines, in visit order.
    pub fn into_lines(self) -> (r: Vec<String>)
        ensures
            r@.len() == self@.lines.len(),
            forall|i: int| 0 <= i < r@.len() ==> #[trigger] r@[i]@ == self@.lines[i],
    {
        self.out
    }
}

impl Watcher for ListPrinter {
    open spec fn s_enter_fs(w: ListPV, i: int, fse: FileSystemEntryV) -> (ListPV, Result<
        Action,
        Seq<char>,
    >) {
        (w, Ok(Action::Enter))
    }

    open spec fn s_leave_fs(w: ListPV) -> (ListPV, Result<(), Seq<char>>) {
        (w, Ok(()))
    }

    open spec fn s_enter_dir(w: ListPV, name: Seq<char>) -> (ListPV, Result<Action, Seq<char>>) {
        (w, Ok(Action::Enter))
    }

    open spec fn s_leave_dir(w: ListPV) -> (ListPV, Result<(), Seq<char>>) {
        (w, Ok(()))
    }

    open spec fn s_matching_entry(
        w: ListPV,
        fse: FileSystemEntryV,
        name: Seq<char>,
        device: Seq<(u64, FileInfo)>,
        entry: EntryV,
        data: FsDataV,
    ) -> (ListPV, Result<Action, Seq<char>>) {
        match list_line(w.long, data.drive, data.path, entry, device) {
            Ok(line) => (
                ListPV { long: w.long, lines: w.lines.push(line) },
                Ok(Action::Enter),
            ),
            Err(m) => (w, Err(m)),
        }
    }

    open spec fn s_interrupted(w: ListPV) -> (ListPV, Result<(), Seq<char>>) {
        (w, Err("Interrupted"@))
    }

    open spec fn s_device_not_found(w: ListPV, dev: u64) -> (ListPV, Result<(), Seq<char>>) {
        (
            ListPV {
                long: w.long,
                lines: w.lines.push("Cannot find device "@ + spec_dec_nat(dev as nat)),
            },
            Ok(()),
        )
    }

    fn enter_fs(&mut self, i: usize, fse: &FileSystemEntry) -> (r: Result<Action, Error>) {
        Ok(Action::Enter)
    }

    fn leave_fs(&mut self) -> (r: Result<(), Error>) {
        Ok(())
    }

    fn enter_dir(&mut self, name: &String) -> (r: Result<Action, Error>) {
        Ok(Action::Enter)
    }

    fn leave_dir(&mut self) -> (r: Result<(), Error>) {
        Ok(())
    }

    fn matching_entry(
        &mut self,
        fse: &FileSystemEntry,
        name: &String,
        device: &Device,
        entry: &Entry,
        data: &FsData<'_>,
    ) -> (r: Result<Action, Error>) {
        let mut line = dec_u64(data.drive);
        push_char(&mut line, ':');
        line.append(data.path);
        if self.long {
            match entry {
                Entry::Dir(d) => {
                    push_char(&mut line, '/');
                },
                Entry::File(ino) => {
                    match device.get_inode(*ino) {
                        Some(fi) => {
                            match civil_from_timestamp(fi.unix_time()) {
                                Some((y, mo, d)) => {
                                    push_char(&mut line, ' ');
                                    let sz = dec_u64(fi.size);
                                    line.append(sz.as_str());
                                    push_char(&mut line, ' ');
                                    let dt = crate::render::date_ymd(y, mo, d);
                                    line.append(dt.as_str());
                                },
                                None => {
                                    return Err(error("Time out of range"));
                                },
                            }
                        },
                        None => {
                            line.append(" NO-INODE ");
                            let ins = dec_u64(*ino);
                            line.append(ins.as_str());
                        },
                    }
                },
                Entry::Symlink(t) => {
                    line.append(" -> \"");
                    line.append(t.as_str());
                    push_char(&mut line, '"');
                },
                Entry::Other(ino) => {
                    line.append(" OTHER ");
                    let ins = dec_u64(*ino);
                    line.append(ins.as_str());
                },
                Entry::Error(m) => {
                    line.append(" ERROR ");
                    line.append(m.as_str());
                },
            }
        }
        let ghost w0 = self@;
        let ghost lv = list_line(w0.long, data@.drive, data@.path, entry@, device@);
        proof {
            assert(lv is Ok && line@ =~= lv->Ok_0);
        }
        self.out.push(line);
        proof {
            assert(self@.lines =~= w0.lines.push(lv->Ok_0));
        }
        Ok(Action::Enter)
    }

    fn interrupted(&mut self) -> (r: Result<(), Error>) {
        Err(error("Interrupted"))
    }

    fn device_not_found(&mut self, dev: u64) -> (r: Result<(), Error>) {
        let mut line = "Cannot find device ".to_owned();
        let ds = dec_u64(dev);
        line.append(ds.as_str());
        let ghost w0 = self@;
        let ghost lv = line@;
        self.out.push(line);
        proof {
            assert(self@.lines =~= w0.lines.push(lv));
        }
        Ok(())
    }
}

} // verus!
