//! An observer that renders an indented tree.
//!
//! Directory header lines are printed lazily: when an entry is shown, only
//! the path components that differ from the previously shown directory are
//! emitted.  A `...` line marks a directory below which nothing was shown,
//! which is how a depth-capped subtree appears.
use vstd::prelude::*;

use crate::dates::{civil_from_timestamp, civil_utc};
use crate::errors::{error, Error};
use crate::fsexpr::{FsData, FsDataV};
use crate::fsmap::{assoc_map, Device, Entry, EntryV, FileInfo, FileSystemEntry, FileSystemEntryV};
use crate::indent::{spec_indent, IndentMode};
use crate::render::{
    dec_u64, pad_left, pad_right, push_char, spec_date_ymd, spec_dec_nat, spec_pad_left,
    spec_pad_right,
};
use crate::watcher::{Action, Watcher};

verus! {

/// A kind tag padded into the left margin.
pub open spec fn tag_margin(tag: Seq<char>) -> Seq<char> {
    spec_pad_right(tag, 21) + seq![' ']
}

/// `n + 1`, stopping at the top of `usize`.
pub open spec fn sat_inc(n: usize) -> usize {
    if n == usize::MAX {
        n
    } else {
        (n + 1) as usize
    }
}

/// `n - 1`, stopping at zero.
pub open spec fn sat_dec(n: usize) -> usize {
    if n == 0 {
        n
    } else {
        (n - 1) as usize
    }
}

/// Mathematical model of the tree printer.
pub struct BPV {
    pub mode: IndentMode,
    pub indent: usize,
    pub ifs: Option<usize>,
    pub ifs_shown: Option<usize>,
    pub dir: Seq<Seq<char>>,
    pub last_dir: Seq<Seq<char>>,
    pub marks: Seq<nat>,
    pub lines: Seq<Seq<char>>,
}

/// The header lines for the components of `dir` from index `i` on that
/// differ from `last`, and whether everything matched.
pub open spec fn dir_header_lines(
    mode: IndentMode,
    last: Seq<Seq<char>>,
    dir: Seq<Seq<char>>,
    i: int,
    matched: bool,
) -> (Seq<Seq<char>>, bool)
    decreases dir.len() - i,
{
    if i < 0 || i >= dir.len() {
        (Seq::empty(), matched)
    } else {
        let m2 = matched && i < last.len() && last[i] == dir[i];
        let (rest, mf) = dir_header_lines(mode, last, dir, i + 1, m2);
        if !m2 {
            (seq![tag_margin("   "@) + spec_indent(mode, i) + dir[i] + seq!['/']] + rest, mf)
        } else {
            (rest, mf)
        }
    }
}

/// What showing the current directory does: a `DRV` line when the snapshot
/// changed, then the header lines of the changed path components.
pub open spec fn s_show_dir(w: BPV, origin: Seq<char>) -> BPV {
    let w1 = if w.ifs != w.ifs_shown {
        BPV { ifs_shown: w.ifs, lines: w.lines.push("DRV "@ + origin), ..w }
    } else {
        w
    };
    let (hdrs, matched) = dir_header_lines(w1.mode, w1.last_dir, w1.dir, 0, true);
    BPV {
        lines: w1.lines + hdrs,
        last_dir: if !matched {
            w1.dir
        } else {
            w1.last_dir
        },
        ..w1
    }
}

/// The line for one shown entry.  A file whose timestamp the calendar
/// cannot place is an error, as is nothing else here.
pub open spec fn tree_entry_line(
    mode: IndentMode,
    indent: usize,
    name: Seq<char>,
    entry: EntryV,
    dev: Seq<(u64, FileInfo)>,
) -> Result<Seq<char>, Seq<char>> {
    match entry {
        EntryV::Dir(d) => Ok(tag_margin("DIR"@) + spec_indent(mode, indent as int) + name),
        EntryV::File(ino) => if assoc_map(dev).dom().contains(ino) {
            let fi = assoc_map(dev)[ino];
            match civil_utc((fi.time as int * 60) as i64) {
                Some(c) => Ok(
                    spec_pad_left(spec_dec_nat(fi.size as nat), 10) + seq![' '] + spec_date_ymd(
                        c.0,
                        c.1,
                        c.2,
                    ) + seq![' '] + spec_indent(mode, indent as int) + name,
                ),
                None => Err("Time out of range"@),
            }
        } else {
            Ok(
                spec_pad_right("NO-INODE"@, 10) + seq![' '] + spec_pad_left(
                    spec_dec_nat(ino as nat),
                    10,
                ) + seq![' '] + name,
            )
        },
        EntryV::Symlink(t) => Ok(
            tag_margin("SYML"@) + spec_indent(mode, indent as int) + name + " -> \""@ + t + seq![
                '"',
            ],
        ),
        EntryV::Other(ino) => Ok(
            tag_margin("OTHER"@) + spec_indent(mode, indent as int) + name + " ino "@
                + spec_dec_nat(ino as nat),
        ),
        EntryV::Error(m) => Ok(
            tag_margin("ERROR"@) + spec_indent(mode, indent as int) + name + " : "@ + m,
        ),
    }
}

/// Renders an indented tree of the matching entries.
pub struct BasicPrinter {
    indent: usize,
    indent_mode: IndentMode,
    ifs: Option<usize>,
    ifs_shown: Option<usize>,
    dir: Vec<String>,
    last_dir: Vec<String>,
    marks: Vec<usize>,
    out: Vec<String>,
}

impl View for BasicPrinter {
    type V = BPV;

    closed spec fn view(&self) -> BPV {
        BPV {
            mode: self.indent_mode,
            indent: self.indent,
            ifs: self.ifs,
            ifs_shown: self.ifs_shown,
            dir: Seq::new(self.dir@.len(), |i: int| self.dir@[i]@),
            last_dir: Seq::new(self.last_dir@.len(), |i: int| self.last_dir@[i]@),
            marks: Seq::new(self.marks@.len(), |i: int| self.marks@[i] as nat),
            lines: Seq::new(self.out@.len(), |i: int| self.out@[i]@),
        }
    }
}

impl BasicPrinter {
    pub fn new() -> (r: Self)
        ensures
            r@ == (BPV {
                mode: IndentMode::Spaces,
                indent: 0usize,
                ifs: Option::<usize>::None,
                ifs_shown: Option::<usize>::None,
                dir: Seq::<Seq<char>>::empty(),
                last_dir: Seq::<Seq<char>>::empty(),
                marks: Seq::<nat>::empty(),
                lines: Seq::<Seq<char>>::empty(),
            }),
    {
        let r = BasicPrinter {
            indent: 0,
            indent_mode: IndentMode::Spaces,
            ifs: None,
            ifs_shown: None,
            dir: Vec::new(),
            last_dir: Vec::new(),
            marks: Vec::new(),
            out: Vec::new(),
        };
        proof {
            assert(r@.dir =~= Seq::<Seq<char>>::empty());
            assert(r@.last_dir =~= Seq::<Seq<char>>::empty());
            assert(r@.marks =~= Seq::<nat>::empty());
            assert(r@.lines =~= Seq::<Seq<char>>::empty());
        }
        r
    }

    /// Chooses how the tree is indented.
    pub fn set_indent_mode(&mut self, mode: IndentMode)
        ensures
            final(self)@ == (BPV { mode, ..old(self)@ }),
    {
        self.indent_mode = mode;
    }

    /// The rendered lines, in visit order.
    pub fn into_lines(self) -> (r: Vec<String>)
        ensures
            r@.len() == self@.lines.len(),
            forall|i: int| 0 <= i < r@.len() ==> #[trigger] r@[i]@ == self@.lines[i],
    {
        self.out
    }

    /// Emits the pending `DRV` and directory header lines.
    fn show_dir(&mut self, fse: &FileSystemEntry)
        ensures
            final(self)@ == s_show_dir(old(self)@, fse@.origin),
    {
        let differs = match (self.ifs, self.ifs_shown) {
            (Some(a), Some(b)) => a != b,
            (None, None) => false,
            _ => true,
        };
        if differs {
            let ghost w0 = self@;
            let mut l = "DRV ".to_owned();
            l.append(fse.origin.as_str());
            self.out.push(l);
            self.ifs_shown = self.ifs;
            proof {
                assert(self@.lines =~= w0.lines.push("DRV "@ + fse@.origin));
                assert(self@.dir =~= w0.dir);
                assert(self@.last_dir =~= w0.last_dir);
                assert(self@.marks =~= w0.marks);
            }
        }
        let ghost w1 = self@;
        let n = self.dir.len();
        let mut matched = true;
        let mut i: usize = 0;
        while i < n
            invariant
                i <= n,
                n == self.dir@.len(),
                self.indent_mode == w1.mode,
                self.indent == w1.indent,
                self.ifs == w1.ifs,
                self.ifs_shown == w1.ifs_shown,
                self@.dir == w1.dir,
                self@.last_dir == w1.last_dir,
                self@.marks == w1.marks,
                w1.lines.len() <= self@.lines.len(),
                self@.lines.subrange(0, w1.lines.len() as int) == w1.lines,
                dir_header_lines(w1.mode, w1.last_dir, w1.dir, 0, true).0 == self@.lines.subrange(
                    w1.lines.len() as int,
                    self@.lines.len() as int,
                ) + dir_header_lines(w1.mode, w1.last_dir, w1.dir, i as int, matched).0,
                dir_header_lines(w1.mode, w1.last_dir, w1.dir, 0, true).1 == dir_header_lines(
                    w1.mode,
                    w1.last_dir,
                    w1.dir,
                    i as int,
                    matched,
                ).1,
            decreases n - i,
        {
            proof {
                assert(w1.dir[i as int] == self.dir@[i as int]@);
                if (i as int) < w1.last_dir.len() {
                    assert(w1.last_dir[i as int] == self.last_dir@[i as int]@);
                }
            }
            let m2 = matched && i < self.last_dir.len() && self.last_dir[i] == self.dir[i];
            let ghost added_pre = self@.lines.subrange(w1.lines.len() as int, self@.lines.len() as int);
            let ghost tail_pre = dir_header_lines(w1.mode, w1.last_dir, w1.dir, i as int, matched);
            proof {
                assert(m2 == (matched && (i as int) < w1.last_dir.len() && w1.last_dir[i as int]
                    == w1.dir[i as int]));
            }
            if !m2 {
                let ghost lpre = self@.lines;
                let mut l = pad_right("   ", 21);
                push_char(&mut l, ' ');
                let ind = self.indent_mode.put_indent(i);
                l.append(ind.as_str());
                l.append(self.dir[i].as_str());
                push_char(&mut l, '/');
                proof {
                    assert(l@ =~= tag_margin("   "@) + spec_indent(w1.mode, i as int) + w1.dir[
                        i as int
                    ] + seq!['/']);
                }
                let ghost lv = l@;
                self.out.push(l);
                proof {
                    assert(self@.lines =~= lpre.push(lv));
                }
            }
            matched = m2;
            i = i + 1;
            proof {
                let added_now = self@.lines.subrange(w1.lines.len() as int, self@.lines.len() as int);
                let tail_now = dir_header_lines(w1.mode, w1.last_dir, w1.dir, i as int, matched);
                if !matched && !(tail_pre.0 == tail_now.0) {
                }
                assert(self@.lines.subrange(0, w1.lines.len() as int) =~= w1.lines);
                if m2 {
                    assert(added_now =~= added_pre);
                    assert(added_now + tail_now.0 =~= added_pre + tail_pre.0);
                } else {
                    let hdr = tag_margin("   "@) + spec_indent(w1.mode, (i - 1) as int) + w1.dir[
                        i - 1
                    ] + seq!['/'];
                    assert(tail_pre.0 == seq![hdr] + tail_now.0);
                    assert(added_now =~= added_pre.push(hdr));
                    assert(added_now + tail_now.0 =~= added_pre + tail_pre.0);
                }
            }
        }
        proof {
            assert(dir_header_lines(w1.mode, w1.last_dir, w1.dir, i as int, matched).0
                =~= Seq::<Seq<char>>::empty());
        }
        if !matched {
            self.last_dir = clone_string_vec(&self.dir);
            proof {
                assert(self@.last_dir =~= w1.dir);
            }
        }
        proof {
            assert(self@.lines =~= w1.lines + self@.lines.subrange(
                w1.lines.len() as int,
                self@.lines.len() as int,
            ));
            assert(self@.lines =~= s_show_dir(old(self)@, fse@.origin).lines);
        }
    }
}

impl Watcher for BasicPrinter {
    open spec fn s_enter_fs(w: BPV, i: int, fse: FileSystemEntryV) -> (BPV, Result<
        Action,
        Seq<char>,
    >) {
        (
            BPV {
                indent: 0usize,
                ifs: Some(i as usize),
                dir: Seq::empty(),
                last_dir: Seq::empty(),
                marks: Seq::empty(),
                ..w
            },
            Ok(Action::Enter),
        )
    }

    open spec fn s_leave_fs(w: BPV) -> (BPV, Result<(), Seq<char>>) {
        (BPV { ifs: None, ..w }, Ok(()))
    }

    open spec fn s_enter_dir(w: BPV, name: Seq<char>) -> (BPV, Result<Action, Seq<char>>) {
        (
            BPV {
                indent: sat_inc(w.indent),
                dir: w.dir.push(name),
                marks: w.marks.push(w.lines.len()),
                ..w
            },
            Ok(Action::Enter),
        )
    }

    open spec fn s_leave_dir(w: BPV) -> (BPV, Result<(), Seq<char>>) {
        let w1 = if w.marks.len() > 0 && w.marks.last() == w.lines.len() {
            BPV {
                lines: w.lines.push(
                    tag_margin("   "@) + spec_indent(w.mode, w.indent as int) + "..."@,
                ),
                ..w
            }
        } else {
            w
        };
        (
            BPV {
                indent: sat_dec(w1.indent),
                dir: if w1.dir.len() > 0 {
                    w1.dir.drop_last()
                } else {
                    w1.dir
                },
                marks: if w1.marks.len() > 0 {
                    w1.marks.drop_last()
                } else {
                    w1.marks
                },
                ..w1
            },
            Ok(()),
        )
    }

    open spec fn s_matching_entry(
        w: BPV,
        fse: FileSystemEntryV,
        name: Seq<char>,
        device: Seq<(u64, FileInfo)>,
        entry: EntryV,
        data: FsDataV,
    ) -> (BPV, Result<Action, Seq<char>>) {
        let w1 = s_show_dir(w, fse.origin);
        match tree_entry_line(w1.mode, w1.indent, data.name, entry, device) {
            Ok(l) => (BPV { lines: w1.lines.push(l), ..w1 }, Ok(Action::Enter)),
            Err(m) => (w1, Err(m)),
        }
    }

    open spec fn s_interrupted(w: BPV) -> (BPV, Result<(), Seq<char>>) {
        (w, Err("Interrupted"@))
    }

    open spec fn s_device_not_found(w: BPV, dev: u64) -> (BPV, Result<(), Seq<char>>) {
        (
            BPV { lines: w.lines.push("Cannot find device "@ + spec_dec_nat(dev as nat)), ..w },
            Ok(()),
        )
    }

    fn enter_fs(&mut self, i: usize, fse: &FileSystemEntry) -> (r: Result<Action, Error>) {
        self.ifs = Some(i);
        self.indent = 0;
        self.dir.clear();
        self.last_dir.clear();
        self.marks.clear();
        proof {
            assert(self@.dir =~= Seq::<Seq<char>>::empty());
            assert(self@.last_dir =~= Seq::<Seq<char>>::empty());
            assert(self@.marks =~= Seq::<nat>::empty());
        }
        Ok(Action::Enter)
    }

    fn leave_fs(&mut self) -> (r: Result<(), Error>) {
        self.ifs = None;
        Ok(())
    }

    fn enter_dir(&mut self, name: &String) -> (r: Result<Action, Error>) {
        let ghost w0 = self@;
        self.dir.push(name.clone());
        if self.indent < usize::MAX {
            self.indent = self.indent + 1;
        }
        self.marks.push(self.out.len());
        proof {
            assert(self@.dir =~= w0.dir.push(name@));
            assert(self@.marks =~= w0.marks.push(w0.lines.len()));
        }
        Ok(Action::Enter)
    }

    fn leave_dir(&mut self) -> (r: Result<(), Error>) {
        let ghost w0 = self@;
        let n = self.marks.len();
        if n > 0 && self.marks[n - 1] == self.out.len() {
            let mut l = pad_right("   ", 21);
            push_char(&mut l, ' ');
            let ind = self.indent_mode.put_indent(self.indent);
            l.append(ind.as_str());
            l.append("...");
            let ghost lv = l@;
            self.out.push(l);
            proof {
                assert(lv =~= tag_margin("   "@) + spec_indent(w0.mode, w0.indent as int)
                    + "..."@);
                assert(self@.lines =~= w0.lines.push(lv));
            }
        } else {
            proof {
                if w0.marks.len() > 0 {
                    assert(w0.marks.last() == self.marks@[n - 1] as nat);
                }
            }
        }
        let ghost w1 = self@;
        if self.indent > 0 {
            self.indent = self.indent - 1;
        }
        if self.dir.len() > 0 {
            self.dir.pop();
        }
        if self.marks.len() > 0 {
            self.marks.pop();
        }
        proof {
            if w1.dir.len() > 0 {
                assert(self@.dir =~= w1.dir.drop_last());
            } else {
                assert(self@.dir =~= w1.dir);
            }
            if w1.marks.len() > 0 {
                assert(self@.marks =~= w1.marks.drop_last());
            } else {
                assert(self@.marks =~= w1.marks);
            }
        }
        Ok(())
    }

    fn matching_entry(
        &mut self,
        fse: &FileSystemEntry,
        name: &String,
        device: &Device,
        entry: &Entry,
        data: &FsData<'_>,
    ) -> (r: Result<Action, Error>) {
        self.show_dir(fse);
        let ghost w1 = self@;
        let mut l: String;
        match entry {
            Entry::Dir(d) => {
                l = pad_right("DIR", 21);
                push_char(&mut l, ' ');
                let ind = self.indent_mode.put_indent(self.indent);
                l.append(ind.as_str());
                l.append(data.name);
            },
            Entry::File(ino) => {
                match device.get_inode(*ino) {
                    Some(fi) => {
                        match civil_from_timestamp(fi.unix_time()) {
                            Some((y, mo, d)) => {
                                let sz = dec_u64(fi.size);
                                l = pad_left(sz.as_str(), 10);
                                push_char(&mut l, ' ');
                                let dt = crate::render::date_ymd(y, mo, d);
                                l.append(dt.as_str());
                                push_char(&mut l, ' ');
                                let ind = self.indent_mode.put_indent(self.indent);
                                l.append(ind.as_str());
                                l.append(data.name);
                            },
                            None => {
                                return Err(error("Time out of range"));
                            },
                        }
                    },
                    None => {
                        l = pad_right("NO-INODE", 10);
                        push_char(&mut l, ' ');
                        let ins = dec_u64(*ino);
                        let ip = pad_left(ins.as_str(), 10);
                        l.append(ip.as_str());
                        push_char(&mut l, ' ');
                        l.append(data.name);
                    },
                }
            },
            Entry::Symlink(t) => {
                l = pad_right("SYML", 21);
                push_char(&mut l, ' ');
                let ind = self.indent_mode.put_indent(self.indent);
                l.append(ind.as_str());
                l.append(data.name);
                l.append(" -> \"");
                l.append(t.as_str());
                push_char(&mut l, '"');
            },
            Entry::Other(ino) => {
                l = pad_right("OTHER", 21);
                push_char(&mut l, ' ');
                let ind = self.indent_mode.put_indent(self.indent);
                l.append(ind.as_str());
                l.append(data.name);
                l.append(" ino ");
                let ins = dec_u64(*ino);
                l.append(ins.as_str());
            },
            Entry::Error(m) => {
                l = pad_right("ERROR", 21);
                push_char(&mut l, ' ');
                let ind = self.indent_mode.put_indent(self.indent);
                l.append(ind.as_str());
                l.append(data.name);
                l.append(" : ");
                l.append(m.as_str());
            },
        }
        let ghost tl = tree_entry_line(w1.mode, w1.indent, data@.name, entry@, device@);
        proof {
            assert(tl is Ok && l@ =~= tl->Ok_0);
        }
        self.out.push(l);
        proof {
            assert(self@.lines =~= w1.lines.push(tl->Ok_0));
        }
        Ok(Action::Enter)
    }

    fn interrupted(&mut self) -> (r: Result<(), Error>) {
        Err(error("Interrupted"))
    }

    fn device_not_found(&mut self, dev: u64) -> (r: Result<(), Error>) {
        let mut line = "Cannot find device ".to_owned();
        let ds = dec_u64(dev);
        line.append(ds.as_str());
        let ghost w0 = self@;
        let ghost lv = line@;
        self.out.push(line);
        proof {
            assert(self@.lines =~= w0.lines.push(lv));
            assert(self@.dir =~= w0.dir);
            assert(self@.last_dir =~= w0.last_dir);
            assert(self@.marks =~= w0.marks);
        }
        Ok(())
    }
}

/// A copy of a vector of strings, text for text.
fn clone_string_vec(v: &Vec<String>) -> (r: Vec<String>)
    ensures
        r@.len() == v@.len(),
        forall|i: int| 0 <= i < v@.len() ==> #[trigger] r@[i]@ == v@[i]@,
{
    let mut r: Vec<String> = Vec::new();
    let mut i: usize = 0;
    while i < v.len()
        invariant
            i <= v@.len(),
            r@.len() == i,
            forall|j: int| 0 <= j < i ==> #[trigger] r@[j]@ == v@[j]@,
        decreases v@.len() - i,
    {
        r.push(v[i].clone());
        i = i + 1;
    }
    r
}

/// Leaving a directory below which nothing was printed emits the `...`
/// placeholder line, then closes the level; this is what the tree shows
/// under a depth-capped directory.
pub proof fn law_tree_placeholder(w: BPV)
    requires
        w.marks.len() > 0,
        w.marks.last() == w.lines.len(),
    ensures
        <BasicPrinter as Watcher>::s_leave_dir(w) == (
            BPV {
                indent: sat_dec(w.indent),
                dir: if w.dir.len() > 0 {
                    w.dir.drop_last()
                } else {
                    w.dir
                },
                marks: w.marks.drop_last(),
                lines: w.lines.push(
                    tag_margin("   "@) + spec_indent(w.mode, w.indent as int) + "..."@,
                ),
                ..w
            },
            Ok::<(), Seq<char>>(()),
        ),
{
}

} // verus!
