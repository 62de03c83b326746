//! The interactive examine shell's command handling.
//!
//! One line per command: `list|ls EXPR`, `longlist|ll EXPR`, `tree|tr EXPR`,
//! `ntree|ntr EXPR`, `maxdepth|maxd N|u`, `maxbreadth|maxb N|u`,
//! `maxent|maxe N|u`, the `?`-suffixed queries, `counts`/`nocounts`,
//! `drives`, `help`, `help-expr`, `quit`.  An empty expression means `%t`;
//! `u` means unlimited.
use vstd::prelude::*;

use crate::basic_printer::{BasicPrinter, BPV};
use crate::boolean::{Expr, ExprV};
use crate::dumper::{no_interrupt, s_dump, DumpSt, Dumper};
use crate::errors::{error, Res};
use crate::fsexpr::{pred_of, spec_eval, AtomV, FsAtom, FsDataV};
use crate::fsmap::{FileSystemEntryV, FileSystems};
use crate::fsparser::spec_parse;
use crate::fstok::{chars_eq_str, is_ws, scan_num, scan_num_x};
use crate::indent::IndentMode;
use crate::limiter::{LimV, Limiter, LimiterSettings};
use crate::list_printer::{ListPrinter, ListPV};
use crate::render::{chars_of_str, dec_u64, dec_usize, pad_left, spec_dec_nat, spec_pad_left,
    string_of_chars};

verus! {

/// The first index at or after `i` with a non-whitespace character.
pub open spec fn first_nonws(s: Seq<char>, i: int) -> int
    decreases s.len() - i,
{
    if i < 0 || i >= s.len() {
        s.len() as int
    } else if is_ws(s[i]) {
        first_nonws(s, i + 1)
    } else {
        i
    }
}

/// The end of the text once trailing whitespace before `j` is dropped.
pub open spec fn last_nonws(s: Seq<char>, j: int) -> int
    decreases j,
{
    if j <= 0 {
        0
    } else if is_ws(s[j - 1]) {
        last_nonws(s, j - 1)
    } else {
        j
    }
}

/// The text without leading and trailing whitespace.
pub open spec fn spec_trim(s: Seq<char>) -> Seq<char> {
    let a = first_nonws(s, 0);
    let b = last_nonws(s, s.len() as int);
    if a <= b {
        s.subrange(a, b)
    } else {
        Seq::empty()
    }
}

/// The index of the first space at or after `i`, or the length.
pub open spec fn first_space(s: Seq<char>, i: int) -> int
    decreases s.len() - i,
{
    if i < 0 || i >= s.len() {
        s.len() as int
    } else if s[i] == ' ' {
        i
    } else {
        first_space(s, i + 1)
    }
}

/// The command word and what follows the first space.
pub open spec fn spec_split(s: Seq<char>) -> (Seq<char>, Seq<char>) {
    let k = first_space(s, 0);
    if k < s.len() {
        (s.subrange(0, k), s.subrange(k + 1, s.len() as int))
    } else {
        (s, Seq::empty())
    }
}

/// A limit argument: `u` for unlimited, else a decimal count.
pub open spec fn spec_limit(w: Seq<char>) -> Result<usize, Seq<char>> {
    if w == "u"@ {
        Ok(usize::MAX)
    } else {
        let (v, j) = scan_num(w, 0, 0);
        if w.len() > 0 && j == w.len() && v <= usize::MAX {
            Ok(v as usize)
        } else {
            Err("Invalid limit"@)
        }
    }
}

/// A limit shown back: `unlimited`, or the count.
pub open spec fn spec_show_limit(n: usize) -> Seq<char> {
    if n == usize::MAX {
        "unlimited"@
    } else {
        spec_dec_nat(n as nat)
    }
}

/// The shell's state: the loaded snapshots, the caps, and whether counters
/// are reported after each traversal command.
pub struct ExaminerCli {
    fss: FileSystems,
    limiter: LimiterSettings,
    show_counts: bool,
}

/// Mathematical model of the shell's state.
pub struct CliV {
    pub fss: Seq<FileSystemEntryV>,
    pub limiter: LimiterSettings,
    pub show_counts: bool,
}

impl View for ExaminerCli {
    type V = CliV;

    closed spec fn view(&self) -> CliV {
        CliV { fss: self.fss@, limiter: self.limiter, show_counts: self.show_counts }
    }
}

/// What one command answers: whether to quit, which help text to show, and
/// the lines to print.
#[derive(Debug)]
pub struct CliReply {
    pub quit: bool,
    pub show_help: bool,
    pub show_expr_help: bool,
    pub lines: Vec<String>,
}

/// Mathematical model of a reply.
pub struct ReplyV {
    pub quit: bool,
    pub show_help: bool,
    pub show_expr_help: bool,
    pub lines: Seq<Seq<char>>,
}

impl View for CliReply {
    type V = ReplyV;

    open spec fn view(&self) -> ReplyV {
        ReplyV {
            quit: self.quit,
            show_help: self.show_help,
            show_expr_help: self.show_expr_help,
            lines: Seq::new(self.lines@.len(), |i: int| self.lines@[i]@),
        }
    }
}

/// A reply that only prints the given lines.
pub open spec fn lines_reply(lines: Seq<Seq<char>>) -> ReplyV {
    ReplyV { quit: false, show_help: false, show_expr_help: false, lines }
}

/// The expression of a traversal command: empty means `%t`.
pub open spec fn s_cli_pred(w: Seq<char>) -> Result<ExprV<AtomV>, Seq<char>> {
    if w.len() == 0 {
        Ok(ExprV::True)
    } else {
        spec_parse(w)
    }
}

/// The counter lines appended when counts are on.
pub open spec fn count_lines(st_entries: usize, st_bytes: u64) -> Seq<Seq<char>> {
    seq![
        "Entries: "@ + spec_dec_nat(st_entries as nat),
        "Bytes: "@ + spec_dec_nat(st_bytes as nat),
    ]
}

/// What a `list`/`longlist` command does: parse the expression, walk every
/// snapshot through a limiter around a list printer, then report the
/// printer's lines, a traversal error as one more line, and the counters
/// when they are on.
pub open spec fn s_run_list(c: CliV, w: Seq<char>, long: bool) -> Result<Seq<Seq<char>>, Seq<char>> {
    match s_cli_pred(w) {
        Err(m) => Err(m),
        Ok(ev) => {
            let st0 = DumpSt {
                w: LimV {
                    settings: c.limiter,
                    stack: Seq::<(usize, usize)>::empty(),
                    w: ListPV { long, lines: Seq::<Seq<char>>::empty() },
                },
                entries: 0usize,
                bytes: 0u64,
            };
            let (st1, r) = s_dump::<Limiter<ListPrinter>>(
                |d: FsDataV| spec_eval(ev, d),
                c.fss,
                st0,
            );
            let base = st1.w.w.lines;
            let with_err = match r {
                Ok(u) => base,
                Err(m) => base.push(m),
            };
            Ok(
                if c.show_counts {
                    with_err + count_lines(st1.entries, st1.bytes)
                } else {
                    with_err
                },
            )
        },
    }
}

/// The tree printer a `tree`/`ntree` command starts from.
pub open spec fn tree_start(numbered: bool) -> BPV {
    BPV {
        mode: if numbered {
            IndentMode::Numbered
        } else {
            IndentMode::Spaces
        },
        indent: 0usize,
        ifs: Option::<usize>::None,
        ifs_shown: Option::<usize>::None,
        dir: Seq::<Seq<char>>::empty(),
        last_dir: Seq::<Seq<char>>::empty(),
        marks: Seq::<nat>::empty(),
        lines: Seq::<Seq<char>>::empty(),
    }
}

/// What a `tree`/`ntree` command does, with the tree printer inside.
pub open spec fn s_run_tree(c: CliV, w: Seq<char>, numbered: bool) -> Result<
    Seq<Seq<char>>,
    Seq<char>,
> {
    match s_cli_pred(w) {
        Err(m) => Err(m),
        Ok(ev) => {
            let st0 = DumpSt {
                w: LimV {
                    settings: c.limiter,
                    stack: Seq::<(usize, usize)>::empty(),
                    w: tree_start(numbered),
                },
                entries: 0usize,
                bytes: 0u64,
            };
            let (st1, r) = s_dump::<Limiter<BasicPrinter>>(
                |d: FsDataV| spec_eval(ev, d),
                c.fss,
                st0,
            );
            let base = st1.w.w.lines;
            let with_err = match r {
                Ok(u) => base,
                Err(m) => base.push(m),
            };
            Ok(
                if c.show_counts {
                    with_err + count_lines(st1.entries, st1.bytes)
                } else {
                    with_err
                },
            )
        },
    }
}

/// The `drives` listing from index `i` on.
pub open spec fn drives_lines(fss: Seq<FileSystemEntryV>, i: int) -> Seq<Seq<char>>
    decreases fss.len() - i,
{
    if i < 0 || i >= fss.len() {
        Seq::empty()
    } else {
        seq!["  "@ + spec_pad_left(spec_dec_nat(i as nat), 3) + seq![' '] + fss[i].origin]
            + drives_lines(fss, i + 1)
    }
}

/// The `drives` listing reads the snapshots off in order.
proof fn lemma_drives_lines(fss: Seq<FileSystemEntryV>, i: int)
    requires
        0 <= i <= fss.len(),
    ensures
        drives_lines(fss, i).len() == fss.len() - i,
        forall|j: int|
            i <= j < fss.len() ==> #[trigger] drives_lines(fss, i)[j - i] == "  "@
                + spec_pad_left(spec_dec_nat(j as nat), 3) + seq![' '] + fss[j].origin,
    decreases fss.len() - i,
{
    if i < fss.len() {
        lemma_drives_lines(fss, i + 1);
        assert forall|j: int|
            i <= j < fss.len() implies #[trigger] drives_lines(fss, i)[j - i] == "  "@
            + spec_pad_left(spec_dec_nat(j as nat), 3) + seq![' '] + fss[j].origin by {
            if j > i {
                assert(drives_lines(fss, i)[j - i] == drives_lines(fss, i + 1)[j - (i + 1)]);
            }
        }
    }
}

/// The same, phrased for the start of the listing.
proof fn lemma_drives_lines0(fss: Seq<FileSystemEntryV>)
    ensures
        drives_lines(fss, 0).len() == fss.len(),
        forall|j: int|
            0 <= j < fss.len() ==> #[trigger] drives_lines(fss, 0)[j] == "  "@ + spec_pad_left(
                spec_dec_nat(j as nat),
                3,
            ) + seq![' '] + fss[j].origin,
    decreases fss.len(),
{
    lemma_drives_lines(fss, 0);
    assert forall|j: int|
        0 <= j < fss.len() implies #[trigger] drives_lines(fss, 0)[j] == "  "@ + spec_pad_left(
        spec_dec_nat(j as nat),
        3,
    ) + seq![' '] + fss[j].origin by {
        assert(drives_lines(fss, 0)[j - 0] == "  "@ + spec_pad_left(
            spec_dec_nat(j as nat),
            3,
        ) + seq![' '] + fss[j].origin);
    }
}

/// What one input line does to the shell: the new state and the reply, or
/// an error that the prompt reports before it continues.
pub open spec fn s_handle_input(c: CliV, input: Seq<char>) -> (CliV, Result<ReplyV, Seq<char>>) {
    let t = spec_trim(input);
    let vw = spec_split(t);
    let v = vw.0;
    let w = vw.1;
    if v == "list"@ || v == "ls"@ {
        match s_run_list(c, w, false) {
            Err(m) => (c, Err(m)),
            Ok(lines) => (c, Ok(lines_reply(lines))),
        }
    } else if v == "longlist"@ || v == "ll"@ {
        match s_run_list(c, w, true) {
            Err(m) => (c, Err(m)),
            Ok(lines) => (c, Ok(lines_reply(lines))),
        }
    } else if v == "tree"@ || v == "tr"@ {
        match s_run_tree(c, w, false) {
            Err(m) => (c, Err(m)),
            Ok(lines) => (c, Ok(lines_reply(lines))),
        }
    } else if v == "ntree"@ || v == "ntr"@ {
        match s_run_tree(c, w, true) {
            Err(m) => (c, Err(m)),
            Ok(lines) => (c, Ok(lines_reply(lines))),
        }
    } else if v == "maxdepth"@ || v == "maxd"@ {
        match spec_limit(w) {
            Err(m) => (c, Err(m)),
            Ok(n) => (
                CliV { limiter: LimiterSettings { max_depth: n, ..c.limiter }, ..c },
                Ok(lines_reply(Seq::empty())),
            ),
        }
    } else if v == "maxbreadth"@ || v == "maxb"@ {
        match spec_limit(w) {
            Err(m) => (c, Err(m)),
            Ok(n) => (
                CliV { limiter: LimiterSettings { max_breadth: n, ..c.limiter }, ..c },
                Ok(lines_reply(Seq::empty())),
            ),
        }
    } else if v == "maxent"@ || v == "maxe"@ {
        match spec_limit(w) {
            Err(m) => (c, Err(m)),
            Ok(n) => (
                CliV { limiter: LimiterSettings { max_entries: n, ..c.limiter }, ..c },
                Ok(lines_reply(Seq::empty())),
            ),
        }
    } else if v == "maxdepth?"@ || v == "maxd?"@ {
        (c, Ok(lines_reply(seq![spec_show_limit(c.limiter.max_depth)])))
    } else if v == "maxbreadth?"@ || v == "maxb?"@ {
        (c, Ok(lines_reply(seq![spec_show_limit(c.limiter.max_breadth)])))
    } else if v == "maxent?"@ || v == "maxe?"@ {
        (c, Ok(lines_reply(seq![spec_show_limit(c.limiter.max_entries)])))
    } else if v == "drives"@ {
        (c, Ok(lines_reply(seq!["Drives:"@] + drives_lines(c.fss, 0))))
    } else if v == "counts"@ {
        (
            CliV { show_counts: true, ..c },
            Ok(lines_reply(seq!["Will show counts"@])),
        )
    } else if v == "nocounts"@ {
        (
            CliV { show_counts: false, ..c },
            Ok(lines_reply(seq!["Won't show counts"@])),
        )
    } else if v == "quit"@ {
        (
            c,
            Ok(
                ReplyV {
                    quit: true,
                    show_help: false,
                    show_expr_help: false,
                    lines: Seq::empty(),
                },
            ),
        )
    } else if v == "help"@ || v == "h"@ {
        (
            c,
            Ok(
                ReplyV {
                    quit: false,
                    show_help: true,
                    show_expr_help: false,
                    lines: Seq::empty(),
                },
            ),
        )
    } else if v == "help-expr"@ || v == "he"@ {
        (
            c,
            Ok(
                ReplyV {
                    quit: false,
                    show_help: false,
                    show_expr_help: true,
                    lines: Seq::empty(),
                },
            ),
        )
    } else if v.len() == 0 {
        (c, Ok(lines_reply(Seq::empty())))
    } else {
        (c, Err("Unknown command"@))
    }
}

/// The characters `v[a..b]`.
fn subvec(v: &Vec<char>, a: usize, b: usize) -> (r: Vec<char>)
    requires
        a <= b <= v@.len(),
    ensures
        r@ =~= v@.subrange(a as int, b as int),
{
    let mut r: Vec<char> = Vec::new();
    let mut i: usize = a;
    while i < b
        invariant
            a <= i <= b <= v@.len(),
            r@ =~= v@.subrange(a as int, i as int),
        decreases b - i,
    {
        r.push(v[i]);
        i = i + 1;
        proof {
            assert(r@ =~= v@.subrange(a as int, i as int));
        }
    }
    r
}

fn ws_at(c: char) -> (b: bool)
    ensures
        b == is_ws(c),
{
    c == ' ' || c == '\t' || c == '\n' || c == '\r' || c == '\u{B}' || c == '\u{C}'
}

/// Trims whitespace off both ends, as `spec_trim` describes.
fn trim_chars(v: &Vec<char>) -> (r: Vec<char>)
    ensures
        r@ =~= spec_trim(v@),
{
    let n = v.len();
    let mut a: usize = 0;
    while a < n && ws_at(v[a])
        invariant
            a <= n,
            n == v@.len(),
            first_nonws(v@, 0) == first_nonws(v@, a as int),
        decreases n - a,
    {
        a = a + 1;
    }
    proof {
        assert(first_nonws(v@, 0) == a as int);
    }
    let mut b: usize = n;
    while b > 0 && ws_at(v[b - 1])
        invariant
            b <= n,
            n == v@.len(),
            last_nonws(v@, n as int) == last_nonws(v@, b as int),
        decreases b,
    {
        b = b - 1;
    }
    proof {
        assert(last_nonws(v@, n as int) == b as int);
    }
    if a <= b {
        subvec(v, a, b)
    } else {
        Vec::new()
    }
}

/// Splits at the first space, as `spec_split` describes.
fn split_first_space(v: &Vec<char>) -> (r: (Vec<char>, Vec<char>))
    ensures
        r.0@ =~= spec_split(v@).0,
        r.1@ =~= spec_split(v@).1,
{
    let n = v.len();
    let mut k: usize = 0;
    while k < n && v[k] != ' '
        invariant
            k <= n,
            n == v@.len(),
            first_space(v@, 0) == first_space(v@, k as int),
        decreases n - k,
    {
        k = k + 1;
    }
    proof {
        assert(first_space(v@, 0) == k as int);
    }
    if k < n {
        (subvec(v, 0, k), subvec(v, k + 1, n))
    } else {
        (subvec(v, 0, n), Vec::new())
    }
}

/// Reads a limit argument, as `spec_limit` describes.
fn parse_limit(w: &Vec<char>) -> (r: Res<usize>)
    ensures
        match spec_limit(w@) {
            Ok(n) => r matches Ok(m) && m == n,
            Err(msg) => r matches Err(e) && e@ == msg,
        },
{
    if chars_eq_str(w, "u") {
        return Ok(usize::MAX);
    }
    let (val, j, over) = scan_num_x(w, 0);
    if w.len() > 0 && j == w.len() && !over && val <= usize::MAX as u64 {
        Ok(val as usize)
    } else {
        Err(error("Invalid limit"))
    }
}

/// Builds a reply, exposing its lines' models.
fn mk_reply(quit: bool, show_help: bool, show_expr_help: bool, lines: Vec<String>) -> (r: CliReply)
    ensures
        r@.quit == quit,
        r@.show_help == show_help,
        r@.show_expr_help == show_expr_help,
        r@.lines =~= Seq::new(lines@.len(), |i: int| lines@[i]@),
        lines@.len() == 0 ==> r@.lines =~= Seq::<Seq<char>>::empty(),
{
    CliReply { quit, show_help, show_expr_help, lines }
}

impl ExaminerCli {
    pub fn new(fss: FileSystems) -> (r: Self)
        ensures
            r@ == (CliV {
                fss: fss@,
                limiter: LimiterSettings {
                    max_depth: usize::MAX,
                    max_breadth: usize::MAX,
                    max_entries: usize::MAX,
                },
                show_counts: false,
            }),
    {
        ExaminerCli { fss, limiter: Default::default(), show_counts: false }
    }

    /// Runs a `list`/`longlist` command, as `s_run_list` describes; with
    /// polling on, the exact outcome is promised only for a poll that can
    /// never answer true.
    fn run_list<F: Fn() -> bool>(
        &self,
        w: &Vec<char>,
        long: bool,
        use_intr: bool,
        intr: &F,
    ) -> (r: Res<Vec<String>>)
        requires
            call_requires(*intr, ()),
        ensures
            (!use_intr || no_interrupt(*intr)) ==> match s_run_list(self@, w@, long) {
                Err(m) => r matches Err(e) && e@ == m,
                Ok(ls) => r matches Ok(v) && Seq::new(v@.len(), |i: int| v@[i]@) =~= ls,
            },
    {
        let ws = string_of_chars(w);
        let expr: Expr<FsAtom> = if ws.as_str().is_empty() {
            Expr::True
        } else {
            match Expr::parse(ws.as_str()) {
                Ok(e) => e,
                Err(e) => {
                    return Err(e);
                },
            }
        };
        let ghost ev = (match s_cli_pred(w@) {
            Ok(e) => e,
            Err(m) => ExprV::True,
        });
        proof {
            assert(expr@ == ev);
            assert(pred_of(expr) =~= (|d: FsDataV| spec_eval(ev, d)));
        }
        let lp = ListPrinter::new(long);
        let lim = Limiter::new(&self.limiter, lp);
        let mut dp = Dumper::new(lim);
        proof {
            assert(dp.st() == (DumpSt {
                w: LimV {
                    settings: self@.limiter,
                    stack: Seq::<(usize, usize)>::empty(),
                    w: ListPV { long, lines: Seq::<Seq<char>>::empty() },
                },
                entries: 0usize,
                bytes: 0u64,
            }));
        }
        let rr = if use_intr {
            dp.dump_interruptible(&self.fss, &expr, intr)
        } else {
            dp.dump(&self.fss, &expr)
        };
        let entries = dp.matching_entries;
        let bytes = dp.matching_bytes;
        let lim2 = dp.into_inner();
        let lp2 = lim2.into_inner();
        let mut lines = lp2.into_lines();
        let ghost base = Seq::new(lines@.len(), |i: int| lines@[i]@);
        match rr {
            Err(e) => {
                lines.push(e.msg);
            },
            Ok(u) => {},
        }
        if self.show_counts {
            let mut l1 = "Entries: ".to_owned();
            let es = dec_usize(entries);
            l1.append(es.as_str());
            lines.push(l1);
            let mut l2 = "Bytes: ".to_owned();
            let bs = dec_u64(bytes);
            l2.append(bs.as_str());
            lines.push(l2);
        }
        proof {
            if !use_intr || no_interrupt(*intr) {
                let spec_lines = (match s_run_list(self@, w@, long) {
                    Ok(ls) => ls,
                    Err(m) => Seq::empty(),
                });
                assert(Seq::new(lines@.len(), |i: int| lines@[i]@) =~= spec_lines);
            }
        }
        Ok(lines)
    }

    /// Runs a `tree`/`ntree` command, as `s_run_tree` describes; with
    /// polling on, the exact outcome is promised only for a poll that can
    /// never answer true.
    fn run_tree<F: Fn() -> bool>(
        &self,
        w: &Vec<char>,
        numbered: bool,
        use_intr: bool,
        intr: &F,
    ) -> (r: Res<Vec<String>>)
        requires
            call_requires(*intr, ()),
        ensures
            (!use_intr || no_interrupt(*intr)) ==> match s_run_tree(self@, w@, numbered) {
                Err(m) => r matches Err(e) && e@ == m,
                Ok(ls) => r matches Ok(v) && Seq::new(v@.len(), |i: int| v@[i]@) =~= ls,
            },
    {
        let ws = string_of_chars(w);
        let expr: Expr<FsAtom> = if ws.as_str().is_empty() {
            Expr::True
        } else {
            match Expr::parse(ws.as_str()) {
                Ok(e) => e,
                Err(e) => {
                    return Err(e);
                },
            }
        };
        let ghost ev = (match s_cli_pred(w@) {
            Ok(e) => e,
            Err(m) => ExprV::True,
        });
        proof {
            assert(expr@ == ev);
            assert(pred_of(expr) =~= (|d: FsDataV| spec_eval(ev, d)));
        }
        let mut bp = BasicPrinter::new();
        if numbered {
            bp.set_indent_mode(IndentMode::Numbered);
        }
        let lim = Limiter::new(&self.limiter, bp);
        let mut dp = Dumper::new(lim);
        proof {
            assert(dp.st() == (DumpSt {
                w: LimV {
                    settings: self@.limiter,
                    stack: Seq::<(usize, usize)>::empty(),
                    w: tree_start(numbered),
                },
                entries: 0usize,
                bytes: 0u64,
            }));
        }
        let rr = if use_intr {
            dp.dump_interruptible(&self.fss, &expr, intr)
        } else {
            dp.dump(&self.fss, &expr)
        };
        let entries = dp.matching_entries;
        let bytes = dp.matching_bytes;
        let lim2 = dp.into_inner();
        let bp2 = lim2.into_inner();
        let mut lines = bp2.into_lines();
        match rr {
            Err(e) => {
                lines.push(e.msg);
            },
            Ok(u) => {},
        }
        if self.show_counts {
            let mut l1 = "Entries: ".to_owned();
            let es = dec_usize(entries);
            l1.append(es.as_str());
            lines.push(l1);
            let mut l2 = "Bytes: ".to_owned();
            let bs = dec_u64(bytes);
            l2.append(bs.as_str());
            lines.push(l2);
        }
        proof {
            if !use_intr || no_interrupt(*intr) {
                let spec_lines = (match s_run_tree(self@, w@, numbered) {
                    Ok(ls) => ls,
                    Err(m) => Seq::empty(),
                });
                assert(Seq::new(lines@.len(), |i: int| lines@[i]@) =~= spec_lines);
            }
        }
        Ok(lines)
    }

    /// The `drives` listing.
    fn list_drives(&self) -> (r: Vec<String>)
        ensures
            Seq::new(r@.len(), |i: int| r@[i]@) =~= seq!["Drives:"@] + drives_lines(self@.fss, 0),
    {
        let mut lines: Vec<String> = Vec::new();
        lines.push("Drives:".to_owned());
        proof {
            lemma_drives_lines0(self@.fss);
        }
        let n = self.fss.systems.len();
        let mut i: usize = 0;
        while i < n
            invariant
                i <= n,
                n == self.fss.systems@.len(),
                self@.fss.len() == n,
                forall|j: int| 0 <= j < n ==> #[trigger] self@.fss[j] == self.fss.systems@[j]@,
                Seq::new(lines@.len(), |k: int| lines@[k]@) =~= seq!["Drives:"@] + (
                    drives_lines(self@.fss, 0).subrange(0, i as int)
                ),
                drives_lines(self@.fss, 0).len() == n,
                forall|j: int|
                    0 <= j < n ==> #[trigger] drives_lines(self@.fss, 0)[j] == "  "@
                        + spec_pad_left(spec_dec_nat(j as nat), 3) + seq![' '] + self@.fss[
                        j
                    ].origin,
            decreases n - i,
        {
            let mut l = "  ".to_owned();
            let num = dec_usize(i);
            let p = pad_left(num.as_str(), 3);
            l.append(p.as_str());
            crate::render::push_char(&mut l, ' ');
            l.append(self.fss.systems[i].origin.as_str());
            let ghost lv = l@;
            proof {
                assert(self@.fss[i as int] == self.fss.systems@[i as int]@);
                assert(lv =~= "  "@ + spec_pad_left(spec_dec_nat(i as nat), 3) + seq![' ']
                    + self@.fss[i as int].origin);
                assert(lv == drives_lines(self@.fss, 0)[i as int]);
            }
            let ghost pre = Seq::new(lines@.len(), |k: int| lines@[k]@);
            lines.push(l);
            i = i + 1;
            proof {
                assert(Seq::new(lines@.len(), |k: int| lines@[k]@) =~= pre.push(lv));
                assert(drives_lines(self@.fss, 0).subrange(0, i as int) =~= drives_lines(
                    self@.fss,
                    0,
                ).subrange(0, i - 1).push(drives_lines(self@.fss, 0)[i - 1]));
                assert(Seq::new(lines@.len(), |k: int| lines@[k]@) =~= seq!["Drives:"@]
                    + drives_lines(self@.fss, 0).subrange(0, i as int));
            }
        }
        proof {
            assert(drives_lines(self@.fss, 0).subrange(0, n as int) =~= drives_lines(
                self@.fss,
                0,
            ));
        }
        lines
    }

    /// Handles one input line, as `s_handle_input` describes.  An error is
    /// reported to the user and the prompt continues.
    pub fn handle_input(&mut self, u: &str) -> (r: Res<CliReply>)
        ensures
            ({
                let (c2, rr) = s_handle_input(old(self)@, u@);
                &&& final(self)@ == c2
                &&& match rr {
                    Ok(rv) => r matches Ok(rep) && rep@ == rv,
                    Err(m) => r matches Err(e) && e@ == m,
                }
            }),
    {
        let f = (|| false);
        self.handle_line(u, false, &f)
    }

    /// Like `handle_input`, but traversal commands poll `intr` before each
    /// child visit and abort with an interruption error when a poll answers
    /// true; that aborts the command, not the shell.  The exact outcome is
    /// promised only for a poll that can never answer true.
    pub fn handle_input_interruptible<F: Fn() -> bool>(&mut self, u: &str, intr: &F) -> (r: Res<
        CliReply,
    >)
        requires
            call_requires(*intr, ()),
        ensures
            no_interrupt(*intr) ==> ({
                let (c2, rr) = s_handle_input(old(self)@, u@);
                &&& final(self)@ == c2
                &&& match rr {
                    Ok(rv) => r matches Ok(rep) && rep@ == rv,
                    Err(m) => r matches Err(e) && e@ == m,
                }
            }),
    {
        self.handle_line(u, true, intr)
    }

    fn handle_line<F: Fn() -> bool>(&mut self, u: &str, use_intr: bool, intr: &F) -> (r: Res<
        CliReply,
    >)
        requires
            call_requires(*intr, ()),
        ensures
            (!use_intr || no_interrupt(*intr)) ==> ({
                let (c2, rr) = s_handle_input(old(self)@, u@);
                &&& final(self)@ == c2
                &&& match rr {
                    Ok(rv) => r matches Ok(rep) && rep@ == rv,
                    Err(m) => r matches Err(e) && e@ == m,
                }
            }),
    {
        let chars = chars_of_str(u);
        let t = trim_chars(&chars);
        let (v, w) = split_first_space(&t);
        if chars_eq_str(&v, "list") || chars_eq_str(&v, "ls") {
            let lines = match self.run_list(&w, false, use_intr, intr) {
                Ok(l) => l,
                Err(e) => {
                    return Err(e);
                },
            };
            Ok(mk_reply(false, false, false, lines))
        } else if chars_eq_str(&v, "longlist") || chars_eq_str(&v, "ll") {
            let lines = match self.run_list(&w, true, use_intr, intr) {
                Ok(l) => l,
                Err(e) => {
                    return Err(e);
                },
            };
            Ok(mk_reply(false, false, false, lines))
        } else if chars_eq_str(&v, "tree") || chars_eq_str(&v, "tr") {
            let lines = match self.run_tree(&w, false, use_intr, intr) {
                Ok(l) => l,
                Err(e) => {
                    return Err(e);
                },
            };
            Ok(mk_reply(false, false, false, lines))
        } else if chars_eq_str(&v, "ntree") || chars_eq_str(&v, "ntr") {
            let lines = match self.run_tree(&w, true, use_intr, intr) {
                Ok(l) => l,
                Err(e) => {
                    return Err(e);
                },
            };
            Ok(mk_reply(false, false, false, lines))
        } else if chars_eq_str(&v, "maxdepth") || chars_eq_str(&v, "maxd") {
            let n = match parse_limit(&w) {
                Ok(n) => n,
                Err(e) => {
                    return Err(e);
                },
            };
            self.limiter.max_depth = n;
            Ok(mk_reply(false, false, false, Vec::new()))
        } else if chars_eq_str(&v, "maxbreadth") || chars_eq_str(&v, "maxb") {
            let n = match parse_limit(&w) {
                Ok(n) => n,
                Err(e) => {
                    return Err(e);
                },
            };
            self.limiter.max_breadth = n;
            Ok(mk_reply(false, false, false, Vec::new()))
        } else if chars_eq_str(&v, "maxent") || chars_eq_str(&v, "maxe") {
            let n = match parse_limit(&w) {
                Ok(n) => n,
                Err(e) => {
                    return Err(e);
                },
            };
            self.limiter.max_entries = n;
            Ok(mk_reply(false, false, false, Vec::new()))
        } else if chars_eq_str(&v, "maxdepth?") || chars_eq_str(&v, "maxd?") {
            Ok(mk_reply(false, false, false, self.show_limit(self.limiter.max_depth)))
        } else if chars_eq_str(&v, "maxbreadth?") || chars_eq_str(&v, "maxb?") {
            Ok(mk_reply(false, false, false, self.show_limit(self.limiter.max_breadth)))
        } else if chars_eq_str(&v, "maxent?") || chars_eq_str(&v, "maxe?") {
            Ok(mk_reply(false, false, false, self.show_limit(self.limiter.max_entries)))
        } else if chars_eq_str(&v, "drives") {
            Ok(mk_reply(false, false, false, self.list_drives()))
        } else if chars_eq_str(&v, "counts") {
            self.show_counts = true;
            let mut lines: Vec<String> = Vec::new();
            lines.push("Will show counts".to_owned());
            proof {
                assert(Seq::new(lines@.len(), |i: int| lines@[i]@) =~= seq![
                    "Will show counts"@,
                ]);
            }
            Ok(mk_reply(false, false, false, lines))
        } else if chars_eq_str(&v, "nocounts") {
            self.show_counts = false;
            let mut lines: Vec<String> = Vec::new();
            lines.push("Won't show counts".to_owned());
            proof {
                assert(Seq::new(lines@.len(), |i: int| lines@[i]@) =~= seq![
                    "Won't show counts"@,
                ]);
            }
            Ok(mk_reply(false, false, false, lines))
        } else if chars_eq_str(&v, "quit") {
            Ok(mk_reply(true, false, false, Vec::new()))
        } else if chars_eq_str(&v, "help") || chars_eq_str(&v, "h") {
            Ok(mk_reply(false, true, false, Vec::new()))
        } else if chars_eq_str(&v, "help-expr") || chars_eq_str(&v, "he") {
            Ok(mk_reply(false, false, true, Vec::new()))
        } else if v.len() == 0 {
            Ok(mk_reply(false, false, false, Vec::new()))
        } else {
            Err(error("Unknown command"))
        }
    }

    /// One line showing a cap: `unlimited` or the count.
    fn show_limit(&self, n: usize) -> (r: Vec<String>)
        ensures
            Seq::new(r@.len(), |i: int| r@[i]@) =~= seq![spec_show_limit(n)],
    {
        let mut lines: Vec<String> = Vec::new();
        if n == usize::MAX {
            lines.push("unlimited".to_owned());
        } else {
            lines.push(dec_usize(n));
        }
        proof {
            assert(Seq::new(lines@.len(), |i: int| lines@[i]@) =~= seq![spec_show_limit(n)]);
        }
        lines
    }
}

} // verus!
