//! End-to-end traversals through the examine shell's command handling.
use fsmap::boolean::Expr;
use fsmap::dumper::Dumper;
use fsmap::entry_collector::EntryCollector;
use fsmap::examiner_cli::ExaminerCli;
use fsmap::fsexpr::FsAtom;
use fsmap::fsmap::{Directory, Entry, FileInfo, FileSystem, FileSystemEntry, FileSystems, Mounts};
use fsmap::scanner::record_inode;

/// The sample tree: /a (dir), /a/x.txt, /a/sub, /a/sub/y, /z (symlink).
fn sample() -> FileSystems {
    let mut mounts = Mounts::new();
    record_inode(&mut mounts, 1, 10, FileInfo { size: 1024, time: 27000000 });
    record_inode(&mut mounts, 1, 11, FileInfo { size: 2048, time: 27500000 });
    let mut sub = Directory::new(1);
    sub.insert(String::from("y"), Entry::File(11));
    let mut a = Directory::new(1);
    a.insert(String::from("x.txt"), Entry::File(10));
    a.insert(String::from("sub"), Entry::Dir(sub));
    let mut root = Directory::new(1);
    root.insert(String::from("a"), Entry::Dir(a));
    root.insert(String::from("z"), Entry::Symlink(String::from("/tmp")));
    let fs = FileSystem { mounts, root };
    let mut fss = FileSystems::new();
    fss.push(FileSystemEntry { origin: String::from("test"), fs });
    fss
}

fn lines(cli: &mut ExaminerCli, cmd: &str) -> Vec<String> {
    cli.handle_input(cmd).unwrap().lines
}

fn date_of(ts: i64) -> String {
    let d = tz::DateTime::from_timespec(ts, 0, tz::TimeZoneRef::utc()).unwrap();
    format!("{:04}-{:02}-{:02}", d.year(), d.month(), d.month_day())
}

#[test]
fn list_all_preorder() {
    let mut cli = ExaminerCli::new(sample());
    let out = lines(&mut cli, "list %t");
    assert_eq!(out, vec!["0:/a", "0:/a/x.txt", "0:/a/sub", "0:/a/sub/y", "0:/z"]);
}

#[test]
fn list_name_match() {
    let mut cli = ExaminerCli::new(sample());
    assert_eq!(lines(&mut cli, "list %name 'y$'"), vec!["0:/a/sub/y"]);
}

#[test]
fn list_larger() {
    let mut cli = ExaminerCli::new(sample());
    assert_eq!(lines(&mut cli, "list %larger 1500"), vec!["0:/a/sub/y"]);
}

#[test]
fn list_before_boundaries() {
    let mut cli = ExaminerCli::new(sample());
    // x.txt sits at 27000000 min * 60 = 1620000000 s, after new year 2021
    assert_eq!(lines(&mut cli, "list %before 2021-01-01"), Vec::<String>::new());
    // an exact tie: 1620000000 s is midnight UTC, and the bound is inclusive
    let tie = date_of(1620000000);
    assert_eq!(
        lines(&mut cli, &format!("list %before {}", tie)),
        vec!["0:/a/x.txt"]
    );
    assert_eq!(lines(&mut cli, "list %after 2030-01-01"), Vec::<String>::new());
}

#[test]
fn longlist_annotations() {
    let mut cli = ExaminerCli::new(sample());
    let out = lines(&mut cli, "longlist %t");
    assert_eq!(out[0], "0:/a/");
    assert_eq!(out[1], format!("0:/a/x.txt 1024 {}", date_of(1620000000)));
    assert_eq!(out[3], format!("0:/a/sub/y 2048 {}", date_of(1650000000)));
    assert_eq!(out[4], "0:/z -> \"/tmp\"");
}

#[test]
fn tree_with_depth_cap() {
    let mut cli = ExaminerCli::new(sample());
    assert_eq!(lines(&mut cli, "maxdepth 2"), Vec::<String>::new());
    let out = lines(&mut cli, "tree %t");
    let date = date_of(1620000000);
    assert_eq!(
        out,
        vec![
            String::from("DRV test"),
            format!("{:21} a", "DIR"),
            format!("{:21} a/", "   "),
            format!("{:10} {}   x.txt", 1024, date),
            format!("{:21}   sub", "DIR"),
            format!("{:21}     ...", "   "),
            format!("{:21} z -> \"/tmp\"", "SYML"),
        ]
    );
}

#[test]
fn max_entries_cuts_siblings() {
    let mut cli = ExaminerCli::new(sample());
    lines(&mut cli, "maxent 1");
    assert_eq!(lines(&mut cli, "list %t"), vec!["0:/a", "0:/a/x.txt"]);
}

#[test]
fn max_breadth_cuts_directories() {
    // two sibling directories: only the first may be entered
    let mut mounts = Mounts::new();
    record_inode(&mut mounts, 1, 21, FileInfo { size: 1, time: 0 });
    record_inode(&mut mounts, 1, 22, FileInfo { size: 2, time: 0 });
    let mut d1 = Directory::new(1);
    d1.insert(String::from("f1"), Entry::File(21));
    let mut d2 = Directory::new(1);
    d2.insert(String::from("f2"), Entry::File(22));
    let mut root = Directory::new(1);
    root.insert(String::from("d1"), Entry::Dir(d1));
    root.insert(String::from("d2"), Entry::Dir(d2));
    let fs = FileSystem { mounts, root };
    let mut fss = FileSystems::new();
    fss.push(FileSystemEntry { origin: String::from("b"), fs });
    let mut cli = ExaminerCli::new(fss);
    lines(&mut cli, "maxbreadth 1");
    assert_eq!(
        lines(&mut cli, "list %t"),
        vec!["0:/d1", "0:/d1/f1", "0:/d2"]
    );
}

#[test]
fn max_depth_zero_skips_everything() {
    let mut cli = ExaminerCli::new(sample());
    lines(&mut cli, "maxdepth 0");
    assert_eq!(lines(&mut cli, "list %t"), Vec::<String>::new());
}

#[test]
fn counts_and_queries() {
    let mut cli = ExaminerCli::new(sample());
    assert_eq!(lines(&mut cli, "counts"), vec!["Will show counts"]);
    let out = lines(&mut cli, "list %t");
    assert_eq!(out[out.len() - 2], "Entries: 5");
    assert_eq!(out[out.len() - 1], "Bytes: 3072");
    assert_eq!(lines(&mut cli, "nocounts"), vec!["Won't show counts"]);
    assert_eq!(lines(&mut cli, "maxdepth?"), vec!["unlimited"]);
    lines(&mut cli, "maxdepth 3");
    assert_eq!(lines(&mut cli, "maxdepth?"), vec!["3"]);
    assert_eq!(lines(&mut cli, "drives"), vec!["Drives:", "    0 test"]);
    let q = cli.handle_input("quit").unwrap();
    assert!(q.quit);
    let h = cli.handle_input("help").unwrap();
    assert!(h.show_help);
    let he = cli.handle_input("help-expr").unwrap();
    assert!(he.show_expr_help);
    assert_eq!(
        cli.handle_input("frobnicate").unwrap_err().message().as_str(),
        "Unknown command"
    );
}

#[test]
fn missing_device_warns_once_and_skips() {
    let mounts = Mounts::new();
    let mut root = Directory::new(7);
    root.insert(String::from("ghost"), Entry::File(1));
    let fs = FileSystem { mounts, root };
    let mut fss = FileSystems::new();
    fss.push(FileSystemEntry { origin: String::from("m"), fs });
    let mut cli = ExaminerCli::new(fss);
    assert_eq!(lines(&mut cli, "list %t"), vec!["Cannot find device 7"]);
    let tree = lines(&mut cli, "tree %t");
    assert_eq!(tree, vec!["Cannot find device 7"]);
}

#[test]
fn interruptible_shell_matches_plain() {
    let mut cli1 = ExaminerCli::new(sample());
    let mut cli2 = ExaminerCli::new(sample());
    let plain = cli1.handle_input("list %t").unwrap();
    let polled = cli2
        .handle_input_interruptible("list %t", &|| false)
        .unwrap();
    assert_eq!(plain.lines, polled.lines);
    let aborted = cli2
        .handle_input_interruptible("list %t", &|| true)
        .unwrap();
    // the traversal was cut off; the interruption is reported as a line
    assert_eq!(aborted.lines, vec!["Interrupted"]);
}

#[test]
fn missing_inode_has_no_size() {
    let mut mounts = Mounts::new();
    record_inode(&mut mounts, 1, 10, FileInfo { size: 9, time: 0 });
    let mut root = Directory::new(1);
    root.insert(String::from("known"), Entry::File(10));
    root.insert(String::from("unknown"), Entry::File(99));
    let fs = FileSystem { mounts, root };
    let mut fss = FileSystems::new();
    fss.push(FileSystemEntry { origin: String::from("m"), fs });
    let mut cli = ExaminerCli::new(fss);
    assert_eq!(lines(&mut cli, "list %larger 0"), vec!["0:/known"]);
    let out = lines(&mut cli, "longlist %t");
    assert_eq!(out[1], "0:/unknown NO-INODE 99");
}

#[test]
fn interruptible_dump() {
    let fss = sample();
    let t: Expr<FsAtom> = Expr::True;
    let mut dp = Dumper::new(EntryCollector::new());
    dp.dump_interruptible(&fss, &t, &|| false).unwrap();
    assert_eq!(dp.matching_entries, 5);
    assert_eq!(dp.matching_bytes, 3072);
    let c = dp.into_inner();
    assert_eq!(c.results.len(), 5);
    assert_eq!(c.results[0].path, "/a");
    assert_eq!(c.results[4].name, "z");
    let mut dp2 = Dumper::new(EntryCollector::new());
    let err = dp2.dump_interruptible(&fss, &t, &|| true).unwrap_err();
    assert_eq!(err.message().as_str(), "Interrupted");
}
