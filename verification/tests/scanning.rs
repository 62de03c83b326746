//! Scanner decisions and the progress counter.
use fsmap::counter::Counter;
use fsmap::fsmap::{FileInfo, Mounts};
use fsmap::scanner::{record_inode, Scanner, Watcher};

struct Quiet;

impl Watcher for Quiet {
    fn notify(&mut self, _path: &str) {}
    fn error(&mut self, _path: &str) {}
}

#[test]
fn inode_recorded_once() {
    let mut mounts = Mounts::new();
    record_inode(&mut mounts, 1, 10, FileInfo { size: 1, time: 5 });
    record_inode(&mut mounts, 1, 10, FileInfo { size: 999, time: 999 });
    let d = mounts.get_device(1).unwrap();
    let fi = d.get_inode(10).unwrap();
    assert_eq!(fi.size, 1);
    assert_eq!(fi.time, 5);
    record_inode(&mut mounts, 2, 10, FileInfo { size: 7, time: 8 });
    assert_eq!(mounts.get_device(2).unwrap().get_inode(10).unwrap().size, 7);
    assert_eq!(mounts.get_device(1).unwrap().get_inode(10).unwrap().size, 1);
}

#[test]
fn one_device_gate() {
    let mut sc = Scanner::new(Quiet, true);
    assert!(!sc.check_device(5));
    assert!(!sc.check_device(5));
    assert!(sc.check_device(6));
    let mut free = Scanner::new(Quiet, false);
    assert!(!free.check_device(5));
    assert!(!free.check_device(6));
}

#[test]
fn file_info_minutes() {
    let fi = FileInfo::of_stat(5, 120, 60, 180);
    assert_eq!(fi.time, 3);
    assert_eq!(fi.size, 5);
    let neg = FileInfo::of_stat(5, -120, -180, -61);
    assert_eq!(neg.time, -1); // -61 / 60 rounds toward zero
    assert_eq!(fi.unix_time(), 180);
}

#[test]
fn counter_cadence_and_summary() {
    let mut c = Counter::new();
    assert!(c.notify("/a").is_none()); // count 1, mask 1
    let line = c.notify("/b").unwrap(); // count 2
    assert_eq!(line, format!("{:8} {:8} /b", 2, 0));
    assert!(c.error("/c").is_none()); // count 3
    let line2 = c.error("/d").unwrap(); // count 4
    assert_eq!(line2, format!("{:8} {:8} /d", 2, 2));
    c.adjust(false, true); // printing too fast: widen the mask
    assert_eq!(c.mask, 3);
    c.adjust(true, false);
    assert_eq!(c.mask, 1);
    assert_eq!(c.summary(), "Total: 2, errors: 2");
}
