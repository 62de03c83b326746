//! The codec: snapshots survive a save and a reload, under both revisions.
use fsmap::codec::{decode_snapshot, encode_snapshot};
use fsmap::fsmap::{Directory, Entry, FileInfo, FileSystem, Mounts};
use fsmap::scanner::record_inode;

fn sample_fs() -> FileSystem {
    let mut mounts = Mounts::new();
    record_inode(&mut mounts, 1, 10, FileInfo { size: 1024, time: 27000000 });
    record_inode(&mut mounts, 1, 11, FileInfo { size: 2048, time: -5 });
    let mut sub = Directory::new(1);
    sub.insert(String::from("y"), Entry::File(11));
    let mut root = Directory::new(1);
    root.insert(String::from("x.txt"), Entry::File(10));
    root.insert(String::from("sub"), Entry::Dir(sub));
    root.insert(String::from("z"), Entry::Symlink(String::from("/tmp")));
    root.insert(String::from("sock"), Entry::Other(77));
    root.insert(String::from("bad"), Entry::Error(String::from("denied")));
    FileSystem { mounts, root }
}

#[test]
fn round_trip_keeps_times_and_tree() {
    let fs = sample_fs();
    let bytes = encode_snapshot(&fs);
    let back = decode_snapshot(&bytes).unwrap();
    let d = back.mounts.get_device(1).unwrap();
    assert_eq!(d.get_inode(10).unwrap().time, 27000000);
    assert_eq!(d.get_inode(10).unwrap().size, 1024);
    assert_eq!(d.get_inode(11).unwrap().time, -5);
    assert_eq!(back.root.dev, 1);
    assert_eq!(back.root.entries.len(), 5);
    assert_eq!(back.root.entries[0].0, "x.txt");
    match &back.root.entries[1].1 {
        Entry::Dir(sub) => {
            assert_eq!(sub.entries[0].0, "y");
            assert!(matches!(sub.entries[0].1, Entry::File(11)));
        },
        e => panic!("not a dir: {:?}", e),
    }
    match &back.root.entries[2].1 {
        Entry::Symlink(t) => assert_eq!(t, "/tmp"),
        e => panic!("not a symlink: {:?}", e),
    }
    // a second round keeps everything again
    let bytes2 = encode_snapshot(&back);
    assert_eq!(bytes, bytes2);
}

fn push_u64(out: &mut Vec<u8>, n: u64) {
    out.extend_from_slice(&n.to_le_bytes());
}

fn push_i64(out: &mut Vec<u8>, n: i64) {
    out.extend_from_slice(&n.to_le_bytes());
}

#[test]
fn legacy_revision_is_accepted() {
    // one device, one inode in the older form with three timestamps
    let mut b: Vec<u8> = Vec::new();
    push_u64(&mut b, 1); // one device
    push_u64(&mut b, 9); // device id
    push_u64(&mut b, 1); // one inode
    push_u64(&mut b, 42); // inode number
    b.push(0u8); // legacy file info
    push_u64(&mut b, 500); // size
    push_i64(&mut b, 1620000000); // modified
    push_i64(&mut b, 1619999999); // accessed
    push_i64(&mut b, 120); // created
    push_u64(&mut b, 9); // root directory device
    push_u64(&mut b, 0); // no children
    let fs = decode_snapshot(&b).unwrap();
    let d = fs.mounts.get_device(9).unwrap();
    let fi = d.get_inode(42).unwrap();
    assert_eq!(fi.size, 500);
    assert_eq!(fi.time, 27000000); // max(1620000000, ...) / 60
}

#[test]
fn unknown_revision_is_rejected() {
    let mut b: Vec<u8> = Vec::new();
    push_u64(&mut b, 1);
    push_u64(&mut b, 9);
    push_u64(&mut b, 1);
    push_u64(&mut b, 42);
    b.push(7u8); // no such revision
    push_u64(&mut b, 500);
    push_i64(&mut b, 0);
    push_i64(&mut b, 0);
    push_i64(&mut b, 0);
    push_u64(&mut b, 9);
    push_u64(&mut b, 0);
    assert!(decode_snapshot(&b).is_err());
}

#[test]
fn trailing_bytes_are_rejected() {
    let fs = sample_fs();
    let mut bytes = encode_snapshot(&fs);
    bytes.push(0);
    assert!(decode_snapshot(&bytes).is_err());
    let empty: Vec<u8> = Vec::new();
    assert!(decode_snapshot(&empty).is_err());
}
