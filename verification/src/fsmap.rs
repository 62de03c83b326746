//! Snapshot data model: directory trees, per-device inode tables, file metadata.
//!
//! A snapshot (`FileSystem`) pairs a mount table (`Mounts`) with a root
//! `Directory`.  The mount table maps device ids to `Device` records, and a
//! device record maps inode numbers to `FileInfo`.  Both maps are stored as
//! vectors of key/value pairs; their mathematical meaning is given by
//! `assoc_map`, where the first occurrence of a key decides its value.
use vstd::prelude::*;

verus! {

broadcast use vstd::std_specs::vec::axiom_vec_index_decreases;

/// Size and coarse timestamp recorded for one inode.  `time` holds minutes
/// since the POSIX epoch; the seconds-precision timestamp is `time * 60`.
#[derive(Clone, Copy, PartialEq, Eq, Structural, Debug)]
pub struct FileInfo {
    pub size: u64,
    pub time: i32,
}

/// One entry of a directory tree.
#[derive(Debug)]
pub enum Entry {
    Dir(Directory),
    File(u64),
    Symlink(String),
    Other(u64),
    Error(String),
}

/// A directory: owning device id plus ordered named children.
#[derive(Debug)]
pub struct Directory {
    pub dev: u64,
    pub entries: Vec<(String, Entry)>,
}

/// Per-device record: inode number to file info, first occurrence wins.
#[derive(Debug)]
pub struct Device {
    pub inodes: Vec<(u64, FileInfo)>,
}

/// Mount table: device id to device record, first occurrence wins.
#[derive(Debug)]
pub struct Mounts {
    pub devices: Vec<(u64, Device)>,
}

/// One snapshot: a mount table and the scanned root directory.
#[derive(Debug)]
pub struct FileSystem {
    pub mounts: Mounts,
    pub root: Directory,
}

/// A loaded snapshot together with the name it was loaded from.
#[derive(Debug)]
pub struct FileSystemEntry {
    pub origin: String,
    pub fs: FileSystem,
}

/// The ordered collection of loaded snapshots; the index into `systems` is
/// the drive id seen by the predicate language.
#[derive(Debug)]
pub struct FileSystems {
    pub systems: Vec<FileSystemEntry>,
}

/// Mathematical model of an `Entry`.
pub enum EntryV {
    Dir(DirectoryV),
    File(u64),
    Symlink(Seq<char>),
    Other(u64),
    Error(Seq<char>),
}

/// Mathematical model of a `Directory`.
pub struct DirectoryV {
    pub dev: u64,
    pub entries: Seq<(Seq<char>, EntryV)>,
}

/// Mathematical model of a `FileSystem`.
pub struct FileSystemV {
    pub mounts: Seq<(u64, Seq<(u64, FileInfo)>)>,
    pub root: DirectoryV,
}

/// Mathematical model of a `FileSystemEntry`.
pub struct FileSystemEntryV {
    pub origin: Seq<char>,
    pub fs: FileSystemV,
}

/// The map described by an association list, first occurrence of a key deciding.
/// `assoc_from(s, i)` reads only the pairs from index `i` on.
pub open spec fn assoc_from<V>(s: Seq<(u64, V)>, i: int) -> Map<u64, V>
    decreases s.len() - i,
{
    if i < 0 || i >= s.len() {
        Map::empty()
    } else {
        assoc_from(s, i + 1).insert(s[i].0, s[i].1)
    }
}

/// The map described by a whole association list.
pub open spec fn assoc_map<V>(s: Seq<(u64, V)>) -> Map<u64, V> {
    assoc_from(s, 0)
}

/// A key is in the map of `s[i..]` exactly when some pair there carries it.
pub proof fn lemma_assoc_from_contains<V>(s: Seq<(u64, V)>, i: int, k: u64)
    requires
        0 <= i <= s.len(),
    ensures
        assoc_from(s, i).dom().contains(k) <==> exists|j: int| i <= j < s.len() && s[j].0 == k,
    decreases s.len() - i,
{
    if i < s.len() {
        lemma_assoc_from_contains(s, i + 1, k);
    }
}

/// Skipping pairs whose key is not `k` does not change what `k` maps to.
pub proof fn lemma_assoc_skip<V>(s: Seq<(u64, V)>, i: int, k: u64)
    requires
        0 <= i <= s.len(),
        forall|j: int| 0 <= j < i ==> s[j].0 != k,
    ensures
        assoc_map(s).dom().contains(k) == assoc_from(s, i).dom().contains(k),
        assoc_from(s, i).dom().contains(k) ==> assoc_map(s)[k] == assoc_from(s, i)[k],
    decreases i,
{
    if i > 0 {
        lemma_assoc_skip_once(s, i - 1, k);
        lemma_assoc_skip(s, i - 1, k);
    }
}

proof fn lemma_assoc_skip_once<V>(s: Seq<(u64, V)>, i: int, k: u64)
    requires
        0 <= i < s.len(),
        s[i].0 != k,
    ensures
        assoc_from(s, i).dom().contains(k) == assoc_from(s, i + 1).dom().contains(k),
        assoc_from(s, i).dom().contains(k) ==> assoc_from(s, i)[k] == assoc_from(s, i + 1)[k],
{
}

/// The first pair carrying `k` decides what `k` maps to.
pub proof fn lemma_assoc_first_match<V>(s: Seq<(u64, V)>, i: int, k: u64)
    requires
        0 <= i < s.len(),
        s[i].0 == k,
        forall|j: int| 0 <= j < i ==> s[j].0 != k,
    ensures
        assoc_map(s).dom().contains(k),
        assoc_map(s)[k] == s[i].1,
{
    lemma_assoc_skip(s, i, k);
}

/// Appending a pair with a fresh key adds exactly that binding.
pub proof fn lemma_assoc_push<V>(s: Seq<(u64, V)>, k: u64, v: V)
    requires
        forall|j: int| 0 <= j < s.len() ==> s[j].0 != k,
    ensures
        assoc_map(s.push((k, v))) == assoc_map(s).insert(k, v),
{
    lemma_assoc_push_from(s, 0, k, v);
    assert(assoc_map(s.push((k, v))) =~= assoc_map(s).insert(k, v));
}

proof fn lemma_assoc_push_from<V>(s: Seq<(u64, V)>, i: int, k: u64, v: V)
    requires
        0 <= i <= s.len(),
        forall|j: int| 0 <= j < s.len() ==> s[j].0 != k,
    ensures
        assoc_from(s.push((k, v)), i) =~= assoc_from(s, i).insert(k, v),
    decreases s.len() - i,
{
    let s2 = s.push((k, v));
    if i >= s.len() {
        assert(assoc_from(s2, i + 1) =~= Map::empty());
    } else {
        lemma_assoc_push_from(s, i + 1, k, v);
        assert(s2[i] == s[i]);
        assert(assoc_from(s2, i) =~= assoc_from(s, i).insert(k, v));
    }
}

/// Overwriting the first pair that carries `k` updates exactly that binding.
pub proof fn lemma_assoc_update<V>(s: Seq<(u64, V)>, i: int, k: u64, v: V)
    requires
        0 <= i < s.len(),
        s[i].0 == k,
        forall|j: int| 0 <= j < i ==> s[j].0 != k,
    ensures
        assoc_map(s.update(i, (k, v))) == assoc_map(s).insert(k, v),
{
    lemma_assoc_update_from(s, 0, i, k, v);
    assert(assoc_map(s.update(i, (k, v))) =~= assoc_map(s).insert(k, v));
}

proof fn lemma_assoc_update_from<V>(s: Seq<(u64, V)>, a: int, i: int, k: u64, v: V)
    requires
        0 <= a <= s.len(),
        0 <= i < s.len(),
        s[i].0 == k,
        forall|j: int| 0 <= j < i ==> s[j].0 != k,
    ensures
        a <= i ==> assoc_from(s.update(i, (k, v)), a) =~= assoc_from(s, a).insert(k, v),
        a > i ==> assoc_from(s.update(i, (k, v)), a) =~= assoc_from(s, a),
    decreases s.len() - a,
{
    let s2 = s.update(i, (k, v));
    if a < s.len() {
        lemma_assoc_update_from(s, a + 1, i, k, v);
        if a == i {
            lemma_assoc_from_insert_absorb(s, a + 1, k, v);
        }
    }
}

/// Inserting a binding for `k` hides any binding the tail gives `k`.
proof fn lemma_assoc_from_insert_absorb<V>(s: Seq<(u64, V)>, i: int, k: u64, v: V)
    requires
        0 <= i <= s.len(),
    ensures
        assoc_from(s, i).insert(k, v) =~= assoc_from(s, i).remove(k).insert(k, v),
{
}

/// Finds the position of the first pair carrying `key`, if any.
pub fn assoc_position<V>(v: &Vec<(u64, V)>, key: u64) -> (r: Option<usize>)
    ensures
        match r {
            Some(i) => {
                &&& i < v@.len()
                &&& v@[i as int].0 == key
                &&& forall|j: int| 0 <= j < i ==> v@[j].0 != key
            },
            None => forall|j: int| 0 <= j < v@.len() ==> v@[j].0 != key,
        },
{
    let mut i: usize = 0;
    while i < v.len()
        invariant
            i <= v@.len(),
            forall|j: int| 0 <= j < i ==> v@[j].0 != key,
        decreases v@.len() - i,
    {
        if v[i].0 == key {
            return Some(i);
        }
        i = i + 1;
    }
    None
}

/// Looks a key up in an association list, as `assoc_map` reads it.
pub fn assoc_get<'a, V>(v: &'a Vec<(u64, V)>, key: u64) -> (r: Option<&'a V>)
    ensures
        match r {
            Some(x) => assoc_map(v@).dom().contains(key) && *x == assoc_map(v@)[key],
            None => !assoc_map(v@).dom().contains(key),
        },
{
    let pos = assoc_position(v, key);
    match pos {
        Some(i) => {
            proof {
                lemma_assoc_first_match(v@, i as int, key);
            }
            Some(&v[i].1)
        },
        None => {
            proof {
                lemma_assoc_from_contains(v@, 0, key);
            }
            None
        },
    }
}

/// The first `n` children of `v`, as model pairs.
pub open spec fn entries_view(v: Vec<(String, Entry)>, n: int) -> Seq<(Seq<char>, EntryV)>
    decreases v, n,
{
    if n <= 0 || n > v.len() {
        Seq::empty()
    } else {
        entries_view(v, n - 1).push((v[n - 1].0@, v[n - 1].1@))
    }
}

/// Two vectors that agree on their first `n` children have the same model there.
proof fn lemma_entries_view_agree(v1: Vec<(String, Entry)>, v2: Vec<(String, Entry)>, n: int)
    requires
        0 <= n <= v1.len(),
        n <= v2.len(),
        forall|i: int| 0 <= i < n ==> v1[i] == v2[i],
    ensures
        entries_view(v1, n) == entries_view(v2, n),
    decreases n,
{
    if n > 0 {
        lemma_entries_view_agree(v1, v2, n - 1);
    }
}

/// The model of the first `n` children lists them in order.
pub proof fn lemma_entries_view_index(v: Vec<(String, Entry)>, n: int)
    requires
        0 <= n <= v.len(),
    ensures
        entries_view(v, n).len() == n,
        forall|i: int|
            0 <= i < n ==> #[trigger] entries_view(v, n)[i] == (v[i].0@, v[i].1@),
    decreases n,
{
    if n > 0 {
        lemma_entries_view_index(v, n - 1);
        let s = entries_view(v, n);
        assert(s == entries_view(v, n - 1).push((v[n - 1].0@, v[n - 1].1@)));
        assert forall|i: int| 0 <= i < n implies #[trigger] s[i] == (v[i].0@, v[i].1@) by {
            if i < n - 1 {
                assert(s[i] == entries_view(v, n - 1)[i]);
            }
        }
    }
}

impl View for Entry {
    type V = EntryV;

    open spec fn view(&self) -> EntryV
        decreases self,
    {
        match self {
            Entry::Dir(d) => EntryV::Dir(d.view()),
            Entry::File(ino) => EntryV::File(*ino),
            Entry::Symlink(t) => EntryV::Symlink(t@),
            Entry::Other(ino) => EntryV::Other(*ino),
            Entry::Error(m) => EntryV::Error(m@),
        }
    }
}

impl View for Directory {
    type V = DirectoryV;

    open spec fn view(&self) -> DirectoryV
        decreases self,
    {
        DirectoryV { dev: self.dev, entries: entries_view(self.entries, self.entries@.len() as int) }
    }
}

impl View for Device {
    type V = Seq<(u64, FileInfo)>;

    open spec fn view(&self) -> Seq<(u64, FileInfo)> {
        self.inodes@
    }
}

impl Device {
    /// The inode table this record describes.
    pub open spec fn inode_map(&self) -> Map<u64, FileInfo> {
        assoc_map(self@)
    }

    pub fn new() -> (r: Self)
        ensures
            r@ =~= Seq::<(u64, FileInfo)>::empty(),
            r.inode_map() =~= Map::<u64, FileInfo>::empty(),
    {
        let r = Device { inodes: Vec::new() };
        proof {
            lemma_assoc_from_contains(r@, 0, 0);
            assert(r.inode_map() =~= Map::<u64, FileInfo>::empty());
        }
        r
    }

    /// Whether this device record already holds the given inode.
    pub fn has_inode(&mut self, ino: u64) -> (r: bool)
        ensures
            *final(self) == *old(self),
            r == old(self).inode_map().dom().contains(ino),
    {
        let pos = assoc_position(&self.inodes, ino);
        proof {
            lemma_assoc_from_contains(self@, 0, ino);
        }
        pos.is_some()
    }

    /// Records file info for an inode, overwriting an existing record.
    pub fn insert_inode(&mut self, ino: u64, fi: FileInfo)
        ensures
            final(self).inode_map() == old(self).inode_map().insert(ino, fi),
    {
        let pos = assoc_position(&self.inodes, ino);
        match pos {
            Some(i) => {
                proof {
                    lemma_assoc_update(self@, i as int, ino, fi);
                }
                let slot = &mut self.inodes[i];
                *slot = (ino, fi);
            },
            None => {
                proof {
                    lemma_assoc_push(self@, ino, fi);
                }
                self.inodes.push((ino, fi));
            },
        }
    }

    /// Reads the file info recorded for an inode, if any.
    pub fn get_inode(&self, ino: u64) -> (r: Option<&FileInfo>)
        ensures
            match r {
                Some(fi) => self.inode_map().dom().contains(ino) && *fi == self.inode_map()[ino],
                None => !self.inode_map().dom().contains(ino),
            },
    {
        assoc_get(&self.inodes, ino)
    }
}

/// The model of a mount table: its device list, each device as its pair list.
pub open spec fn mounts_view(v: Vec<(u64, Device)>) -> Seq<(u64, Seq<(u64, FileInfo)>)> {
    Seq::new(v.len() as nat, |i: int| (v[i].0, v[i].1@))
}

impl View for Mounts {
    type V = Seq<(u64, Seq<(u64, FileInfo)>)>;

    open spec fn view(&self) -> Seq<(u64, Seq<(u64, FileInfo)>)> {
        mounts_view(self.devices)
    }
}

impl Mounts {
    /// The device table this mount table describes.
    pub open spec fn device_map(&self) -> Map<u64, Seq<(u64, FileInfo)>> {
        assoc_map(self@)
    }

    pub fn new() -> (r: Self)
        ensures
            r@ =~= Seq::<(u64, Seq<(u64, FileInfo)>)>::empty(),
            r.device_map() =~= Map::<u64, Seq<(u64, FileInfo)>>::empty(),
    {
        let r = Mounts { devices: Vec::new() };
        proof {
            assert(r.device_map() =~= Map::<u64, Seq<(u64, FileInfo)>>::empty());
        }
        r
    }

    /// Makes sure a (possibly empty) record exists for the given device.
    pub fn ensure_device(&mut self, dev: u64)
        ensures
            old(self).device_map().dom().contains(dev) ==> *final(self) == *old(self),
            !old(self).device_map().dom().contains(dev) ==> {
                &&& final(self)@ =~= old(self)@.push((dev, Seq::<(u64, FileInfo)>::empty()))
                &&& final(self).device_map() == old(self).device_map().insert(
                    dev,
                    Seq::<(u64, FileInfo)>::empty(),
                )
            },
    {
        let pos = assoc_position(&self.devices, dev);
        proof {
            lemma_assoc_from_contains(self@, 0, dev);
            match pos {
                Some(i) => {
                    assert(self@[i as int].0 == self.devices@[i as int].0);
                },
                None => {
                    assert(forall|j: int| 0 <= j < self@.len() ==> #[trigger] self@[j].0
                        == self.devices@[j].0);
                },
            }
        }
        if pos.is_none() {
            let ghost s0 = self@;
            self.devices.push((dev, Device::new()));
            proof {
                assert(self@ =~= s0.push((dev, Seq::<(u64, FileInfo)>::empty())));
                lemma_assoc_push(s0, dev, Seq::<(u64, FileInfo)>::empty());
            }
        }
    }

    /// Finds the slot of a device record, creating one first if needed.
    /// The caller mutates `devices` at the returned index.
    pub fn get_device_mut(&mut self, dev: u64) -> (r: Option<usize>)
        ensures
            old(self).device_map().dom().contains(dev) ==> *final(self) == *old(self),
            !old(self).device_map().dom().contains(dev) ==> final(self).device_map()
                == old(self).device_map().insert(dev, Seq::<(u64, FileInfo)>::empty()),
            match r {
                Some(i) => {
                    &&& i < final(self).devices@.len()
                    &&& final(self).devices@[i as int].0 == dev
                    &&& forall|j: int| 0 <= j < i ==> final(self).devices@[j].0 != dev
                },
                None => false,
            },
    {
        self.ensure_device(dev);
        let pos = assoc_position(&self.devices, dev);
        proof {
            assert(exists|j: int| 0 <= j < self@.len() && self@[j].0 == dev) by {
                if !old(self).device_map().dom().contains(dev) {
                    assert(self@[self@.len() - 1].0 == dev);
                } else {
                    lemma_assoc_from_contains(self@, 0, dev);
                }
            }
        }
        pos
    }

    /// Reads the device record for a device id, if any.
    pub fn get_device(&self, dev: u64) -> (r: Option<&Device>)
        ensures
            match r {
                Some(d) => self.device_map().dom().contains(dev) && d@ == self.device_map()[dev],
                None => !self.device_map().dom().contains(dev),
            },
    {
        let pos = assoc_position(&self.devices, dev);
        match pos {
            Some(i) => {
                proof {
                    lemma_assoc_first_match(self@, i as int, dev);
                }
                Some(&self.devices[i].1)
            },
            None => {
                proof {
                    lemma_assoc_from_contains(self@, 0, dev);
                }
                None
            },
        }
    }
}

impl View for FileSystem {
    type V = FileSystemV;

    open spec fn view(&self) -> FileSystemV {
        FileSystemV { mounts: self.mounts@, root: self.root@ }
    }
}

impl View for FileSystemEntry {
    type V = FileSystemEntryV;

    open spec fn view(&self) -> FileSystemEntryV {
        FileSystemEntryV { origin: self.origin@, fs: self.fs@ }
    }
}

impl View for FileSystems {
    type V = Seq<FileSystemEntryV>;

    open spec fn view(&self) -> Seq<FileSystemEntryV> {
        Seq::new(self.systems@.len(), |i: int| self.systems@[i]@)
    }
}

impl FileSystems {
    pub fn new() -> (r: Self)
        ensures
            r@ =~= Seq::<FileSystemEntryV>::empty(),
    {
        FileSystems { systems: Vec::new() }
    }

    /// Adds a loaded snapshot at the end of the drive list.
    pub fn push(&mut self, fse: FileSystemEntry)
        ensures
            final(self)@ =~= old(self)@.push(fse@),
    {
        self.systems.push(fse);
    }
}

impl FileInfo {
    /// The seconds-precision timestamp reconstructed from the stored minutes.
    pub fn unix_time(&self) -> (r: i64)
        ensures
            r == self.time as int * 60,
    {
        self.time as i64 * 60
    }

    /// The stored minute value for the given stat times: the latest of the
    /// three, in whole minutes, rounded toward zero.
    pub open spec fn spec_minutes(mtime: i64, atime: i64, ctime: i64) -> int {
        let m = if mtime >= atime && mtime >= ctime {
            mtime as int
        } else if atime >= ctime {
            atime as int
        } else {
            ctime as int
        };
        if m >= 0 {
            m / 60
        } else {
            -((-m) / 60)
        }
    }

    /// Builds the record for one inode from its stat results.
    pub fn of_stat(size: u64, mtime: i64, atime: i64, ctime: i64) -> (r: FileInfo)
        requires
            -0x8000_0000 * 60 <= mtime <= 0x7fff_ffff * 60 + 59,
            -0x8000_0000 * 60 <= atime <= 0x7fff_ffff * 60 + 59,
            -0x8000_0000 * 60 <= ctime <= 0x7fff_ffff * 60 + 59,
        ensures
            r.size == size,
            r.time as int == Self::spec_minutes(mtime, atime, ctime),
    {
        let m = if mtime >= atime && mtime >= ctime {
            mtime
        } else if atime >= ctime {
            atime
        } else {
            ctime
        };
        let q: i64 = if m >= 0 {
            m / 60
        } else {
            -((-m) / 60)
        };
        FileInfo { size, time: q as i32 }
    }
}

impl Directory {
    pub fn new(dev: u64) -> (r: Self)
        ensures
            r@.dev == dev,
            r@.entries =~= Seq::<(Seq<char>, EntryV)>::empty(),
    {
        Directory { dev, entries: Vec::new() }
    }

    /// Appends a named child; children keep the order of insertion.
    pub fn insert(&mut self, name: String, entry: Entry)
        ensures
            final(self)@.dev == old(self)@.dev,
            final(self)@.entries =~= old(self)@.entries.push((name@, entry@)),
    {
        let ghost n = self.entries@.len() as int;
        let ghost p = (name@, entry@);
        self.entries.push((name, entry));
        proof {
            lemma_entries_view_agree(old(self).entries, self.entries, n);
            assert(self@.entries =~= old(self)@.entries.push(p));
        }
    }
}

} // verus!
