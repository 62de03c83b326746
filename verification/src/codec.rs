//! The snapshot codec: a self-describing tagged binary form.
//!
//! Integers are little-endian; text is a character count followed by each
//! character as a 32-bit scalar; lists are a count followed by the items;
//! entries carry a tag byte.  File info carries a schema tag: the compact
//! revision stores the minute timestamp, and an older revision with three
//! second-resolution timestamps is still accepted on load.  Decoding and
//! encoding invert each other, so everything a snapshot records — the
//! timestamps in particular — survives a save and a reload.
use vstd::prelude::*;

use crate::errors::{error, Res};
use crate::fsmap::{
    entries_view, lemma_entries_view_index, mounts_view, Device, Directory, DirectoryV, Entry,
    EntryV, FileInfo, FileSystem, FileSystemV, Mounts,
};
use crate::render::string_of_chars;

verus! {

broadcast use vstd::std_specs::vec::axiom_vec_index_decreases;

/// `256^k`.
pub open spec fn pow256(k: nat) -> nat
    decreases k,
{
    if k == 0 {
        1
    } else {
        256 * pow256((k - 1) as nat)
    }
}

/// `n` in `k` little-endian bytes.
pub open spec fn enc_le(n: nat, k: nat) -> Seq<u8>
    decreases k,
{
    if k == 0 {
        Seq::empty()
    } else {
        seq![(n % 256) as u8] + enc_le(n / 256, (k - 1) as nat)
    }
}

/// The value of `k` little-endian bytes at `i`.
pub open spec fn dec_le(s: Seq<u8>, i: int, k: nat) -> nat
    decreases k,
{
    if k == 0 || i < 0 || i >= s.len() {
        0
    } else {
        s[i] as nat + 256 * dec_le(s, i + 1, (k - 1) as nat)
    }
}

/// A little-endian encoding holds `k` bytes and reads back as the value.
pub proof fn lemma_le_roundtrip(n: nat, k: nat, s: Seq<u8>, i: int)
    requires
        n < pow256(k),
        0 <= i,
        i + k <= s.len(),
        s.subrange(i, i + k) == enc_le(n, k),
    ensures
        enc_le(n, k).len() == k,
        dec_le(s, i, k) == n,
    decreases k,
{
    lemma_enc_le_len(n, k);
    if k > 0 {
        let rest = enc_le(n / 256, (k - 1) as nat);
        lemma_enc_le_len(n / 256, (k - 1) as nat);
        assert(s.subrange(i, i + k)[0] == s[i]);
        assert(s[i] as nat == n % 256);
        assert(n / 256 < pow256((k - 1) as nat)) by (nonlinear_arith)
            requires
                n < pow256(k),
                pow256(k) == 256 * pow256((k - 1) as nat),
        ;
        assert(s.subrange(i + 1, i + k) =~= rest) by {
            assert(forall|j: int|
                0 <= j < k - 1 ==> #[trigger] s.subrange(i + 1, i + k)[j] == s.subrange(
                    i,
                    i + k,
                )[j + 1]);
        }
        lemma_le_roundtrip(n / 256, (k - 1) as nat, s, i + 1);
        assert(dec_le(s, i, k) == s[i] as nat + 256 * (n / 256));
        assert(s[i] as nat + 256 * (n / 256) == n % 256 + 256 * (n / 256));
    }
}

/// An encoding is as long as asked.
pub proof fn lemma_enc_le_len(n: nat, k: nat)
    ensures
        enc_le(n, k).len() == k,
    decreases k,
{
    if k > 0 {
        lemma_enc_le_len(n / 256, (k - 1) as nat);
    }
}

/// A `u64` in eight bytes.
pub open spec fn enc_u64(n: u64) -> Seq<u8> {
    enc_le(n as nat, 8)
}

/// A `u32` in four bytes.
pub open spec fn enc_u32(n: u32) -> Seq<u8> {
    enc_le(n as nat, 4)
}

/// The bits of an `i64`, as its two's-complement value.
pub open spec fn i64_bits(t: i64) -> nat {
    if t >= 0 {
        t as nat
    } else {
        (t + 0x1_0000_0000_0000_0000) as nat
    }
}

/// The bits of an `i32`.
pub open spec fn i32_bits(t: i32) -> nat {
    if t >= 0 {
        t as nat
    } else {
        (t + 0x1_0000_0000) as nat
    }
}

/// An `i64` in eight bytes.
pub open spec fn enc_i64(t: i64) -> Seq<u8> {
    enc_le(i64_bits(t), 8)
}

/// An `i32` in four bytes.
pub open spec fn enc_i32(t: i32) -> Seq<u8> {
    enc_le(i32_bits(t), 4)
}

/// The `i64` with the given bits.
pub open spec fn i64_of_bits(n: nat) -> i64 {
    if n < 0x8000_0000_0000_0000 {
        n as i64
    } else {
        (n - 0x1_0000_0000_0000_0000) as i64
    }
}

/// The `i32` with the given bits.
pub open spec fn i32_of_bits(n: nat) -> i32 {
    if n < 0x8000_0000 {
        n as i32
    } else {
        (n - 0x1_0000_0000) as i32
    }
}

/// Signed values survive their bit form.
pub proof fn lemma_bits_roundtrip(t: i64, u: i32)
    ensures
        i64_bits(t) < pow256(8),
        i64_of_bits(i64_bits(t)) == t,
        i32_bits(u) < pow256(4),
        i32_of_bits(i32_bits(u)) == u,
{
    lemma_pow256_values();
}

/// The powers of 256 the codec uses.
pub proof fn lemma_pow256_values()
    ensures
        pow256(8) == 0x1_0000_0000_0000_0000,
        pow256(4) == 0x1_0000_0000,
{
    reveal_with_fuel(pow256, 9);
}

/// Text: a character count, then each character as a 32-bit scalar.
pub open spec fn enc_chars(s: Seq<char>, i: int) -> Seq<u8>
    decreases s.len() - i,
{
    if i < 0 || i >= s.len() {
        Seq::empty()
    } else {
        enc_u32(s[i] as u32) + enc_chars(s, i + 1)
    }
}

pub open spec fn enc_str(s: Seq<char>) -> Seq<u8> {
    enc_u64(s.len() as u64) + enc_chars(s, 0)
}

/// The compact file-info revision tag, and the legacy one.
pub open spec fn rev_compact() -> u8 {
    1u8
}

pub open spec fn rev_legacy() -> u8 {
    0u8
}

/// File info: the compact revision stores size and the minute timestamp.
pub open spec fn enc_fileinfo(fi: FileInfo) -> Seq<u8> {
    seq![rev_compact()] + enc_u64(fi.size) + enc_i32(fi.time)
}

/// An entry: a tag byte, then its payload.
pub open spec fn enc_entry(e: EntryV) -> Seq<u8>
    decreases e, 0int, 1int,
{
    match e {
        EntryV::Dir(d) => seq![0u8] + enc_dir(d),
        EntryV::File(ino) => seq![1u8] + enc_u64(ino),
        EntryV::Symlink(t) => seq![2u8] + enc_str(t),
        EntryV::Other(ino) => seq![3u8] + enc_u64(ino),
        EntryV::Error(m) => seq![4u8] + enc_str(m),
    }
}

/// A directory: its device, the child count, then the named children.
pub open spec fn enc_dir(d: DirectoryV) -> Seq<u8>
    decreases d, 0int, 0int,
{
    enc_u64(d.dev) + enc_u64(d.entries.len() as u64) + enc_dir_entries(d.entries, 0)
}

pub open spec fn enc_dir_entries(es: Seq<(Seq<char>, EntryV)>, i: int) -> Seq<u8>
    decreases es, es.len() - i, 2int,
{
    if i < 0 || i >= es.len() {
        Seq::empty()
    } else {
        enc_str(es[i].0) + enc_entry(es[i].1) + enc_dir_entries(es, i + 1)
    }
}

/// A device record: the pair count, then inode/file-info pairs.
pub open spec fn enc_device(dv: Seq<(u64, FileInfo)>, i: int) -> Seq<u8>
    decreases dv.len() - i,
{
    if i < 0 || i >= dv.len() {
        Seq::empty()
    } else {
        enc_u64(dv[i].0) + enc_fileinfo(dv[i].1) + enc_device(dv, i + 1)
    }
}

/// A mount table: the device count, then device-id/record pairs.
pub open spec fn enc_mounts(m: Seq<(u64, Seq<(u64, FileInfo)>)>, i: int) -> Seq<u8>
    decreases m.len() - i,
{
    if i < 0 || i >= m.len() {
        Seq::empty()
    } else {
        enc_u64(m[i].0) + enc_u64(m[i].1.len() as u64) + enc_device(m[i].1, 0) + enc_mounts(
            m,
            i + 1,
        )
    }
}

/// A snapshot: the mount table, then the root directory.
pub open spec fn enc_fs(f: crate::fsmap::FileSystemV) -> Seq<u8> {
    enc_u64(f.mounts.len() as u64) + enc_mounts(f.mounts, 0) + enc_dir(f.root)
}

/// Whether every count in the model fits the on-disk 64-bit counts.
pub open spec fn str_encodable(s: Seq<char>) -> bool {
    s.len() < pow256(8)
}

pub open spec fn entry_encodable(e: EntryV) -> bool
    decreases e, 0int, 1int,
{
    match e {
        EntryV::Dir(d) => dir_encodable(d),
        EntryV::File(ino) => true,
        EntryV::Symlink(t) => str_encodable(t),
        EntryV::Other(ino) => true,
        EntryV::Error(m) => str_encodable(m),
    }
}

pub open spec fn dir_encodable(d: DirectoryV) -> bool
    decreases d, 0int, 0int,
{
    &&& d.entries.len() < pow256(8)
    &&& (forall|i: int|
        0 <= i < d.entries.len() ==> str_encodable(#[trigger] d.entries[i].0)
            && entry_encodable(d.entries[i].1))
}

pub open spec fn fs_encodable(f: crate::fsmap::FileSystemV) -> bool {
    &&& f.mounts.len() < pow256(8)
    &&& (forall|i: int| 0 <= i < f.mounts.len() ==> #[trigger] f.mounts[i].1.len() < pow256(8))
    &&& dir_encodable(f.root)
}

/// Bytes left from `i` on; the decoders' termination measure.
pub open spec fn bleft(s: Seq<u8>, i: int) -> int {
    if i <= s.len() {
        s.len() - i
    } else {
        0
    }
}

/// Reads a `u64`: eight bytes.
pub open spec fn dec_u64s(s: Seq<u8>, i: int) -> Option<(u64, nat)> {
    if 0 <= i && i + 8 <= s.len() {
        Some(((dec_le(s, i, 8) % 0x1_0000_0000_0000_0000) as u64, 8nat))
    } else {
        None
    }
}

/// Reads a `u32`: four bytes.
pub open spec fn dec_u32s(s: Seq<u8>, i: int) -> Option<(u32, nat)> {
    if 0 <= i && i + 4 <= s.len() {
        Some(((dec_le(s, i, 4) % 0x1_0000_0000) as u32, 4nat))
    } else {
        None
    }
}

/// Reads an `i32` from its bits.
pub open spec fn dec_i32s(s: Seq<u8>, i: int) -> Option<(i32, nat)> {
    match dec_u32s(s, i) {
        Some(p) => Some((i32_of_bits(p.0 as nat), 4nat)),
        None => None,
    }
}

/// Reads an `i64` from its bits.
pub open spec fn dec_i64s(s: Seq<u8>, i: int) -> Option<(i64, nat)> {
    match dec_u64s(s, i) {
        Some(p) => Some((i64_of_bits(p.0 as nat), 8nat)),
        None => None,
    }
}

/// Whether a 32-bit value is a Unicode scalar, so a character.
pub open spec fn is_scalar_u32(u: u32) -> bool {
    u < 0xD800 || (0xE000 <= u < 0x11_0000)
}

/// Reads `n` characters, each a 32-bit scalar.
pub open spec fn dec_chars(s: Seq<u8>, i: int, n: nat) -> Option<(Seq<char>, nat)>
    decreases n,
{
    if n == 0 {
        Some((Seq::empty(), 0nat))
    } else {
        match dec_u32s(s, i) {
            None => None,
            Some((u, k1)) => if is_scalar_u32(u) {
                match dec_chars(s, i + k1, (n - 1) as nat) {
                    None => None,
                    Some((rest, k2)) => Some((seq![u as char] + rest, k1 + k2)),
                }
            } else {
                None
            },
        }
    }
}

/// Reads text: a character count, then the characters.
pub open spec fn dec_str(s: Seq<u8>, i: int) -> Option<(Seq<char>, nat)> {
    match dec_u64s(s, i) {
        None => None,
        Some((n, k0)) => match dec_chars(s, i + k0, n as nat) {
            None => None,
            Some((cs, k1)) => Some((cs, k0 + k1)),
        },
    }
}

/// Reads file info under either schema revision: the compact form holds the
/// minute timestamp; the legacy form holds three second-resolution
/// timestamps, collapsed to minutes on load.  An unknown tag is rejected,
/// as is a legacy record whose minutes leave the stored range.
pub open spec fn dec_fileinfo(s: Seq<u8>, i: int) -> Option<(FileInfo, nat)> {
    if 0 <= i && i < s.len() {
        if s[i] == rev_compact() {
            match (dec_u64s(s, i + 1), dec_i32s(s, i + 9)) {
                (Some((size, k1)), Some((time, k2))) => Some(
                    (FileInfo { size, time }, 1 + k1 + k2),
                ),
                _ => None,
            }
        } else if s[i] == rev_legacy() {
            match (dec_u64s(s, i + 1), dec_i64s(s, i + 9), dec_i64s(s, i + 17), dec_i64s(
                s,
                i + 25,
            )) {
                (Some((size, _k1)), Some((m, _k2)), Some((a, _k3)), Some((c, _k4))) => {
                    let mins = FileInfo::spec_minutes(m, a, c);
                    if -0x8000_0000 <= mins <= 0x7fff_ffff {
                        Some((FileInfo { size, time: mins as i32 }, 33nat))
                    } else {
                        None
                    }
                },
                _ => None,
            }
        } else {
            None
        }
    } else {
        None
    }
}

/// Reads one entry: a tag byte, then its payload.
pub open spec fn dec_entry(s: Seq<u8>, i: int) -> Option<(EntryV, nat)>
    decreases bleft(s, i), 0int, 1int,
{
    if 0 <= i && i < s.len() {
        if s[i] == 0u8 {
            match dec_dir(s, i + 1) {
                None => None,
                Some((d, k)) => Some((EntryV::Dir(d), 1 + k)),
            }
        } else if s[i] == 1u8 {
            match dec_u64s(s, i + 1) {
                None => None,
                Some((ino, k)) => Some((EntryV::File(ino), 1 + k)),
            }
        } else if s[i] == 2u8 {
            match dec_str(s, i + 1) {
                None => None,
                Some((t, k)) => Some((EntryV::Symlink(t), 1 + k)),
            }
        } else if s[i] == 3u8 {
            match dec_u64s(s, i + 1) {
                None => None,
                Some((ino, k)) => Some((EntryV::Other(ino), 1 + k)),
            }
        } else if s[i] == 4u8 {
            match dec_str(s, i + 1) {
                None => None,
                Some((m, k)) => Some((EntryV::Error(m), 1 + k)),
            }
        } else {
            None
        }
    } else {
        None
    }
}

/// Reads a directory: device, child count, children.
pub open spec fn dec_dir(s: Seq<u8>, i: int) -> Option<(DirectoryV, nat)>
    decreases bleft(s, i), 0int, 0int,
{
    if 0 <= i && i + 16 <= s.len() {
        match (dec_u64s(s, i), dec_u64s(s, i + 8)) {
            (Some((dev, _)), Some((n, _))) => match dec_dir_entries(s, i + 16, n as nat) {
                None => None,
                Some((es, k)) => Some((DirectoryV { dev, entries: es }, 16 + k)),
            },
            _ => None,
        }
    } else {
        None
    }
}

/// Reads `n` named children.
pub open spec fn dec_dir_entries(s: Seq<u8>, i: int, n: nat) -> Option<
    (Seq<(Seq<char>, EntryV)>, nat),
>
    decreases bleft(s, i), n, 2int,
{
    if n == 0 {
        Some((Seq::empty(), 0nat))
    } else if i < 0 {
        None
    } else {
        match dec_str(s, i) {
            None => None,
            Some((nm, k1)) => match dec_entry(s, i + k1) {
                None => None,
                Some((e, k2)) => match dec_dir_entries(s, i + k1 + k2, (n - 1) as nat) {
                    None => None,
                    Some((rest, k3)) => Some((seq![(nm, e)] + rest, k1 + k2 + k3)),
                },
            },
        }
    }
}

/// Reads `n` inode/file-info pairs.
pub open spec fn dec_device(s: Seq<u8>, i: int, n: nat) -> Option<(Seq<(u64, FileInfo)>, nat)>
    decreases n,
{
    if n == 0 {
        Some((Seq::empty(), 0nat))
    } else {
        match dec_u64s(s, i) {
            None => None,
            Some((ino, k1)) => match dec_fileinfo(s, i + k1) {
                None => None,
                Some((fi, k2)) => match dec_device(s, i + k1 + k2, (n - 1) as nat) {
                    None => None,
                    Some((rest, k3)) => Some((seq![(ino, fi)] + rest, k1 + k2 + k3)),
                },
            },
        }
    }
}

/// Reads `n` device-id/record pairs.
pub open spec fn dec_mounts(s: Seq<u8>, i: int, n: nat) -> Option<
    (Seq<(u64, Seq<(u64, FileInfo)>)>, nat),
>
    decreases n,
{
    if n == 0 {
        Some((Seq::empty(), 0nat))
    } else {
        match dec_u64s(s, i) {
            None => None,
            Some((dev, k1)) => match dec_u64s(s, i + k1) {
                None => None,
                Some((cnt, k2)) => match dec_device(s, i + k1 + k2, cnt as nat) {
                    None => None,
                    Some((dv, k3)) => match dec_mounts(s, i + k1 + k2 + k3, (n - 1) as nat) {
                        None => None,
                        Some((rest, k4)) => Some((seq![(dev, dv)] + rest, k1 + k2 + k3 + k4)),
                    },
                },
            },
        }
    }
}

/// Reads a whole snapshot.
pub open spec fn dec_fs(s: Seq<u8>, i: int) -> Option<(crate::fsmap::FileSystemV, nat)> {
    match dec_u64s(s, i) {
        None => None,
        Some((n, k0)) => match dec_mounts(s, i + k0, n as nat) {
            None => None,
            Some((m, k1)) => match dec_dir(s, i + k0 + k1) {
                None => None,
                Some((root, k2)) => Some(
                    (crate::fsmap::FileSystemV { mounts: m, root }, k0 + k1 + k2),
                ),
            },
        },
    }
}

/// Splits a matching subrange over a concatenation.
proof fn lemma_split(s: Seq<u8>, i: int, a: Seq<u8>, b: Seq<u8>)
    requires
        0 <= i,
        i + a.len() + b.len() <= s.len(),
        s.subrange(i, i + a.len() + b.len()) == a + b,
    ensures
        s.subrange(i, i + a.len()) == a,
        s.subrange(i + a.len(), i + a.len() + b.len()) == b,
{
    let al = a.len() as int;
    let bl = b.len() as int;
    assert(s.subrange(i, i + al) =~= a) by {
        assert(forall|j: int|
            0 <= j < al ==> #[trigger] s.subrange(i, i + al)[j] == s.subrange(
                i,
                i + al + bl,
            )[j]);
    }
    assert(s.subrange(i + al, i + al + bl) =~= b) by {
        assert(forall|j: int|
            0 <= j < bl ==> #[trigger] s.subrange(i + al, i + al + bl)[j] == s.subrange(
                i,
                i + al + bl,
            )[j + al]);
    }
}

/// An encoded `u64` reads back as itself.
proof fn lemma_rt_u64(n: u64, s: Seq<u8>, i: int)
    requires
        0 <= i,
        i + 8 <= s.len(),
        s.subrange(i, i + 8) == enc_u64(n),
    ensures
        dec_u64s(s, i) == Some((n, 8nat)),
{
    lemma_pow256_values();
    lemma_le_roundtrip(n as nat, 8, s, i);
}

/// An encoded `u32` reads back as itself.
proof fn lemma_rt_u32(n: u32, s: Seq<u8>, i: int)
    requires
        0 <= i,
        i + 4 <= s.len(),
        s.subrange(i, i + 4) == enc_u32(n),
    ensures
        dec_u32s(s, i) == Some((n, 4nat)),
{
    lemma_pow256_values();
    lemma_le_roundtrip(n as nat, 4, s, i);
}

/// An encoded `i32` reads back as itself.
proof fn lemma_rt_i32(t: i32, s: Seq<u8>, i: int)
    requires
        0 <= i,
        i + 4 <= s.len(),
        s.subrange(i, i + 4) == enc_i32(t),
    ensures
        dec_i32s(s, i) == Some((t, 4nat)),
{
    lemma_pow256_values();
    lemma_bits_roundtrip(0, t);
    lemma_le_roundtrip(i32_bits(t), 4, s, i);
}

/// Encoded characters read back as themselves.
proof fn lemma_rt_chars(cs: Seq<char>, ci: int, s: Seq<u8>, i: int)
    requires
        0 <= ci <= cs.len(),
        0 <= i,
        i + enc_chars(cs, ci).len() <= s.len(),
        s.subrange(i, i + enc_chars(cs, ci).len()) == enc_chars(cs, ci),
    ensures
        enc_chars(cs, ci).len() == 4 * (cs.len() - ci),
        dec_chars(s, i, (cs.len() - ci) as nat) == Some(
            (cs.subrange(ci, cs.len() as int), enc_chars(cs, ci).len() as nat),
        ),
    decreases cs.len() - ci,
{
    lemma_pow256_values();
    if ci >= cs.len() {
        assert(cs.subrange(ci, cs.len() as int) =~= Seq::<char>::empty());
    } else {
        let c = cs[ci];
        let a = enc_u32(c as u32);
        let b = enc_chars(cs, ci + 1);
        lemma_enc_le_len((c as u32) as nat, 4);
        lemma_rt_chars_len(cs, ci + 1);
        lemma_split(s, i, a, b);
        lemma_rt_u32(c as u32, s, i);
        lemma_rt_chars(cs, ci + 1, s, i + 4);
        vstd::utf8::char_is_scalar(c);
        assert(is_scalar_u32(c as u32));
        vstd::utf8::char_u32_cast(c, c as u32);
        assert(((c as u32) as char) == c);
        assert(cs.subrange(ci, cs.len() as int) =~= seq![c] + cs.subrange(
            ci + 1,
            cs.len() as int,
        ));
    }
}

/// The byte length of encoded characters.
proof fn lemma_rt_chars_len(cs: Seq<char>, ci: int)
    requires
        0 <= ci <= cs.len(),
    ensures
        enc_chars(cs, ci).len() == 4 * (cs.len() - ci),
    decreases cs.len() - ci,
{
    if ci < cs.len() {
        lemma_enc_le_len((cs[ci] as u32) as nat, 4);
        lemma_rt_chars_len(cs, ci + 1);
    }
}

/// Encoded text reads back as itself.
proof fn lemma_rt_str(cs: Seq<char>, s: Seq<u8>, i: int)
    requires
        str_encodable(cs),
        0 <= i,
        i + enc_str(cs).len() <= s.len(),
        s.subrange(i, i + enc_str(cs).len()) == enc_str(cs),
    ensures
        enc_str(cs).len() == 8 + 4 * cs.len(),
        dec_str(s, i) == Some((cs, enc_str(cs).len() as nat)),
{
    lemma_pow256_values();
    let n: u64 = cs.len() as u64;
    lemma_enc_le_len(n as nat, 8);
    lemma_rt_chars_len(cs, 0);
    lemma_split(s, i, enc_u64(n), enc_chars(cs, 0));
    lemma_rt_u64(n, s, i);
    lemma_rt_chars(cs, 0, s, i + 8);
    assert(cs.subrange(0, cs.len() as int) =~= cs);
}

/// Encoded file info reads back as itself.
proof fn lemma_rt_fileinfo(fi: FileInfo, s: Seq<u8>, i: int)
    requires
        0 <= i,
        i + enc_fileinfo(fi).len() <= s.len(),
        s.subrange(i, i + enc_fileinfo(fi).len()) == enc_fileinfo(fi),
    ensures
        enc_fileinfo(fi).len() == 13,
        dec_fileinfo(s, i) == Some((fi, 13nat)),
{
    lemma_pow256_values();
    lemma_enc_le_len(fi.size as nat, 8);
    lemma_enc_le_len(i32_bits(fi.time), 4);
    assert(enc_fileinfo(fi) =~= seq![rev_compact()] + (enc_u64(fi.size) + enc_i32(fi.time)));
    lemma_split(s, i, seq![rev_compact()], enc_u64(fi.size) + enc_i32(fi.time));
    assert(s.subrange(i, i + 1)[0] == s[i]);
    assert(s[i] == rev_compact());
    lemma_split(s, i + 1, enc_u64(fi.size), enc_i32(fi.time));
    lemma_rt_u64(fi.size, s, i + 1);
    lemma_rt_i32(fi.time, s, i + 9);
}

/// An encoded entry reads back as itself.
proof fn lemma_rt_entry(e: EntryV, s: Seq<u8>, i: int)
    requires
        entry_encodable(e),
        0 <= i,
        i + enc_entry(e).len() <= s.len(),
        s.subrange(i, i + enc_entry(e).len()) == enc_entry(e),
    ensures
        dec_entry(s, i) == Some((e, enc_entry(e).len() as nat)),
    decreases e, 0int, 1int,
{
    lemma_pow256_values();
    match e {
        EntryV::Dir(d) => {
            lemma_split(s, i, seq![0u8], enc_dir(d));
            assert(s.subrange(i, i + 1)[0] == s[i]);
            lemma_rt_dir(d, s, i + 1);
        },
        EntryV::File(ino) => {
            lemma_enc_le_len(ino as nat, 8);
            lemma_split(s, i, seq![1u8], enc_u64(ino));
            assert(s.subrange(i, i + 1)[0] == s[i]);
            lemma_rt_u64(ino, s, i + 1);
        },
        EntryV::Symlink(t) => {
            lemma_split(s, i, seq![2u8], enc_str(t));
            assert(s.subrange(i, i + 1)[0] == s[i]);
            lemma_rt_str(t, s, i + 1);
        },
        EntryV::Other(ino) => {
            lemma_enc_le_len(ino as nat, 8);
            lemma_split(s, i, seq![3u8], enc_u64(ino));
            assert(s.subrange(i, i + 1)[0] == s[i]);
            lemma_rt_u64(ino, s, i + 1);
        },
        EntryV::Error(m) => {
            lemma_split(s, i, seq![4u8], enc_str(m));
            assert(s.subrange(i, i + 1)[0] == s[i]);
            lemma_rt_str(m, s, i + 1);
        },
    }
}

/// An encoded directory reads back as itself.
proof fn lemma_rt_dir(d: DirectoryV, s: Seq<u8>, i: int)
    requires
        dir_encodable(d),
        0 <= i,
        i + enc_dir(d).len() <= s.len(),
        s.subrange(i, i + enc_dir(d).len()) == enc_dir(d),
    ensures
        dec_dir(s, i) == Some((d, enc_dir(d).len() as nat)),
    decreases d, 0int, 0int,
{
    lemma_pow256_values();
    let n: u64 = d.entries.len() as u64;
    lemma_enc_le_len(d.dev as nat, 8);
    lemma_enc_le_len(n as nat, 8);
    assert(enc_dir(d) =~= enc_u64(d.dev) + (enc_u64(n) + enc_dir_entries(d.entries, 0)));
    lemma_split(s, i, enc_u64(d.dev), enc_u64(n) + enc_dir_entries(d.entries, 0));
    lemma_split(s, i + 8, enc_u64(n), enc_dir_entries(d.entries, 0));
    lemma_rt_u64(d.dev, s, i);
    lemma_rt_u64(n, s, i + 8);
    lemma_rt_dir_entries(d.entries, 0, s, i + 16);
    assert(d.entries.subrange(0, d.entries.len() as int) =~= d.entries);
    assert(d == (DirectoryV { dev: d.dev, entries: d.entries }));
}

/// Encoded children read back as themselves.
proof fn lemma_rt_dir_entries(es: Seq<(Seq<char>, EntryV)>, ci: int, s: Seq<u8>, i: int)
    requires
        0 <= ci <= es.len(),
        forall|j: int|
            0 <= j < es.len() ==> str_encodable(#[trigger] es[j].0) && entry_encodable(es[j].1),
        0 <= i,
        i + enc_dir_entries(es, ci).len() <= s.len(),
        s.subrange(i, i + enc_dir_entries(es, ci).len()) == enc_dir_entries(es, ci),
    ensures
        dec_dir_entries(s, i, (es.len() - ci) as nat) == Some(
            (es.subrange(ci, es.len() as int), enc_dir_entries(es, ci).len() as nat),
        ),
    decreases es, es.len() - ci, 2int,
{
    lemma_pow256_values();
    if ci >= es.len() {
        assert(es.subrange(ci, es.len() as int) =~= Seq::<(Seq<char>, EntryV)>::empty());
    } else {
        let a = enc_str(es[ci].0);
        let b = enc_entry(es[ci].1);
        let c = enc_dir_entries(es, ci + 1);
        assert(enc_dir_entries(es, ci) =~= a + (b + c));
        lemma_split(s, i, a, b + c);
        lemma_split(s, i + a.len(), b, c);
        lemma_rt_str(es[ci].0, s, i);
        lemma_rt_entry(es[ci].1, s, i + a.len());
        lemma_rt_dir_entries(es, ci + 1, s, i + a.len() + b.len());
        assert(es.subrange(ci, es.len() as int) =~= seq![es[ci]] + es.subrange(
            ci + 1,
            es.len() as int,
        ));
        assert(seq![(es[ci].0, es[ci].1)] + es.subrange(ci + 1, es.len() as int) =~= es.subrange(
            ci,
            es.len() as int,
        ));
    }
}

/// An encoded device record reads back as itself.
proof fn lemma_rt_device(dv: Seq<(u64, FileInfo)>, ci: int, s: Seq<u8>, i: int)
    requires
        0 <= ci <= dv.len(),
        0 <= i,
        i + enc_device(dv, ci).len() <= s.len(),
        s.subrange(i, i + enc_device(dv, ci).len()) == enc_device(dv, ci),
    ensures
        dec_device(s, i, (dv.len() - ci) as nat) == Some(
            (dv.subrange(ci, dv.len() as int), enc_device(dv, ci).len() as nat),
        ),
    decreases dv.len() - ci,
{
    lemma_pow256_values();
    if ci >= dv.len() {
        assert(dv.subrange(ci, dv.len() as int) =~= Seq::<(u64, FileInfo)>::empty());
    } else {
        let a = enc_u64(dv[ci].0);
        let b = enc_fileinfo(dv[ci].1);
        let c = enc_device(dv, ci + 1);
        lemma_enc_le_len(dv[ci].0 as nat, 8);
        lemma_enc_le_len(dv[ci].1.size as nat, 8);
        lemma_enc_le_len(i32_bits(dv[ci].1.time), 4);
        assert(enc_device(dv, ci) =~= a + (b + c));
        lemma_split(s, i, a, b + c);
        lemma_split(s, i + a.len(), b, c);
        lemma_rt_u64(dv[ci].0, s, i);
        lemma_rt_fileinfo(dv[ci].1, s, i + 8);
        lemma_rt_device(dv, ci + 1, s, i + a.len() + b.len());
        assert(dv.subrange(ci, dv.len() as int) =~= seq![(dv[ci].0, dv[ci].1)] + dv.subrange(
            ci + 1,
            dv.len() as int,
        ));
    }
}

/// An encoded mount table reads back as itself.
proof fn lemma_rt_mounts(m: Seq<(u64, Seq<(u64, FileInfo)>)>, ci: int, s: Seq<u8>, i: int)
    requires
        0 <= ci <= m.len(),
        forall|j: int| 0 <= j < m.len() ==> #[trigger] m[j].1.len() < pow256(8),
        0 <= i,
        i + enc_mounts(m, ci).len() <= s.len(),
        s.subrange(i, i + enc_mounts(m, ci).len()) == enc_mounts(m, ci),
    ensures
        dec_mounts(s, i, (m.len() - ci) as nat) == Some(
            (m.subrange(ci, m.len() as int), enc_mounts(m, ci).len() as nat),
        ),
    decreases m.len() - ci,
{
    lemma_pow256_values();
    if ci >= m.len() {
        assert(m.subrange(ci, m.len() as int) =~= Seq::<(u64, Seq<(u64, FileInfo)>)>::empty());
    } else {
        let cnt: u64 = m[ci].1.len() as u64;
        let a = enc_u64(m[ci].0);
        let b = enc_u64(cnt);
        let c = enc_device(m[ci].1, 0);
        let d = enc_mounts(m, ci + 1);
        lemma_enc_le_len(m[ci].0 as nat, 8);
        lemma_enc_le_len(cnt as nat, 8);
        assert(enc_mounts(m, ci) =~= a + (b + c + d));
        assert(b + c + d =~= b + (c + d));
        lemma_split(s, i, a, b + c + d);
        lemma_split(s, i + a.len(), b, c + d);
        lemma_split(s, i + a.len() + b.len(), c, d);
        lemma_rt_u64(m[ci].0, s, i);
        lemma_rt_u64(cnt, s, i + 8);
        lemma_rt_device(m[ci].1, 0, s, i + 16);
        assert(m[ci].1.subrange(0, m[ci].1.len() as int) =~= m[ci].1);
        lemma_rt_mounts(m, ci + 1, s, i + a.len() + b.len() + c.len());
        assert(m.subrange(ci, m.len() as int) =~= seq![(m[ci].0, m[ci].1)] + m.subrange(
            ci + 1,
            m.len() as int,
        ));
    }
}

/// A snapshot survives a save and a reload: decoding its encoding gives the
/// same mount table — so the same file info under every recorded device and
/// inode, timestamps included — and the same tree.
pub proof fn lemma_codec_roundtrip(f: crate::fsmap::FileSystemV, s: Seq<u8>, i: int)
    requires
        fs_encodable(f),
        0 <= i,
        i + enc_fs(f).len() <= s.len(),
        s.subrange(i, i + enc_fs(f).len()) == enc_fs(f),
    ensures
        dec_fs(s, i) == Some((f, enc_fs(f).len() as nat)),
{
    lemma_pow256_values();
    let n: u64 = f.mounts.len() as u64;
    lemma_enc_le_len(n as nat, 8);
    assert(enc_fs(f) =~= enc_u64(n) + (enc_mounts(f.mounts, 0) + enc_dir(f.root)));
    lemma_split(s, i, enc_u64(n), enc_mounts(f.mounts, 0) + enc_dir(f.root));
    lemma_split(s, i + 8, enc_mounts(f.mounts, 0), enc_dir(f.root));
    lemma_rt_u64(n, s, i);
    lemma_rt_mounts(f.mounts, 0, s, i + 8);
    assert(f.mounts.subrange(0, f.mounts.len() as int) =~= f.mounts);
    lemma_rt_dir(f.root, s, i + 8 + enc_mounts(f.mounts, 0).len());
    assert(f == (crate::fsmap::FileSystemV { mounts: f.mounts, root: f.root }));
}

/// Decoding the exact encoding of a snapshot gives the snapshot back.
pub proof fn law_snapshot_roundtrip(f: crate::fsmap::FileSystemV)
    requires
        fs_encodable(f),
    ensures
        dec_fs(enc_fs(f), 0) == Some((f, enc_fs(f).len() as nat)),
{
    let s = enc_fs(f);
    assert(s.subrange(0, s.len() as int) =~= s);
    lemma_codec_roundtrip(f, s, 0);
}

/// Little-endian bytes read back below their base.
proof fn lemma_dec_le_bound(s: Seq<u8>, i: int, k: nat)
    ensures
        dec_le(s, i, k) < pow256(k),
    decreases k,
{
    lemma_pow256_pos(k);
    if k > 0 && 0 <= i < s.len() {
        lemma_dec_le_bound(s, i + 1, (k - 1) as nat);
        lemma_pow256_pos((k - 1) as nat);
        let b = s[i] as nat;
        let r = dec_le(s, i + 1, (k - 1) as nat);
        let p = pow256((k - 1) as nat);
        assert(b + 256 * r < 256 * p) by (nonlinear_arith)
            requires
                b < 256,
                r < p,
        ;
    }
}

proof fn lemma_pow256_pos(k: nat)
    ensures
        pow256(k) >= 1,
    decreases k,
{
    if k > 0 {
        lemma_pow256_pos((k - 1) as nat);
    }
}

/// Appends `k` little-endian bytes of `n`; `n` must fit.
fn put_le(out: &mut Vec<u8>, n: u64, k: usize)
    requires
        (n as nat) < pow256(k as nat),
    ensures
        final(out)@ =~= old(out)@ + enc_le(n as nat, k as nat),
{
    let ghost base = old(out)@;
    let mut cur: u64 = n;
    let mut j: usize = 0;
    while j < k
        invariant
            j <= k,
            (cur as nat) < pow256((k - j) as nat),
            out@.len() == base.len() + j,
            out@.subrange(0, base.len() as int) =~= base,
            enc_le(n as nat, k as nat) =~= out@.subrange(base.len() as int, out@.len() as int)
                + enc_le(cur as nat, (k - j) as nat),
        decreases k - j,
    {
        let ghost produced = out@.subrange(base.len() as int, out@.len() as int);
        let b: u8 = (cur % 256) as u8;
        out.push(b);
        proof {
            assert(pow256((k - j) as nat) == 256 * pow256((k - j - 1) as nat));
            assert((cur as nat) / 256 < pow256((k - j - 1) as nat)) by (nonlinear_arith)
                requires
                    (cur as nat) < 256 * pow256((k - j - 1) as nat),
            ;
            assert(enc_le(cur as nat, (k - j) as nat) =~= seq![b] + enc_le(
                (cur as nat) / 256,
                (k - j - 1) as nat,
            ));
            assert(out@.subrange(base.len() as int, out@.len() as int) =~= produced.push(b));
            assert(produced.push(b) + enc_le((cur as nat) / 256, (k - j - 1) as nat) =~= produced
                + enc_le(cur as nat, (k - j) as nat));
            assert(out@.subrange(0, base.len() as int) =~= base);
        }
        cur = cur / 256;
        j = j + 1;
    }
    proof {
        assert(enc_le(cur as nat, 0) =~= Seq::<u8>::empty());
        assert(out@ =~= out@.subrange(0, base.len() as int) + out@.subrange(
            base.len() as int,
            out@.len() as int,
        ));
        assert(out@.subrange(base.len() as int, out@.len() as int) + Seq::<u8>::empty()
            =~= out@.subrange(base.len() as int, out@.len() as int));
    }
}

fn bits_of_i64(t: i64) -> (r: u64)
    ensures
        r as nat == i64_bits(t),
{
    if t >= 0 {
        t as u64
    } else {
        (t - i64::MIN) as u64 + 0x8000_0000_0000_0000u64
    }
}

fn bits_of_i32(t: i32) -> (r: u32)
    ensures
        r as nat == i32_bits(t),
{
    if t >= 0 {
        t as u32
    } else {
        (t - i32::MIN) as u32 + 0x8000_0000u32
    }
}

fn put_u64(out: &mut Vec<u8>, n: u64)
    ensures
        final(out)@ =~= old(out)@ + enc_u64(n),
{
    proof {
        lemma_pow256_values();
    }
    put_le(out, n, 8);
}

fn put_u32(out: &mut Vec<u8>, n: u32)
    ensures
        final(out)@ =~= old(out)@ + enc_u32(n),
{
    proof {
        lemma_pow256_values();
    }
    put_le(out, n as u64, 4);
}

/// Appends text: the character count, then each character's scalar.
fn put_str(out: &mut Vec<u8>, s: &String)
    ensures
        final(out)@ =~= old(out)@ + enc_str(s@),
{
    let chars = crate::render::chars_of_str(s.as_str());
    put_u64(out, chars.len() as u64);
    let ghost base = out@;
    let n = chars.len();
    let mut i: usize = 0;
    while i < n
        invariant
            i <= n,
            n == chars@.len(),
            chars@ =~= s@,
            out@.len() >= base.len(),
            out@.subrange(0, base.len() as int) =~= base,
            enc_chars(s@, 0) =~= out@.subrange(base.len() as int, out@.len() as int) + enc_chars(
                s@,
                i as int,
            ),
        decreases n - i,
    {
        let ghost produced = out@.subrange(base.len() as int, out@.len() as int);
        let c = chars[i];
        put_u32(out, c as u32);
        i = i + 1;
        proof {
            lemma_enc_le_len((c as u32) as nat, 4);
            assert(out@.subrange(base.len() as int, out@.len() as int) =~= produced + enc_u32(
                c as u32,
            ));
            assert(produced + enc_u32(c as u32) + enc_chars(s@, i as int) =~= produced + (enc_u32(
                c as u32,
            ) + enc_chars(s@, i as int)));
            assert(out@.subrange(0, base.len() as int) =~= base);
        }
    }
    proof {
        assert(enc_chars(s@, n as int) =~= Seq::<u8>::empty());
        assert(enc_chars(s@, 0) =~= out@.subrange(base.len() as int, out@.len() as int));
        assert(out@ =~= base + enc_chars(s@, 0));
        assert(out@ =~= old(out)@ + (enc_u64(s@.len() as u64) + enc_chars(s@, 0)));
    }
}

/// Appends file info in the compact revision.
fn put_fileinfo(out: &mut Vec<u8>, fi: &FileInfo)
    ensures
        final(out)@ =~= old(out)@ + enc_fileinfo(*fi),
{
    out.push(1u8);
    put_u64(out, fi.size);
    let bits = bits_of_i32(fi.time);
    put_u32(out, bits);
    proof {
        assert(enc_u32(bits) =~= enc_i32(fi.time));
        assert(final(out)@ =~= old(out)@ + (seq![rev_compact()] + enc_u64(fi.size) + enc_i32(
            fi.time,
        )));
    }
}

/// Appends one entry: its tag, then its payload.
fn put_entry(out: &mut Vec<u8>, e: &Entry)
    ensures
        final(out)@ =~= old(out)@ + enc_entry(e@),
    decreases e, 0int, 1int,
{
    match e {
        Entry::Dir(d) => {
            out.push(0u8);
            put_dir(out, d);
            proof {
                assert(final(out)@ =~= old(out)@ + (seq![0u8] + enc_dir(d@)));
            }
        },
        Entry::File(ino) => {
            out.push(1u8);
            put_u64(out, *ino);
            proof {
                assert(final(out)@ =~= old(out)@ + (seq![1u8] + enc_u64(*ino)));
            }
        },
        Entry::Symlink(t) => {
            out.push(2u8);
            put_str(out, t);
            proof {
                assert(final(out)@ =~= old(out)@ + (seq![2u8] + enc_str(t@)));
            }
        },
        Entry::Other(ino) => {
            out.push(3u8);
            put_u64(out, *ino);
            proof {
                assert(final(out)@ =~= old(out)@ + (seq![3u8] + enc_u64(*ino)));
            }
        },
        Entry::Error(m) => {
            out.push(4u8);
            put_str(out, m);
            proof {
                assert(final(out)@ =~= old(out)@ + (seq![4u8] + enc_str(m@)));
            }
        },
    }
}

/// Appends a directory: device, child count, children.
fn put_dir(out: &mut Vec<u8>, d: &Directory)
    ensures
        final(out)@ =~= old(out)@ + enc_dir(d@),
    decreases d, 0int, 0int,
{
    put_u64(out, d.dev);
    put_u64(out, d.entries.len() as u64);
    proof {
        lemma_entries_view_index(d.entries, d.entries@.len() as int);
    }
    let ghost base = out@;
    let n = d.entries.len();
    let mut i: usize = 0;
    while i < n
        invariant
            i <= n,
            n == d.entries@.len(),
            d@.entries.len() == n,
            forall|j: int|
                0 <= j < n ==> #[trigger] d@.entries[j] == (d.entries[j].0@, d.entries[j].1@),
            out@.len() >= base.len(),
            out@.subrange(0, base.len() as int) =~= base,
            enc_dir_entries(d@.entries, 0) =~= out@.subrange(base.len() as int, out@.len() as int)
                + enc_dir_entries(d@.entries, i as int),
        decreases n - i,
    {
        let ghost produced = out@.subrange(base.len() as int, out@.len() as int);
        let pair = &d.entries[i];
        put_str(out, &pair.0);
        put_entry(out, &pair.1);
        i = i + 1;
        proof {
            assert(out@.subrange(base.len() as int, out@.len() as int) =~= produced + enc_str(
                pair.0@,
            ) + enc_entry(pair.1@));
            assert(d@.entries[i - 1] == (pair.0@, pair.1@));
            assert(enc_dir_entries(d@.entries, i - 1) =~= enc_str(pair.0@) + enc_entry(pair.1@)
                + enc_dir_entries(d@.entries, i as int));
            assert(produced + enc_str(pair.0@) + enc_entry(pair.1@) + enc_dir_entries(
                d@.entries,
                i as int,
            ) =~= produced + (enc_str(pair.0@) + enc_entry(pair.1@) + enc_dir_entries(
                d@.entries,
                i as int,
            )));
            assert(out@.subrange(0, base.len() as int) =~= base);
        }
    }
    proof {
        assert(enc_dir_entries(d@.entries, n as int) =~= Seq::<u8>::empty());
        assert(out@ =~= base + enc_dir_entries(d@.entries, 0));
        assert(out@ =~= old(out)@ + (enc_u64(d.dev) + enc_u64(n as u64) + enc_dir_entries(
            d@.entries,
            0,
        )));
        assert(d@.entries.len() as u64 == n as u64);
    }
}

/// Appends a device record: the pair count, then the pairs.
fn put_device(out: &mut Vec<u8>, d: &Device)
    ensures
        final(out)@ =~= old(out)@ + enc_u64(d@.len() as u64) + enc_device(d@, 0),
{
    put_u64(out, d.inodes.len() as u64);
    let ghost base = out@;
    let n = d.inodes.len();
    let mut i: usize = 0;
    while i < n
        invariant
            i <= n,
            n == d.inodes@.len(),
            d@.len() == n,
            forall|j: int| 0 <= j < n ==> #[trigger] d@[j] == d.inodes@[j],
            out@.len() >= base.len(),
            out@.subrange(0, base.len() as int) =~= base,
            enc_device(d@, 0) =~= out@.subrange(base.len() as int, out@.len() as int)
                + enc_device(d@, i as int),
        decreases n - i,
    {
        let ghost produced = out@.subrange(base.len() as int, out@.len() as int);
        let pair = d.inodes[i];
        put_u64(out, pair.0);
        put_fileinfo(out, &pair.1);
        i = i + 1;
        proof {
            assert(out@.subrange(base.len() as int, out@.len() as int) =~= produced + enc_u64(
                pair.0,
            ) + enc_fileinfo(pair.1));
            assert(d@[i - 1] == pair);
            assert(enc_device(d@, i - 1) =~= enc_u64(pair.0) + enc_fileinfo(pair.1) + enc_device(
                d@,
                i as int,
            ));
            assert(produced + enc_u64(pair.0) + enc_fileinfo(pair.1) + enc_device(d@, i as int)
                =~= produced + (enc_u64(pair.0) + enc_fileinfo(pair.1) + enc_device(
                d@,
                i as int,
            )));
            assert(out@.subrange(0, base.len() as int) =~= base);
        }
    }
    proof {
        assert(enc_device(d@, n as int) =~= Seq::<u8>::empty());
        assert(out@ =~= base + enc_device(d@, 0));
    }
}

/// Encodes a whole snapshot.
pub fn encode_snapshot(fs: &FileSystem) -> (r: Vec<u8>)
    ensures
        r@ =~= enc_fs(fs@),
{
    let mut out: Vec<u8> = Vec::new();
    put_u64(&mut out, fs.mounts.devices.len() as u64);
    let ghost mv = fs.mounts@;
    proof {
        assert(forall|j: int|
            0 <= j < mv.len() ==> #[trigger] mv[j] == (
                fs.mounts.devices@[j].0,
                fs.mounts.devices@[j].1@,
            ));
    }
    let ghost base = out@;
    let n = fs.mounts.devices.len();
    let mut i: usize = 0;
    while i < n
        invariant
            i <= n,
            n == fs.mounts.devices@.len(),
            mv == fs.mounts@,
            mv.len() == n,
            forall|j: int|
                0 <= j < n ==> #[trigger] mv[j] == (
                    fs.mounts.devices@[j].0,
                    fs.mounts.devices@[j].1@,
                ),
            out@.len() >= base.len(),
            out@.subrange(0, base.len() as int) =~= base,
            enc_mounts(mv, 0) =~= out@.subrange(base.len() as int, out@.len() as int) + enc_mounts(
                mv,
                i as int,
            ),
        decreases n - i,
    {
        let ghost produced = out@.subrange(base.len() as int, out@.len() as int);
        let pair = &fs.mounts.devices[i];
        put_u64(&mut out, pair.0);
        put_device(&mut out, &pair.1);
        i = i + 1;
        proof {
            assert(mv[i - 1] == (pair.0, pair.1@));
            assert(out@.subrange(base.len() as int, out@.len() as int) =~= produced + enc_u64(
                pair.0,
            ) + enc_u64(pair.1@.len() as u64) + enc_device(pair.1@, 0));
            assert(enc_mounts(mv, i - 1) =~= enc_u64(pair.0) + enc_u64(pair.1@.len() as u64)
                + enc_device(pair.1@, 0) + enc_mounts(mv, i as int));
            assert(produced + enc_u64(pair.0) + enc_u64(pair.1@.len() as u64) + enc_device(
                pair.1@,
                0,
            ) + enc_mounts(mv, i as int) =~= produced + (enc_u64(pair.0) + enc_u64(
                pair.1@.len() as u64,
            ) + enc_device(pair.1@, 0) + enc_mounts(mv, i as int)));
            assert(out@.subrange(0, base.len() as int) =~= base);
        }
    }
    proof {
        assert(enc_mounts(mv, n as int) =~= Seq::<u8>::empty());
        assert(out@ =~= base + enc_mounts(mv, 0));
    }
    put_dir(&mut out, &fs.root);
    proof {
        assert(out@ =~= enc_u64(mv.len() as u64) + enc_mounts(mv, 0) + enc_dir(fs.root@));
    }
    out
}

/// One step of reading characters.
proof fn lemma_step_chars(b: Seq<u8>, cur: int, left: nat, u: u32, k1: nat)
    requires
        left > 0,
        dec_u32s(b, cur) == Some((u, k1)),
        is_scalar_u32(u),
    ensures
        dec_chars(b, cur, left) == (match dec_chars(b, cur + k1, (left - 1) as nat) {
            None => None::<(Seq<char>, nat)>,
            Some(p) => Some((seq![u as char] + p.0, k1 + p.1)),
        }),
{
}

/// One step of reading named children.
proof fn lemma_step_dir_entries(
    b: Seq<u8>,
    cur: int,
    left: nat,
    nmv: Seq<char>,
    k1: nat,
    ev: EntryV,
    k2: nat,
)
    requires
        left > 0,
        cur >= 0,
        dec_str(b, cur) == Some((nmv, k1)),
        dec_entry(b, cur + k1) == Some((ev, k2)),
    ensures
        dec_dir_entries(b, cur, left) == (match dec_dir_entries(
            b,
            cur + k1 + k2,
            (left - 1) as nat,
        ) {
            None => None::<(Seq<(Seq<char>, EntryV)>, nat)>,
            Some(p) => Some((seq![(nmv, ev)] + p.0, k1 + k2 + p.1)),
        }),
{
}

/// One step of reading device pairs.
proof fn lemma_step_device(b: Seq<u8>, cur: int, left: nat, ino: u64, k1: nat, fi: FileInfo, k2: nat)
    requires
        left > 0,
        dec_u64s(b, cur) == Some((ino, k1)),
        dec_fileinfo(b, cur + k1) == Some((fi, k2)),
    ensures
        dec_device(b, cur, left) == (match dec_device(b, cur + k1 + k2, (left - 1) as nat) {
            None => None::<(Seq<(u64, FileInfo)>, nat)>,
            Some(p) => Some((seq![(ino, fi)] + p.0, k1 + k2 + p.1)),
        }),
{
}

/// One step of reading the mount table.
proof fn lemma_step_mounts(
    b: Seq<u8>,
    cur: int,
    left: nat,
    dev: u64,
    k1: nat,
    cnt: u64,
    k2: nat,
    dv: Seq<(u64, FileInfo)>,
    k3: nat,
)
    requires
        left > 0,
        dec_u64s(b, cur) == Some((dev, k1)),
        dec_u64s(b, cur + k1) == Some((cnt, k2)),
        dec_device(b, cur + k1 + k2, cnt as nat) == Some((dv, k3)),
    ensures
        dec_mounts(b, cur, left) == (match dec_mounts(b, cur + k1 + k2 + k3, (left - 1) as nat) {
            None => None::<(Seq<(u64, Seq<(u64, FileInfo)>)>, nat)>,
            Some(p) => Some((seq![(dev, dv)] + p.0, k1 + k2 + k3 + p.1)),
        }),
{
}

/// Relies on std's `char::from_u32`: `Some` exactly for Unicode scalar
/// values (not a surrogate, at most `char::MAX`), giving the character with
/// that value.
#[verifier::external_body]
fn char_from_u32(u: u32) -> (r: Option<char>)
    ensures
        r is Some == (u < 0xD800 || (0xE000 <= u < 0x11_0000)),
        r matches Some(c) ==> c as u32 == u,
{
    char::from_u32(u)
}

/// Reads `k` little-endian bytes at `pos`.
fn take_le(b: &Vec<u8>, pos: usize, k: usize) -> (r: Option<(u64, usize)>)
    requires
        k <= 8,
    ensures
        match r {
            Some(p) => pos + k <= b@.len() && p.0 as nat == dec_le(b@, pos as int, k as nat)
                && p.1 == pos + k,
            None => pos + k > b@.len(),
        },
{
    if pos > b.len() || b.len() - pos < k {
        return None;
    }
    proof {
        lemma_pow256_values();
    }
    proof {
        assert(b@.len() <= usize::MAX);
    }
    let mut acc: u64 = 0;
    let mut j: usize = k;
    while j > 0
        invariant
            j <= k <= 8,
            pos + k <= b@.len(),
            b@.len() <= usize::MAX,
            acc as nat == dec_le(b@, pos + j, (k - j) as nat),
            (acc as nat) < pow256((k - j) as nat),
        decreases j,
    {
        let byte = b[pos + j - 1];
        proof {
            lemma_pow256_values();
            lemma_dec_le_bound(b@, pos + j - 1, (k - j + 1) as nat);
            assert(dec_le(b@, pos + j - 1, (k - j + 1) as nat) == byte as nat + 256 * (
            acc as nat));
            assert(pow256((k - j + 1) as nat) <= pow256(8)) by {
                lemma_pow256_mono((k - j + 1) as nat, 8);
            }
        }
        acc = acc * 256 + (byte as u64);
        j = j - 1;
    }
    Some((acc, pos + k))
}

proof fn lemma_pow256_mono(a: nat, c: nat)
    requires
        a <= c,
    ensures
        pow256(a) <= pow256(c),
    decreases c,
{
    lemma_pow256_pos(a);
    if a < c {
        lemma_pow256_mono(a, (c - 1) as nat);
        lemma_pow256_pos((c - 1) as nat);
        assert(pow256(c) == 256 * pow256((c - 1) as nat));
        assert(pow256((c - 1) as nat) <= 256 * pow256((c - 1) as nat)) by (nonlinear_arith)
            requires
                pow256((c - 1) as nat) >= 1,
        ;
    }
}

fn take_u64(b: &Vec<u8>, pos: usize) -> (r: Option<(u64, usize)>)
    ensures
        match dec_u64s(b@, pos as int) {
            Some(p) => r matches Some(q) && q.0 == p.0 && q.1 as int == pos + p.1 && q.1
                <= b@.len(),
            None => r is None,
        },
{
    proof {
        lemma_pow256_values();
        lemma_dec_le_bound(b@, pos as int, 8);
    }
    take_le(b, pos, 8)
}

fn take_u32(b: &Vec<u8>, pos: usize) -> (r: Option<(u32, usize)>)
    ensures
        match dec_u32s(b@, pos as int) {
            Some(p) => r matches Some(q) && q.0 == p.0 && q.1 as int == pos + p.1 && q.1
                <= b@.len(),
            None => r is None,
        },
{
    proof {
        lemma_pow256_values();
        lemma_dec_le_bound(b@, pos as int, 4);
    }
    match take_le(b, pos, 4) {
        Some((v, p)) => Some((v as u32, p)),
        None => None,
    }
}

fn take_i64(b: &Vec<u8>, pos: usize) -> (r: Option<(i64, usize)>)
    ensures
        match dec_i64s(b@, pos as int) {
            Some(p) => r matches Some(q) && q.0 == p.0 && q.1 as int == pos + p.1 && q.1
                <= b@.len(),
            None => r is None,
        },
{
    match take_u64(b, pos) {
        None => None,
        Some((u, p)) => {
            let t: i64 = if u < 0x8000_0000_0000_0000u64 {
                u as i64
            } else {
                ((u - 0x8000_0000_0000_0000u64) as i64) + i64::MIN
            };
            proof {
                assert(t == i64_of_bits(u as nat));
            }
            Some((t, p))
        },
    }
}

fn take_i32(b: &Vec<u8>, pos: usize) -> (r: Option<(i32, usize)>)
    ensures
        match dec_i32s(b@, pos as int) {
            Some(p) => r matches Some(q) && q.0 == p.0 && q.1 as int == pos + p.1 && q.1
                <= b@.len(),
            None => r is None,
        },
{
    match take_u32(b, pos) {
        None => None,
        Some((u, p)) => {
            let t: i32 = if u < 0x8000_0000u32 {
                u as i32
            } else {
                ((u - 0x8000_0000u32) as i32) + i32::MIN
            };
            proof {
                assert(t == i32_of_bits(u as nat));
            }
            Some((t, p))
        },
    }
}

/// Reads text: the character count, then the characters.
#[verifier::rlimit(100)]
fn take_str(b: &Vec<u8>, pos: usize) -> (r: Option<(String, usize)>)
    ensures
        match dec_str(b@, pos as int) {
            Some(p) => r matches Some(q) && q.0@ == p.0 && q.1 as int == pos + p.1 && q.1
                <= b@.len(),
            None => r is None,
        },
{
    let (n, p0) = match take_u64(b, pos) {
        Some(x) => x,
        None => {
            return None;
        },
    };
    let mut chars: Vec<char> = Vec::new();
    let mut cur: usize = p0;
    let mut left: u64 = n;
    loop
        invariant
            p0 <= cur <= b@.len(),
            p0 as int == pos + 8,
            dec_u64s(b@, pos as int) == Some((n, 8nat)),
            left <= n,
            dec_chars(b@, p0 as int, n as nat) == (match dec_chars(b@, cur as int, left as nat) {
                None => None::<(Seq<char>, nat)>,
                Some(p) => Some((chars@ + p.0, (cur - p0) as nat + p.1)),
            }),
        ensures
            left == 0 || (dec_chars(b@, p0 as int, n as nat) is None),
            left == 0 ==> dec_chars(b@, p0 as int, n as nat) == Some(
                (chars@, (cur - p0) as nat),
            ),
        decreases left,
    {
        if left == 0 {
            proof {
                assert(chars@ + Seq::<char>::empty() =~= chars@);
            }
            break;
        }
        let (u, p1) = match take_u32(b, cur) {
            Some(x) => x,
            None => {
                return None;
            },
        };
        let c = match char_from_u32(u) {
            Some(c) => c,
            None => {
                return None;
            },
        };
        proof {
            vstd::utf8::char_u32_cast(c, u);
            assert((u as char) == c);
            lemma_step_chars(b@, cur as int, left as nat, u, 4nat);
            assert(p1 as int == cur + 4);
        }
        let ghost chars0 = chars@;
        chars.push(c);
        proof {
            assert(chars@ =~= chars0.push(c));
            let dr = dec_chars(b@, p1 as int, (left - 1) as nat);
            if dr is Some {
                let p = dr->Some_0;
                assert(chars0 + (seq![c] + p.0) =~= chars@ + p.0);
                assert((cur - p0) as nat + (4nat + p.1) == (p1 - p0) as nat + p.1);
            }
        }
        cur = p1;
        left = left - 1;
    }
    if left == 0 {
        let st = string_of_chars(&chars);
        Some((st, cur))
    } else {
        None
    }
}

/// Reads file info under either schema revision.
fn take_fileinfo(b: &Vec<u8>, pos: usize) -> (r: Option<(FileInfo, usize)>)
    ensures
        match dec_fileinfo(b@, pos as int) {
            Some(p) => r matches Some(q) && q.0 == p.0 && q.1 as int == pos + p.1 && q.1
                <= b@.len(),
            None => r is None,
        },
{
    if pos >= b.len() {
        return None;
    }
    let tag = b[pos];
    if tag == 1u8 {
        let (size, p1) = match take_u64(b, pos + 1) {
            Some(x) => x,
            None => {
                return None;
            },
        };
        let (time, p2) = match take_i32(b, p1) {
            Some(x) => x,
            None => {
                return None;
            },
        };
        Some((FileInfo { size, time }, p2))
    } else if tag == 0u8 {
        let (size, p1) = match take_u64(b, pos + 1) {
            Some(x) => x,
            None => {
                return None;
            },
        };
        let (m, p2) = match take_i64(b, p1) {
            Some(x) => x,
            None => {
                return None;
            },
        };
        let (a, p3) = match take_i64(b, p2) {
            Some(x) => x,
            None => {
                return None;
            },
        };
        let (c, p4) = match take_i64(b, p3) {
            Some(x) => x,
            None => {
                return None;
            },
        };
        let top: i64 = if m >= a && m >= c {
            m
        } else if a >= c {
            a
        } else {
            c
        };
        let q: i64 = if top >= 0 {
            top / 60
        } else if top == i64::MIN {
            proof {
                assert(0x8000_0000_0000_0000int / 60 == 153722867280912930int);
            }
            -153722867280912930i64
        } else {
            -((-top) / 60)
        };
        proof {
            assert(q as int == FileInfo::spec_minutes(m, a, c));
        }
        if -0x8000_0000i64 <= q && q <= 0x7fff_ffffi64 {
            Some((FileInfo { size, time: q as i32 }, p4))
        } else {
            None
        }
    } else {
        None
    }
}

/// Reads one entry.
fn take_entry(b: &Vec<u8>, pos: usize) -> (r: Option<(Entry, usize)>)
    requires
        pos <= b@.len(),
    ensures
        match dec_entry(b@, pos as int) {
            Some(p) => r matches Some(q) && q.0@ == p.0 && q.1 as int == pos + p.1 && pos < q.1
                <= b@.len(),
            None => r is None,
        },
    decreases b@.len() - pos, 1int,
{
    if pos >= b.len() {
        return None;
    }
    let tag = b[pos];
    if tag == 0u8 {
        match take_dir(b, pos + 1) {
            None => None,
            Some((d, p)) => Some((Entry::Dir(d), p)),
        }
    } else if tag == 1u8 {
        match take_u64(b, pos + 1) {
            None => None,
            Some((ino, p)) => Some((Entry::File(ino), p)),
        }
    } else if tag == 2u8 {
        match take_str(b, pos + 1) {
            None => None,
            Some((t, p)) => Some((Entry::Symlink(t), p)),
        }
    } else if tag == 3u8 {
        match take_u64(b, pos + 1) {
            None => None,
            Some((ino, p)) => Some((Entry::Other(ino), p)),
        }
    } else if tag == 4u8 {
        match take_str(b, pos + 1) {
            None => None,
            Some((m, p)) => Some((Entry::Error(m), p)),
        }
    } else {
        None
    }
}

/// Reads a directory.
#[verifier::rlimit(100)]
fn take_dir(b: &Vec<u8>, pos: usize) -> (r: Option<(Directory, usize)>)
    requires
        pos <= b@.len(),
    ensures
        match dec_dir(b@, pos as int) {
            Some(p) => r matches Some(q) && q.0@ == p.0 && q.1 as int == pos + p.1 && pos < q.1
                <= b@.len(),
            None => r is None,
        },
    decreases b@.len() - pos, 0int,
{
    if pos > b.len() || b.len() - pos < 16 {
        return None;
    }
    let (dev, p0) = match take_u64(b, pos) {
        Some(x) => x,
        None => {
            return None;
        },
    };
    let (n, p1) = match take_u64(b, p0) {
        Some(x) => x,
        None => {
            return None;
        },
    };
    let mut es: Vec<(String, Entry)> = Vec::new();
    let ghost mut sv: Seq<(Seq<char>, EntryV)> = Seq::empty();
    let mut cur: usize = p1;
    let mut left: u64 = n;
    loop
        invariant
            p1 <= cur <= b@.len(),
            p1 as int == pos + 16,
            pos + 16 <= b@.len(),
            dec_u64s(b@, pos as int) == Some((dev, 8nat)),
            dec_u64s(b@, pos + 8) == Some((n, 8nat)),
            left <= n,
            sv.len() == es@.len(),
            forall|j: int|
                0 <= j < es@.len() ==> #[trigger] sv[j] == (es@[j].0@, es@[j].1@),
            dec_dir_entries(b@, p1 as int, n as nat) == (match dec_dir_entries(
                b@,
                cur as int,
                left as nat,
            ) {
                None => None::<(Seq<(Seq<char>, EntryV)>, nat)>,
                Some(p) => Some((sv + p.0, (cur - p1) as nat + p.1)),
            }),
        ensures
            left == 0 || (dec_dir_entries(b@, p1 as int, n as nat) is None),
            left == 0 ==> dec_dir_entries(b@, p1 as int, n as nat) == Some(
                (sv, (cur - p1) as nat),
            ),
            p1 <= cur <= b@.len(),
            sv.len() == es@.len(),
            forall|j: int|
                0 <= j < es@.len() ==> #[trigger] sv[j] == (es@[j].0@, es@[j].1@),
        decreases left,
    {
        if left == 0 {
            proof {
                assert(sv + Seq::<(Seq<char>, EntryV)>::empty() =~= sv);
            }
            break;
        }
        let (nm, q1) = match take_str(b, cur) {
            Some(x) => x,
            None => {
                return None;
            },
        };
        let (e, q2) = match take_entry(b, q1) {
            Some(x) => x,
            None => {
                return None;
            },
        };
        let ghost nmv = nm@;
        let ghost ev = e@;
        let ghost sv0 = sv;
        let ghost k1 = (q1 - cur) as nat;
        let ghost k2 = (q2 - q1) as nat;
        es.push((nm, e));
        proof {
            lemma_step_dir_entries(b@, cur as int, left as nat, nmv, k1, ev, k2);
            sv = sv.push((nmv, ev));
            let dr = dec_dir_entries(b@, q2 as int, (left - 1) as nat);
            if dr is Some {
                let p = dr->Some_0;
                assert(sv0 + (seq![(nmv, ev)] + p.0) =~= sv + p.0);
                assert((cur - p1) as nat + (k1 + k2 + p.1) == (q2 - p1) as nat + p.1);
            }
        }
        cur = q2;
        left = left - 1;
    }
    if left == 0 {
        let dir = Directory { dev, entries: es };
        proof {
            lemma_entries_view_index(dir.entries, dir.entries@.len() as int);
            assert(dir@.entries =~= sv);
        }
        Some((dir, cur))
    } else {
        None
    }
}

/// Reads a device record: the pair count, then the pairs.
#[verifier::rlimit(100)]
fn take_device(b: &Vec<u8>, pos: usize) -> (r: Option<(Device, usize)>)
    ensures
        match dec_u64s(b@, pos as int) {
            None => r is None,
            Some(h) => match dec_device(b@, pos + h.1, h.0 as nat) {
                None => r is None,
                Some(p) => r matches Some(q) && q.0@ == p.0 && q.1 as int == pos + h.1 + p.1
                    && q.1 <= b@.len(),
            },
        },
{
    let (n, p0) = match take_u64(b, pos) {
        Some(x) => x,
        None => {
            return None;
        },
    };
    let mut dv: Vec<(u64, FileInfo)> = Vec::new();
    let mut cur: usize = p0;
    let mut left: u64 = n;
    loop
        invariant
            p0 <= cur <= b@.len(),
            p0 as int == pos + 8,
            dec_u64s(b@, pos as int) == Some((n, 8nat)),
            left <= n,
            dec_device(b@, p0 as int, n as nat) == (match dec_device(
                b@,
                cur as int,
                left as nat,
            ) {
                None => None::<(Seq<(u64, FileInfo)>, nat)>,
                Some(p) => Some((dv@ + p.0, (cur - p0) as nat + p.1)),
            }),
        ensures
            left == 0 || (dec_device(b@, p0 as int, n as nat) is None),
            left == 0 ==> dec_device(b@, p0 as int, n as nat) == Some((dv@, (cur - p0) as nat)),
            p0 <= cur <= b@.len(),
        decreases left,
    {
        if left == 0 {
            proof {
                assert(dv@ + Seq::<(u64, FileInfo)>::empty() =~= dv@);
            }
            break;
        }
        let (ino, q1) = match take_u64(b, cur) {
            Some(x) => x,
            None => {
                return None;
            },
        };
        let (fi, q2) = match take_fileinfo(b, q1) {
            Some(x) => x,
            None => {
                return None;
            },
        };
        let ghost dv0 = dv@;
        let ghost k1 = (q1 - cur) as nat;
        let ghost k2 = (q2 - q1) as nat;
        dv.push((ino, fi));
        proof {
            lemma_step_device(b@, cur as int, left as nat, ino, k1, fi, k2);
            let dr = dec_device(b@, q2 as int, (left - 1) as nat);
            if dr is Some {
                let p = dr->Some_0;
                assert(dv0 + (seq![(ino, fi)] + p.0) =~= dv@ + p.0);
                assert((cur - p0) as nat + (k1 + k2 + p.1) == (q2 - p0) as nat + p.1);
            }
        }
        cur = q2;
        left = left - 1;
    }
    if left == 0 {
        Some((Device { inodes: dv }, cur))
    } else {
        None
    }
}

/// Decodes a whole snapshot; trailing bytes and any malformed or unknown
/// form are rejected.
#[verifier::rlimit(100)]
pub fn decode_snapshot(b: &Vec<u8>) -> (r: Res<FileSystem>)
    ensures
        match dec_fs(b@, 0) {
            Some(p) => if p.1 == b@.len() {
                r matches Ok(f) && f@ == p.0
            } else {
                r is Err
            },
            None => r is Err,
        },
{
    let (n, p0) = match take_u64(b, 0) {
        Some(x) => x,
        None => {
            return Err(error("Corrupt snapshot"));
        },
    };
    let mut devices: Vec<(u64, Device)> = Vec::new();
    let ghost mut sv: Seq<(u64, Seq<(u64, FileInfo)>)> = Seq::empty();
    let mut cur: usize = p0;
    let mut left: u64 = n;
    loop
        invariant
            p0 <= cur <= b@.len(),
            p0 as int == 8,
            dec_u64s(b@, 0) == Some((n, 8nat)),
            left <= n,
            sv.len() == devices@.len(),
            forall|j: int|
                0 <= j < devices@.len() ==> #[trigger] sv[j] == (
                    devices@[j].0,
                    devices@[j].1@,
                ),
            dec_mounts(b@, p0 as int, n as nat) == (match dec_mounts(
                b@,
                cur as int,
                left as nat,
            ) {
                None => None::<(Seq<(u64, Seq<(u64, FileInfo)>)>, nat)>,
                Some(p) => Some((sv + p.0, (cur - p0) as nat + p.1)),
            }),
        ensures
            left == 0 || (dec_mounts(b@, p0 as int, n as nat) is None),
            left == 0 ==> dec_mounts(b@, p0 as int, n as nat) == Some((sv, (cur - p0) as nat)),
            p0 <= cur <= b@.len(),
            sv.len() == devices@.len(),
            forall|j: int|
                0 <= j < devices@.len() ==> #[trigger] sv[j] == (
                    devices@[j].0,
                    devices@[j].1@,
                ),
        decreases left,
    {
        if left == 0 {
            proof {
                assert(sv + Seq::<(u64, Seq<(u64, FileInfo)>)>::empty() =~= sv);
            }
            break;
        }
        let (dev, q1) = match take_u64(b, cur) {
            Some(x) => x,
            None => {
                return Err(error("Corrupt snapshot"));
            },
        };
        let (d, q2) = match take_device(b, q1) {
            Some(x) => x,
            None => {
                return Err(error("Corrupt snapshot"));
            },
        };
        let ghost dvv = d@;
        let ghost sv0 = sv;
        devices.push((dev, d));
        proof {
            let h = dec_u64s(b@, q1 as int)->Some_0;
            let dd = dec_device(b@, q1 + h.1, h.0 as nat)->Some_0;
            lemma_step_mounts(
                b@,
                cur as int,
                left as nat,
                dev,
                (q1 - cur) as nat,
                h.0,
                h.1,
                dvv,
                dd.1,
            );
            sv = sv.push((dev, dvv));
            let dr = dec_mounts(b@, q2 as int, (left - 1) as nat);
            if dr is Some {
                let p = dr->Some_0;
                assert(sv0 + (seq![(dev, dvv)] + p.0) =~= sv + p.0);
                assert((cur - p0) as nat + ((q1 - cur) as nat + h.1 + dd.1 + p.1) == (q2
                    - p0) as nat + p.1);
            }
        }
        cur = q2;
        left = left - 1;
    }
    if left != 0 {
        return Err(error("Corrupt snapshot"));
    }
    let (root, p2) = match take_dir(b, cur) {
        Some(x) => x,
        None => {
            return Err(error("Corrupt snapshot"));
        },
    };
    if p2 != b.len() {
        return Err(error("Snapshot has trailing data"));
    }
    let fs = FileSystem { mounts: Mounts { devices }, root };
    proof {
        assert(fs.mounts@ =~= sv);
        assert(fs@.mounts == fs.mounts@);
    }
    Ok(fs)
}

} // verus!
