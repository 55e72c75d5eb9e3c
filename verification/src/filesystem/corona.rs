//! Corona / eMMC FlashFS descriptor (`XE_CORONA_FS_DATA`): 512 bytes at
//! 0x2FE8000 + n * 0x4000 for the two slots, holding the FlashFS root block
//! and version, the mobile data blocks, and a SHA-1 digest of the rest.

use vstd::prelude::*;
use crate::crypto::sha::{sha, sha1_digest, first_three, inputs_view};
use crate::crypto::CryptoError;
use crate::gxcore::data::gxp::{be16, be32};

verus! {

pub const CORONA_FS_DATA_BASE: usize = 0x2FE8000usize;
pub const CORONA_FS_DATA_STRIDE: usize = 0x4000usize;
pub const CORONA_FS_DATA_SLOTS: usize = 2usize;
pub const CORONA_FS_DATA_SIZE: usize = 0x200usize;

#[derive(Debug, Clone, Copy, PartialEq, Eq, Structural)]
pub enum CoronaError {
    /// Hashing the descriptor failed.
    Digest(CryptoError),
    /// A slot does not fit in the image.
    WriteOutOfBounds { slot: usize, offset: usize },
}

#[derive(Debug, Clone, Copy)]
pub struct CoronaFsData {
    pub section_digest: [u8; 0x14],
    pub unknown: u32,
    pub fs_version: u32,
    pub fs_block_idx: u16,
    pub unknown_word: u16,
    pub mobile1_block_idx: u16,
    pub mobile1_length: u16,
    pub unknown2: [u8; 8],
    pub mobile2_block_idx: u16,
    pub mobile2_length: u16,
    pub padding: [u8; 0x1D0],
}

/// Big-endian bytes of a 32-bit value.
pub open spec fn be_bytes32(v: u32) -> Seq<u8> {
    seq![(v / 0x100_0000) as u8, ((v / 0x1_0000) % 0x100) as u8, ((v / 0x100) % 0x100) as u8, (v % 0x100) as u8]
}

/// Big-endian bytes of a 16-bit value.
pub open spec fn be_bytes16(v: u16) -> Seq<u8> {
    seq![(v / 0x100) as u8, (v % 0x100) as u8]
}

/// The 512 bytes of a descriptor.
pub open spec fn corona_bytes(c: CoronaFsData) -> Seq<u8> {
    c.section_digest@ + be_bytes32(c.unknown) + be_bytes32(c.fs_version) + be_bytes16(c.fs_block_idx) + be_bytes16(
        c.unknown_word,
    ) + be_bytes16(c.mobile1_block_idx) + be_bytes16(c.mobile1_length) + c.unknown2@ + be_bytes16(
        c.mobile2_block_idx,
    ) + be_bytes16(c.mobile2_length) + c.padding@
}

/// Descriptor read from bytes: all zero when fewer than 0x30 bytes; the
/// padding stays zero unless all 512 bytes are there.
pub open spec fn corona_from_spec(raw: Seq<u8>) -> (Seq<u8>, u32, u32, u16, u16, u16, u16, Seq<u8>, u16, u16, Seq<u8>) {
    if raw.len() < 0x30 {
        (Seq::new(0x14, |i: int| 0u8), 0, 0, 0, 0, 0, 0, Seq::new(8, |i: int| 0u8), 0, 0, Seq::new(0x1D0, |i: int| 0u8))
    } else {
        (
            raw.subrange(0, 0x14),
            be32(raw, 0x14) as u32,
            be32(raw, 0x18) as u32,
            be16(raw, 0x1C) as u16,
            be16(raw, 0x1E) as u16,
            be16(raw, 0x20) as u16,
            be16(raw, 0x22) as u16,
            raw.subrange(0x24, 0x2C),
            be16(raw, 0x2C) as u16,
            be16(raw, 0x2E) as u16,
            if raw.len() >= 0x200 {
                raw.subrange(0x30, 0x200)
            } else {
                Seq::new(0x1D0, |i: int| 0u8)
            },
        )
    }
}

/// The fields of a descriptor, in order.
pub open spec fn corona_fields(c: CoronaFsData) -> (Seq<u8>, u32, u32, u16, u16, u16, u16, Seq<u8>, u16, u16, Seq<u8>) {
    (
        c.section_digest@,
        c.unknown,
        c.fs_version,
        c.fs_block_idx,
        c.unknown_word,
        c.mobile1_block_idx,
        c.mobile1_length,
        c.unknown2@,
        c.mobile2_block_idx,
        c.mobile2_length,
        c.padding@,
    )
}

fn copy_bytes<const N: usize>(dst: &mut [u8; N], src: &[u8], at: usize)
    requires
        at + N <= src@.len(),
    ensures
        final(dst)@ == src@.subrange(at as int, at + N),
{
    let sl = src.len();
    let mut i: usize = 0;
    while i < N
        invariant
            i <= N,
            sl == src@.len(),
            at + N <= src@.len(),
            dst@.len() == N,
            forall|q: int| 0 <= q < i ==> dst@[q] == src@[at + q],
        decreases N - i,
    {
        dst[i] = src[at + i];
        i += 1;
    }
    assert(dst@ =~= src@.subrange(at as int, at + N));
}

fn put_bytes(raw: &mut [u8; 0x200], at: usize, src: &[u8])
    requires
        at + src@.len() <= 0x200,
    ensures
        final(raw)@ == old(raw)@.subrange(0, at as int) + src@ + old(raw)@.subrange(at + src@.len(), 0x200),
{
    let n = src.len();
    let mut i: usize = 0;
    while i < n
        invariant
            i <= n == src@.len(),
            at + n <= 0x200,
            raw@.len() == 0x200,
            forall|q: int| 0 <= q < at ==> raw@[q] == old(raw)@[q],
            forall|q: int| at + n <= q < 0x200 ==> raw@[q] == old(raw)@[q],
            forall|q: int| at <= q < at + i ==> raw@[q] == src@[q - at],
            forall|q: int| at + i <= q < at + n ==> raw@[q] == old(raw)@[q],
        decreases n - i,
    {
        raw[at + i] = src[i];
        i += 1;
    }
    assert(raw@ =~= old(raw)@.subrange(0, at as int) + src@ + old(raw)@.subrange(at + n, 0x200));
}

fn u32_bytes(v: u32) -> (r: [u8; 4])
    ensures
        r@ == be_bytes32(v),
{
    let r = [(v / 0x100_0000) as u8, ((v / 0x1_0000) % 0x100) as u8, ((v / 0x100) % 0x100) as u8, (v % 0x100) as u8];
    assert(r@ =~= be_bytes32(v));
    r
}

fn u16_bytes(v: u16) -> (r: [u8; 2])
    ensures
        r@ == be_bytes16(v),
{
    let r = [(v / 0x100) as u8, (v % 0x100) as u8];
    assert(r@ =~= be_bytes16(v));
    r
}

fn get_u32(raw: &[u8], p: usize) -> (r: u32)
    requires
        p + 4 <= raw@.len(),
    ensures
        r == be32(raw@, p as int),
{
    (raw[p] as u32) * 0x100_0000 + (raw[p + 1] as u32) * 0x1_0000 + (raw[p + 2] as u32) * 0x100 + (raw[p + 3] as u32)
}

fn get_u16(raw: &[u8], p: usize) -> (r: u16)
    requires
        p + 2 <= raw@.len(),
    ensures
        r == be16(raw@, p as int),
{
    (raw[p] as u16) * 0x100 + (raw[p + 1] as u16)
}

impl CoronaFsData {
    /// An all-zero descriptor.
    pub fn default_data() -> (r: Self)
        ensures
            corona_fields(r) == corona_from_spec(Seq::empty()),
    {
        let r = CoronaFsData {
            section_digest: [0u8; 0x14],
            unknown: 0,
            fs_version: 0,
            fs_block_idx: 0,
            unknown_word: 0,
            mobile1_block_idx: 0,
            mobile1_length: 0,
            unknown2: [0u8; 8],
            mobile2_block_idx: 0,
            mobile2_length: 0,
            padding: [0u8; 0x1D0],
        };
        assert(r.section_digest@ =~= Seq::new(0x14, |i: int| 0u8));
        assert(r.unknown2@ =~= Seq::new(8, |i: int| 0u8));
        assert(r.padding@ =~= Seq::new(0x1D0, |i: int| 0u8));
        r
    }

    /// Reads a descriptor (see `corona_from_spec`).
    pub fn from_bytes(raw: &[u8]) -> (r: Self)
        ensures
            corona_fields(r) == corona_from_spec(raw@),
    {
        let mut c = Self::default_data();
        if raw.len() < 0x30 {
            return c;
        }
        copy_bytes(&mut c.section_digest, raw, 0);
        c.unknown = get_u32(raw, 0x14);
        c.fs_version = get_u32(raw, 0x18);
        c.fs_block_idx = get_u16(raw, 0x1C);
        c.unknown_word = get_u16(raw, 0x1E);
        c.mobile1_block_idx = get_u16(raw, 0x20);
        c.mobile1_length = get_u16(raw, 0x22);
        copy_bytes(&mut c.unknown2, raw, 0x24);
        c.mobile2_block_idx = get_u16(raw, 0x2C);
        c.mobile2_length = get_u16(raw, 0x2E);
        if raw.len() >= CORONA_FS_DATA_SIZE {
            copy_bytes(&mut c.padding, raw, 0x30);
        }
        c
    }

    /// The 512 bytes of the descriptor.
    pub fn to_bytes(&self) -> (r: [u8; 0x200])
        ensures
            r@ == corona_bytes(*self),
    {
        let mut raw = [0u8; 0x200];
        put_bytes(&mut raw, 0, &self.section_digest);
        put_bytes(&mut raw, 0x14, &u32_bytes(self.unknown));
        put_bytes(&mut raw, 0x18, &u32_bytes(self.fs_version));
        put_bytes(&mut raw, 0x1C, &u16_bytes(self.fs_block_idx));
        put_bytes(&mut raw, 0x1E, &u16_bytes(self.unknown_word));
        put_bytes(&mut raw, 0x20, &u16_bytes(self.mobile1_block_idx));
        put_bytes(&mut raw, 0x22, &u16_bytes(self.mobile1_length));
        put_bytes(&mut raw, 0x24, &self.unknown2);
        put_bytes(&mut raw, 0x2C, &u16_bytes(self.mobile2_block_idx));
        put_bytes(&mut raw, 0x2E, &u16_bytes(self.mobile2_length));
        put_bytes(&mut raw, 0x30, &self.padding);
        assert(raw@ =~= corona_bytes(*self));
        raw
    }
}

proof fn lemma_be32_bytes(v: u32)
    ensures
        be32(be_bytes32(v), 0) == v,
{
    let b = be_bytes32(v);
    assert(b[0] as int * 0x100_0000 + b[1] as int * 0x1_0000 + b[2] as int * 0x100 + b[3] as int == v) by (nonlinear_arith)
        requires
            b[0] == (v / 0x100_0000) as u8,
            b[1] == ((v / 0x1_0000) % 0x100) as u8,
            b[2] == ((v / 0x100) % 0x100) as u8,
            b[3] == (v % 0x100) as u8,
            v <= 0xFFFF_FFFF,
    ;
}

proof fn lemma_be16_bytes(v: u16)
    ensures
        be16(be_bytes16(v), 0) == v,
{
    let b = be_bytes16(v);
    assert(b[0] as int * 0x100 + b[1] as int == v) by (nonlinear_arith)
        requires
            b[0] == (v / 0x100) as u8,
            b[1] == (v % 0x100) as u8,
            v <= 0xFFFF,
    ;
}

proof fn lemma_bytes_be32(s: Seq<u8>, p: int)
    requires
        0 <= p,
        p + 4 <= s.len(),
    ensures
        be_bytes32(be32(s, p) as u32) == s.subrange(p, p + 4),
{
    let v = be32(s, p);
    assert(0 <= v <= 0xFFFF_FFFF) by (nonlinear_arith)
        requires
            v == s[p] as int * 0x100_0000 + s[p + 1] as int * 0x1_0000 + s[p + 2] as int * 0x100 + s[p + 3] as int,
            0 <= s[p] < 256,
            0 <= s[p + 1] < 256,
            0 <= s[p + 2] < 256,
            0 <= s[p + 3] < 256,
    ;
    let w = v as u32;
    assert((w / 0x100_0000) as u8 == s[p] && ((w / 0x1_0000) % 0x100) as u8 == s[p + 1] && ((w / 0x100) % 0x100) as u8
        == s[p + 2] && (w % 0x100) as u8 == s[p + 3]) by (nonlinear_arith)
        requires
            w == s[p] as int * 0x100_0000 + s[p + 1] as int * 0x1_0000 + s[p + 2] as int * 0x100 + s[p + 3] as int,
            0 <= s[p] < 256,
            0 <= s[p + 1] < 256,
            0 <= s[p + 2] < 256,
            0 <= s[p + 3] < 256,
    ;
    assert(be_bytes32(w) =~= s.subrange(p, p + 4));
}

proof fn lemma_bytes_be16(s: Seq<u8>, p: int)
    requires
        0 <= p,
        p + 2 <= s.len(),
    ensures
        be_bytes16(be16(s, p) as u16) == s.subrange(p, p + 2),
{
    let v = be16(s, p);
    let w = v as u16;
    assert(0 <= v <= 0xFFFF && (w / 0x100) as u8 == s[p] && (w % 0x100) as u8 == s[p + 1]) by (nonlinear_arith)
        requires
            v == s[p] as int * 0x100 + s[p + 1] as int,
            w == v as u16,
            0 <= s[p] < 256,
            0 <= s[p + 1] < 256,
    ;
    assert(be_bytes16(w) =~= s.subrange(p, p + 2));
}

/// Reading the 512 bytes of a descriptor gives the descriptor back.
pub proof fn lemma_corona_roundtrip(c: CoronaFsData)
    ensures
        corona_from_spec(corona_bytes(c)) == corona_fields(c),
{
    let b = corona_bytes(c);
    assert(b.len() == 0x200);
    assert(b.subrange(0, 0x14) =~= c.section_digest@);
    assert(b.subrange(0x14, 0x18) =~= be_bytes32(c.unknown));
    assert(b.subrange(0x18, 0x1C) =~= be_bytes32(c.fs_version));
    assert(b.subrange(0x1C, 0x1E) =~= be_bytes16(c.fs_block_idx));
    assert(b.subrange(0x1E, 0x20) =~= be_bytes16(c.unknown_word));
    assert(b.subrange(0x20, 0x22) =~= be_bytes16(c.mobile1_block_idx));
    assert(b.subrange(0x22, 0x24) =~= be_bytes16(c.mobile1_length));
    assert(b.subrange(0x24, 0x2C) =~= c.unknown2@);
    assert(b.subrange(0x2C, 0x2E) =~= be_bytes16(c.mobile2_block_idx));
    assert(b.subrange(0x2E, 0x30) =~= be_bytes16(c.mobile2_length));
    assert(b.subrange(0x30, 0x200) =~= c.padding@);
    lemma_be32_bytes(c.unknown);
    lemma_be32_bytes(c.fs_version);
    lemma_be16_bytes(c.fs_block_idx);
    lemma_be16_bytes(c.unknown_word);
    lemma_be16_bytes(c.mobile1_block_idx);
    lemma_be16_bytes(c.mobile1_length);
    lemma_be16_bytes(c.mobile2_block_idx);
    lemma_be16_bytes(c.mobile2_length);
    assert(be32(b, 0x14) == be32(be_bytes32(c.unknown), 0));
    assert(be32(b, 0x18) == be32(be_bytes32(c.fs_version), 0));
    assert(be16(b, 0x1C) == be16(be_bytes16(c.fs_block_idx), 0));
    assert(be16(b, 0x1E) == be16(be_bytes16(c.unknown_word), 0));
    assert(be16(b, 0x20) == be16(be_bytes16(c.mobile1_block_idx), 0));
    assert(be16(b, 0x22) == be16(be_bytes16(c.mobile1_length), 0));
    assert(be16(b, 0x2C) == be16(be_bytes16(c.mobile2_block_idx), 0));
    assert(be16(b, 0x2E) == be16(be_bytes16(c.mobile2_length), 0));
}

/// Writing out a descriptor read from 512 bytes gives those bytes back.
pub proof fn lemma_corona_bytes_roundtrip(raw: Seq<u8>, c: CoronaFsData)
    requires
        raw.len() == 0x200,
        corona_fields(c) == corona_from_spec(raw),
    ensures
        corona_bytes(c) == raw,
{
    lemma_bytes_be32(raw, 0x14);
    lemma_bytes_be32(raw, 0x18);
    lemma_bytes_be16(raw, 0x1C);
    lemma_bytes_be16(raw, 0x1E);
    lemma_bytes_be16(raw, 0x20);
    lemma_bytes_be16(raw, 0x22);
    lemma_bytes_be16(raw, 0x2C);
    lemma_bytes_be16(raw, 0x2E);
    assert(corona_bytes(c) =~= raw.subrange(0, 0x14) + raw.subrange(0x14, 0x18) + raw.subrange(0x18, 0x1C)
        + raw.subrange(0x1C, 0x1E) + raw.subrange(0x1E, 0x20) + raw.subrange(0x20, 0x22) + raw.subrange(0x22, 0x24)
        + raw.subrange(0x24, 0x2C) + raw.subrange(0x2C, 0x2E) + raw.subrange(0x2E, 0x30) + raw.subrange(0x30, 0x200));
    assert(corona_bytes(c) =~= raw);
}

impl CoronaFsData {
    /// Sets the digest to the SHA-1 of the descriptor's bytes after it.
    pub fn refresh_digest(&mut self) -> (r: Result<(), CoronaError>)
        ensures
            r is Ok,
            final(self).section_digest@ == sha1_digest(corona_bytes(*old(self)).subrange(0x14, 0x200)),
            final(self).unknown == old(self).unknown,
            final(self).fs_version == old(self).fs_version,
            final(self).fs_block_idx == old(self).fs_block_idx,
            final(self).unknown_word == old(self).unknown_word,
            final(self).mobile1_block_idx == old(self).mobile1_block_idx,
            final(self).mobile1_length == old(self).mobile1_length,
            final(self).unknown2 == old(self).unknown2,
            final(self).mobile2_block_idx == old(self).mobile2_block_idx,
            final(self).mobile2_length == old(self).mobile2_length,
            final(self).padding == old(self).padding,
    {
        let raw = self.to_bytes();
        let tail = crate::gxcore::images::blocks::slice_to_vec(raw.as_slice(), 0x14, 0x200);
        let parts: [&[u8]; 1] = [tail.as_slice()];
        let hash = match sha(parts.as_slice()) {
            Ok(h) => h,
            Err(e) => return Err(CoronaError::Digest(e)),
        };
        proof {
            assert(inputs_view(parts@) =~= seq![tail@]);
        }
        self.section_digest = hash;
        Ok(())
    }
}

pub open spec fn slot_offset(i: int) -> int {
    0x2FE8000 + i * 0x4000
}

/// Slot `i` of an image: read when it lies inside the image, else all zero.
pub open spec fn slot_fields(image: Seq<u8>, i: int) -> (Seq<u8>, u32, u32, u16, u16, u16, u16, Seq<u8>, u16, u16, Seq<u8>) {
    if slot_offset(i) + 0x200 <= image.len() {
        corona_from_spec(image.subrange(slot_offset(i), slot_offset(i) + 0x200))
    } else {
        corona_from_spec(Seq::empty())
    }
}

/// Reads both Corona FlashFS slots from an eMMC image.
pub fn load_slots(image: &[u8]) -> (r: [CoronaFsData; 2])
    ensures
        corona_fields(r[0]) == slot_fields(image@, 0),
        corona_fields(r[1]) == slot_fields(image@, 1),
{
    let s0 = load_slot(image, 0);
    let s1 = load_slot(image, 1);
    [s0, s1]
}

fn load_slot(image: &[u8], i: usize) -> (r: CoronaFsData)
    requires
        i < 2,
    ensures
        corona_fields(r) == slot_fields(image@, i as int),
{
    let offset = CORONA_FS_DATA_BASE + i * CORONA_FS_DATA_STRIDE;
    if image.len() >= CORONA_FS_DATA_SIZE && offset <= image.len() - CORONA_FS_DATA_SIZE {
        let raw = crate::gxcore::images::blocks::slice_to_vec(image, offset, offset + CORONA_FS_DATA_SIZE);
        CoronaFsData::from_bytes(raw.as_slice())
    } else {
        CoronaFsData::default_data()
    }
}

/// Root block and version of the newest FlashFS the slots record (a slot with
/// version 0 is unused; on equal versions the first slot wins).
pub open spec fn best_fs_spec(slots: [CoronaFsData; 2]) -> Option<(usize, u32)> {
    let b0 = if slots[0].fs_version != 0 {
        Some((slots[0].fs_block_idx as usize, slots[0].fs_version))
    } else {
        None
    };
    let newer = match b0 {
        Some((_, v)) => slots[1].fs_version > v,
        None => true,
    };
    if slots[1].fs_version != 0 && newer {
        Some((slots[1].fs_block_idx as usize, slots[1].fs_version))
    } else {
        b0
    }
}

pub fn best_fs_from_slots(slots: &[CoronaFsData; 2]) -> (r: Option<(usize, u32)>)
    ensures
        r == best_fs_spec(*slots),
{
    let mut best: Option<(usize, u32)> = None;
    if slots[0].fs_version != 0 {
        best = Some((slots[0].fs_block_idx as usize, slots[0].fs_version));
    }
    if slots[1].fs_version != 0 {
        let better = match best {
            Some((_, v)) => slots[1].fs_version > v,
            None => true,
        };
        if better {
            best = Some((slots[1].fs_block_idx as usize, slots[1].fs_version));
        }
    }
    best
}

/// FlashFS start block for a new eMMC image: the slots' newest, else the
/// header's FS address in 512-byte units (capped at 0xFFFF) when at least
/// 0x200, else 0x80.
pub fn default_emmc_fs_block(header_fs_addr: u32, slots: &[CoronaFsData; 2]) -> (r: u16)
    ensures
        r == (match best_fs_spec(*slots) {
            Some((block, _)) => (if block < 0xFFFF { block } else { 0xFFFF }) as u16,
            None => if header_fs_addr >= 0x200 {
                (if header_fs_addr / 0x200 < 0xFFFF { header_fs_addr / 0x200 } else { 0xFFFF }) as u16
            } else {
                0x80
            },
        }),
{
    if let Some((block, _)) = best_fs_from_slots(slots) {
        return if block < 0xFFFF {
            block as u16
        } else {
            0xFFFF
        };
    }
    if header_fs_addr >= 0x200 {
        let b = header_fs_addr / 0x200;
        return if b < 0xFFFF {
            b as u16
        } else {
            0xFFFF
        };
    }
    0x80
}

/// What a descriptor records of a FlashFS root: its block (negative when it
/// has none), its version, and whether it holds entries.
#[derive(Debug, Clone, Copy)]
pub struct FsRootInfo {
    pub block_number: i32,
    pub version: u32,
    pub has_entries: bool,
}

/// What a descriptor records of the newest entry of a mobile data store:
/// its first page and the length of its data.
#[derive(Debug, Clone, Copy)]
pub struct MobileEntryInfo {
    pub start_page: u32,
    pub data_len: usize,
}

pub open spec fn clamp16(n: usize) -> u16 {
    (if n < 0xFFFF { n } else { 0xFFFF }) as u16
}

/// A descriptor with the root's block (when it has one) and version (at
/// least 1).
pub open spec fn root_synced(c: CoronaFsData, root: FsRootInfo) -> CoronaFsData {
    CoronaFsData {
        fs_block_idx: if root.block_number >= 0 {
            root.block_number as u16
        } else {
            c.fs_block_idx
        },
        fs_version: if root.version >= 1 {
            root.version
        } else {
            1
        },
        ..c
    }
}

/// A descriptor with each mobile store's newest entry (block, and length
/// capped at 0xFFFF).
pub open spec fn mobile_synced(c: CoronaFsData, mobile: [Option<MobileEntryInfo>; 2]) -> CoronaFsData {
    let c2 = match mobile[0] {
        Some(m) => CoronaFsData { mobile1_block_idx: m.start_page as u16, mobile1_length: clamp16(m.data_len), ..c },
        None => c,
    };
    match mobile[1] {
        Some(m) => CoronaFsData { mobile2_block_idx: m.start_page as u16, mobile2_length: clamp16(m.data_len), ..c2 },
        None => c2,
    }
}

pub open spec fn synced_slot(c: CoronaFsData, root: FsRootInfo, mobile: [Option<MobileEntryInfo>; 2]) -> CoronaFsData {
    mobile_synced(root_synced(c, root), mobile)
}

/// `n` is `s` with its digest set to the SHA-1 of its other 492 bytes.
pub open spec fn digest_refreshed(s: CoronaFsData, n: CoronaFsData) -> bool {
    &&& n.section_digest@ == sha1_digest(corona_bytes(s).subrange(0x14, 0x200))
    &&& n.unknown == s.unknown
    &&& n.fs_version == s.fs_version
    &&& n.fs_block_idx == s.fs_block_idx
    &&& n.unknown_word == s.unknown_word
    &&& n.mobile1_block_idx == s.mobile1_block_idx
    &&& n.mobile1_length == s.mobile1_length
    &&& n.unknown2 == s.unknown2
    &&& n.mobile2_block_idx == s.mobile2_block_idx
    &&& n.mobile2_length == s.mobile2_length
    &&& n.padding == s.padding
}

impl CoronaFsData {
    /// Records the FlashFS root: its block when it has one, and its version
    /// (at least 1).
    pub fn sync_from_fs_root(&mut self, root: &FsRootInfo)
        ensures
            *final(self) == root_synced(*old(self), *root),
    {
        if root.block_number >= 0 {
            self.fs_block_idx = root.block_number as u16;
        }
        self.fs_version = if root.version >= 1 {
            root.version
        } else {
            1
        };
    }

    /// Records the newest entry of each mobile store (block and length, the
    /// length capped at 0xFFFF).
    pub fn sync_from_mobile(&mut self, mobile: &[Option<MobileEntryInfo>; 2])
        ensures
            *final(self) == mobile_synced(*old(self), *mobile),
    {
        if let Some(m) = mobile[0] {
            self.mobile1_block_idx = m.start_page as u16;
            self.mobile1_length = if m.data_len < 0xFFFF {
                m.data_len as u16
            } else {
                0xFFFF
            };
        }
        if let Some(m) = mobile[1] {
            self.mobile2_block_idx = m.start_page as u16;
            self.mobile2_length = if m.data_len < 0xFFFF {
                m.data_len as u16
            } else {
                0xFFFF
            };
        }
    }
}

/// Whether slot `i` is rewritten: the first slot always, the second only when
/// in use; an unused slot is skipped when the root has no block.
pub open spec fn slot_rewritten(slots: [CoronaFsData; 2], root: FsRootInfo, i: int) -> bool {
    !(i > 0 && slots[i].fs_version == 0) && !(root.block_number < 0 && slots[i].fs_version == 0)
}

/// `image` with the 512 bytes at slot `i` replaced by `c`'s bytes.
pub open spec fn with_slot(image: Seq<u8>, i: int, c: CoronaFsData) -> Seq<u8> {
    image.subrange(0, slot_offset(i)) + corona_bytes(c) + image.subrange(slot_offset(i) + 0x200, image.len() as int)
}

fn write_slot(image: &mut [u8], i: usize, c: &CoronaFsData) -> (r: Result<(), CoronaError>)
    requires
        i < 2,
    ensures
        slot_offset(i as int) + 0x200 > old(image)@.len() ==> r == Err::<(), CoronaError>(
            CoronaError::WriteOutOfBounds { slot: i, offset: slot_offset(i as int) as usize },
        ) && final(image)@ == old(image)@,
        slot_offset(i as int) + 0x200 <= old(image)@.len() ==> r is Ok && final(image)@ == with_slot(
            old(image)@,
            i as int,
            *c,
        ),
{
    let offset = CORONA_FS_DATA_BASE + i * CORONA_FS_DATA_STRIDE;
    if offset + CORONA_FS_DATA_SIZE > image.len() {
        return Err(CoronaError::WriteOutOfBounds { slot: i, offset });
    }
    let raw = c.to_bytes();
    let mut k: usize = 0;
    while k < 0x200
        invariant
            k <= 0x200,
            offset == slot_offset(i as int),
            offset + 0x200 <= image@.len(),
            image@.len() == old(image)@.len(),
            raw@ == corona_bytes(*c),
            forall|q: int| 0 <= q < image@.len() ==> image@[q] == (if offset <= q < offset + k {
                raw@[q - offset]
            } else {
                old(image)@[q]
            }),
        decreases 0x200 - k,
    {
        image[offset + k] = raw[k];
        k += 1;
    }
    assert(image@ =~= with_slot(old(image)@, i as int, *c));
    Ok(())
}

/// Rewrites slot `i` when `slot_rewritten` says so: syncs it, refreshes
/// its digest and stores it in the image (an error when it does not fit).
fn rewrite_slot(
    image: &mut [u8],
    slots: &mut [CoronaFsData; 2],
    i: usize,
    root: &FsRootInfo,
    mobile: &[Option<MobileEntryInfo>; 2],
) -> (r: Result<(), CoronaError>)
    requires
        i < 2,
    ensures
        !slot_rewritten(*old(slots), *root, i as int) ==> r is Ok && final(image)@ == old(image)@ && *final(slots)
            == *old(slots),
        slot_rewritten(*old(slots), *root, i as int) ==> {
            &&& digest_refreshed(synced_slot(old(slots)[i as int], *root, *mobile), final(slots)[i as int])
            &&& final(slots)[1 - i] == old(slots)[1 - i]
            &&& slot_offset(i as int) + 0x200 <= old(image)@.len() ==> r is Ok && final(image)@ == with_slot(
                old(image)@,
                i as int,
                final(slots)[i as int],
            )
            &&& slot_offset(i as int) + 0x200 > old(image)@.len() ==> r == Err::<(), CoronaError>(
                CoronaError::WriteOutOfBounds { slot: i, offset: slot_offset(i as int) as usize },
            ) && final(image)@ == old(image)@
        },
{
    if i > 0 && slots[i].fs_version == 0 {
        return Ok(());
    }
    if root.block_number < 0 && slots[i].fs_version == 0 {
        return Ok(());
    }
    let mut slot = slots[i];
    slot.sync_from_fs_root(root);
    slot.sync_from_mobile(mobile);
    match slot.refresh_digest() {
        Ok(()) => {},
        Err(e) => return Err(e),
    }
    slots[i] = slot;
    write_slot(image, i, &slot)
}

/// Writes the FlashFS root and mobile stores back into the Corona slots of
/// an eMMC image: nothing happens when the root has neither a block nor
/// entries; otherwise each rewritten slot (see `slot_rewritten`) is synced,
/// gets a fresh digest and is stored, the first slot that does not fit in the
/// image stopping the write with an error.
pub fn write_back(
    image: &mut [u8],
    slots: &mut [CoronaFsData; 2],
    root: &FsRootInfo,
    mobile: &[Option<MobileEntryInfo>; 2],
) -> (r: Result<(), CoronaError>)
    ensures
        root.block_number < 0 && !root.has_entries ==> r is Ok && final(image)@ == old(image)@ && *final(slots)
            == *old(slots),
        !(root.block_number < 0 && !root.has_entries) ==> {
            let w0 = slot_rewritten(*old(slots), *root, 0);
            let w1 = slot_rewritten(*old(slots), *root, 1);
            let fits0 = slot_offset(0) + 0x200 <= old(image)@.len();
            let fits1 = slot_offset(1) + 0x200 <= old(image)@.len();
            let im1 = if w0 {
                with_slot(old(image)@, 0, final(slots)[0])
            } else {
                old(image)@
            };
            &&& !w0 ==> final(slots)[0] == old(slots)[0]
            &&& w0 ==> digest_refreshed(synced_slot(old(slots)[0], *root, *mobile), final(slots)[0])
            &&& w0 && !fits0 ==> r == Err::<(), CoronaError>(
                CoronaError::WriteOutOfBounds { slot: 0, offset: slot_offset(0) as usize },
            ) && final(image)@ == old(image)@ && final(slots)[1] == old(slots)[1]
            &&& (!w0 || fits0) && !w1 ==> r is Ok && final(slots)[1] == old(slots)[1] && final(image)@ == im1
            &&& (!w0 || fits0) && w1 ==> digest_refreshed(synced_slot(old(slots)[1], *root, *mobile), final(slots)[1])
            &&& (!w0 || fits0) && w1 && fits1 ==> r is Ok && final(image)@ == with_slot(im1, 1, final(slots)[1])
            &&& (!w0 || fits0) && w1 && !fits1 ==> r == Err::<(), CoronaError>(
                CoronaError::WriteOutOfBounds { slot: 1, offset: slot_offset(1) as usize },
            ) && final(image)@ == im1
        },
{
    if root.block_number < 0 && !root.has_entries {
        return Ok(());
    }
    let ghost s0 = *slots;
    match rewrite_slot(image, slots, 0, root, mobile) {
        Ok(()) => {},
        Err(e) => return Err(e),
    }
    assert(slots[1] == s0[1]);
    assert(slot_rewritten(*slots, *root, 1) == slot_rewritten(s0, *root, 1));
    let ghost s1 = *slots;
    let r = rewrite_slot(image, slots, 1, root, mobile);
    assert(slots[0] == s1[0]);
    r
}

} // verus!
