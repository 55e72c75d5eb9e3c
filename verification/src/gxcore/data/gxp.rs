//! GXP patch container: a 16-byte header ("GXP\0", kernel version, motherboard,
//! patch type, bootloader id, offset) followed by patch records grouped into
//! sections; the legacy xeBuild format is the bare record stream.

use vstd::prelude::*;
use crate::gxcore::images::blocks::{slice_to_vec, copy_into, splice};
use crate::text::{push_text, string_from_chars};

verus! {

/// First four bytes of a GXP file.
pub const GXP_MAGIC: [u8; 4] = [0x47u8, 0x58u8, 0x50u8, 0x00u8];

/// Section separator in a record stream.
pub const SECTION_SENTINEL: u32 = 0xFFFF_FFFFu32;

/// Patched buffers may not grow past this size.
pub const MAX_PATCHED_SIZE: u64 = 0x40_0000u64;

#[derive(Debug, Clone, Copy, PartialEq, Eq, Structural)]
pub enum MotherboardType {
    Any,
    Xenon,
    Zephyr,
    Falcon,
    Jasper,
    Trinity,
    Corona,
    Winchester,
    Unknown,
}

pub open spec fn motherboard_from_spec(v: u16) -> MotherboardType {
    if v == 0 {
        MotherboardType::Any
    } else if v == 1 {
        MotherboardType::Xenon
    } else if v == 2 {
        MotherboardType::Zephyr
    } else if v == 3 {
        MotherboardType::Falcon
    } else if v == 4 {
        MotherboardType::Jasper
    } else if v == 5 {
        MotherboardType::Trinity
    } else if v == 6 {
        MotherboardType::Corona
    } else if v == 7 {
        MotherboardType::Winchester
    } else {
        MotherboardType::Unknown
    }
}

impl From<u16> for MotherboardType {
    fn from(v: u16) -> (r: Self) {
        match v {
            0 => MotherboardType::Any,
            1 => MotherboardType::Xenon,
            2 => MotherboardType::Zephyr,
            3 => MotherboardType::Falcon,
            4 => MotherboardType::Jasper,
            5 => MotherboardType::Trinity,
            6 => MotherboardType::Corona,
            7 => MotherboardType::Winchester,
            _ => MotherboardType::Unknown,
        }
    }
}

impl vstd::std_specs::convert::FromSpecImpl<u16> for MotherboardType {
    open spec fn obeys_from_spec() -> bool {
        true
    }

    open spec fn from_spec(v: u16) -> Self {
        motherboard_from_spec(v)
    }
}

#[derive(Debug, Clone, Copy, PartialEq, Eq, Structural)]
pub enum GxpPatchType {
    Disabled,
    /// CB_B, CD, KHV, SMC
    Rgh4Section,
    /// 1BL, CB, CD, KHV
    Jtag4Section,
    /// CB, CD, KHV
    Rgh3Section,
    /// One section for the target bootloader
    Standalone,
    /// One section for the target bootloader, at an offset
    Addon,
    /// 1BL, CB, CD, KHV, SMC
    Jtag5Section,
    Unknown,
}

pub open spec fn patch_type_from_spec(v: u8) -> GxpPatchType {
    if v == 0 {
        GxpPatchType::Disabled
    } else if v == 1 {
        GxpPatchType::Rgh4Section
    } else if v == 2 {
        GxpPatchType::Jtag4Section
    } else if v == 3 {
        GxpPatchType::Rgh3Section
    } else if v == 4 {
        GxpPatchType::Standalone
    } else if v == 5 {
        GxpPatchType::Addon
    } else if v == 7 {
        GxpPatchType::Jtag5Section
    } else {
        GxpPatchType::Unknown
    }
}

impl From<u8> for GxpPatchType {
    fn from(v: u8) -> (r: Self) {
        match v {
            0 => GxpPatchType::Disabled,
            1 => GxpPatchType::Rgh4Section,
            2 => GxpPatchType::Jtag4Section,
            3 => GxpPatchType::Rgh3Section,
            4 => GxpPatchType::Standalone,
            5 => GxpPatchType::Addon,
            7 => GxpPatchType::Jtag5Section,
            _ => GxpPatchType::Unknown,
        }
    }
}

impl vstd::std_specs::convert::FromSpecImpl<u8> for GxpPatchType {
    open spec fn obeys_from_spec() -> bool {
        true
    }

    open spec fn from_spec(v: u8) -> Self {
        patch_type_from_spec(v)
    }
}

#[derive(Debug, Clone, Copy, PartialEq, Eq, Structural)]
pub enum BootloaderId {
    Empty,
    OneBl,
    Cb,
    CbA,
    CbB,
    Cd,
    Khv,
    Smc,
    Unknown,
}

pub open spec fn bootloader_from_spec(v: u8) -> BootloaderId {
    if v == 0 {
        BootloaderId::Empty
    } else if v == 1 {
        BootloaderId::OneBl
    } else if v == 2 {
        BootloaderId::Cb
    } else if v == 3 {
        BootloaderId::CbA
    } else if v == 4 {
        BootloaderId::CbB
    } else if v == 5 {
        BootloaderId::Cd
    } else if v == 6 {
        BootloaderId::Khv
    } else if v == 7 {
        BootloaderId::Smc
    } else {
        BootloaderId::Unknown
    }
}

impl From<u8> for BootloaderId {
    fn from(v: u8) -> (r: Self) {
        match v {
            0 => BootloaderId::Empty,
            1 => BootloaderId::OneBl,
            2 => BootloaderId::Cb,
            3 => BootloaderId::CbA,
            4 => BootloaderId::CbB,
            5 => BootloaderId::Cd,
            6 => BootloaderId::Khv,
            7 => BootloaderId::Smc,
            _ => BootloaderId::Unknown,
        }
    }
}

impl vstd::std_specs::convert::FromSpecImpl<u8> for BootloaderId {
    open spec fn obeys_from_spec() -> bool {
        true
    }

    open spec fn from_spec(v: u8) -> Self {
        bootloader_from_spec(v)
    }
}

/// Failures of GXP parsing and patching.
#[derive(Debug, Clone, Copy, PartialEq, Eq, Structural)]
pub enum GxpError {
    /// The record stream ended inside a record.
    UnexpectedEof,
    /// A record would grow the buffer to this end offset, past the 4 MB limit.
    ExceedsSafetyLimit(u64),
    /// The patch holds no section to apply.
    NoSections,
}

/// Upper-case hex digit of a value below 16.
pub open spec fn hex_upper_digit(d: nat) -> char {
    if d < 10 {
        (0x30 + d) as char
    } else {
        (0x41 + d - 10) as char
    }
}

/// `format!("{:X}", v)`: upper-case hex without leading zeros.
pub open spec fn hex_upper(v: nat) -> Seq<char>
    decreases v,
{
    if v < 16 {
        seq![hex_upper_digit(v)]
    } else {
        hex_upper(v / 16) + seq![hex_upper_digit(v % 16)]
    }
}

fn hex_upper_exec(v: u64) -> (r: Vec<char>)
    ensures
        r@ == hex_upper(v as nat),
    decreases v,
{
    let d = (v % 16) as u8;
    let c = if d < 10 {
        (0x30u8 + d) as char
    } else {
        (0x41u8 + d - 10) as char
    };
    if v < 16 {
        vec![c]
    } else {
        let mut r = hex_upper_exec(v / 16);
        r.push(c);
        r
    }
}

/// The text each error displays (an early end is `read_exact`'s error).
pub open spec fn gxp_error_text(e: GxpError) -> Seq<char> {
    match e {
        GxpError::UnexpectedEof => "failed to fill whole buffer"@,
        GxpError::ExceedsSafetyLimit(end) => "Patch address 0x"@ + hex_upper(end as nat) + " exceeds 4MB safety limit"@,
        GxpError::NoSections => "Patch file contains no sections"@,
    }
}

impl GxpError {
    /// Text of the error (see `gxp_error_text`).
    pub fn message(&self) -> (r: String)
        ensures
            r@ == gxp_error_text(*self),
    {
        match self {
            GxpError::UnexpectedEof => "failed to fill whole buffer".to_owned(),
            GxpError::ExceedsSafetyLimit(end) => {
                let mut t: Vec<char> = Vec::new();
                push_text(&mut t, "Patch address 0x");
                let mut h = hex_upper_exec(*end);
                t.append(&mut h);
                push_text(&mut t, " exceeds 4MB safety limit");
                string_from_chars(t.as_slice())
            },
            GxpError::NoSections => "Patch file contains no sections".to_owned(),
        }
    }
}

/// One patch record: `data` goes to `address`; `amount` is the count read
/// from the stream (words, or bytes for byte-granular sections).
#[derive(Debug, Clone)]
pub struct PatchRecord {
    pub address: u32,
    pub amount: u32,
    pub data: Vec<u8>,
}

impl View for PatchRecord {
    type V = (u32, u32, Seq<u8>);

    open spec fn view(&self) -> (u32, u32, Seq<u8>) {
        (self.address, self.amount, self.data@)
    }
}

#[derive(Debug, Clone, Copy)]
pub struct GxpHeader {
    pub magic: [u8; 4],
    pub version: u32,
    pub motherboard: MotherboardType,
    pub patch_type: GxpPatchType,
    pub bootloader: BootloaderId,
    pub offset: u32,
}

pub open spec fn legacy_patch_type(section_count: int) -> GxpPatchType {
    if section_count == 4 {
        GxpPatchType::Jtag4Section
    } else if section_count == 3 {
        GxpPatchType::Rgh3Section
    } else if section_count == 1 {
        GxpPatchType::Addon
    } else {
        GxpPatchType::Unknown
    }
}

impl GxpHeader {
    /// Header inferred for a legacy patch from its section count: four sections
    /// are JTAG, three RGH, one an add-on for the kernel; no magic, version 0.
    pub fn new_legacy(section_count: usize) -> (r: Self)
        ensures
            r.magic@ == seq![0u8, 0u8, 0u8, 0u8],
            r.version == 0,
            r.motherboard == MotherboardType::Any,
            r.patch_type == legacy_patch_type(section_count as int),
            r.bootloader == (if r.patch_type == GxpPatchType::Addon {
                BootloaderId::Khv
            } else {
                BootloaderId::Empty
            }),
            r.offset == 0,
    {
        let patch_type = match section_count {
            4 => GxpPatchType::Jtag4Section,
            3 => GxpPatchType::Rgh3Section,
            1 => GxpPatchType::Addon,
            _ => GxpPatchType::Unknown,
        };
        let bootloader = if patch_type == GxpPatchType::Addon {
            BootloaderId::Khv
        } else {
            BootloaderId::Empty
        };
        let r = GxpHeader {
            magic: [0u8; 4],
            version: 0,
            motherboard: MotherboardType::Any,
            patch_type,
            bootloader,
            offset: 0,
        };
        assert(r.magic@ =~= seq![0u8, 0u8, 0u8, 0u8]);
        r
    }
}

#[derive(Debug, Clone)]
pub struct GxpSection {
    pub records: Vec<PatchRecord>,
}

impl View for GxpSection {
    type V = Seq<(u32, u32, Seq<u8>)>;

    open spec fn view(&self) -> Seq<(u32, u32, Seq<u8>)> {
        self.records@.map_values(|r: PatchRecord| r@)
    }
}

pub open spec fn sections_view(s: Seq<GxpSection>) -> Seq<Seq<(u32, u32, Seq<u8>)>> {
    s.map_values(|x: GxpSection| x@)
}

/// Big-endian 32-bit word at `p`.
pub open spec fn be32(s: Seq<u8>, p: int) -> int {
    s[p] as int * 0x100_0000 + s[p + 1] as int * 0x1_0000 + s[p + 2] as int * 0x100 + s[p + 3] as int
}

fn read_be32(s: &[u8], p: usize) -> (r: u32)
    requires
        p + 4 <= s@.len(),
    ensures
        r == be32(s@, p as int),
{
    (s[p] as u32) * 0x100_0000 + (s[p + 1] as u32) * 0x1_0000 + (s[p + 2] as u32) * 0x100 + (s[p + 3] as u32)
}

/// Whether a record's count is in bytes rather than words: never in legacy
/// patches; in GXP patches only for the SMC section (the fourth of an RGH
/// 4-section patch, the fifth of a JTAG 5-section one, or a single-section
/// patch whose target is the SMC).
pub open spec fn byte_mode_spec(
    patch_type: GxpPatchType,
    is_legacy: bool,
    smc_id: BootloaderId,
    section_idx: int,
) -> bool {
    if is_legacy {
        false
    } else {
        match patch_type {
            GxpPatchType::Rgh4Section => section_idx == 3,
            GxpPatchType::Jtag5Section => section_idx == 4,
            GxpPatchType::Standalone | GxpPatchType::Addon => smc_id == BootloaderId::Smc,
            _ => false,
        }
    }
}

fn is_byte_mode(patch_type: GxpPatchType, is_legacy: bool, smc_id: BootloaderId, section_idx: usize) -> (r: bool)
    ensures
        r == byte_mode_spec(patch_type, is_legacy, smc_id, section_idx as int),
{
    if is_legacy {
        false
    } else {
        match patch_type {
            GxpPatchType::Rgh4Section => section_idx == 3,
            GxpPatchType::Jtag5Section => section_idx == 4,
            GxpPatchType::Standalone | GxpPatchType::Addon => smc_id == BootloaderId::Smc,
            _ => false,
        }
    }
}

/// Sections read from position `pos` on, given the sections already closed
/// (`done`) and the records of the open one (`cur`); `None` when the stream ends
/// inside a record. Fewer than four bytes left end the stream, closing the open
/// section if it has records; a sentinel word closes the open section.
pub open spec fn parse_sections_from(
    data: Seq<u8>,
    pos: int,
    done: Seq<Seq<(u32, u32, Seq<u8>)>>,
    cur: Seq<(u32, u32, Seq<u8>)>,
    patch_type: GxpPatchType,
    is_legacy: bool,
    smc_id: BootloaderId,
) -> Option<Seq<Seq<(u32, u32, Seq<u8>)>>>
    decreases data.len() - pos,
{
    if pos < 0 || pos + 4 > data.len() {
        Some(if cur.len() > 0 { done.push(cur) } else { done })
    } else if be32(data, pos) == 0xFFFF_FFFF {
        parse_sections_from(data, pos + 4, done.push(cur), Seq::empty(), patch_type, is_legacy, smc_id)
    } else if pos + 8 > data.len() {
        None
    } else {
        let amount = be32(data, pos + 4);
        let n = if byte_mode_spec(patch_type, is_legacy, smc_id, done.len() as int) {
            amount
        } else {
            amount * 4
        };
        if pos + 8 + n > data.len() {
            None
        } else {
            parse_sections_from(
                data,
                pos + 8 + n,
                done,
                cur.push((be32(data, pos) as u32, amount as u32, data.subrange(pos + 8, pos + 8 + n))),
                patch_type,
                is_legacy,
                smc_id,
            )
        }
    }
}

pub open spec fn parse_sections(
    data: Seq<u8>,
    start: int,
    patch_type: GxpPatchType,
    is_legacy: bool,
    smc_id: BootloaderId,
) -> Option<Seq<Seq<(u32, u32, Seq<u8>)>>> {
    parse_sections_from(data, start, Seq::empty(), Seq::empty(), patch_type, is_legacy, smc_id)
}

fn read_sections_at(
    data: &[u8],
    start: usize,
    patch_type: GxpPatchType,
    is_legacy: bool,
    smc_id: BootloaderId,
) -> (r: Result<Vec<GxpSection>, GxpError>)
    ensures
        match parse_sections(data@, start as int, patch_type, is_legacy, smc_id) {
            Some(s) => r matches Ok(v) && sections_view(v@) == s,
            None => r == Err::<Vec<GxpSection>, GxpError>(GxpError::UnexpectedEof),
        },
{
    let len = data.len();
    let mut sections: Vec<GxpSection> = Vec::new();
    let mut cur: Vec<PatchRecord> = Vec::new();
    let mut pos = start;
    assert(sections_view(sections@) =~= Seq::<Seq<(u32, u32, Seq<u8>)>>::empty());
    assert(cur@.map_values(|r: PatchRecord| r@) =~= Seq::<(u32, u32, Seq<u8>)>::empty());
    loop
        invariant
            len == data@.len(),
            pos >= start,
            parse_sections_from(data@, pos as int, sections_view(sections@), cur@.map_values(|r: PatchRecord| r@), patch_type, is_legacy, smc_id)
                == parse_sections(data@, start as int, patch_type, is_legacy, smc_id),
        decreases len - pos,
    {
        if pos > len || len - pos < 4 {
            let ghost cv = cur@.map_values(|r: PatchRecord| r@);
            let ghost before = sections_view(sections@);
            if cur.len() > 0 {
                sections.push(GxpSection { records: cur });
                assert(sections_view(sections@) =~= before.push(cv));
            }
            return Ok(sections);
        }
        let word = read_be32(data, pos);
        if word == SECTION_SENTINEL {
            let ghost cv = cur@.map_values(|r: PatchRecord| r@);
            let ghost before = sections_view(sections@);
            let taken = cur;
            cur = Vec::new();
            sections.push(GxpSection { records: taken });
            assert(sections_view(sections@) =~= before.push(cv));
            assert(cur@.map_values(|r: PatchRecord| r@) =~= Seq::<(u32, u32, Seq<u8>)>::empty());
            pos = pos + 4;
            continue;
        }
        if len - pos < 8 {
            return Err(GxpError::UnexpectedEof);
        }
        let amount = read_be32(data, pos + 4);
        let byte_mode = is_byte_mode(patch_type, is_legacy, smc_id, sections.len());
        let n: u64 = if byte_mode { amount as u64 } else { (amount as u64) * 4 };
        if n > (len - pos - 8) as u64 {
            return Err(GxpError::UnexpectedEof);
        }
        let nn = n as usize;
        let bytes = slice_to_vec(data, pos + 8, pos + 8 + nn);
        let ghost cv = cur@.map_values(|r: PatchRecord| r@);
        let rec = PatchRecord { address: word, amount, data: bytes };
        cur.push(rec);
        assert(cur@.map_values(|r: PatchRecord| r@) =~= cv.push(rec@));
        pos = pos + 8 + nn;
    }
}

/// Reads a record stream into sections. Records are `address`, `count` (both
/// big-endian words) and the data: `count` words, or `count` bytes in the SMC
/// section of a GXP patch. A `0xFFFFFFFF` word closes a section.
pub fn read_patch_sections(
    data: &[u8],
    patch_type: GxpPatchType,
    is_legacy: bool,
    smc_id: BootloaderId,
) -> (r: Result<Vec<GxpSection>, GxpError>)
    ensures
        match parse_sections(data@, 0, patch_type, is_legacy, smc_id) {
            Some(s) => r matches Ok(v) && sections_view(v@) == s,
            None => r == Err::<Vec<GxpSection>, GxpError>(GxpError::UnexpectedEof),
        },
{
    read_sections_at(data, 0, patch_type, is_legacy, smc_id)
}

/// Legacy streams are read word by word whatever the patch type and target.
proof fn lemma_legacy_parse_independent(
    data: Seq<u8>,
    pos: int,
    done: Seq<Seq<(u32, u32, Seq<u8>)>>,
    cur: Seq<(u32, u32, Seq<u8>)>,
    pt1: GxpPatchType,
    s1: BootloaderId,
    pt2: GxpPatchType,
    s2: BootloaderId,
)
    ensures
        parse_sections_from(data, pos, done, cur, pt1, true, s1) == parse_sections_from(data, pos, done, cur, pt2, true, s2),
    decreases data.len() - pos,
{
    if pos < 0 || pos + 4 > data.len() {
    } else if be32(data, pos) == 0xFFFF_FFFF {
        lemma_legacy_parse_independent(data, pos + 4, done.push(cur), Seq::empty(), pt1, s1, pt2, s2);
    } else if pos + 8 > data.len() {
    } else {
        let amount = be32(data, pos + 4);
        let n = amount * 4;
        if pos + 8 + n <= data.len() {
            lemma_legacy_parse_independent(
                data,
                pos + 8 + n,
                done,
                cur.push((be32(data, pos) as u32, amount as u32, data.subrange(pos + 8, pos + 8 + n))),
                pt1,
                s1,
                pt2,
                s2,
            );
        }
    }
}

/// Buffer after one record: the record's data is written at its address, the
/// buffer first growing with zeros when the record ends past it; a record
/// ending past both the buffer and the 4 MB limit is refused with its end.
pub open spec fn apply_one(rec: (u32, u32, Seq<u8>), d: Seq<u8>) -> Result<Seq<u8>, u64> {
    let end = rec.0 as int + rec.2.len();
    if end > d.len() && end > 0x40_0000 {
        Err(end as u64)
    } else if end > d.len() {
        Ok(splice(d + Seq::new((end - d.len()) as nat, |i: int| 0u8), rec.0 as int, rec.2))
    } else {
        Ok(splice(d, rec.0 as int, rec.2))
    }
}

/// Records applied in order; on a refused record the buffer keeps the
/// records before it and the refused end is returned.
pub open spec fn apply_records_spec(records: Seq<(u32, u32, Seq<u8>)>, d: Seq<u8>) -> (Seq<u8>, Option<u64>)
    decreases records.len(),
{
    if records.len() == 0 {
        (d, None)
    } else {
        match apply_one(records[0], d) {
            Err(e) => (d, Some(e)),
            Ok(d2) => apply_records_spec(records.drop_first(), d2),
        }
    }
}

pub open spec fn apply_result(e: Option<u64>) -> Result<(), GxpError> {
    match e {
        None => Ok(()),
        Some(end) => Err(GxpError::ExceedsSafetyLimit(end)),
    }
}

/// Applies patch records to a buffer in order (see `apply_records_spec`).
pub fn apply_records(records: &[PatchRecord], data: &mut Vec<u8>) -> (r: Result<(), GxpError>)
    ensures
        ({
            let res = apply_records_spec(records@.map_values(|x: PatchRecord| x@), old(data)@);
            &&& final(data)@ == res.0
            &&& r == apply_result(res.1)
        }),
{
    let ghost all = records@.map_values(|x: PatchRecord| x@);
    let n = records.len();
    let mut i: usize = 0;
    assert(all.subrange(0, n as int) =~= all);
    while i < n
        invariant
            n == records@.len(),
            i <= n,
            all == records@.map_values(|x: PatchRecord| x@),
            apply_records_spec(all.subrange(i as int, n as int), data@) == apply_records_spec(all, old(data)@),
        decreases n - i,
    {
        let ghost rest = all.subrange(i as int, n as int);
        assert(rest.drop_first() =~= all.subrange(i as int + 1, n as int));
        assert(rest[0] == records@[i as int]@);
        let rec = &records[i];
        let offset = rec.address as usize;
        let rlen = rec.data.len();
        let end: u128 = rec.address as u128 + rlen as u128;
        if end > data.len() as u128 {
            if end > MAX_PATCHED_SIZE as u128 {
                return Err(GxpError::ExceedsSafetyLimit(end as u64));
            }
            let ghost before = data@;
            data.resize(end as usize, 0u8);
            assert(data@ =~= before + Seq::new((end - before.len()) as nat, |k: int| 0u8));
        }
        copy_into(data.as_mut_slice(), offset, rec.data.as_slice(), 0, rlen);
        assert(rec.data@.subrange(0, rlen as int) =~= rec.data@);
        i += 1;
    }
    assert(all.subrange(n as int, n as int) =~= Seq::<(u32, u32, Seq<u8>)>::empty());
    Ok(())
}

#[derive(Debug, Clone)]
pub struct GxpBinary {
    pub header: GxpHeader,
    pub sections: Vec<GxpSection>,
    pub is_legacy: bool,
    pub onebl: Option<GxpSection>,
    pub cb: Option<GxpSection>,
    pub cb_a: Option<GxpSection>,
    pub cb_b: Option<GxpSection>,
    pub cd: Option<GxpSection>,
    pub khv: Option<GxpSection>,
    pub smc: Option<GxpSection>,
}

pub open spec fn slot_view(o: Option<GxpSection>) -> Option<Seq<(u32, u32, Seq<u8>)>> {
    match o {
        Some(s) => Some(s@),
        None => None,
    }
}

/// Section that lands in bootloader slot `slot`: by position for multi-section
/// patch types (when enough sections are present), the first section in the
/// header's target slot for single-section ones (the kernel slot for an unknown
/// target), and the first section in the kernel slot for other legacy patches.
pub open spec fn routed(
    pt: GxpPatchType,
    bl: BootloaderId,
    is_legacy: bool,
    secs: Seq<Seq<(u32, u32, Seq<u8>)>>,
    slot: BootloaderId,
) -> Option<Seq<(u32, u32, Seq<u8>)>> {
    match pt {
        GxpPatchType::Rgh4Section => if secs.len() >= 4 {
            match slot {
                BootloaderId::CbB => Some(secs[0]),
                BootloaderId::Cd => Some(secs[1]),
                BootloaderId::Khv => Some(secs[2]),
                BootloaderId::Smc => Some(secs[3]),
                _ => None,
            }
        } else {
            None
        },
        GxpPatchType::Jtag5Section => if secs.len() >= 5 {
            match slot {
                BootloaderId::OneBl => Some(secs[0]),
                BootloaderId::Cb => Some(secs[1]),
                BootloaderId::Cd => Some(secs[2]),
                BootloaderId::Khv => Some(secs[3]),
                BootloaderId::Smc => Some(secs[4]),
                _ => None,
            }
        } else {
            None
        },
        GxpPatchType::Jtag4Section => if secs.len() >= 4 {
            match slot {
                BootloaderId::OneBl => Some(secs[0]),
                BootloaderId::Cb => Some(secs[1]),
                BootloaderId::Cd => Some(secs[2]),
                BootloaderId::Khv => Some(secs[3]),
                _ => None,
            }
        } else {
            None
        },
        GxpPatchType::Rgh3Section => if secs.len() >= 3 {
            match slot {
                BootloaderId::Cb => Some(secs[0]),
                BootloaderId::Cd => Some(secs[1]),
                BootloaderId::Khv => Some(secs[2]),
                _ => None,
            }
        } else {
            None
        },
        GxpPatchType::Standalone | GxpPatchType::Addon => if secs.len() > 0 {
            let target = match bl {
                BootloaderId::Empty | BootloaderId::Unknown => BootloaderId::Khv,
                _ => bl,
            };
            if slot == target {
                Some(secs[0])
            } else {
                None
            }
        } else {
            None
        },
        _ => if is_legacy && secs.len() > 0 && slot == BootloaderId::Khv {
            Some(secs[0])
        } else {
            None
        },
    }
}

/// The sections of `b` and its seven bootloader slots follow `routed`.
pub open spec fn binary_routes(b: GxpBinary, secs: Seq<Seq<(u32, u32, Seq<u8>)>>) -> bool {
    let pt = b.header.patch_type;
    let bl = b.header.bootloader;
    let lg = b.is_legacy;
    &&& sections_view(b.sections@) == secs
    &&& slot_view(b.onebl) == routed(pt, bl, lg, secs, BootloaderId::OneBl)
    &&& slot_view(b.cb) == routed(pt, bl, lg, secs, BootloaderId::Cb)
    &&& slot_view(b.cb_a) == routed(pt, bl, lg, secs, BootloaderId::CbA)
    &&& slot_view(b.cb_b) == routed(pt, bl, lg, secs, BootloaderId::CbB)
    &&& slot_view(b.cd) == routed(pt, bl, lg, secs, BootloaderId::Cd)
    &&& slot_view(b.khv) == routed(pt, bl, lg, secs, BootloaderId::Khv)
    &&& slot_view(b.smc) == routed(pt, bl, lg, secs, BootloaderId::Smc)
}

fn copy_record(r: &PatchRecord) -> (c: PatchRecord)
    ensures
        c@ == r@,
{
    let data = slice_to_vec(r.data.as_slice(), 0, r.data.len());
    assert(r.data@.subrange(0, r.data@.len() as int) =~= r.data@);
    PatchRecord { address: r.address, amount: r.amount, data }
}

fn copy_section(s: &GxpSection) -> (c: GxpSection)
    ensures
        c@ == s@,
{
    let n = s.records.len();
    let mut out: Vec<PatchRecord> = Vec::new();
    let mut i: usize = 0;
    while i < n
        invariant
            n == s.records@.len(),
            i <= n,
            out@.map_values(|r: PatchRecord| r@) =~= s.records@.subrange(0, i as int).map_values(|r: PatchRecord| r@),
        decreases n - i,
    {
        let ghost before = out@.map_values(|r: PatchRecord| r@);
        let c = copy_record(&s.records[i]);
        out.push(c);
        assert(out@.map_values(|r: PatchRecord| r@) =~= before.push(c@));
        assert(s.records@.subrange(0, i as int + 1).map_values(|r: PatchRecord| r@) =~= s.records@.subrange(
            0,
            i as int,
        ).map_values(|r: PatchRecord| r@).push(s.records@[i as int]@));
        i += 1;
    }
    assert(s.records@.subrange(0, n as int) =~= s.records@);
    GxpSection { records: out }
}

fn copy_nth(secs: &Vec<GxpSection>, i: usize) -> (r: Option<GxpSection>)
    requires
        i < secs@.len(),
    ensures
        slot_view(r) == Some(sections_view(secs@)[i as int]),
{
    Some(copy_section(&secs[i]))
}

/// Builds the binary and fills the bootloader slots from the sections.
fn route_sections(header: GxpHeader, sections: Vec<GxpSection>, is_legacy: bool) -> (b: GxpBinary)
    ensures
        b.header == header,
        b.is_legacy == is_legacy,
        binary_routes(b, sections_view(sections@)),
{
    let ghost secs = sections_view(sections@);
    let n = sections.len();
    let mut onebl: Option<GxpSection> = None;
    let mut cb: Option<GxpSection> = None;
    let mut cb_a: Option<GxpSection> = None;
    let mut cb_b: Option<GxpSection> = None;
    let mut cd: Option<GxpSection> = None;
    let mut khv: Option<GxpSection> = None;
    let mut smc: Option<GxpSection> = None;
    match header.patch_type {
        GxpPatchType::Rgh4Section => {
            if n >= 4 {
                cb_b = copy_nth(&sections, 0);
                cd = copy_nth(&sections, 1);
                khv = copy_nth(&sections, 2);
                smc = copy_nth(&sections, 3);
            }
        },
        GxpPatchType::Jtag5Section => {
            if n >= 5 {
                onebl = copy_nth(&sections, 0);
                cb = copy_nth(&sections, 1);
                cd = copy_nth(&sections, 2);
                khv = copy_nth(&sections, 3);
                smc = copy_nth(&sections, 4);
            }
        },
        GxpPatchType::Jtag4Section => {
            if n >= 4 {
                onebl = copy_nth(&sections, 0);
                cb = copy_nth(&sections, 1);
                cd = copy_nth(&sections, 2);
                khv = copy_nth(&sections, 3);
            }
        },
        GxpPatchType::Rgh3Section => {
            if n >= 3 {
                cb = copy_nth(&sections, 0);
                cd = copy_nth(&sections, 1);
                khv = copy_nth(&sections, 2);
            }
        },
        GxpPatchType::Standalone | GxpPatchType::Addon => {
            if n > 0 {
                let sec = copy_nth(&sections, 0);
                match header.bootloader {
                    BootloaderId::OneBl => onebl = sec,
                    BootloaderId::Cb => cb = sec,
                    BootloaderId::CbA => cb_a = sec,
                    BootloaderId::CbB => cb_b = sec,
                    BootloaderId::Cd => cd = sec,
                    BootloaderId::Khv => khv = sec,
                    BootloaderId::Smc => smc = sec,
                    _ => khv = sec,
                }
            }
        },
        _ => {
            if is_legacy && n > 0 {
                khv = copy_nth(&sections, 0);
            }
        },
    }
    GxpBinary { header, sections, is_legacy, onebl, cb, cb_a, cb_b, cd, khv, smc }
}

pub open spec fn be16(s: Seq<u8>, p: int) -> int {
    s[p] as int * 0x100 + s[p + 1] as int
}

pub open spec fn has_gxp_magic(data: Seq<u8>) -> bool {
    data.len() >= 4 && data[0] == 0x47 && data[1] == 0x58 && data[2] == 0x50 && data[3] == 0
}

/// Sections of a patch file: after the 16-byte header of a GXP file, from the
/// start of a legacy one; `None` when the file is cut short.
pub open spec fn patch_sections_spec(data: Seq<u8>) -> Option<Seq<Seq<(u32, u32, Seq<u8>)>>> {
    if data.len() < 4 {
        None
    } else if has_gxp_magic(data) {
        if data.len() < 16 {
            None
        } else {
            parse_sections(data, 16, patch_type_from_spec(data[10]), false, bootloader_from_spec(data[11]))
        }
    } else {
        parse_sections(data, 0, GxpPatchType::Unknown, true, BootloaderId::Empty)
    }
}

/// Parses a GXP or legacy patch file held in memory and routes its sections
/// to the bootloaders they patch.
pub fn parse_patch_binary(data: &[u8]) -> (r: Result<GxpBinary, GxpError>)
    ensures
        match patch_sections_spec(data@) {
            None => r == Err::<GxpBinary, GxpError>(GxpError::UnexpectedEof),
            Some(secs) => r matches Ok(b) && binary_routes(b, secs) && if has_gxp_magic(data@) {
                &&& !b.is_legacy
                &&& b.header.magic@ == data@.subrange(0, 4)
                &&& b.header.version == be32(data@, 4)
                &&& b.header.motherboard == motherboard_from_spec(be16(data@, 8) as u16)
                &&& b.header.patch_type == patch_type_from_spec(data@[10])
                &&& b.header.bootloader == bootloader_from_spec(data@[11])
                &&& b.header.offset == be32(data@, 12)
            } else {
                &&& b.is_legacy
                &&& b.header.magic@ == seq![0u8, 0u8, 0u8, 0u8]
                &&& b.header.version == 0
                &&& b.header.motherboard == MotherboardType::Any
                &&& b.header.patch_type == legacy_patch_type(secs.len() as int)
                &&& b.header.bootloader == (if b.header.patch_type == GxpPatchType::Addon {
                    BootloaderId::Khv
                } else {
                    BootloaderId::Empty
                })
                &&& b.header.offset == 0
            },
        },
{
    if data.len() < 4 {
        return Err(GxpError::UnexpectedEof);
    }
    let is_gxp = data[0] == GXP_MAGIC[0] && data[1] == GXP_MAGIC[1] && data[2] == GXP_MAGIC[2] && data[3]
        == GXP_MAGIC[3];
    if is_gxp {
        if data.len() < 16 {
            return Err(GxpError::UnexpectedEof);
        }
        let mb = (data[8] as u16) * 0x100 + data[9] as u16;
        let header = GxpHeader {
            magic: [data[0], data[1], data[2], data[3]],
            version: read_be32(data, 4),
            motherboard: MotherboardType::from(mb),
            patch_type: GxpPatchType::from(data[10]),
            bootloader: BootloaderId::from(data[11]),
            offset: read_be32(data, 12),
        };
        assert(header.magic@ =~= data@.subrange(0, 4));
        match read_sections_at(data, 16, header.patch_type, false, header.bootloader) {
            Ok(sections) => Ok(route_sections(header, sections, false)),
            Err(e) => Err(e),
        }
    } else {
        let temp = match read_sections_at(data, 0, GxpPatchType::Unknown, true, BootloaderId::Empty) {
            Ok(t) => t,
            Err(e) => return Err(e),
        };
        let header = GxpHeader::new_legacy(temp.len());
        proof {
            assert(sections_view(temp@).len() == temp@.len());
            lemma_legacy_parse_independent(
                data@,
                0,
                Seq::empty(),
                Seq::empty(),
                GxpPatchType::Unknown,
                BootloaderId::Empty,
                header.patch_type,
                header.bootloader,
            );
        }
        match read_sections_at(data, 0, header.patch_type, true, header.bootloader) {
            Ok(sections) => Ok(route_sections(header, sections, true)),
            Err(e) => Err(e),
        }
    }
}

/// Parses a patch file held in memory and applies its first section to `data`.
pub fn parse_and_apply_to_buffer(patch: &[u8], data: &mut Vec<u8>) -> (r: Result<(), GxpError>)
    ensures
        match patch_sections_spec(patch@) {
            None => r == Err::<(), GxpError>(GxpError::UnexpectedEof) && final(data)@ == old(data)@,
            Some(secs) => if secs.len() == 0 {
                r == Err::<(), GxpError>(GxpError::NoSections) && final(data)@ == old(data)@
            } else {
                let res = apply_records_spec(secs[0], old(data)@);
                final(data)@ == res.0 && r == apply_result(res.1)
            },
        },
{
    let binary = match parse_patch_binary(patch) {
        Ok(b) => b,
        Err(e) => return Err(e),
    };
    if binary.sections.len() > 0 {
        let section = &binary.sections[0];
        apply_records(section.records.as_slice(), data)
    } else {
        Err(GxpError::NoSections)
    }
}


/// Parsing a patch and applying it to a buffer is parsing it with
/// `parse_patch_binary` and applying the records of its first section with
/// `apply_records`: for a parsed binary `b` of the patch, applying
/// `b.sections[0]`'s records changes the buffer and answers exactly as
/// `parse_and_apply_to_buffer` does; the other sections are not applied.
pub proof fn lemma_parse_and_apply_is_first_section(patch: Seq<u8>, b: GxpBinary, d: Seq<u8>)
    requires
        patch_sections_spec(patch) matches Some(secs) && binary_routes(b, secs),
        b.sections@.len() > 0,
    ensures
        apply_records_spec(b.sections@[0].records@.map_values(|x: PatchRecord| x@), d) == apply_records_spec(
            patch_sections_spec(patch)->Some_0[0],
            d,
        ),
{
    let secs = patch_sections_spec(patch)->Some_0;
    assert(sections_view(b.sections@)[0] == secs[0]);
    assert(sections_view(b.sections@)[0] == b.sections@[0]@);
}


/// A parsed RGH patch of four or more sections patches CB_B with its first
/// section, CD with the second, the kernel with the third and the SMC with the
/// fourth; CB, CB_A and the 1BL slot stay empty.
pub proof fn lemma_rgh4_slots(data: Seq<u8>, b: GxpBinary)
    requires
        patch_sections_spec(data) matches Some(secs) && binary_routes(b, secs),
        b.header.patch_type == GxpPatchType::Rgh4Section,
        b.sections@.len() >= 4,
    ensures
        slot_view(b.cb_b) == Some(b.sections@[0]@),
        slot_view(b.cd) == Some(b.sections@[1]@),
        slot_view(b.khv) == Some(b.sections@[2]@),
        slot_view(b.smc) == Some(b.sections@[3]@),
        b.cb is None,
        b.cb_a is None,
        b.onebl is None,
{
    let secs = patch_sections_spec(data)->Some_0;
    assert(secs == sections_view(b.sections@));
}

/// A parsed RGH patch of three or more sections patches CB, CD and the kernel
/// with its first three sections; the other slots stay empty.
pub proof fn lemma_rgh3_slots(data: Seq<u8>, b: GxpBinary)
    requires
        patch_sections_spec(data) matches Some(secs) && binary_routes(b, secs),
        b.header.patch_type == GxpPatchType::Rgh3Section,
        b.sections@.len() >= 3,
    ensures
        slot_view(b.cb) == Some(b.sections@[0]@),
        slot_view(b.cd) == Some(b.sections@[1]@),
        slot_view(b.khv) == Some(b.sections@[2]@),
        b.cb_a is None,
        b.cb_b is None,
        b.onebl is None,
        b.smc is None,
{
    let secs = patch_sections_spec(data)->Some_0;
    assert(secs == sections_view(b.sections@));
}

/// A parsed JTAG patch patches 1BL, CB, CD and the kernel with its first four
/// sections, and, with five sections, the SMC with the fifth.
pub proof fn lemma_jtag_slots(data: Seq<u8>, b: GxpBinary)
    requires
        patch_sections_spec(data) matches Some(secs) && binary_routes(b, secs),
        (b.header.patch_type == GxpPatchType::Jtag4Section && b.sections@.len() >= 4) || (b.header.patch_type
            == GxpPatchType::Jtag5Section && b.sections@.len() >= 5),
    ensures
        slot_view(b.onebl) == Some(b.sections@[0]@),
        slot_view(b.cb) == Some(b.sections@[1]@),
        slot_view(b.cd) == Some(b.sections@[2]@),
        slot_view(b.khv) == Some(b.sections@[3]@),
        b.header.patch_type == GxpPatchType::Jtag5Section ==> slot_view(b.smc) == Some(b.sections@[4]@),
        b.header.patch_type == GxpPatchType::Jtag4Section ==> b.smc is None,
        b.cb_a is None,
        b.cb_b is None,
{
    let secs = patch_sections_spec(data)->Some_0;
    assert(secs == sections_view(b.sections@));
}


/// The patch-type byte of a GXP header: 0 disabled, 1 RGH (4 sections), 2 JTAG
/// (4 sections), 3 RGH (3 sections), 4 standalone, 5 add-on, 7 JTAG (5
/// sections); any other value is unknown.
pub proof fn lemma_patch_type_byte(v: u8)
    ensures
        patch_type_from_spec(v) == GxpPatchType::Disabled <==> v == 0,
        patch_type_from_spec(v) == GxpPatchType::Rgh4Section <==> v == 1,
        patch_type_from_spec(v) == GxpPatchType::Jtag4Section <==> v == 2,
        patch_type_from_spec(v) == GxpPatchType::Rgh3Section <==> v == 3,
        patch_type_from_spec(v) == GxpPatchType::Standalone <==> v == 4,
        patch_type_from_spec(v) == GxpPatchType::Addon <==> v == 5,
        patch_type_from_spec(v) == GxpPatchType::Jtag5Section <==> v == 7,
        patch_type_from_spec(v) == GxpPatchType::Unknown <==> (v == 6 || v > 7),
{
}

/// The bootloader byte of a GXP header: 0 none, 1 1BL, 2 CB, 3 CB_A, 4 CB_B,
/// 5 CD, 6 the kernel, 7 the SMC; any other value is unknown.
pub proof fn lemma_bootloader_byte(v: u8)
    ensures
        bootloader_from_spec(v) == BootloaderId::Empty <==> v == 0,
        bootloader_from_spec(v) == BootloaderId::OneBl <==> v == 1,
        bootloader_from_spec(v) == BootloaderId::Cb <==> v == 2,
        bootloader_from_spec(v) == BootloaderId::CbA <==> v == 3,
        bootloader_from_spec(v) == BootloaderId::CbB <==> v == 4,
        bootloader_from_spec(v) == BootloaderId::Cd <==> v == 5,
        bootloader_from_spec(v) == BootloaderId::Khv <==> v == 6,
        bootloader_from_spec(v) == BootloaderId::Smc <==> v == 7,
        bootloader_from_spec(v) == BootloaderId::Unknown <==> v > 7,
{
}

/// A legacy patch's type follows from its section count: four sections are a
/// JTAG patch, three an RGH patch, one an add-on; other counts are unknown.
pub proof fn lemma_legacy_patch_type(n: int)
    ensures
        legacy_patch_type(n) == GxpPatchType::Jtag4Section <==> n == 4,
        legacy_patch_type(n) == GxpPatchType::Rgh3Section <==> n == 3,
        legacy_patch_type(n) == GxpPatchType::Addon <==> n == 1,
        legacy_patch_type(n) == GxpPatchType::Unknown <==> (n != 1 && n != 3 && n != 4),
{
}

/// A standalone or add-on patch puts its first section in the slot its header
/// names (the kernel when it names none or an unknown one); every other slot
/// stays empty.
pub proof fn lemma_single_section_slot(data: Seq<u8>, b: GxpBinary)
    requires
        patch_sections_spec(data) matches Some(secs) && binary_routes(b, secs),
        b.header.patch_type == GxpPatchType::Standalone || b.header.patch_type == GxpPatchType::Addon,
        b.sections@.len() >= 1,
    ensures
        ({
            let bl = b.header.bootloader;
            let to_khv = bl == BootloaderId::Khv || bl == BootloaderId::Empty || bl == BootloaderId::Unknown;
            let first = Some(b.sections@[0]@);
            &&& slot_view(b.khv) == (if to_khv { first } else { None })
            &&& slot_view(b.onebl) == (if bl == BootloaderId::OneBl { first } else { None })
            &&& slot_view(b.cb) == (if bl == BootloaderId::Cb { first } else { None })
            &&& slot_view(b.cb_a) == (if bl == BootloaderId::CbA { first } else { None })
            &&& slot_view(b.cb_b) == (if bl == BootloaderId::CbB { first } else { None })
            &&& slot_view(b.cd) == (if bl == BootloaderId::Cd { first } else { None })
            &&& slot_view(b.smc) == (if bl == BootloaderId::Smc { first } else { None })
        }),
{
    let secs = patch_sections_spec(data)->Some_0;
    assert(secs == sections_view(b.sections@));
}


/// A disabled or unknown patch patches nothing, except that a legacy file of
/// such a shape puts its first section in the kernel slot.
pub proof fn lemma_other_patch_slots(data: Seq<u8>, b: GxpBinary)
    requires
        patch_sections_spec(data) matches Some(secs) && binary_routes(b, secs),
        b.header.patch_type == GxpPatchType::Disabled || b.header.patch_type == GxpPatchType::Unknown,
    ensures
        slot_view(b.khv) == (if b.is_legacy && b.sections@.len() > 0 { Some(b.sections@[0]@) } else { None }),
        b.onebl is None,
        b.cb is None,
        b.cb_a is None,
        b.cb_b is None,
        b.cd is None,
        b.smc is None,
{
    let secs = patch_sections_spec(data)->Some_0;
    assert(secs == sections_view(b.sections@));
}


/// The motherboard field of a GXP header: 0 any, 1 Xenon, 2 Zephyr, 3 Falcon,
/// 4 Jasper, 5 Trinity, 6 Corona, 7 Winchester; any other value is unknown.
pub proof fn lemma_motherboard_value(v: u16)
    ensures
        motherboard_from_spec(v) == MotherboardType::Any <==> v == 0,
        motherboard_from_spec(v) == MotherboardType::Xenon <==> v == 1,
        motherboard_from_spec(v) == MotherboardType::Zephyr <==> v == 2,
        motherboard_from_spec(v) == MotherboardType::Falcon <==> v == 3,
        motherboard_from_spec(v) == MotherboardType::Jasper <==> v == 4,
        motherboard_from_spec(v) == MotherboardType::Trinity <==> v == 5,
        motherboard_from_spec(v) == MotherboardType::Corona <==> v == 6,
        motherboard_from_spec(v) == MotherboardType::Winchester <==> v == 7,
        motherboard_from_spec(v) == MotherboardType::Unknown <==> v > 7,
{
}

} // verus!
