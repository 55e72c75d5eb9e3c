//! Build asset discovery results, and the xeBuild checksum of bootloader files.

use vstd::prelude::*;
use crate::gxcore::data::gxp::be32;
use crate::gxcore::session::ExPathBuf;
use crate::text::{range_eq, str_chars, string_from_chars, to_lowercase, unicode_lowercase};
use std::path::PathBuf;

verus! {

#[derive(Debug)]
pub enum FilesearchError {
    FileNotFound(String),
    BadBuildFormat(String),
    RebooterNotInitialized,
    NoAutoPatches(String, String, String),
    NoSecurityFiles,
    HashMismatch(String),
    NoSmcOrCleanBin(String),
    PayloadBrokenHash(String),
}

pub struct DiscoveredBootloaders {
    pub cb: Option<PathBuf>,
    pub cb_a: Option<PathBuf>,
    pub cb_b: Option<PathBuf>,
    pub cb_x: Option<PathBuf>,
    pub sc: Option<PathBuf>,
    pub cd: Option<PathBuf>,
    pub ce: Option<PathBuf>,
}

impl DiscoveredBootloaders {
    /// Nothing discovered yet.
    pub fn new() -> (r: Self)
        ensures
            r.cb is None && r.cb_a is None && r.cb_b is None && r.cb_x is None && r.sc is None && r.cd is None
                && r.ce is None,
    {
        DiscoveredBootloaders { cb: None, cb_a: None, cb_b: None, cb_x: None, sc: None, cd: None, ce: None }
    }
}

pub struct DiscoveredUpdate {
    pub cf_0: Option<PathBuf>,
    pub cg_0: Option<PathBuf>,
    pub cf_1: Option<PathBuf>,
    pub cg_1: Option<PathBuf>,
}

impl DiscoveredUpdate {
    /// Nothing discovered yet.
    pub fn new() -> (r: Self)
        ensures
            r.cf_0 is None && r.cg_0 is None && r.cf_1 is None && r.cg_1 is None,
    {
        DiscoveredUpdate { cf_0: None, cg_0: None, cf_1: None, cg_1: None }
    }
}

pub struct ImageSearchResult {
    pub nand: Option<PathBuf>,
    pub key_string: Option<String>,
    pub key_bin: Option<PathBuf>,
    pub keyvault: Option<PathBuf>,
    pub smc: Option<PathBuf>,
}

pub struct ImageSearch {
    pub result: ImageSearchResult,
}

impl ImageSearch {
    /// Search result holding the (already resolved) NAND image path.
    pub fn new(nand: PathBuf) -> (r: Self)
        ensures
            r.result.nand == Some(nand),
            r.result.key_string is None,
            r.result.key_bin is None,
            r.result.keyvault is None,
            r.result.smc is None,
    {
        ImageSearch {
            result: ImageSearchResult { nand: Some(nand), key_string: None, key_bin: None, keyvault: None, smc: None },
        }
    }
}

pub struct PatchSearchResult {
    pub name: String,
    pub path: PathBuf,
}

pub struct PatchSearch {
    pub build: Option<PathBuf>,
    pub data: Option<PathBuf>,
    pub result: Vec<PatchSearchResult>,
}

impl PatchSearch {
    /// An empty patch search over the build directory and optional data directory.
    pub fn new(build: PathBuf, data: Option<PathBuf>) -> (r: Self)
        ensures
            r.build == Some(build),
            r.data == data,
            r.result@.len() == 0,
    {
        PatchSearch { build: Some(build), data, result: Vec::new() }
    }
}

/// One bit step of the reflected CRC32 register (polynomial 0xEDB88320).
pub open spec fn crc32_bit(c: u32) -> u32 {
    if c & 1u32 == 1u32 {
        (c >> 1u32) ^ 0xEDB8_8320u32
    } else {
        c >> 1u32
    }
}

/// The CRC32 register after one more byte.
pub open spec fn crc32_byte(c: u32, b: u8) -> u32 {
    let x = c ^ (b as u32);
    crc32_bit(crc32_bit(crc32_bit(crc32_bit(crc32_bit(crc32_bit(crc32_bit(crc32_bit(x))))))))
}

/// The CRC32 register after the bytes, from the all-ones start.
pub open spec fn crc32_register(data: Seq<u8>) -> u32
    decreases data.len(),
{
    if data.len() == 0 {
        0xFFFF_FFFFu32
    } else {
        crc32_byte(crc32_register(data.drop_last()), data.last())
    }
}

/// CRC32 (IEEE 802.3, reflected, polynomial 0xEDB88320, all-ones start and
/// final complement) of a byte sequence.
#[verifier::opaque]
pub open spec fn crc32_ieee(data: Seq<u8>) -> u32 {
    crc32_register(data) ^ 0xFFFF_FFFFu32
}

/// `crc32fast::hash`: the CRC32 (IEEE) checksum of the bytes, which is
/// `crc32_ieee` of them (the crate computes that standard CRC, with
/// table-driven or SIMD code).
#[verifier::external_body]
fn crc32_hash(data: &[u8]) -> (r: u32)
    ensures
        r == crc32_ieee(data@),
{
    crc32fast::hash(data)
}

pub open spec fn hex_digit_char(d: int) -> char {
    if d < 10 {
        (('0' as u8) + d) as char
    } else {
        (('a' as u8) + d - 10) as char
    }
}

/// The `n` low hex digits of `v`, lower-case, most significant first.
pub open spec fn hex_digits(v: u32, n: nat) -> Seq<char>
    decreases n,
{
    if n == 0 {
        Seq::empty()
    } else {
        hex_digits(v / 16, (n - 1) as nat).push(hex_digit_char((v % 16) as int))
    }
}

fn hex_digits_exec(v: u32, n: usize) -> (r: Vec<char>)
    ensures
        r@ == hex_digits(v, n as nat),
    decreases n,
{
    if n == 0 {
        Vec::new()
    } else {
        let mut r = hex_digits_exec(v / 16, n - 1);
        let d = (v % 16) as u8;
        let c = if d < 10 {
            (0x30u8 + d) as char
        } else {
            (0x61u8 + d - 10) as char
        };
        r.push(c);
        r
    }
}

/// `format!("{:08x}", v)`.
pub fn hex8(v: u32) -> (r: String)
    ensures
        r@ == hex_digits(v, 8),
{
    let d = hex_digits_exec(v, 8);
    string_from_chars(d.as_slice())
}

/// What xeBuild's checksum of a bootloader covers: the file up to the length
/// declared at 0x0C (the whole file when that is 0 or past its end), with the
/// per-console fields zeroed: bytes 0x10..0x40 of a CB or SB, 0x20..0x230 of a
/// CF or SF, 0x10..0x20 of a CD, SD, CE, SE, CG or SG; every other byte as it is.
pub proof fn lemma_xebuild_checksum_covers(data: Seq<u8>, lower: Seq<char>, i: int)
    requires
        lower.len() >= 2,
        0 <= i < xebuild_checksum_input(data, lower).len(),
    ensures
        xebuild_checksum_input(data, lower).len() == (if be32(data, 0x0C) == 0 || be32(data, 0x0C) > data.len() {
            data.len() as int
        } else {
            be32(data, 0x0C)
        }),
        ({
            let c = lower[0];
            let d = lower[1];
            let b = xebuild_checksum_input(data, lower)[i];
            &&& (c == 'c' || c == 's') && d == 'b' ==> b == (if 0x10 <= i < 0x40 { 0u8 } else { data[i] })
            &&& (c == 'c' || c == 's') && d == 'f' ==> b == (if 0x20 <= i < 0x230 { 0u8 } else { data[i] })
            &&& (c == 'c' || c == 's') && (d == 'd' || d == 'e' || d == 'g') ==> b == (if 0x10 <= i < 0x20 {
                0u8
            } else {
                data[i]
            })
            &&& !((c == 'c' || c == 's') && (d == 'b' || d == 'f' || d == 'd' || d == 'e' || d == 'g')) ==> b == data[i]
        }),
{
    reveal_strlit("cb");
    assert(starts_with(lower, "cb"@) == (lower[0] == 'c' && lower[1] == 'b')) by {
        if lower[0] == 'c' && lower[1] == 'b' {
            assert(lower.subrange(0, 2) =~= "cb"@);
        }
        if starts_with(lower, "cb"@) {
            assert(lower.subrange(0, 2)[0] == "cb"@[0]);
            assert(lower.subrange(0, 2)[1] == "cb"@[1]);
        }
    }
    reveal_strlit("sb");
    assert(starts_with(lower, "sb"@) == (lower[0] == 's' && lower[1] == 'b')) by {
        if lower[0] == 's' && lower[1] == 'b' {
            assert(lower.subrange(0, 2) =~= "sb"@);
        }
        if starts_with(lower, "sb"@) {
            assert(lower.subrange(0, 2)[0] == "sb"@[0]);
            assert(lower.subrange(0, 2)[1] == "sb"@[1]);
        }
    }
    reveal_strlit("cf");
    assert(starts_with(lower, "cf"@) == (lower[0] == 'c' && lower[1] == 'f')) by {
        if lower[0] == 'c' && lower[1] == 'f' {
            assert(lower.subrange(0, 2) =~= "cf"@);
        }
        if starts_with(lower, "cf"@) {
            assert(lower.subrange(0, 2)[0] == "cf"@[0]);
            assert(lower.subrange(0, 2)[1] == "cf"@[1]);
        }
    }
    reveal_strlit("sf");
    assert(starts_with(lower, "sf"@) == (lower[0] == 's' && lower[1] == 'f')) by {
        if lower[0] == 's' && lower[1] == 'f' {
            assert(lower.subrange(0, 2) =~= "sf"@);
        }
        if starts_with(lower, "sf"@) {
            assert(lower.subrange(0, 2)[0] == "sf"@[0]);
            assert(lower.subrange(0, 2)[1] == "sf"@[1]);
        }
    }
    reveal_strlit("cd");
    assert(starts_with(lower, "cd"@) == (lower[0] == 'c' && lower[1] == 'd')) by {
        if lower[0] == 'c' && lower[1] == 'd' {
            assert(lower.subrange(0, 2) =~= "cd"@);
        }
        if starts_with(lower, "cd"@) {
            assert(lower.subrange(0, 2)[0] == "cd"@[0]);
            assert(lower.subrange(0, 2)[1] == "cd"@[1]);
        }
    }
    reveal_strlit("sd");
    assert(starts_with(lower, "sd"@) == (lower[0] == 's' && lower[1] == 'd')) by {
        if lower[0] == 's' && lower[1] == 'd' {
            assert(lower.subrange(0, 2) =~= "sd"@);
        }
        if starts_with(lower, "sd"@) {
            assert(lower.subrange(0, 2)[0] == "sd"@[0]);
            assert(lower.subrange(0, 2)[1] == "sd"@[1]);
        }
    }
    reveal_strlit("ce");
    assert(starts_with(lower, "ce"@) == (lower[0] == 'c' && lower[1] == 'e')) by {
        if lower[0] == 'c' && lower[1] == 'e' {
            assert(lower.subrange(0, 2) =~= "ce"@);
        }
        if starts_with(lower, "ce"@) {
            assert(lower.subrange(0, 2)[0] == "ce"@[0]);
            assert(lower.subrange(0, 2)[1] == "ce"@[1]);
        }
    }
    reveal_strlit("se");
    assert(starts_with(lower, "se"@) == (lower[0] == 's' && lower[1] == 'e')) by {
        if lower[0] == 's' && lower[1] == 'e' {
            assert(lower.subrange(0, 2) =~= "se"@);
        }
        if starts_with(lower, "se"@) {
            assert(lower.subrange(0, 2)[0] == "se"@[0]);
            assert(lower.subrange(0, 2)[1] == "se"@[1]);
        }
    }
    reveal_strlit("cg");
    assert(starts_with(lower, "cg"@) == (lower[0] == 'c' && lower[1] == 'g')) by {
        if lower[0] == 'c' && lower[1] == 'g' {
            assert(lower.subrange(0, 2) =~= "cg"@);
        }
        if starts_with(lower, "cg"@) {
            assert(lower.subrange(0, 2)[0] == "cg"@[0]);
            assert(lower.subrange(0, 2)[1] == "cg"@[1]);
        }
    }
    reveal_strlit("sg");
    assert(starts_with(lower, "sg"@) == (lower[0] == 's' && lower[1] == 'g')) by {
        if lower[0] == 's' && lower[1] == 'g' {
            assert(lower.subrange(0, 2) =~= "sg"@);
        }
        if starts_with(lower, "sg"@) {
            assert(lower.subrange(0, 2)[0] == "sg"@[0]);
            assert(lower.subrange(0, 2)[1] == "sg"@[1]);
        }
    }
}

/// CRC32 of data as 8 lower-case hex digits.
pub fn crc32_hex(data: &[u8]) -> (r: String)
    ensures
        r@ == hex_digits(crc32_ieee(data@), 8),
{
    hex8(crc32_hash(data))
}

pub open spec fn starts_with(s: Seq<char>, p: Seq<char>) -> bool {
    p.len() <= s.len() && s.subrange(0, p.len() as int) == p
}

/// `w` with bytes `s..e` (clipped to its length) set to zero.
pub open spec fn zeroed(w: Seq<u8>, s: int, e: int) -> Seq<u8> {
    Seq::new(w.len(), |i: int| if s <= i < e { 0u8 } else { w[i] })
}

/// Bytes xeBuild checksums for a bootloader file: the length declared at
/// 0x0C (the whole file when 0 or too large), with the per-box fields zeroed:
/// 0x10..0x40 for CB/SB, 0x20..0x230 for CF/SF, 0x10..0x20 for CD/SD, CE/SE
/// and CG/SG (by the lower-cased file name's first two letters).
pub open spec fn xebuild_checksum_input(data: Seq<u8>, lower: Seq<char>) -> Seq<u8> {
    let declared = be32(data, 0x0C);
    let l = if declared == 0 || declared > data.len() {
        data.len() as int
    } else {
        declared
    };
    let w = data.subrange(0, l);
    if starts_with(lower, "cb"@) || starts_with(lower, "sb"@) {
        zeroed(w, 0x10, 0x40)
    } else if starts_with(lower, "cf"@) || starts_with(lower, "sf"@) {
        zeroed(w, 0x20, 0x230)
    } else if starts_with(lower, "cd"@) || starts_with(lower, "sd"@) || starts_with(lower, "ce"@) || starts_with(
        lower,
        "se"@,
    ) || starts_with(lower, "cg"@) || starts_with(lower, "sg"@) {
        zeroed(w, 0x10, 0x20)
    } else {
        w
    }
}

/// The xeBuild checksum of a file, as 8 lower-case hex digits: the CRC32 of
/// the whole file when it is shorter than 16 bytes, else of
/// `xebuild_checksum_input`.
pub open spec fn xebuild_crc32_spec(data: Seq<u8>, filename: Seq<char>) -> Seq<char> {
    if data.len() < 0x10 {
        hex_digits(crc32_ieee(data), 8)
    } else {
        hex_digits(crc32_ieee(xebuild_checksum_input(data, unicode_lowercase(filename))), 8)
    }
}

fn name_starts_with(lower: &[char], p: &str) -> (r: bool)
    ensures
        r == starts_with(lower@, p@),
{
    let pc = str_chars(p);
    if pc.len() > lower.len() {
        return false;
    }
    range_eq(lower, 0, pc.len(), pc.as_slice())
}

/// Checksum of a bootloader file the way xeBuild INIs record it.
pub fn get_xebuild_crc32(data: &[u8], filename: &str) -> (r: String)
    ensures
        r@ == xebuild_crc32_spec(data@, filename@),
{
    let fc = str_chars(filename);
    let lower = to_lowercase(fc.as_slice());
    if data.len() < 0x10 {
        return crc32_hex(data);
    }
    let declared = (data[0x0C] as u32) * 0x100_0000 + (data[0x0D] as u32) * 0x1_0000 + (data[0x0E] as u32) * 0x100
        + (data[0x0F] as u32);
    let mut l = data.len();
    if declared != 0 && (declared as u64) <= (data.len() as u64) {
        l = declared as usize;
    }
    let mut working = crate::gxcore::images::blocks::slice_to_vec(data, 0, l);
    let (s, e): (usize, usize) = if name_starts_with(lower.as_slice(), "cb") || name_starts_with(lower.as_slice(), "sb") {
        (0x10, 0x40)
    } else if name_starts_with(lower.as_slice(), "cf") || name_starts_with(lower.as_slice(), "sf") {
        (0x20, 0x230)
    } else if name_starts_with(lower.as_slice(), "cd") || name_starts_with(lower.as_slice(), "sd")
        || name_starts_with(lower.as_slice(), "ce") || name_starts_with(lower.as_slice(), "se")
        || name_starts_with(lower.as_slice(), "cg") || name_starts_with(lower.as_slice(), "sg") {
        (0x10, 0x20)
    } else {
        (0, 0)
    };
    let ghost w = working@;
    let end = if e < working.len() {
        e
    } else {
        working.len()
    };
    let mut i = s;
    while i < end
        invariant
            s <= i,
            i == s || i <= end,
            end <= working@.len() == w.len(),
            forall|q: int| 0 <= q < w.len() ==> working@[q] == (if s <= q < i { 0u8 } else { w[q] }),
        decreases end - i,
    {
        working.set(i, 0);
        i += 1;
    }
    assert(working@ =~= (if s < e { zeroed(w, s as int, e as int) } else { w }));
    crc32_hex(working.as_slice())
}

} // verus!
