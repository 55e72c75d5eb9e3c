//! Build modes and the value parsing the command executor applies to option
//! texts (`0x`-prefixed hex or decimal).

use vstd::prelude::*;
use std::collections::HashMap;
use crate::gxcore::commands::{contains_name, names_view};
use crate::gxcore::data::filesearch::{hex_digits, starts_with};
use crate::gxcore::data::optini::{text_view, OptionsIni};
use crate::gxcore::data::pool::{pool_of, pool_view, pools};
use crate::gxcore::data::xeini::{last_component, strip_flashfs_path_indicator, BuildIniEntry, XeBuildIni};
use crate::gxcore::images::blocks::{FsSpareInfo, NandLayout};
use crate::text::{
    eq_ignore_ascii_case, push_text, range_eq, range_eq_ignore_ascii_case, str_chars, string_from_chars, sub_chars, to_lowercase, trim,
    unicode_lowercase,
};

verus! {

broadcast use vstd::std_specs::hash::group_hash_axioms;

#[derive(Clone, Copy, Debug, PartialEq, Eq, Structural)]
pub enum BuildMode {
    Normal,
    Xell,
    Shadowboot,
    Devkit,
}

/// Why a text is not an unsigned integer (as `core::num::IntErrorKind`).
#[derive(Clone, Copy, Debug, PartialEq, Eq, Structural)]
pub enum ParseIntErrorKind {
    Empty,
    InvalidDigit,
    PosOverflow,
}

/// The text `core::num::ParseIntError` displays for each kind.
pub open spec fn parse_error_text(k: ParseIntErrorKind) -> Seq<char> {
    match k {
        ParseIntErrorKind::Empty => "cannot parse integer from empty string"@,
        ParseIntErrorKind::InvalidDigit => "invalid digit found in string"@,
        ParseIntErrorKind::PosOverflow => "number too large to fit in target type"@,
    }
}

impl ParseIntErrorKind {
    pub fn message(&self) -> (r: String)
        ensures
            r@ == parse_error_text(*self),
    {
        match self {
            ParseIntErrorKind::Empty => "cannot parse integer from empty string".to_owned(),
            ParseIntErrorKind::InvalidDigit => "invalid digit found in string".to_owned(),
            ParseIntErrorKind::PosOverflow => "number too large to fit in target type".to_owned(),
        }
    }
}

/// Value of a digit character in `radix` (at most 36), as `char::to_digit`.
pub open spec fn digit_of(c: char, radix: nat) -> Option<nat> {
    let d: int = if '0' <= c <= '9' {
        c as int - 0x30
    } else if 'a' <= c <= 'z' {
        c as int - 0x61 + 10
    } else if 'A' <= c <= 'Z' {
        c as int - 0x41 + 10
    } else {
        36
    };
    if d < radix {
        Some(d as nat)
    } else {
        None
    }
}

/// The first `n` digits of `d` read left to right: their value, or the first
/// failure (a character that is no digit, or a value above `max`).
pub open spec fn scan_uint(d: Seq<char>, radix: nat, max: nat, n: int) -> Result<nat, ParseIntErrorKind>
    decreases n,
{
    if n <= 0 {
        Ok(0)
    } else {
        match scan_uint(d, radix, max, n - 1) {
            Err(e) => Err(e),
            Ok(v) => match digit_of(d[n - 1], radix) {
                None => Err(ParseIntErrorKind::InvalidDigit),
                Some(x) => if v * radix + x > max {
                    Err(ParseIntErrorKind::PosOverflow)
                } else {
                    Ok(v * radix + x)
                },
            },
        }
    }
}

/// `from_str_radix` for an unsigned type whose largest value is `max`: an
/// optional `+`, then at least one digit.
pub open spec fn parse_uint_spec(s: Seq<char>, radix: nat, max: nat) -> Result<nat, ParseIntErrorKind> {
    if s.len() == 0 {
        Err(ParseIntErrorKind::Empty)
    } else if s.len() == 1 && (s[0] == '+' || s[0] == '-') {
        Err(ParseIntErrorKind::InvalidDigit)
    } else {
        let d = if s[0] == '+' {
            s.subrange(1, s.len() as int)
        } else {
            s
        };
        scan_uint(d, radix, max, d.len() as int)
    }
}

fn digit_exec(c: char, radix: u32) -> (r: Option<u32>)
    requires
        radix <= 36,
    ensures
        match digit_of(c, radix as nat) {
            Some(d) => r == Some(d as u32),
            None => r is None,
        },
{
    let d: u32 = if '0' <= c && c <= '9' {
        (c as u32) - 0x30
    } else if 'a' <= c && c <= 'z' {
        (c as u32) - 0x61 + 10
    } else if 'A' <= c && c <= 'Z' {
        (c as u32) - 0x41 + 10
    } else {
        36
    };
    if d < radix {
        Some(d)
    } else {
        None
    }
}

fn parse_uint(s: &[char], radix: u32, max: u64) -> (r: Result<u64, ParseIntErrorKind>)
    requires
        2 <= radix <= 36,
    ensures
        match parse_uint_spec(s@, radix as nat, max as nat) {
            Ok(v) => r == Ok::<u64, ParseIntErrorKind>(v as u64),
            Err(k) => r == Err::<u64, ParseIntErrorKind>(k),
        },
{
    let n = s.len();
    if n == 0 {
        return Err(ParseIntErrorKind::Empty);
    }
    if n == 1 && (s[0] == '+' || s[0] == '-') {
        return Err(ParseIntErrorKind::InvalidDigit);
    }
    let start: usize = if s[0] == '+' {
        1
    } else {
        0
    };
    let ghost d = if s@[0] == '+' {
        s@.subrange(1, n as int)
    } else {
        s@
    };
    assert(d =~= s@.subrange(start as int, n as int));
    assert(parse_uint_spec(s@, radix as nat, max as nat) == scan_uint(d, radix as nat, max as nat, d.len() as int));
    let mut acc: u64 = 0;
    let mut i = start;
    while i < n
        invariant
            start <= i <= n == s@.len(),
            d == s@.subrange(start as int, n as int),
            2 <= radix <= 36,
            acc <= max,
            parse_uint_spec(s@, radix as nat, max as nat) == scan_uint(d, radix as nat, max as nat, d.len() as int),
            scan_uint(d, radix as nat, max as nat, (i - start) as int) == Ok::<nat, ParseIntErrorKind>(acc as nat),
        decreases n - i,
    {
        assert(d[(i - start) as int] == s@[i as int]);
        let x = match digit_exec(s[i], radix) {
            Some(x) => x,
            None => {
                assert(scan_uint(d, radix as nat, max as nat, (i + 1 - start) as int) == Err::<nat, ParseIntErrorKind>(
                    ParseIntErrorKind::InvalidDigit,
                ));
                proof {
                    lemma_scan_stays_failed(d, radix as nat, max as nat, (i + 1 - start) as int, d.len() as int);
                }
                return Err(ParseIntErrorKind::InvalidDigit);
            },
        };
        assert((acc as u128) * (radix as u128) + (x as u128) <= 0xFFFF_FFFF_FFFF_FFFF * 36 + 36) by (nonlinear_arith)
            requires
                acc <= 0xFFFF_FFFF_FFFF_FFFF,
                radix <= 36,
                x < 36,
        ;
        let next: u128 = (acc as u128) * (radix as u128) + (x as u128);
        if next > max as u128 {
            assert(scan_uint(d, radix as nat, max as nat, (i + 1 - start) as int) == Err::<nat, ParseIntErrorKind>(
                ParseIntErrorKind::PosOverflow,
            ));
            proof {
                lemma_scan_stays_failed(d, radix as nat, max as nat, (i + 1 - start) as int, d.len() as int);
            }
            return Err(ParseIntErrorKind::PosOverflow);
        }
        acc = next as u64;
        i += 1;
    }
    Ok(acc)
}

/// Once the scan has failed, reading more digits keeps the same failure.
proof fn lemma_scan_stays_failed(d: Seq<char>, radix: nat, max: nat, a: int, b: int)
    requires
        0 <= a <= b,
        scan_uint(d, radix, max, a) is Err,
    ensures
        scan_uint(d, radix, max, b) == scan_uint(d, radix, max, a),
    decreases b - a,
{
    if a < b {
        lemma_scan_stays_failed(d, radix, max, a, b - 1);
    }
}

/// `0x`-prefixed hex, else decimal, for a type whose largest value is `max`.
pub open spec fn hex_or_dec_spec(s: Seq<char>, max: nat) -> Result<nat, ParseIntErrorKind> {
    if starts_with(s, "0x"@) {
        parse_uint_spec(s.subrange(2, s.len() as int), 16, max)
    } else {
        parse_uint_spec(s, 10, max)
    }
}

/// Error text: `Invalid hex <ty> '<s>': <reason>` (or `decimal`).
pub open spec fn hex_or_dec_error(s: Seq<char>, ty: Seq<char>, k: ParseIntErrorKind) -> Seq<char> {
    (if starts_with(s, "0x"@) {
        "Invalid hex "@
    } else {
        "Invalid decimal "@
    }) + ty + " '"@ + s + "': "@ + parse_error_text(k)
}

/// `0x`-prefixed hex, else decimal, on characters (see `hex_or_dec_spec`).
pub fn hex_or_dec_chars(v: &[char], max: u64) -> (r: Result<u64, ParseIntErrorKind>)
    ensures
        match hex_or_dec_spec(v@, max as nat) {
            Ok(x) => r == Ok::<u64, ParseIntErrorKind>(x as u64),
            Err(k) => r == Err::<u64, ParseIntErrorKind>(k),
        },
{
    let n = v.len();
    proof {
        reveal_strlit("0x");
    }
    let is_hex = n >= 2 && v[0] == '0' && v[1] == 'x';
    assert(is_hex == starts_with(v@, "0x"@)) by {
        assert("0x"@ =~= seq!['0', 'x']);
        if n >= 2 {
            assert(v@.subrange(0, 2) =~= seq![v@[0], v@[1]]);
        }
    }
    if is_hex {
        let digits = sub_chars(v, 2, n);
        parse_uint(digits.as_slice(), 16, max)
    } else {
        parse_uint(v, 10, max)
    }
}

pub struct Executor {}

impl Executor {
    fn parse_hex_or_dec(s: &str, ty: &str, max: u64) -> (r: Result<u64, String>)
        ensures
            match hex_or_dec_spec(s@, max as nat) {
                Ok(v) => r == Ok::<u64, String>(v as u64),
                Err(k) => r matches Err(m) && m@ == hex_or_dec_error(s@, ty@, k),
            },
    {
        let v = str_chars(s);
        let n = v.len();
        proof {
            reveal_strlit("0x");
        }
        let is_hex = n >= 2 && v[0] == '0' && v[1] == 'x';
        assert(is_hex == starts_with(s@, "0x"@)) by {
            assert("0x"@ =~= seq!['0', 'x']);
            if n >= 2 {
                assert(s@.subrange(0, 2) =~= seq![s@[0], s@[1]]);
            }
        }
        let res = hex_or_dec_chars(v.as_slice(), max);
        match res {
            Ok(x) => Ok(x),
            Err(k) => {
                let mut text: Vec<char> = Vec::new();
                if is_hex {
                    push_text(&mut text, "Invalid hex ");
                } else {
                    push_text(&mut text, "Invalid decimal ");
                }
                push_text(&mut text, ty);
                push_text(&mut text, " '");
                push_text(&mut text, s);
                push_text(&mut text, "': ");
                let reason = k.message();
                push_text(&mut text, reason.as_str());
                Err(string_from_chars(text.as_slice()))
            },
        }
    }

    /// Parses a `u8` written as `0x`-prefixed hex or as decimal.
    pub fn parse_u8_hex_or_dec(s: &str) -> (r: Result<u8, String>)
        ensures
            match hex_or_dec_spec(s@, 0xFF) {
                Ok(v) => r == Ok::<u8, String>(v as u8),
                Err(k) => r matches Err(m) && m@ == hex_or_dec_error(s@, "u8"@, k),
            },
    {
        proof {
            reveal_strlit("u8");
        }
        match Self::parse_hex_or_dec(s, "u8", 0xFF) {
            Ok(x) => {
                proof {
                    lemma_hex_or_dec_bound(s@, 0xFF);
                }
                Ok(x as u8)
            },
            Err(m) => Err(m),
        }
    }

    /// Parses a `u64` written as `0x`-prefixed hex or as decimal; `None` when
    /// it is neither.
    pub fn parse_u64_hex_or_dec(s: &str) -> (r: Option<u64>)
        ensures
            match hex_or_dec_spec(s@, u64::MAX as nat) {
                Ok(v) => r == Some(v as u64),
                Err(_) => r is None,
            },
    {
        match Self::parse_hex_or_dec(s, "u64", u64::MAX) {
            Ok(x) => Some(x),
            Err(_) => None,
        }
    }

    /// Parses a `u16` written as `0x`-prefixed hex or as decimal.
    pub fn parse_u16_hex_or_dec(s: &str) -> (r: Result<u16, String>)
        ensures
            match hex_or_dec_spec(s@, 0xFFFF) {
                Ok(v) => r == Ok::<u16, String>(v as u16),
                Err(k) => r matches Err(m) && m@ == hex_or_dec_error(s@, "u16"@, k),
            },
    {
        proof {
            reveal_strlit("u16");
        }
        match Self::parse_hex_or_dec(s, "u16", 0xFFFF) {
            Ok(x) => {
                proof {
                    lemma_hex_or_dec_bound(s@, 0xFFFF);
                }
                Ok(x as u16)
            },
            Err(m) => Err(m),
        }
    }
}

proof fn lemma_scan_bound(d: Seq<char>, radix: nat, max: nat, n: int)
    ensures
        scan_uint(d, radix, max, n) matches Ok(v) ==> v <= max,
    decreases n,
{
    if n > 0 {
        lemma_scan_bound(d, radix, max, n - 1);
    }
}

/// A parsed value never exceeds the type's largest value.
proof fn lemma_hex_or_dec_bound(s: Seq<char>, max: nat)
    ensures
        hex_or_dec_spec(s, max) matches Ok(v) ==> v <= max,
{
    let t = if starts_with(s, "0x"@) {
        s.subrange(2, s.len() as int)
    } else {
        s
    };
    if t.len() > 0 {
        let d = if t[0] == '+' {
            t.subrange(1, t.len() as int)
        } else {
            t
        };
        lemma_scan_bound(d, 16, max, d.len() as int);
        lemma_scan_bound(d, 10, max, d.len() as int);
    }
}

// ---------------------------------------------------------------------------
// Decisions of the command executor that need no image builder
// ---------------------------------------------------------------------------

/// Spare metadata a build brands block `v` of a FlashFS partition with: every
/// used block (its map entry is not 0x1FFE in the low 15 bits) from the root
/// block up to the reserve area gets the root's version as sequence, a 16 KB
/// size, the page-count code, and the partition type on the root block (1 on
/// the others).
pub open spec fn branded_block(
    block_map: Seq<u16>,
    root_block: i32,
    version: u32,
    partition_type: u8,
    reserve_start: usize,
    page_count: u8,
    v: usize,
) -> Option<FsSpareInfo> {
    if root_block >= 0 && root_block <= v && v < reserve_start && v < block_map.len() && (block_map[v as int]
        & 0x7FFFu16) != 0x1FFEu16 {
        Some(
            FsSpareInfo {
                sequence: version,
                size: 0x4000,
                page_count,
                block_type: if v == root_block {
                    partition_type
                } else {
                    1
                },
            },
        )
    } else {
        None
    }
}

/// The FlashFS spare metadata of a build (see `branded_block`); none when
/// the root holds no entries.
pub fn flashfs_spare_meta(
    block_map: &[u16],
    root_block: i32,
    version: u32,
    partition_type: u8,
    has_entries: bool,
    reserve_start: usize,
    page_count: u8,
) -> (r: HashMap<usize, FsSpareInfo>)
    ensures
        forall|v: usize|
            #[trigger] r@.contains_key(v) <==> has_entries && branded_block(
                block_map@,
                root_block,
                version,
                partition_type,
                reserve_start,
                page_count,
                v,
            ) is Some,
        forall|v: usize|
            #[trigger] r@.contains_key(v) ==> Some(r@[v]) == branded_block(
                block_map@,
                root_block,
                version,
                partition_type,
                reserve_start,
                page_count,
                v,
            ),
{
    let mut meta: HashMap<usize, FsSpareInfo> = HashMap::new();
    if !has_entries || root_block < 0 {
        return meta;
    }
    let n = block_map.len();
    let mut v: usize = 0;
    while v < n
        invariant
            v <= n == block_map@.len(),
            has_entries,
            root_block >= 0,
            forall|w: usize|
                #[trigger] meta@.contains_key(w) <==> w < v && branded_block(
                    block_map@,
                    root_block,
                    version,
                    partition_type,
                    reserve_start,
                    page_count,
                    w,
                ) is Some,
            forall|w: usize|
                #[trigger] meta@.contains_key(w) ==> Some(meta@[w]) == branded_block(
                    block_map@,
                    root_block,
                    version,
                    partition_type,
                    reserve_start,
                    page_count,
                    w,
                ),
        decreases n - v,
    {
        let start = root_block as usize;
        if v >= start && v < reserve_start {
            let used = (block_map[v] & 0x7FFF) != 0x1FFE;
            if used {
                let info = FsSpareInfo {
                    sequence: version,
                    size: 0x4000,
                    page_count,
                    block_type: if v == start {
                        partition_type
                    } else {
                        1
                    },
                };
                meta.insert(v, info);
            }
        }
        v += 1;
    }
    meta
}

/// FlashFS start block on big block: the scanned root when it lies before
/// the reserve area, else 0x80 blocks before the reserve area (at least 4).
pub open spec fn bb_flashfs_start_spec(scanned: i32, reserve_start: usize) -> u16 {
    if scanned > 0 && (scanned as int) < reserve_start {
        scanned as u16
    } else {
        let fallback = (if reserve_start >= 0x80 {
            reserve_start - 0x80
        } else {
            0
        }) as usize;
        if (fallback as u16) > 4 {
            fallback as u16
        } else {
            4
        }
    }
}

pub fn bb_flashfs_start(scanned: i32, reserve_start: usize) -> (r: u16)
    ensures
        r == bb_flashfs_start_spec(scanned, reserve_start),
{
    if scanned > 0 && (scanned as usize) < reserve_start {
        scanned as u16
    } else {
        let fallback: usize = if reserve_start >= 0x80 {
            reserve_start - 0x80
        } else {
            0
        };
        let f = fallback as u16;
        if f > 4 {
            f
        } else {
            4
        }
    }
}

/// Security files that live in the FlashFS.
pub open spec fn security_flashfs_names() -> Seq<Seq<char>> {
    seq!["fcrt.bin"@, "crl.bin"@, "dae.bin"@, "extended.bin"@, "secdata.bin"@, "odd.bin"@]
}

/// Names a build may place in the FlashFS: each `[flashfs]` file's base
/// name, lower-cased, then the security files (a name may repeat).
pub open spec fn flashfs_allow_spec(flashfs: Seq<BuildIniEntry>) -> Seq<Seq<char>> {
    flashfs.map_values(|e: BuildIniEntry| unicode_lowercase(last_component(trim(e.filename@))))
        + security_flashfs_names()
}

/// The FlashFS allow-list of a build INI (see `flashfs_allow_spec`).
pub fn flashfs_allowlist(ini: &XeBuildIni) -> (r: Vec<String>)
    ensures
        names_view(r@) == flashfs_allow_spec(ini.flashfs@),
{
    let mut out: Vec<String> = Vec::new();
    let n = ini.flashfs.len();
    let mut i: usize = 0;
    while i < n
        invariant
            i <= n == ini.flashfs@.len(),
            names_view(out@) == ini.flashfs@.subrange(0, i as int).map_values(
                |e: BuildIniEntry| unicode_lowercase(last_component(trim(e.filename@))),
            ),
        decreases n - i,
    {
        let base = strip_flashfs_path_indicator(ini.flashfs[i].filename.as_str());
        let bc = str_chars(base.as_str());
        let lower = to_lowercase(bc.as_slice());
        let name = string_from_chars(lower.as_slice());
        assert(name@ == unicode_lowercase(last_component(trim(ini.flashfs@[i as int].filename@))));
        let ghost ob = names_view(out@);
        out.push(name);
        assert(names_view(out@) =~= ob.push(unicode_lowercase(last_component(trim(ini.flashfs@[i as int].filename@)))));
        assert(ini.flashfs@.subrange(0, i + 1).map_values(
            |e: BuildIniEntry| unicode_lowercase(last_component(trim(e.filename@))),
        ) =~= ini.flashfs@.subrange(0, i as int).map_values(
            |e: BuildIniEntry| unicode_lowercase(last_component(trim(e.filename@))),
        ).push(unicode_lowercase(last_component(trim(ini.flashfs@[i as int].filename@)))));
        i += 1;
    }
    assert(ini.flashfs@.subrange(0, n as int) =~= ini.flashfs@);
    let ghost head = names_view(out@);
    out.push("fcrt.bin".to_owned());
    out.push("crl.bin".to_owned());
    out.push("dae.bin".to_owned());
    out.push("extended.bin".to_owned());
    out.push("secdata.bin".to_owned());
    out.push("odd.bin".to_owned());
    assert(names_view(out@) =~= head + security_flashfs_names());
    out
}

pub open spec fn allow_view(allow: Option<Vec<String>>) -> Option<Seq<Seq<char>>> {
    match allow {
        Some(v) => Some(names_view(v@)),
        None => None,
    }
}

pub open spec fn asset_allowed(allow: Option<Seq<Seq<char>>>, key: Seq<char>) -> bool {
    match allow {
        None => true,
        Some(a) => a.contains(key),
    }
}

/// FlashFS assets under lower-cased names, split into those the allow-list
/// admits and the names of those it drops.
pub open spec fn split_assets(entries: Seq<(Seq<char>, Seq<u8>)>, allow: Option<Seq<Seq<char>>>) -> (
    Seq<(Seq<char>, Seq<u8>)>,
    Seq<Seq<char>>,
)
    decreases entries.len(),
{
    if entries.len() == 0 {
        (Seq::empty(), Seq::empty())
    } else {
        let prev = split_assets(entries.drop_last(), allow);
        let key = unicode_lowercase(entries.last().0);
        if asset_allowed(allow, key) {
            (prev.0.push((key, entries.last().1)), prev.1)
        } else {
            (prev.0, prev.1.push(key))
        }
    }
}

pub open spec fn min_nat(a: nat, b: nat) -> nat {
    if a <= b {
        a
    } else {
        b
    }
}

/// The FlashFS assets a build packs: the admitted ones pooled under their
/// lower-cased names, with the number of dropped ones and the first six
/// dropped names (see `split_assets`).
pub fn select_flashfs_assets(assets: Vec<(String, Vec<u8>)>, allow: &Option<Vec<String>>) -> (r: (
    Vec<(String, Vec<u8>)>,
    usize,
    Vec<String>,
))
    ensures
        ({
            let sp = split_assets(pool_view(assets@), allow_view(*allow));
            &&& pools(sp.0, sp.0.len() as int, pool_view(r.0@))
            &&& r.1 == sp.1.len()
            &&& names_view(r.2@) == sp.1.take(min_nat(6, sp.1.len()) as int)
        }),
{
    let ghost fv = pool_view(assets@);
    let ghost av = allow_view(*allow);
    let n = assets.len();
    let mut assets = assets;
    let mut kept: Vec<(String, Vec<u8>)> = Vec::new();
    let mut dropped: usize = 0;
    let mut examples: Vec<String> = Vec::new();
    let mut i: usize = 0;
    while i < n
        invariant
            n == fv.len(),
            i <= n,
            av == allow_view(*allow),
            assets@.len() == n - i,
            forall|q: int| 0 <= q < n - i ==> #[trigger] pool_view(assets@)[q] == fv[i + q],
            pool_view(kept@) == split_assets(fv.subrange(0, i as int), av).0,
            dropped == split_assets(fv.subrange(0, i as int), av).1.len(),
            dropped <= i,
            names_view(examples@) == split_assets(fv.subrange(0, i as int), av).1.take(
                min_nat(6, split_assets(fv.subrange(0, i as int), av).1.len()) as int,
            ),
        decreases n - i,
    {
        let ghost before = assets@;
        assert(pool_view(before)[0] == fv[i as int]);
        let (name, data) = assets.remove(0);
        assert(pool_view(before)[0] == (before[0].0@, before[0].1@));
        assert forall|q: int| 0 <= q < n - (i + 1) implies #[trigger] pool_view(assets@)[q] == fv[i + 1 + q] by {
            assert(assets@[q] == before[q + 1]);
            assert(pool_view(before)[q + 1] == fv[i + (q + 1)]);
        }
        let ghost pre = fv.subrange(0, i as int);
        let ghost cur = fv.subrange(0, i + 1);
        assert(cur.drop_last() =~= pre);
        assert(cur.last() == (name@, data@));
        let ghost sp = split_assets(pre, av);
        let nc = str_chars(name.as_str());
        let lc = to_lowercase(nc.as_slice());
        let key = string_from_chars(lc.as_slice());
        let allowed = match allow {
            None => true,
            Some(a) => contains_name(a, &key),
        };
        assert(allowed == asset_allowed(av, key@));
        if allowed {
            let ghost kb = pool_view(kept@);
            kept.push((key, data));
            assert(pool_view(kept@) =~= kb.push((unicode_lowercase(name@), data@)));
        } else {
            let ghost eb = names_view(examples@);
            if examples.len() < 6 {
                let kc = key.clone();
                examples.push(kc);
                assert(names_view(examples@) =~= eb.push(key@));
                assert(sp.1.push(key@).take(min_nat(6, sp.1.len() + 1) as int) =~= sp.1.take(
                    min_nat(6, sp.1.len()) as int,
                ).push(key@));
            } else {
                assert(eb.len() == examples@.len());
                assert(sp.1.len() >= 6);
                assert(sp.1.push(key@).take(6) =~= sp.1.take(6));
            }
            dropped = dropped + 1;
        }
        i += 1;
    }
    assert(fv.subrange(0, n as int) =~= fv);
    let out = pool_of(kept);
    (out, dropped, examples)
}

/// Lays the ECC image's data over the image's: the first bytes, as many as
/// the shorter of the two holds, are replaced. Returns that count.
pub fn overlay_ecc(image: &mut Vec<u8>, ecc: &[u8]) -> (n: usize)
    ensures
        n == min_nat(old(image)@.len(), ecc@.len()),
        final(image)@ == ecc@.subrange(0, n as int) + old(image)@.subrange(n as int, old(image)@.len() as int),
{
    let n = if image.len() < ecc.len() {
        image.len()
    } else {
        ecc.len()
    };
    let mut k: usize = 0;
    while k < n
        invariant
            k <= n,
            n <= ecc@.len(),
            image@.len() == old(image)@.len(),
            n <= image@.len(),
            forall|q: int| 0 <= q < image@.len() ==> image@[q] == (if q < k { ecc@[q] } else { old(image)@[q] }),
        decreases n - k,
    {
        image.set(k, ecc[k]);
        k += 1;
    }
    assert(image@ =~= ecc@.subrange(0, n as int) + old(image)@.subrange(n as int, old(image)@.len() as int));
    n
}

/// SMC configuration values a build writes, from the options (falling back
/// on the current configuration).
#[derive(Debug, Clone, Copy, PartialEq, Eq)]
pub struct SmcSettings {
    pub video_region: u16,
    pub game_region: u16,
    pub dvd_region: u8,
    pub cpu_target: u8,
    pub gpu_target: u8,
    pub edram_target: u8,
    pub cpu_max: u8,
    pub gpu_max: u8,
    pub edram_max: u8,
    pub cpu_fan: Option<u8>,
    pub gpu_fan: Option<u8>,
    pub reset_code: Option<[u8; 4]>,
}

pub open spec fn opt_text(o: Option<String>) -> Option<Seq<char>> {
    match o {
        Some(s) => Some(s@),
        None => None,
    }
}

/// A `u8` option (hex or decimal), else the fallback.
pub open spec fn u8_setting(o: Option<Seq<char>>, fallback: u8) -> Result<u8, Seq<char>> {
    match o {
        None => Ok(fallback),
        Some(s) => match hex_or_dec_spec(s, 0xFF) {
            Ok(v) => Ok(v as u8),
            Err(k) => Err(hex_or_dec_error(s, "u8"@, k)),
        },
    }
}

/// A `u16` option (hex or decimal), else the fallback.
pub open spec fn u16_setting(o: Option<Seq<char>>, fallback: u16) -> Result<u16, Seq<char>> {
    match o {
        None => Ok(fallback),
        Some(s) => match hex_or_dec_spec(s, 0xFFFF) {
            Ok(v) => Ok(v as u16),
            Err(k) => Err(hex_or_dec_error(s, "u16"@, k)),
        },
    }
}

/// The DVD region: a decimal `u8` option (0xFF when it is not one), else the
/// fallback.
pub open spec fn dvd_setting(o: Option<Seq<char>>, fallback: u8) -> u8 {
    match o {
        None => fallback,
        Some(s) => match parse_uint_spec(s, 10, 0xFF) {
            Ok(v) => v as u8,
            Err(_) => 0xFF,
        },
    }
}

pub open spec fn be16_at(cfg: Seq<u8>, at: int) -> u16 {
    (cfg[at] as int * 0x100 + cfg[at + 1] as int) as u16
}

/// The XeLL reset code: the option's bytes when there are exactly four.
pub open spec fn reset_code_setting(o: Option<String>) -> Option<Seq<u8>> {
    match o {
        Some(s) => if vstd::utf8::encode_utf8(s@).len() == 4 {
            Some(vstd::utf8::encode_utf8(s@))
        } else {
            None
        },
        None => None,
    }
}

/// The settings, or the first option (in the order of the fields) that is
/// not a number.
pub open spec fn smc_settings_spec(o: crate::gxcore::data::optini::OptionsIni, cfg: Seq<u8>) -> Result<
    (u16, u16, u8, u8, u8, u8, u8, u8, u8, Option<u8>, Option<u8>),
    Seq<char>,
> {
    let sc = o.smc_config;
    match u16_setting(opt_text(o.keyvault.avregion), be16_at(cfg, 0x22A)) {
        Err(e) => Err(e),
        Ok(video) => match u16_setting(opt_text(o.keyvault.gameregion), be16_at(cfg, 0x22C)) {
            Err(e) => Err(e),
            Ok(game) => match u8_setting(opt_text(sc.cputemp), cfg[0x29]) {
                Err(e) => Err(e),
                Ok(ct) => match u8_setting(opt_text(sc.gputemp), cfg[0x2A]) {
                    Err(e) => Err(e),
                    Ok(gt) => match u8_setting(opt_text(sc.edramtemp), cfg[0x2B]) {
                        Err(e) => Err(e),
                        Ok(et) => match u8_setting(opt_text(sc.overcputemp), cfg[0x2C]) {
                            Err(e) => Err(e),
                            Ok(cm) => match u8_setting(opt_text(sc.overgputemp), cfg[0x2D]) {
                                Err(e) => Err(e),
                                Ok(gm) => match u8_setting(opt_text(sc.overedramtemp), cfg[0x2E]) {
                                    Err(e) => Err(e),
                                    Ok(em) => {
                                        let cf = match opt_text(sc.cpufan) {
                                            None => Ok(None),
                                            Some(t) => match u8_setting(Some(t), 0) {
                                                Ok(v) => Ok(Some(v)),
                                                Err(e) => Err(e),
                                            },
                                        };
                                        match cf {
                                            Err(e) => Err(e),
                                            Ok(cfan) => match opt_text(sc.gpufan) {
                                                None => Ok(
                                                    (
                                                        video,
                                                        game,
                                                        dvd_setting(opt_text(o.keyvault.dvdregion), cfg[0x237]),
                                                        ct,
                                                        gt,
                                                        et,
                                                        cm,
                                                        gm,
                                                        em,
                                                        cfan,
                                                        None,
                                                    ),
                                                ),
                                                Some(t) => match u8_setting(Some(t), 0) {
                                                    Err(e) => Err(e),
                                                    Ok(v) => Ok(
                                                        (
                                                            video,
                                                            game,
                                                            dvd_setting(opt_text(o.keyvault.dvdregion), cfg[0x237]),
                                                            ct,
                                                            gt,
                                                            et,
                                                            cm,
                                                            gm,
                                                            em,
                                                            cfan,
                                                            Some(v),
                                                        ),
                                                    ),
                                                },
                                            },
                                        }
                                    },
                                },
                            },
                        },
                    },
                },
            },
        },
    }
}

fn u8_option(o: &Option<String>, fallback: u8) -> (r: Result<u8, String>)
    ensures
        match u8_setting(opt_text(*o), fallback) {
            Ok(v) => r == Ok::<u8, String>(v),
            Err(m) => r matches Err(e) && e@ == m,
        },
{
    match o {
        None => Ok(fallback),
        Some(s) => Executor::parse_u8_hex_or_dec(s.as_str()),
    }
}

fn u16_option(o: &Option<String>, fallback: u16) -> (r: Result<u16, String>)
    ensures
        match u16_setting(opt_text(*o), fallback) {
            Ok(v) => r == Ok::<u16, String>(v),
            Err(m) => r matches Err(e) && e@ == m,
        },
{
    match o {
        None => Ok(fallback),
        Some(s) => Executor::parse_u16_hex_or_dec(s.as_str()),
    }
}

/// The SMC configuration values a build writes (see `smc_settings_spec`;
/// the reset code is `reset_code_setting` of the XeLL button option).
pub fn smc_settings(options: &crate::gxcore::data::optini::OptionsIni, config: &[u8]) -> (r: Result<SmcSettings, String>)
    requires
        config@.len() >= 0x238,
    ensures
        match smc_settings_spec(*options, config@) {
            Ok(t) => r matches Ok(st) && (
                st.video_region,
                st.game_region,
                st.dvd_region,
                st.cpu_target,
                st.gpu_target,
                st.edram_target,
                st.cpu_max,
                st.gpu_max,
                st.edram_max,
                st.cpu_fan,
                st.gpu_fan,
            ) == t && match reset_code_setting(options.builder.xellbutton) {
                Some(b) => st.reset_code matches Some(c) && c@ == b,
                None => st.reset_code is None,
            },
            Err(m) => r matches Err(e) && e@ == m,
        },
{
    let sc = &options.smc_config;
    let v0 = (config[0x22A] as u16) * 0x100 + config[0x22B] as u16;
    let video = match u16_option(&options.keyvault.avregion, v0) {
        Ok(v) => v,
        Err(e) => return Err(e),
    };
    let g0 = (config[0x22C] as u16) * 0x100 + config[0x22D] as u16;
    let game = match u16_option(&options.keyvault.gameregion, g0) {
        Ok(v) => v,
        Err(e) => return Err(e),
    };
    let dvd = match &options.keyvault.dvdregion {
        None => config[0x237],
        Some(s) => {
            let c = str_chars(s.as_str());
            match parse_uint(c.as_slice(), 10, 0xFF) {
                Ok(v) => v as u8,
                Err(_) => 0xFF,
            }
        },
    };
    let ct = match u8_option(&sc.cputemp, config[0x29]) {
        Ok(v) => v,
        Err(e) => return Err(e),
    };
    let gt = match u8_option(&sc.gputemp, config[0x2A]) {
        Ok(v) => v,
        Err(e) => return Err(e),
    };
    let et = match u8_option(&sc.edramtemp, config[0x2B]) {
        Ok(v) => v,
        Err(e) => return Err(e),
    };
    let cm = match u8_option(&sc.overcputemp, config[0x2C]) {
        Ok(v) => v,
        Err(e) => return Err(e),
    };
    let gm = match u8_option(&sc.overgputemp, config[0x2D]) {
        Ok(v) => v,
        Err(e) => return Err(e),
    };
    let em = match u8_option(&sc.overedramtemp, config[0x2E]) {
        Ok(v) => v,
        Err(e) => return Err(e),
    };
    let cpu_fan = match &sc.cpufan {
        None => None,
        Some(_) => match u8_option(&sc.cpufan, 0) {
            Ok(v) => Some(v),
            Err(e) => return Err(e),
        },
    };
    let gpu_fan = match &sc.gpufan {
        None => None,
        Some(_) => match u8_option(&sc.gpufan, 0) {
            Ok(v) => Some(v),
            Err(e) => return Err(e),
        },
    };
    let reset_code = match &options.builder.xellbutton {
        None => None,
        Some(s) => {
            let b = s.as_str().as_bytes();
            if b.len() == 4 {
                let c = [b[0], b[1], b[2], b[3]];
                assert(c@ =~= b@);
                Some(c)
            } else {
                None
            }
        },
    };
    Ok(
        SmcSettings {
            video_region: video,
            game_region: game,
            dvd_region: dvd,
            cpu_target: ct,
            gpu_target: gt,
            edram_target: et,
            cpu_max: cm,
            gpu_max: gm,
            edram_max: em,
            cpu_fan,
            gpu_fan,
            reset_code,
        },
    )
}

/// Image profiles whose SMC the build auto-patches (`glitch`, `glitch1`,
/// `glitch2`, in any ASCII case).
pub open spec fn auto_patches_smc_spec(profile: Seq<char>) -> bool {
    eq_ignore_ascii_case(profile, "glitch"@) || eq_ignore_ascii_case(profile, "glitch1"@) || eq_ignore_ascii_case(
        profile,
        "glitch2"@,
    )
}

pub fn auto_patches_smc(profile: &str) -> (r: bool)
    ensures
        r == auto_patches_smc_spec(profile@),
{
    let v = str_chars(profile);
    let n = v.len();
    assert(v@.subrange(0, n as int) =~= v@);
    let g = str_chars("glitch");
    let g1 = str_chars("glitch1");
    let g2 = str_chars("glitch2");
    range_eq_ignore_ascii_case(v.as_slice(), 0, n, g.as_slice()) || range_eq_ignore_ascii_case(
        v.as_slice(),
        0,
        n,
        g1.as_slice(),
    ) || range_eq_ignore_ascii_case(v.as_slice(), 0, n, g2.as_slice())
}

/// Layout of the blank image a build synthesises for a console when no NAND
/// dump is found.
pub open spec fn blank_layout_spec(console: Seq<char>) -> NandLayout {
    if console == "xenon"@ {
        NandLayout::Xsb
    } else if console == "jasper256"@ || console == "jasper512"@ || console == "jasperbb"@ || console
        == "jasperbigffs"@ || console == "trinitybigffs"@ {
        NandLayout::Bb
    } else if console == "corona4g"@ || console == "winchester"@ {
        NandLayout::Emmc
    } else {
        NandLayout::Sb
    }
}

/// The layout of a blank image for a console: the Xenon is Xenon small block;
/// the Jasper 256/512 and big-FFS Jaspers and Trinitys are big block; the
/// Corona 4G and Winchester are eMMC; every other console is small block.
pub proof fn lemma_blank_layout_by_console(console: Seq<char>)
    ensures
        blank_layout_spec("xenon"@) == NandLayout::Xsb,
        blank_layout_spec("jasper256"@) == NandLayout::Bb,
        blank_layout_spec("jasper512"@) == NandLayout::Bb,
        blank_layout_spec("jasperbb"@) == NandLayout::Bb,
        blank_layout_spec("jasperbigffs"@) == NandLayout::Bb,
        blank_layout_spec("trinitybigffs"@) == NandLayout::Bb,
        blank_layout_spec("corona4g"@) == NandLayout::Emmc,
        blank_layout_spec("winchester"@) == NandLayout::Emmc,
        blank_layout_spec(console) == NandLayout::Xsb ==> console == "xenon"@,
        blank_layout_spec(console) == NandLayout::Bb ==> (console == "jasper256"@ || console == "jasper512"@
            || console == "jasperbb"@ || console == "jasperbigffs"@ || console == "trinitybigffs"@),
        blank_layout_spec(console) == NandLayout::Emmc ==> (console == "corona4g"@ || console == "winchester"@),
        !(console == "xenon"@ || console == "jasper256"@ || console == "jasper512"@ || console == "jasperbb"@
            || console == "jasperbigffs"@ || console == "trinitybigffs"@ || console == "corona4g"@ || console
            == "winchester"@) ==> blank_layout_spec(console) == NandLayout::Sb,
{
    reveal_strlit("xenon");
    assert("xenon"@.len() == 5);
    reveal_strlit("jasper256");
    assert("jasper256"@.len() == 9);
    reveal_strlit("jasper512");
    assert("jasper512"@.len() == 9);
    reveal_strlit("jasperbb");
    assert("jasperbb"@.len() == 8);
    reveal_strlit("jasperbigffs");
    assert("jasperbigffs"@.len() == 12);
    reveal_strlit("trinitybigffs");
    assert("trinitybigffs"@.len() == 13);
    reveal_strlit("corona4g");
    assert("corona4g"@.len() == 8);
    reveal_strlit("winchester");
    assert("winchester"@.len() == 10);
    assert("jasper256"@[6] != "jasper512"@[6]);
    assert("jasperbb"@[0] != "corona4g"@[0]);
}

fn is_text(v: &[char], t: &str) -> (r: bool)
    ensures
        r == (v@ == t@),
{
    let tc = str_chars(t);
    assert(v@.subrange(0, v@.len() as int) =~= v@);
    range_eq(v, 0, v.len(), tc.as_slice())
}

pub fn blank_layout(console: &str) -> (r: NandLayout)
    ensures
        r == blank_layout_spec(console@),
{
    let c = str_chars(console);
    let v = c.as_slice();
    if is_text(v, "xenon") {
        NandLayout::Xsb
    } else if is_text(v, "jasper256") || is_text(v, "jasper512") || is_text(v, "jasperbb") || is_text(v, "jasperbigffs")
        || is_text(v, "trinitybigffs") {
        NandLayout::Bb
    } else if is_text(v, "corona4g") || is_text(v, "winchester") {
        NandLayout::Emmc
    } else {
        NandLayout::Sb
    }
}

pub open spec fn lowered(entries: Seq<BuildIniEntry>) -> Seq<Seq<char>> {
    entries.map_values(|e: BuildIniEntry| unicode_lowercase(e.filename@))
}

fn push_lowered(out: &mut Vec<String>, entries: &Vec<BuildIniEntry>)
    ensures
        names_view(final(out)@) == names_view(old(out)@) + lowered(entries@),
{
    let n = entries.len();
    let mut i: usize = 0;
    while i < n
        invariant
            i <= n == entries@.len(),
            names_view(out@) == names_view(old(out)@) + lowered(entries@.subrange(0, i as int)),
        decreases n - i,
    {
        let fc = str_chars(entries[i].filename.as_str());
        let lc = to_lowercase(fc.as_slice());
        let ghost ob = names_view(out@);
        out.push(string_from_chars(lc.as_slice()));
        assert(names_view(out@) =~= ob.push(unicode_lowercase(entries@[i as int].filename@)));
        assert(lowered(entries@.subrange(0, i + 1)) =~= lowered(entries@.subrange(0, i as int)).push(
            unicode_lowercase(entries@[i as int].filename@),
        ));
        i += 1;
    }
    assert(entries@.subrange(0, n as int) =~= entries@);
}

/// The asset files a build looks for: the lower-cased names of the INI's
/// bootloader, security and FlashFS files (a name may repeat).
pub fn build_target_names(ini: &XeBuildIni) -> (r: Vec<String>)
    ensures
        names_view(r@) == lowered(ini.main@) + lowered(ini.security@) + lowered(ini.flashfs@),
{
    let mut out: Vec<String> = Vec::new();
    assert(names_view(out@) =~= Seq::<Seq<char>>::empty());
    push_lowered(&mut out, &ini.main);
    push_lowered(&mut out, &ini.security);
    push_lowered(&mut out, &ini.flashfs);
    assert(Seq::<Seq<char>>::empty() + lowered(ini.main@) =~= lowered(ini.main@));
    out
}

/// The per-box fields of a loader's metadata: the pairing data and the
/// lockdown value.
#[derive(Debug, Clone, Copy)]
pub struct PerBoxMeta {
    pub pairing_data: [u8; 3],
    pub lockdown_value: u8,
}

/// A CB or CF loader as the per-box settings see it: its parsed metadata, if
/// any, and its raw bytes.
#[derive(Debug, Clone)]
pub struct PerBoxLoader {
    pub meta: Option<PerBoxMeta>,
    pub data: Vec<u8>,
}

/// The loaders of an image that carry per-box settings.
#[derive(Debug, Clone)]
pub struct PerBoxSlots {
    pub cb: Option<PerBoxLoader>,
    pub cb_a: Option<PerBoxLoader>,
    pub cb_b: Option<PerBoxLoader>,
    pub cf_0: Option<PerBoxLoader>,
    pub cf_1: Option<PerBoxLoader>,
}

pub open spec fn loader_meta(l: Option<PerBoxLoader>) -> Option<PerBoxMeta> {
    match l {
        Some(x) => x.meta,
        None => None,
    }
}

/// The metadata of the CB that settings come from: CB_A when there is one,
/// else the single CB.
pub open spec fn first_cb_meta(s: PerBoxSlots) -> Option<PerBoxMeta> {
    if s.cb_a is Some {
        loader_meta(s.cb_a)
    } else {
        loader_meta(s.cb)
    }
}

/// Pairing data: the CB's, else CF_0's; all zeros, or none found, gives
/// `00 00 01`.
pub open spec fn resolve_pairing_spec(s: PerBoxSlots) -> Seq<u8> {
    let found = match first_cb_meta(s) {
        Some(m) => Some(m.pairing_data@),
        None => match loader_meta(s.cf_0) {
            Some(m) => Some(m.pairing_data@),
            None => None,
        },
    };
    match found {
        Some(p) => if p == seq![0u8, 0u8, 0u8] {
            seq![0u8, 0u8, 1u8]
        } else {
            p
        },
        None => seq![0u8, 0u8, 1u8],
    }
}

/// A lockdown value read from a loader: zero or none counts as 1.
pub open spec fn ldv_or_default(m: Option<PerBoxMeta>) -> u8 {
    match m {
        Some(x) => if x.lockdown_value != 0 {
            x.lockdown_value
        } else {
            1
        },
        None => 1,
    }
}

fn meta_of(l: &Option<PerBoxLoader>) -> (r: Option<PerBoxMeta>)
    ensures
        r == loader_meta(*l),
{
    match l {
        Some(x) => x.meta,
        None => None,
    }
}

pub open spec fn synced_loader(l: PerBoxLoader, pairing: [u8; 3], ldv: u8) -> PerBoxLoader {
    match l.meta {
        Some(m) => PerBoxLoader { meta: Some(PerBoxMeta { pairing_data: pairing, lockdown_value: ldv }), data: l.data },
        None => l,
    }
}

/// A CF without parsed metadata gets the pairing at 0x20C..0x20F and the
/// lockdown value at 0x20F of its raw bytes, where they fit.
pub open spec fn synced_cf_bytes(d: Seq<u8>, pairing: Seq<u8>, ldv: u8) -> Seq<u8> {
    let p = if d.len() > 0x20E {
        d.subrange(0, 0x20C) + pairing + d.subrange(0x20F, d.len() as int)
    } else {
        d
    };
    if d.len() > 0x20F {
        p.update(0x20F, ldv)
    } else {
        p
    }
}

fn sync_loader(l: &mut Option<PerBoxLoader>, pairing: [u8; 3], ldv: u8, raw_fallback: bool)
    ensures
        match *old(l) {
            Some(x) => match x.meta {
                Some(m) => *final(l) matches Some(y) && y.meta == Some(
                    PerBoxMeta { pairing_data: pairing, lockdown_value: ldv },
                ) && y.data@ == x.data@,
                None => *final(l) matches Some(y) && y.meta.is_none() && y.data@ == (if raw_fallback {
                    synced_cf_bytes(x.data@, pairing@, ldv)
                } else {
                    x.data@
                }),
            },
            None => final(l).is_none(),
        },
{
    match l {
        Some(x) => {
            if x.meta.is_some() {
                x.meta = Some(PerBoxMeta { pairing_data: pairing, lockdown_value: ldv });
            } else if raw_fallback {
                let n = x.data.len();
                let ghost d0 = x.data@;
                if n > 0x20E {
                    x.data.set(0x20C, pairing[0]);
                    x.data.set(0x20D, pairing[1]);
                    x.data.set(0x20E, pairing[2]);
                    assert(x.data@ =~= d0.subrange(0, 0x20C) + pairing@ + d0.subrange(0x20F, d0.len() as int));
                }
                if n > 0x20F {
                    x.data.set(0x20F, ldv);
                }
            }
        },
        None => {},
    }
}

impl Executor {
    /// Pairing data for the build: from the CB (CB_A first), else CF_0; all
    /// zeros or nothing found gives `00 00 01`.
    pub fn resolve_pairing(slots: &PerBoxSlots) -> (r: [u8; 3])
        ensures
            r@ == resolve_pairing_spec(*slots),
    {
        let cb = if slots.cb_a.is_some() {
            meta_of(&slots.cb_a)
        } else {
            meta_of(&slots.cb)
        };
        let found: Option<[u8; 3]> = match cb {
            Some(m) => Some(m.pairing_data),
            None => match meta_of(&slots.cf_0) {
                Some(m) => Some(m.pairing_data),
                None => None,
            },
        };
        match found {
            Some(p) => {
                if p[0] == 0 && p[1] == 0 && p[2] == 0 {
                    assert(p@ =~= seq![0u8, 0u8, 0u8]);
                    let r = [0u8, 0u8, 1u8];
                    assert(r@ =~= seq![0u8, 0u8, 1u8]);
                    r
                } else {
                    assert(p@ != seq![0u8, 0u8, 0u8]) by {
                        if p@ == seq![0u8, 0u8, 0u8] {
                            assert(p@[0] == 0 && p@[1] == 0 && p@[2] == 0);
                        }
                    }
                    p
                }
            },
            None => {
                let r = [0u8, 0u8, 1u8];
                assert(r@ =~= seq![0u8, 0u8, 1u8]);
                r
            },
        }
    }

    /// The CB lockdown value: the CB's (CB_A first), with zero or none giving 1.
    pub fn resolve_cb_ldv(slots: &PerBoxSlots) -> (r: Result<u8, String>)
        ensures
            r == Ok::<u8, String>(ldv_or_default(first_cb_meta(*slots))),
    {
        let cb = if slots.cb_a.is_some() {
            meta_of(&slots.cb_a)
        } else {
            meta_of(&slots.cb)
        };
        match cb {
            Some(m) => if m.lockdown_value != 0 {
                Ok(m.lockdown_value)
            } else {
                Ok(1)
            },
            None => Ok(1),
        }
    }

    /// The CF lockdown value: the `cfldv` option when set (parsed as hex or
    /// decimal, its error passed on), else CF_0's, with zero or none giving 1.
    pub fn resolve_cf_ldv(cfldv: &Option<String>, slots: &PerBoxSlots) -> (r: Result<u8, String>)
        ensures
            match cfldv {
                Some(o) => match hex_or_dec_spec(o@, 0xFF) {
                    Ok(v) => r == Ok::<u8, String>(v as u8),
                    Err(k) => r matches Err(m) && m@ == hex_or_dec_error(o@, "u8"@, k),
                },
                None => r == Ok::<u8, String>(ldv_or_default(loader_meta(slots.cf_0))),
            },
    {
        match cfldv {
            Some(o) => Self::parse_u8_hex_or_dec(o.as_str()),
            None => match meta_of(&slots.cf_0) {
                Some(m) => if m.lockdown_value != 0 {
                    Ok(m.lockdown_value)
                } else {
                    Ok(1)
                },
                None => Ok(1),
            },
        }
    }

    /// Writes the pairing data into every CB and CF that has metadata, with the
    /// CB lockdown value into the CBs and the CF one into the CFs; a CF without
    /// metadata gets them in its raw bytes instead (see `synced_cf_bytes`).
    pub fn sync_per_box_settings(slots: &mut PerBoxSlots, pairing: [u8; 3], cb_ldv: u8, cf_ldv: u8)
        ensures
            match old(slots).cb {
                Some(x) => final(slots).cb matches Some(y) && y.meta == synced_loader(x, pairing, cb_ldv).meta
                    && y.data@ == x.data@,
                None => final(slots).cb.is_none(),
            },
            match old(slots).cb_a {
                Some(x) => final(slots).cb_a matches Some(y) && y.meta == synced_loader(x, pairing, cb_ldv).meta
                    && y.data@ == x.data@,
                None => final(slots).cb_a.is_none(),
            },
            match old(slots).cb_b {
                Some(x) => final(slots).cb_b matches Some(y) && y.meta == synced_loader(x, pairing, cb_ldv).meta
                    && y.data@ == x.data@,
                None => final(slots).cb_b.is_none(),
            },
            match old(slots).cf_0 {
                Some(x) => final(slots).cf_0 matches Some(y) && y.meta == synced_loader(x, pairing, cf_ldv).meta
                    && y.data@ == (if x.meta is Some {
                    x.data@
                } else {
                    synced_cf_bytes(x.data@, pairing@, cf_ldv)
                }),
                None => final(slots).cf_0.is_none(),
            },
            match old(slots).cf_1 {
                Some(x) => final(slots).cf_1 matches Some(y) && y.meta == synced_loader(x, pairing, cf_ldv).meta
                    && y.data@ == (if x.meta is Some {
                    x.data@
                } else {
                    synced_cf_bytes(x.data@, pairing@, cf_ldv)
                }),
                None => final(slots).cf_1.is_none(),
            },
    {
        sync_loader(&mut slots.cb, pairing, cb_ldv, false);
        sync_loader(&mut slots.cb_a, pairing, cb_ldv, false);
        sync_loader(&mut slots.cb_b, pairing, cb_ldv, false);
        sync_loader(&mut slots.cf_0, pairing, cf_ldv, true);
        sync_loader(&mut slots.cf_1, pairing, cf_ldv, true);
    }
}

/// Bytes as lower-case hex, two digits each.
pub open spec fn bytes_hex(b: Seq<u8>) -> Seq<char>
    decreases b.len(),
{
    if b.len() == 0 {
        Seq::empty()
    } else {
        bytes_hex(b.drop_last()) + hex_digits(b.last() as u32, 2)
    }
}

fn bytes_hex_exec(b: &[u8]) -> (r: Vec<char>)
    ensures
        r@ == bytes_hex(b@),
{
    let mut out: Vec<char> = Vec::new();
    let mut i: usize = 0;
    while i < b.len()
        invariant
            i <= b@.len(),
            out@ == bytes_hex(b@.take(i as int)),
        decreases b@.len() - i,
    {
        let v = b[i] as u32;
        let hi = v / 16;
        let lo = v % 16;
        let ch = if hi < 10 {
            (0x30u8 + hi as u8) as char
        } else {
            (0x61u8 + hi as u8 - 10) as char
        };
        let cl = if lo < 10 {
            (0x30u8 + lo as u8) as char
        } else {
            (0x61u8 + lo as u8 - 10) as char
        };
        proof {
            assert(b@.take(i + 1).drop_last() =~= b@.take(i as int));
            assert(hex_digits(v, 2) == hex_digits(v / 16, 1).push(crate::gxcore::data::filesearch::hex_digit_char((v % 16) as int)));
            assert(hex_digits(v / 16, 1) == hex_digits((v / 16) / 16, 0).push(crate::gxcore::data::filesearch::hex_digit_char(((v / 16) % 16) as int)));
            assert((v / 16) % 16 == v / 16);
        }
        out.push(ch);
        out.push(cl);
        i += 1;
        proof {
            assert(out@ =~= bytes_hex(b@.take(i as int)));
        }
    }
    assert(b@.take(b@.len() as int) =~= b@);
    out
}

pub open spec fn upper_hex_digit(d: int) -> char {
    if d < 10 {
        (('0' as u8) + d) as char
    } else {
        (('A' as u8) + d - 10) as char
    }
}

/// `format!("0x{:04X}", v)`.
pub open spec fn hex4_upper(v: u16) -> Seq<char> {
    seq!['0', 'x', upper_hex_digit((v / 0x1000) as int), upper_hex_digit(((v / 0x100) % 16) as int),
        upper_hex_digit(((v / 16) % 16) as int), upper_hex_digit((v % 16) as int)]
}

fn upper_digit(d: u16) -> (r: char)
    requires
        d < 16,
    ensures
        r == upper_hex_digit(d as int),
{
    if d < 10 {
        (0x30u8 + d as u8) as char
    } else {
        (0x41u8 + d as u8 - 10) as char
    }
}

fn hex4_upper_exec(v: u16) -> (r: String)
    ensures
        r@ == hex4_upper(v),
{
    let c = vec!['0', 'x', upper_digit(v / 0x1000), upper_digit((v / 0x100) % 16), upper_digit((v / 16) % 16), upper_digit(v % 16)];
    assert(c@ =~= hex4_upper(v));
    string_from_chars(c.as_slice())
}

/// The decimal digits of a number.
pub open spec fn dec_digits(v: nat) -> Seq<char>
    decreases v,
{
    if v < 10 {
        seq![(('0' as u8) + v) as char]
    } else {
        dec_digits(v / 10) + seq![(('0' as u8) + v % 10) as char]
    }
}

pub(crate) fn dec_digits_exec(v: u64) -> (r: Vec<char>)
    ensures
        r@ == dec_digits(v as nat),
    decreases v,
{
    if v < 10 {
        let r = vec![(0x30u8 + v as u8) as char];
        assert(r@ =~= dec_digits(v as nat));
        r
    } else {
        let mut r = dec_digits_exec(v / 10);
        r.push((0x30u8 + (v % 10) as u8) as char);
        assert(r@ =~= dec_digits(v as nat));
        r
    }
}

/// A keyvault's values as the option defaults need them.
#[derive(Debug, Clone, Copy)]
pub struct KvDefaults {
    pub region: u16,
    pub dvd_key: [u8; 16],
}

/// What an image gives the option defaults: its CPU key, its motherboard's
/// name and, when its keyvault could be decrypted, the keyvault's values.
#[derive(Debug, Clone)]
pub struct NandDefaults {
    pub cpukey: Option<[u8; 16]>,
    pub motherboard: String,
    pub kv: Option<KvDefaults>,
}

pub open spec fn default_text(cur: Option<String>, dflt: Option<Seq<char>>) -> Option<Seq<char>> {
    match cur {
        Some(s) => Some(s@),
        None => dflt,
    }
}

impl Executor {
    /// Fills the options the user left unset from the image: the CPU key as
    /// hex, the console type as the lower-cased motherboard name, the CF
    /// lockdown value in decimal, and the keyvault's game region (`0x` and four
    /// upper-case hex digits) and DVD key (hex). Options already set stay.
    pub fn extract_options_from_nand(options: &mut OptionsIni, nand: &NandDefaults, slots: &PerBoxSlots)
        ensures
            text_view(final(options).keys.cpukey) == default_text(
                old(options).keys.cpukey,
                match nand.cpukey {
                    Some(k) => Some(bytes_hex(k@)),
                    None => None,
                },
            ),
            text_view(final(options).keys.ctype) == default_text(
                old(options).keys.ctype,
                Some(unicode_lowercase(nand.motherboard@)),
            ),
            text_view(final(options).keys.cfldv) == default_text(
                old(options).keys.cfldv,
                Some(dec_digits(ldv_or_default(loader_meta(slots.cf_0)) as nat)),
            ),
            text_view(final(options).keyvault.gameregion) == default_text(
                old(options).keyvault.gameregion,
                match nand.kv {
                    Some(kv) => Some(hex4_upper(kv.region)),
                    None => None,
                },
            ),
            text_view(final(options).keyvault.dvdkey) == default_text(
                old(options).keyvault.dvdkey,
                match nand.kv {
                    Some(kv) => Some(bytes_hex(kv.dvd_key@)),
                    None => None,
                },
            ),
            final(options).keys._1blkey == old(options).keys._1blkey,
            final(options).core == old(options).core,
            final(options).core_builder == old(options).core_builder,
            final(options).builder == old(options).builder,
            final(options).jtag == old(options).jtag,
            final(options).smc_config == old(options).smc_config,
            final(options).keyvault.avregion == old(options).keyvault.avregion,
            final(options).keyvault.dvdregion == old(options).keyvault.dvdregion,
            final(options).keyvault.macid == old(options).keyvault.macid,
            final(options).keyvault.serial == old(options).keyvault.serial,
            final(options).keyvault.consoleid == old(options).keyvault.consoleid,
            final(options).keyvault.osig == old(options).keyvault.osig,
            final(options).keyvault.mfdate == old(options).keyvault.mfdate,
    {
        if options.keys.cpukey.is_none() {
            match &nand.cpukey {
                Some(k) => {
                    let h = bytes_hex_exec(k);
                    options.keys.cpukey = Some(string_from_chars(h.as_slice()));
                },
                None => {},
            }
        }
        if options.keys.ctype.is_none() {
            let m = str_chars(nand.motherboard.as_str());
            let low = to_lowercase(m.as_slice());
            options.keys.ctype = Some(string_from_chars(low.as_slice()));
        }
        if options.keys.cfldv.is_none() {
            let ldv = match meta_of(&slots.cf_0) {
                Some(m) => if m.lockdown_value != 0 {
                    m.lockdown_value
                } else {
                    1
                },
                None => 1,
            };
            let d = dec_digits_exec(ldv as u64);
            options.keys.cfldv = Some(string_from_chars(d.as_slice()));
        }
        match &nand.kv {
            Some(kv) => {
                if options.keyvault.gameregion.is_none() {
                    options.keyvault.gameregion = Some(hex4_upper_exec(kv.region));
                }
                if options.keyvault.dvdkey.is_none() {
                    let h = bytes_hex_exec(&kv.dvd_key);
                    options.keyvault.dvdkey = Some(string_from_chars(h.as_slice()));
                }
            },
            None => {},
        }
    }
}

} // verus!
