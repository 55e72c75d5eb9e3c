//! Command-line vocabulary: build and console types, the INI file and
//! section they select, and the `-o` option lists.

use vstd::prelude::*;
use crate::gxcore::handler::{hex_or_dec_chars, hex_or_dec_spec};
use crate::gxcore::images::blocks::NandLayout;
use crate::text::{find_from, lemma_split_step, push_text, split, str_chars, string_from_chars, sub_chars, find_in};
use std::path::PathBuf;

verus! {

#[derive(Debug)]
pub enum CliError {
    MissingBuildType,
    MissingConsole,
    IniRead { path: PathBuf },
    MissingCpuKey,
    InvalidExtractSource,
    ExtractSourceNotFound,
    Message(String),
}

#[allow(non_camel_case_types)]
#[derive(Debug, Clone, Copy, PartialEq, Eq, Structural)]
pub enum CliBuildType {
    retail,
    jtag,
    glitch,
    glitch2,
    glitch2m,
    glitch3,
    devkit,
}

#[allow(non_camel_case_types)]
#[derive(Debug, Clone, Copy, PartialEq, Eq, Structural)]
pub enum CliConsoleType {
    xenon,
    zephyr,
    falcon,
    jasper,
    jasper256,
    jasper512,
    jasperbb,
    jasperbigffs,
    trinity,
    trinitybb,
    trinitybigffs,
    corona,
    corona4g,
    winchester,
    winchester4g,
}

#[derive(Debug, Clone)]
pub enum GgxMode {
    Build { build_type: Option<CliBuildType> },
    Extract { all: bool },
}

/// NAND layout of a blank image for a console.
pub open spec fn console_layout_spec(c: CliConsoleType) -> NandLayout {
    match c {
        CliConsoleType::xenon => NandLayout::Xsb,
        CliConsoleType::zephyr | CliConsoleType::falcon | CliConsoleType::jasper => NandLayout::Sb,
        CliConsoleType::jasper256 | CliConsoleType::jasper512 | CliConsoleType::jasperbb
        | CliConsoleType::jasperbigffs => NandLayout::Bb,
        CliConsoleType::trinity => NandLayout::Sb,
        CliConsoleType::trinitybb | CliConsoleType::trinitybigffs => NandLayout::Bb,
        CliConsoleType::corona => NandLayout::Sb,
        CliConsoleType::corona4g | CliConsoleType::winchester | CliConsoleType::winchester4g => NandLayout::Emmc,
    }
}

impl CliConsoleType {
    /// Layout of a blank image synthesised for this console.
    pub fn layout(&self) -> (r: NandLayout)
        ensures
            r == console_layout_spec(*self),
    {
        match self {
            CliConsoleType::xenon => NandLayout::Xsb,
            CliConsoleType::zephyr | CliConsoleType::falcon | CliConsoleType::jasper => NandLayout::Sb,
            CliConsoleType::jasper256 | CliConsoleType::jasper512 | CliConsoleType::jasperbb
            | CliConsoleType::jasperbigffs => NandLayout::Bb,
            CliConsoleType::trinity => NandLayout::Sb,
            CliConsoleType::trinitybb | CliConsoleType::trinitybigffs => NandLayout::Bb,
            CliConsoleType::corona => NandLayout::Sb,
            CliConsoleType::corona4g | CliConsoleType::winchester | CliConsoleType::winchester4g => NandLayout::Emmc,
        }
    }
}

/// INI section base name of a console name: storage variants share their
/// board's section.
pub open spec fn console_section_base(console: Seq<char>) -> Seq<char> {
    if console == "jasper256"@ || console == "jasper512"@ || console == "jasperbb"@ || console == "jasperbigffs"@ {
        "jasper"@
    } else if console == "trinitybb"@ || console == "trinitybigffs"@ {
        "trinity"@
    } else if console == "corona4g"@ {
        "corona"@
    } else if console == "winchester4g"@ {
        "winchester"@
    } else {
        console
    }
}

/// The bootloader section a console reads: the Jasper 256/512, big-block and
/// big-FFS variants read `jasper`, the Trinity big-block and big-FFS ones
/// `trinity`, the Corona 4G `corona`, the Winchester 4G `winchester`; every
/// other console reads its own name.
pub proof fn lemma_console_section_base(console: Seq<char>)
    ensures
        console_section_base("jasper256"@) == "jasper"@,
        console_section_base("jasper512"@) == "jasper"@,
        console_section_base("jasperbb"@) == "jasper"@,
        console_section_base("jasperbigffs"@) == "jasper"@,
        console_section_base("trinitybb"@) == "trinity"@,
        console_section_base("trinitybigffs"@) == "trinity"@,
        console_section_base("corona4g"@) == "corona"@,
        console_section_base("winchester4g"@) == "winchester"@,
        !(console == "jasper256"@ || console == "jasper512"@ || console == "jasperbb"@ || console == "jasperbigffs"@
            || console == "trinitybb"@ || console == "trinitybigffs"@ || console == "corona4g"@ || console
            == "winchester4g"@) ==> console_section_base(console) == console,
{
    reveal_strlit("jasper256");
    assert("jasper256"@.len() == 9);
    reveal_strlit("jasper512");
    assert("jasper512"@.len() == 9);
    reveal_strlit("jasperbb");
    assert("jasperbb"@.len() == 8);
    reveal_strlit("jasperbigffs");
    assert("jasperbigffs"@.len() == 12);
    reveal_strlit("trinitybb");
    assert("trinitybb"@.len() == 9);
    reveal_strlit("trinitybigffs");
    assert("trinitybigffs"@.len() == 13);
    reveal_strlit("corona4g");
    assert("corona4g"@.len() == 8);
    reveal_strlit("winchester4g");
    assert("winchester4g"@.len() == 12);
    assert("jasper256"@[6] != "jasper512"@[6]);
    assert("jasper256"@[0] != "trinitybb"@[0]);
    assert("jasper512"@[0] != "trinitybb"@[0]);
    assert("jasperbb"@[0] != "corona4g"@[0]);
    assert("jasperbigffs"@[0] != "winchester4g"@[0]);
}

pub open spec fn opt_ext(e: Option<&str>) -> Option<Seq<char>> {
    match e {
        Some(s) => Some(s@),
        None => None,
    }
}

/// Build INI file name: `_<type>[_<ext>].ini`.
pub open spec fn ini_file_name(build_type: Seq<char>, ini_ext: Option<Seq<char>>) -> Seq<char> {
    "_"@ + build_type + match ini_ext {
        Some(e) => "_"@ + e,
        None => Seq::empty(),
    } + ".ini"@
}

/// Bootloader section: the console's base name, then `_<ext>`.
pub open spec fn console_section_name(console: Seq<char>, bl_ext: Option<Seq<char>>) -> Seq<char> {
    match bl_ext {
        Some(e) => console_section_base(console) + "_"@ + e,
        None => console_section_base(console),
    }
}

fn eq_text(a: &[char], b: &str) -> (r: bool)
    ensures
        r == (a@ == b@),
{
    let bc = str_chars(b);
    let n = a.len();
    assert(a@.subrange(0, n as int) =~= a@);
    crate::text::range_eq(a, 0, n, bc.as_slice())
}

/// The build INI file name and the bootloader section for a build type and
/// console (see `ini_file_name` and `console_section_name`).
pub fn resolve_ini_target(build_type: &str, console: &str, ini_ext: Option<&str>, bl_ext: Option<&str>) -> (r: (
    String,
    String,
))
    ensures
        r.0@ == ini_file_name(build_type@, opt_ext(ini_ext)),
        r.1@ == console_section_name(console@, opt_ext(bl_ext)),
{
    let mut file: Vec<char> = Vec::new();
    push_text(&mut file, "_");
    push_text(&mut file, build_type);
    if let Some(e) = ini_ext {
        push_text(&mut file, "_");
        push_text(&mut file, e);
    }
    push_text(&mut file, ".ini");
    assert(file@ =~= ini_file_name(build_type@, opt_ext(ini_ext)));
    let cc = str_chars(console);
    let mut section: Vec<char> = if eq_text(cc.as_slice(), "jasper256") || eq_text(cc.as_slice(), "jasper512")
        || eq_text(cc.as_slice(), "jasperbb") || eq_text(cc.as_slice(), "jasperbigffs") {
        str_chars("jasper")
    } else if eq_text(cc.as_slice(), "trinitybb") || eq_text(cc.as_slice(), "trinitybigffs") {
        str_chars("trinity")
    } else if eq_text(cc.as_slice(), "corona4g") {
        str_chars("corona")
    } else if eq_text(cc.as_slice(), "winchester4g") {
        str_chars("winchester")
    } else {
        cc
    };
    if let Some(e) = bl_ext {
        push_text(&mut section, "_");
        push_text(&mut section, e);
    }
    (string_from_chars(file.as_slice()), string_from_chars(section.as_slice()))
}

/// One `-o` option: `key=value` at the first `=`, or a bare key meaning `true`.
pub open spec fn option_pair(part: Seq<char>) -> (Seq<char>, Seq<char>) {
    let j = find_from(part, "="@, 0);
    if j < part.len() {
        (part.subrange(0, j), part.subrange(j + 1, part.len() as int))
    } else {
        (part, "true"@)
    }
}

/// The non-empty `;`-separated parts of an option list, as pairs.
pub open spec fn option_pairs(parts: Seq<Seq<char>>) -> Seq<(Seq<char>, Seq<char>)>
    decreases parts.len(),
{
    if parts.len() == 0 {
        Seq::empty()
    } else {
        let prev = option_pairs(parts.drop_last());
        if parts.last().len() == 0 {
            prev
        } else {
            prev.push(option_pair(parts.last()))
        }
    }
}

pub open spec fn pairs_view(v: Seq<(String, String)>) -> Seq<(Seq<char>, Seq<char>)> {
    v.map_values(|p: (String, String)| (p.0@, p.1@))
}

/// Parses an `-o` option list such as `noenter;cputemp=80`.
pub fn parse_key_val(s: &str) -> (r: Vec<(String, String)>)
    ensures
        pairs_view(r@) == option_pairs(split(s@, ";"@)),
{
    let v = str_chars(s);
    let semi = str_chars(";");
    let eq = str_chars("=");
    proof {
        reveal_strlit(";");
        reveal_strlit("=");
    }
    let n = v.len();
    let mut out: Vec<(String, String)> = Vec::new();
    let mut pos: usize = 0;
    let ghost all = split(v@, ";"@);
    let ghost mut k: int = 0;
    assert(v@.subrange(0, n as int) =~= v@);
    assert(all.subrange(0, 0) =~= Seq::<Seq<char>>::empty());
    loop
        invariant
            pos <= n == v@.len(),
            v@ == s@,
            semi@ == ";"@,
            eq@ == "="@,
            semi@.len() == 1,
            eq@.len() == 1,
            all == split(v@, ";"@),
            0 <= k <= all.len(),
            split(v@.subrange(pos as int, n as int), ";"@) == all.subrange(k, all.len() as int),
            pairs_view(out@) == option_pairs(all.subrange(0, k)),
        decreases n - pos,
    {
        let j = find_in(v.as_slice(), pos, n, semi.as_slice());
        proof {
            crate::text::lemma_split_len(v@.subrange(pos as int, n as int), ";"@);
            lemma_split_step(v@, pos as int, n as int, ";"@, j as int);
            assert(all.subrange(k, all.len() as int)[0] == v@.subrange(pos as int, j as int));
            assert(all[k] == v@.subrange(pos as int, j as int));
            assert(all.subrange(0, k + 1).drop_last() =~= all.subrange(0, k));
            assert(all.subrange(0, k + 1).last() == all[k]);
        }
        if j > pos {
            let e = find_in(v.as_slice(), pos, j, eq.as_slice());
            let ghost part = v@.subrange(pos as int, j as int);
            let pair = if e < j {
                proof {
                    crate::text::lemma_find_from(part, "="@, 0);
                    assert(part.subrange(0, e - pos) =~= v@.subrange(pos as int, e as int));
                    assert(part.subrange(e - pos + 1, part.len() as int) =~= v@.subrange(e + 1, j as int));
                }
                let key = sub_chars(v.as_slice(), pos, e);
                let val = sub_chars(v.as_slice(), e + 1, j);
                (string_from_chars(key.as_slice()), string_from_chars(val.as_slice()))
            } else {
                let key = sub_chars(v.as_slice(), pos, j);
                (string_from_chars(key.as_slice()), "true".to_owned())
            };
            let ghost before = pairs_view(out@);
            out.push(pair);
            assert(pairs_view(out@) =~= before.push(option_pair(part)));
        }
        if j == n {
            assert(k + 1 == all.len());
            assert(all.subrange(0, k + 1) =~= all);
            return out;
        }
        proof {
            assert(all.subrange(k + 1, all.len() as int) =~= all.subrange(k, all.len() as int).drop_first());
            k = k + 1;
        }
        pos = j + 1;
    }
}

/// One raw patch entry `file,offset`: the file and its offset (`None` when
/// the offset is neither `0x` hex nor decimal); anything but exactly two
/// comma-separated parts is malformed (`Err` holds the entry).
pub open spec fn raw_patch_entry(piece: Seq<char>) -> Result<(Seq<char>, Option<nat>), Seq<char>> {
    let parts = split(piece, ","@);
    if parts.len() == 2 {
        Ok(
            (
                parts[0],
                match hex_or_dec_spec(parts[1], u64::MAX as nat) {
                    Ok(v) => Some(v),
                    Err(_) => None,
                },
            ),
        )
    } else {
        Err(piece)
    }
}

/// The entries of the non-empty `;`-separated parts of a raw patch list.
pub open spec fn raw_patch_entries(parts: Seq<Seq<char>>) -> Seq<Result<(Seq<char>, Option<nat>), Seq<char>>>
    decreases parts.len(),
{
    if parts.len() == 0 {
        Seq::empty()
    } else {
        let prev = raw_patch_entries(parts.drop_last());
        if parts.last().len() == 0 {
            prev
        } else {
            prev.push(raw_patch_entry(parts.last()))
        }
    }
}

pub open spec fn raw_entry_view(e: Result<(String, Option<u64>), String>) -> Result<(Seq<char>, Option<nat>), Seq<char>> {
    match e {
        Ok((f, o)) => Ok(
            (
                f@,
                match o {
                    Some(v) => Some(v as nat),
                    None => None,
                },
            ),
        ),
        Err(p) => Err(p@),
    }
}

pub open spec fn raw_entries_view(v: Seq<Result<(String, Option<u64>), String>>) -> Seq<
    Result<(Seq<char>, Option<nat>), Seq<char>>,
> {
    v.map_values(|e: Result<(String, Option<u64>), String>| raw_entry_view(e))
}

/// The raw patch entry held in `v[a..b]` (see `raw_patch_entry`).
fn raw_entry_at(v: &[char], a: usize, b: usize) -> (r: Result<(String, Option<u64>), String>)
    requires
        a <= b <= v@.len(),
    ensures
        raw_entry_view(r) == raw_patch_entry(v@.subrange(a as int, b as int)),
{
    let comma = str_chars(",");
    proof {
        reveal_strlit(",");
    }
    let ghost piece = v@.subrange(a as int, b as int);
    let f = find_in(v, a, b, comma.as_slice());
    proof {
        crate::text::lemma_split_len(piece, ","@);
        lemma_split_step(v@, a as int, b as int, ","@, f as int);
    }
    if f == b {
        return Err(string_from_chars(sub_chars(v, a, b).as_slice()));
    }
    let f2 = find_in(v, f + 1, b, comma.as_slice());
    proof {
        crate::text::lemma_split_len(v@.subrange(f + 1, b as int), ","@);
        lemma_split_step(v@, f + 1, b as int, ","@, f2 as int);
    }
    if f2 != b {
        return Err(string_from_chars(sub_chars(v, a, b).as_slice()));
    }
    assert(split(piece, ","@) =~= seq![v@.subrange(a as int, f as int), v@.subrange(f + 1, b as int)]);
    let file = string_from_chars(sub_chars(v, a, f).as_slice());
    let off = sub_chars(v, f + 1, b);
    let offset = match hex_or_dec_chars(off.as_slice(), u64::MAX) {
        Ok(x) => Some(x),
        Err(_) => None,
    };
    Ok((file, offset))
}

/// Parses a `-8` raw patch list such as `patch.bin,0x1000;other.bin,64`.
pub fn parse_raw_patch_list(s: &str) -> (r: Vec<Result<(String, Option<u64>), String>>)
    ensures
        raw_entries_view(r@) == raw_patch_entries(split(s@, ";"@)),
{
    let v = str_chars(s);
    let semi = str_chars(";");
    proof {
        reveal_strlit(";");
    }
    let n = v.len();
    let mut out: Vec<Result<(String, Option<u64>), String>> = Vec::new();
    let mut pos: usize = 0;
    let ghost all = split(v@, ";"@);
    let ghost mut k: int = 0;
    assert(v@.subrange(0, n as int) =~= v@);
    assert(all.subrange(0, 0) =~= Seq::<Seq<char>>::empty());
    loop
        invariant
            pos <= n == v@.len(),
            v@ == s@,
            semi@ == ";"@,
            semi@.len() == 1,
            all == split(v@, ";"@),
            0 <= k <= all.len(),
            split(v@.subrange(pos as int, n as int), ";"@) == all.subrange(k, all.len() as int),
            raw_entries_view(out@) == raw_patch_entries(all.subrange(0, k)),
        decreases n - pos,
    {
        let j = find_in(v.as_slice(), pos, n, semi.as_slice());
        proof {
            crate::text::lemma_split_len(v@.subrange(pos as int, n as int), ";"@);
            lemma_split_step(v@, pos as int, n as int, ";"@, j as int);
            assert(all.subrange(k, all.len() as int)[0] == v@.subrange(pos as int, j as int));
            assert(all[k] == v@.subrange(pos as int, j as int));
            assert(all.subrange(0, k + 1).drop_last() =~= all.subrange(0, k));
            assert(all.subrange(0, k + 1).last() == all[k]);
        }
        if j > pos {
            let e = raw_entry_at(v.as_slice(), pos, j);
            let ghost before = raw_entries_view(out@);
            out.push(e);
            assert(raw_entries_view(out@) =~= before.push(raw_patch_entry(v@.subrange(pos as int, j as int))));
        }
        if j == n {
            assert(k + 1 == all.len());
            assert(all.subrange(0, k + 1) =~= all);
            return out;
        }
        proof {
            assert(all.subrange(k + 1, all.len() as int) =~= all.subrange(k, all.len() as int).drop_first());
            k = k + 1;
        }
        pos = j + 1;
    }
}

} // verus!
