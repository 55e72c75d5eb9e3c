//! Decisions of build asset discovery: the auto-patch files a build type
//! needs, the bootloader a file name stands for, how a candidate path is
//! resolved against a folder, and whether found data passes the INI's
//! checksum.

use vstd::prelude::*;
use crate::gxcore::data::filesearch::{
    crc32_hex, crc32_ieee, get_xebuild_crc32, hex_digits, starts_with, xebuild_crc32_spec, FilesearchError,
};
use crate::gxcore::data::nandsearch::opt_string_view;
use crate::gxcore::data::xeini::BuildIniEntry;
use crate::text::{
    find_from, find_in, push_text, range_eq, str_chars, string_from_chars, sub_chars, to_lowercase, to_uppercase,
    unicode_lowercase, unicode_uppercase,
};

verus! {

/// What a name is before its first `_` (the whole name when it has none).
pub open spec fn first_piece(name: Seq<char>) -> Seq<char> {
    name.subrange(0, find_from(name, "_"@, 0))
}

/// Platform of a build INI section name: its first piece, lower-cased.
pub open spec fn ini_platform(name: Seq<char>) -> Seq<char> {
    unicode_lowercase(first_piece(name))
}

/// The auto-patch files a build type looks for, in order of preference, with
/// the label its error names; `None` when it needs none; `Err` (the build
/// type) for an unknown build type.
pub open spec fn patch_plan_spec(buildtype: Seq<char>, platform: Seq<char>) -> Result<
    Option<(Seq<char>, Seq<Seq<char>>)>,
    Seq<char>,
> {
    if buildtype == "retail"@ || buildtype == "jtag"@ || buildtype == "1f"@ || buildtype == "2f"@ {
        Ok(None)
    } else if buildtype == "glitch1"@ {
        if platform == "trinity"@ || platform == "corona"@ {
            Ok(Some(("Glitch1"@, seq!["patches_trinity.bin"@])))
        } else if platform == "zephyr"@ || platform == "jasper"@ || platform == "falcon"@ {
            Ok(Some(("Glitch1"@, seq!["patches_fat.bin"@])))
        } else {
            Ok(None)
        }
    } else if buildtype == "glitch2"@ {
        Ok(Some(("Glitch2"@, seq!["patches_g2"@ + platform + ".bin"@])))
    } else if buildtype == "glitch2m"@ || buildtype == "devgl"@ || buildtype == "xdkbuild"@ {
        Ok(Some((buildtype, seq!["patches_g2m"@ + platform + ".bin"@])))
    } else if buildtype == "glitch3"@ {
        Ok(Some(("Glitch3"@, seq!["patches_g3"@ + platform + ".bin"@, "patches_g2"@ + platform + ".bin"@])))
    } else if buildtype == "devkit"@ {
        Ok(Some(("Devkit"@, seq!["patches_dev"@ + platform + ".bin"@])))
    } else if buildtype == "rgbuild"@ {
        Ok(Some(("RGBuild"@, seq!["patches_rg"@ + platform + ".bin"@])))
    } else {
        Err(buildtype)
    }
}

/// Auto-patch files to look for under `<build>/bin` (then `<build>/../bin`),
/// in order of preference.
pub struct PatchPlan {
    pub label: String,
    pub names: Vec<String>,
}

pub open spec fn names_of(v: Seq<String>) -> Seq<Seq<char>> {
    v.map_values(|s: String| s@)
}

fn text_eq(a: &[char], b: &str) -> (r: bool)
    ensures
        r == (a@ == b@),
{
    let bc = str_chars(b);
    assert(a@.subrange(0, a@.len() as int) =~= a@);
    range_eq(a, 0, a.len(), bc.as_slice())
}

fn patch_file(prefix: &str, platform: &[char]) -> (r: String)
    ensures
        r@ == prefix@ + platform@ + ".bin"@,
{
    let mut t: Vec<char> = Vec::new();
    push_text(&mut t, prefix);
    let mut p = sub_chars(platform, 0, platform.len());
    assert(platform@.subrange(0, platform@.len() as int) =~= platform@);
    t.append(&mut p);
    push_text(&mut t, ".bin");
    string_from_chars(t.as_slice())
}

/// The platform of a build INI section name (see `ini_platform`).
pub fn platform_of(name: &str) -> (r: Vec<char>)
    ensures
        r@ == ini_platform(name@),
{
    let v = str_chars(name);
    let us = str_chars("_");
    let j = find_in(v.as_slice(), 0, v.len(), us.as_slice());
    assert(v@.subrange(0, v@.len() as int) =~= v@);
    let head = sub_chars(v.as_slice(), 0, j);
    to_lowercase(head.as_slice())
}

/// The auto-patch plan of a build (see `patch_plan_spec`); an unknown build
/// type is a `BadBuildFormat` error.
pub fn auto_patch_plan(buildtype: &str, ini_name: &str) -> (r: Result<Option<PatchPlan>, FilesearchError>)
    ensures
        match patch_plan_spec(buildtype@, ini_platform(ini_name@)) {
            Ok(None) => r matches Ok(None),
            Ok(Some((label, names))) => r matches Ok(Some(p)) && p.label@ == label && names_of(p.names@) == names,
            Err(b) => r matches Err(FilesearchError::BadBuildFormat(s)) && s@ == b,
        },
{
    let b = str_chars(buildtype);
    let p = platform_of(ini_name);
    let bs = b.as_slice();
    if text_eq(bs, "retail") || text_eq(bs, "jtag") || text_eq(bs, "1f") || text_eq(bs, "2f") {
        Ok(None)
    } else if text_eq(bs, "glitch1") {
        let ps = p.as_slice();
        if text_eq(ps, "trinity") || text_eq(ps, "corona") {
            let names = vec!["patches_trinity.bin".to_owned()];
            assert(names_of(names@) =~= seq!["patches_trinity.bin"@]);
            Ok(Some(PatchPlan { label: "Glitch1".to_owned(), names }))
        } else if text_eq(ps, "zephyr") || text_eq(ps, "jasper") || text_eq(ps, "falcon") {
            let names = vec!["patches_fat.bin".to_owned()];
            assert(names_of(names@) =~= seq!["patches_fat.bin"@]);
            Ok(Some(PatchPlan { label: "Glitch1".to_owned(), names }))
        } else {
            Ok(None)
        }
    } else if text_eq(bs, "glitch2") {
        let names = vec![patch_file("patches_g2", p.as_slice())];
        assert(names_of(names@) =~= seq!["patches_g2"@ + p@ + ".bin"@]);
        Ok(Some(PatchPlan { label: "Glitch2".to_owned(), names }))
    } else if text_eq(bs, "glitch2m") || text_eq(bs, "devgl") || text_eq(bs, "xdkbuild") {
        let names = vec![patch_file("patches_g2m", p.as_slice())];
        assert(names_of(names@) =~= seq!["patches_g2m"@ + p@ + ".bin"@]);
        Ok(Some(PatchPlan { label: buildtype.to_owned(), names }))
    } else if text_eq(bs, "glitch3") {
        let names = vec![patch_file("patches_g3", p.as_slice()), patch_file("patches_g2", p.as_slice())];
        assert(names_of(names@) =~= seq!["patches_g3"@ + p@ + ".bin"@, "patches_g2"@ + p@ + ".bin"@]);
        Ok(Some(PatchPlan { label: "Glitch3".to_owned(), names }))
    } else if text_eq(bs, "devkit") {
        let names = vec![patch_file("patches_dev", p.as_slice())];
        assert(names_of(names@) =~= seq!["patches_dev"@ + p@ + ".bin"@]);
        Ok(Some(PatchPlan { label: "Devkit".to_owned(), names }))
    } else if text_eq(bs, "rgbuild") {
        let names = vec![patch_file("patches_rg", p.as_slice())];
        assert(names_of(names@) =~= seq!["patches_rg"@ + p@ + ".bin"@]);
        Ok(Some(PatchPlan { label: "RGBuild".to_owned(), names }))
    } else {
        Err(FilesearchError::BadBuildFormat(buildtype.to_owned()))
    }
}

impl PatchPlan {
    /// The error when no file of the plan exists: the label, the INI name and
    /// the first file's place under `<build>/bin`.
    pub fn missing(&self, ini_name: &str) -> (r: FilesearchError)
        requires
            self.names@.len() > 0,
        ensures
            r matches FilesearchError::NoAutoPatches(a, b, c) && a@ == self.label@ && b@ == ini_name@ && c@
                == "<build>/bin/"@ + self.names@[0]@,
    {
        let mut t: Vec<char> = Vec::new();
        push_text(&mut t, "<build>/bin/");
        push_text(&mut t, self.names[0].as_str());
        FilesearchError::NoAutoPatches(self.label.clone(), ini_name.to_owned(), string_from_chars(t.as_slice()))
    }
}

/// The bootloader (or update loader) a lower-cased file name stands for.
#[derive(Debug, Clone, Copy, PartialEq, Eq, Structural)]
pub enum BootloaderSlot {
    Cb,
    CbA,
    CbB,
    CbX,
    Cd,
    Ce,
    Sc,
    Cf0,
    Cg0,
}

pub open spec fn bootloader_slot_spec(n: Seq<char>) -> Option<BootloaderSlot> {
    if starts_with(n, "cb"@) {
        if starts_with(n, "cba"@) {
            Some(BootloaderSlot::CbA)
        } else if starts_with(n, "cbb"@) {
            Some(BootloaderSlot::CbB)
        } else if starts_with(n, "cbx"@) {
            Some(BootloaderSlot::CbX)
        } else {
            Some(BootloaderSlot::Cb)
        }
    } else if starts_with(n, "cd"@) || starts_with(n, "sd"@) {
        Some(BootloaderSlot::Cd)
    } else if starts_with(n, "ce"@) || starts_with(n, "se"@) {
        Some(BootloaderSlot::Ce)
    } else if starts_with(n, "sc"@) {
        Some(BootloaderSlot::Sc)
    } else if starts_with(n, "cf"@) || starts_with(n, "sf"@) {
        Some(BootloaderSlot::Cf0)
    } else if starts_with(n, "cg"@) || starts_with(n, "sg"@) {
        Some(BootloaderSlot::Cg0)
    } else {
        None
    }
}

/// The bootloader slot a (lower-cased) file name fills, by its first letters:
/// `cba`, `cbb` and `cbx` the CB_A, CB_B and CB_X slots, any other `cb` the CB
/// slot; `cd` or `sd` CD; `ce` or `se` CE; `sc` SC; `cf` or `sf` CF; `cg` or
/// `sg` CG; a name with none of these prefixes fills no slot.
pub proof fn lemma_bootloader_slot_by_prefix(n: Seq<char>)
    requires
        n.len() >= 3,
    ensures
        n[0] == 'c' && n[1] == 'b' && n[2] == 'a' ==> bootloader_slot_spec(n) == Some(BootloaderSlot::CbA),
        n[0] == 'c' && n[1] == 'b' && n[2] == 'b' ==> bootloader_slot_spec(n) == Some(BootloaderSlot::CbB),
        n[0] == 'c' && n[1] == 'b' && n[2] == 'x' ==> bootloader_slot_spec(n) == Some(BootloaderSlot::CbX),
        n[0] == 'c' && n[1] == 'b' && n[2] != 'a' && n[2] != 'b' && n[2] != 'x' ==> bootloader_slot_spec(n)
            == Some(BootloaderSlot::Cb),
        (n[0] == 'c' || n[0] == 's') && n[1] == 'd' ==> bootloader_slot_spec(n) == Some(BootloaderSlot::Cd),
        (n[0] == 'c' || n[0] == 's') && n[1] == 'e' ==> bootloader_slot_spec(n) == Some(BootloaderSlot::Ce),
        n[0] == 's' && n[1] == 'c' ==> bootloader_slot_spec(n) == Some(BootloaderSlot::Sc),
        (n[0] == 'c' || n[0] == 's') && n[1] == 'f' ==> bootloader_slot_spec(n) == Some(BootloaderSlot::Cf0),
        (n[0] == 'c' || n[0] == 's') && n[1] == 'g' ==> bootloader_slot_spec(n) == Some(BootloaderSlot::Cg0),
        !(n[0] == 'c' && n[1] == 'b') && !((n[0] == 'c' || n[0] == 's') && (n[1] == 'd' || n[1] == 'e' || n[1] == 'f'
            || n[1] == 'g')) && !(n[0] == 's' && n[1] == 'c') ==> bootloader_slot_spec(n) is None,
{
    reveal_strlit("cb");
    assert(starts_with(n, "cb"@) == (n[0] == 'c' && n[1] == 'b')) by {
        if n[0] == 'c' && n[1] == 'b' {
            assert(n.subrange(0, 2) =~= "cb"@);
        }
        if starts_with(n, "cb"@) {
            assert(n.subrange(0, 2)[0] == "cb"@[0]);
            assert(n.subrange(0, 2)[1] == "cb"@[1]);
        }
    }
    reveal_strlit("cba");
    assert(starts_with(n, "cba"@) == (n[0] == 'c' && n[1] == 'b' && n[2] == 'a')) by {
        if n[0] == 'c' && n[1] == 'b' && n[2] == 'a' {
            assert(n.subrange(0, 3) =~= "cba"@);
        }
        if starts_with(n, "cba"@) {
            assert(n.subrange(0, 3)[0] == "cba"@[0]);
            assert(n.subrange(0, 3)[1] == "cba"@[1]);
            assert(n.subrange(0, 3)[2] == "cba"@[2]);
        }
    }
    reveal_strlit("cbb");
    assert(starts_with(n, "cbb"@) == (n[0] == 'c' && n[1] == 'b' && n[2] == 'b')) by {
        if n[0] == 'c' && n[1] == 'b' && n[2] == 'b' {
            assert(n.subrange(0, 3) =~= "cbb"@);
        }
        if starts_with(n, "cbb"@) {
            assert(n.subrange(0, 3)[0] == "cbb"@[0]);
            assert(n.subrange(0, 3)[1] == "cbb"@[1]);
            assert(n.subrange(0, 3)[2] == "cbb"@[2]);
        }
    }
    reveal_strlit("cbx");
    assert(starts_with(n, "cbx"@) == (n[0] == 'c' && n[1] == 'b' && n[2] == 'x')) by {
        if n[0] == 'c' && n[1] == 'b' && n[2] == 'x' {
            assert(n.subrange(0, 3) =~= "cbx"@);
        }
        if starts_with(n, "cbx"@) {
            assert(n.subrange(0, 3)[0] == "cbx"@[0]);
            assert(n.subrange(0, 3)[1] == "cbx"@[1]);
            assert(n.subrange(0, 3)[2] == "cbx"@[2]);
        }
    }
    reveal_strlit("cd");
    assert(starts_with(n, "cd"@) == (n[0] == 'c' && n[1] == 'd')) by {
        if n[0] == 'c' && n[1] == 'd' {
            assert(n.subrange(0, 2) =~= "cd"@);
        }
        if starts_with(n, "cd"@) {
            assert(n.subrange(0, 2)[0] == "cd"@[0]);
            assert(n.subrange(0, 2)[1] == "cd"@[1]);
        }
    }
    reveal_strlit("sd");
    assert(starts_with(n, "sd"@) == (n[0] == 's' && n[1] == 'd')) by {
        if n[0] == 's' && n[1] == 'd' {
            assert(n.subrange(0, 2) =~= "sd"@);
        }
        if starts_with(n, "sd"@) {
            assert(n.subrange(0, 2)[0] == "sd"@[0]);
            assert(n.subrange(0, 2)[1] == "sd"@[1]);
        }
    }
    reveal_strlit("ce");
    assert(starts_with(n, "ce"@) == (n[0] == 'c' && n[1] == 'e')) by {
        if n[0] == 'c' && n[1] == 'e' {
            assert(n.subrange(0, 2) =~= "ce"@);
        }
        if starts_with(n, "ce"@) {
            assert(n.subrange(0, 2)[0] == "ce"@[0]);
            assert(n.subrange(0, 2)[1] == "ce"@[1]);
        }
    }
    reveal_strlit("se");
    assert(starts_with(n, "se"@) == (n[0] == 's' && n[1] == 'e')) by {
        if n[0] == 's' && n[1] == 'e' {
            assert(n.subrange(0, 2) =~= "se"@);
        }
        if starts_with(n, "se"@) {
            assert(n.subrange(0, 2)[0] == "se"@[0]);
            assert(n.subrange(0, 2)[1] == "se"@[1]);
        }
    }
    reveal_strlit("sc");
    assert(starts_with(n, "sc"@) == (n[0] == 's' && n[1] == 'c')) by {
        if n[0] == 's' && n[1] == 'c' {
            assert(n.subrange(0, 2) =~= "sc"@);
        }
        if starts_with(n, "sc"@) {
            assert(n.subrange(0, 2)[0] == "sc"@[0]);
            assert(n.subrange(0, 2)[1] == "sc"@[1]);
        }
    }
    reveal_strlit("cf");
    assert(starts_with(n, "cf"@) == (n[0] == 'c' && n[1] == 'f')) by {
        if n[0] == 'c' && n[1] == 'f' {
            assert(n.subrange(0, 2) =~= "cf"@);
        }
        if starts_with(n, "cf"@) {
            assert(n.subrange(0, 2)[0] == "cf"@[0]);
            assert(n.subrange(0, 2)[1] == "cf"@[1]);
        }
    }
    reveal_strlit("sf");
    assert(starts_with(n, "sf"@) == (n[0] == 's' && n[1] == 'f')) by {
        if n[0] == 's' && n[1] == 'f' {
            assert(n.subrange(0, 2) =~= "sf"@);
        }
        if starts_with(n, "sf"@) {
            assert(n.subrange(0, 2)[0] == "sf"@[0]);
            assert(n.subrange(0, 2)[1] == "sf"@[1]);
        }
    }
    reveal_strlit("cg");
    assert(starts_with(n, "cg"@) == (n[0] == 'c' && n[1] == 'g')) by {
        if n[0] == 'c' && n[1] == 'g' {
            assert(n.subrange(0, 2) =~= "cg"@);
        }
        if starts_with(n, "cg"@) {
            assert(n.subrange(0, 2)[0] == "cg"@[0]);
            assert(n.subrange(0, 2)[1] == "cg"@[1]);
        }
    }
    reveal_strlit("sg");
    assert(starts_with(n, "sg"@) == (n[0] == 's' && n[1] == 'g')) by {
        if n[0] == 's' && n[1] == 'g' {
            assert(n.subrange(0, 2) =~= "sg"@);
        }
        if starts_with(n, "sg"@) {
            assert(n.subrange(0, 2)[0] == "sg"@[0]);
            assert(n.subrange(0, 2)[1] == "sg"@[1]);
        }
    }
}

fn has_prefix(n: &[char], p: &str) -> (r: bool)
    ensures
        r == starts_with(n@, p@),
{
    let pc = str_chars(p);
    if pc.len() > n.len() {
        return false;
    }
    range_eq(n, 0, pc.len(), pc.as_slice())
}

/// The bootloader slot of a lower-cased file name (see `bootloader_slot_spec`).
pub fn bootloader_slot(lower: &str) -> (r: Option<BootloaderSlot>)
    ensures
        r == bootloader_slot_spec(lower@),
{
    let n = str_chars(lower);
    let s = n.as_slice();
    if has_prefix(s, "cb") {
        if has_prefix(s, "cba") {
            Some(BootloaderSlot::CbA)
        } else if has_prefix(s, "cbb") {
            Some(BootloaderSlot::CbB)
        } else if has_prefix(s, "cbx") {
            Some(BootloaderSlot::CbX)
        } else {
            Some(BootloaderSlot::Cb)
        }
    } else if has_prefix(s, "cd") || has_prefix(s, "sd") {
        Some(BootloaderSlot::Cd)
    } else if has_prefix(s, "ce") || has_prefix(s, "se") {
        Some(BootloaderSlot::Ce)
    } else if has_prefix(s, "sc") {
        Some(BootloaderSlot::Sc)
    } else if has_prefix(s, "cf") || has_prefix(s, "sf") {
        Some(BootloaderSlot::Cf0)
    } else if has_prefix(s, "cg") || has_prefix(s, "sg") {
        Some(BootloaderSlot::Cg0)
    } else {
        None
    }
}

/// Update loaders (CF/CG, or SF/SG) are looked for in `xboxupd.bin` and
/// system update packages too.
pub open spec fn is_update_name_spec(n: Seq<char>) -> bool {
    starts_with(n, "cf_"@) || starts_with(n, "sf_"@) || starts_with(n, "cg_"@) || starts_with(n, "sg_"@)
}

pub fn is_update_name(lower: &str) -> (r: bool)
    ensures
        r == is_update_name_spec(lower@),
{
    let n = str_chars(lower);
    let s = n.as_slice();
    has_prefix(s, "cf_") || has_prefix(s, "sf_") || has_prefix(s, "cg_") || has_prefix(s, "sg_")
}

/// The names under which a build stores the update loaders, and the CB the
/// auto patch applies to, from the INI's bootloader files (lower-cased): the
/// last CF/SF and CG/SG named (`cf_0.bin`, `cg_0.bin` when none), the last
/// `cbb_` file, else the first `cb_`/`sb_` file.
pub open spec fn chain_names_spec(names: Seq<Seq<char>>) -> (Seq<char>, Seq<char>, Option<Seq<char>>)
    decreases names.len(),
{
    if names.len() == 0 {
        ("cf_0.bin"@, "cg_0.bin"@, None)
    } else {
        let prev = chain_names_spec(names.drop_last());
        let l = names.last();
        let cf = if starts_with(l, "cf_"@) || starts_with(l, "sf_"@) {
            l
        } else {
            prev.0
        };
        let cg = if !(starts_with(l, "cf_"@) || starts_with(l, "sf_"@)) && (starts_with(l, "cg_"@) || starts_with(
            l,
            "sg_"@,
        )) {
            l
        } else {
            prev.1
        };
        let cb = if starts_with(l, "cbb_"@) {
            Some(l)
        } else if prev.2 is None && (starts_with(l, "cb_"@) || starts_with(l, "sb_"@)) {
            Some(l)
        } else {
            prev.2
        };
        (cf, cg, cb)
    }
}

pub open spec fn lower_names(main: Seq<BuildIniEntry>) -> Seq<Seq<char>> {
    main.map_values(|e: BuildIniEntry| unicode_lowercase(e.filename@))
}

pub open spec fn opt_view(o: Option<String>) -> Option<Seq<char>> {
    match o {
        Some(s) => Some(s@),
        None => None,
    }
}

/// The update loader names and the auto-patched CB of a build (see
/// `chain_names_spec`).
pub fn chain_names(main: &Vec<BuildIniEntry>) -> (r: (String, String, Option<String>))
    ensures
        (r.0@, r.1@, opt_view(r.2)) == chain_names_spec(lower_names(main@)),
{
    let mut cf = "cf_0.bin".to_owned();
    let mut cg = "cg_0.bin".to_owned();
    let mut cb: Option<String> = None;
    let n = main.len();
    let mut i: usize = 0;
    assert(lower_names(main@).subrange(0, 0) =~= Seq::<Seq<char>>::empty());
    while i < n
        invariant
            i <= n == main@.len(),
            (cf@, cg@, opt_view(cb)) == chain_names_spec(lower_names(main@).subrange(0, i as int)),
        decreases n - i,
    {
        let fc = str_chars(main[i].filename.as_str());
        let lc = to_lowercase(fc.as_slice());
        let l = lc.as_slice();
        proof {
            let s = lower_names(main@).subrange(0, i + 1);
            assert(s.drop_last() =~= lower_names(main@).subrange(0, i as int));
            assert(s.last() == lc@);
        }
        let is_cf = has_prefix(l, "cf_") || has_prefix(l, "sf_");
        if is_cf {
            cf = string_from_chars(l);
        } else if has_prefix(l, "cg_") || has_prefix(l, "sg_") {
            cg = string_from_chars(l);
        }
        if has_prefix(l, "cbb_") {
            cb = Some(string_from_chars(l));
        } else if cb.is_none() && (has_prefix(l, "cb_") || has_prefix(l, "sb_")) {
            cb = Some(string_from_chars(l));
        }
        i += 1;
    }
    assert(lower_names(main@).subrange(0, n as int) =~= lower_names(main@));
    (cf, cg, cb)
}

/// Which section of the auto patch applies to a found bootloader file.
#[derive(Debug, Clone, Copy, PartialEq, Eq, Structural)]
pub enum PatchTarget {
    /// The CB patch (or, without one, the CB_B patch).
    Cb,
    /// The CD patch.
    Cd,
    Unpatched,
}

pub open spec fn patch_target_spec(lower: Seq<char>, target_cb: Option<Seq<char>>) -> PatchTarget {
    if target_cb == Some(lower) {
        PatchTarget::Cb
    } else if starts_with(lower, "cd_"@) || starts_with(lower, "sd_"@) {
        PatchTarget::Cd
    } else {
        PatchTarget::Unpatched
    }
}

pub fn patch_target(lower: &String, target_cb: &Option<String>) -> (r: PatchTarget)
    ensures
        r == patch_target_spec(lower@, opt_view(*target_cb)),
{
    let is_cb = match target_cb {
        Some(t) => t.eq(lower),
        None => false,
    };
    if is_cb {
        return PatchTarget::Cb;
    }
    let n = str_chars(lower.as_str());
    if has_prefix(n.as_slice(), "cd_") || has_prefix(n.as_slice(), "sd_") {
        PatchTarget::Cd
    } else {
        PatchTarget::Unpatched
    }
}

/// A file of a system update package holds the update loaders when it is
/// `xboxupd.bin` or a `su…` name without a dot; any other file is a FlashFS
/// asset.
pub open spec fn is_update_container_spec(lower: Seq<char>) -> bool {
    lower == "xboxupd.bin"@ || (starts_with(lower, "su"@) && !lower.contains('.'))
}

pub fn is_update_container(lower: &str) -> (r: bool)
    ensures
        r == is_update_container_spec(lower@),
{
    let n = str_chars(lower);
    if text_eq(n.as_slice(), "xboxupd.bin") {
        return true;
    }
    if !has_prefix(n.as_slice(), "su") {
        return false;
    }
    let mut i: usize = 0;
    while i < n.len()
        invariant
            i <= n@.len(),
            n@ == lower@,
            lower@ != "xboxupd.bin"@,
            starts_with(lower@, "su"@),
            forall|q: int| 0 <= q < i ==> n@[q] != '.',
        decreases n@.len() - i,
    {
        if n[i] == '.' {
            assert(n@[i as int] == '.');
            assert(lower@.contains('.'));
            return false;
        }
        i += 1;
    }
    true
}

/// What to do to a folder path for one piece of a candidate file name.
#[derive(Debug, Clone, PartialEq, Eq)]
pub enum PathStep {
    /// Go to the parent folder.
    Pop,
    /// Go into (or name) this component.
    Push(String),
}

/// The pieces of a file name between `/` and `\` separators (an empty name
/// and empty pieces included).
pub open spec fn path_pieces(s: Seq<char>) -> Seq<Seq<char>>
    decreases s.len(),
{
    if s.len() == 0 {
        seq![Seq::empty()]
    } else {
        let prev = path_pieces(s.drop_last());
        let c = s.last();
        if c == '/' || c == '\\' {
            prev.push(Seq::empty())
        } else {
            prev.update(prev.len() - 1, prev.last().push(c))
        }
    }
}

proof fn lemma_path_pieces_nonempty(s: Seq<char>)
    ensures
        path_pieces(s).len() >= 1,
    decreases s.len(),
{
    if s.len() > 0 {
        lemma_path_pieces_nonempty(s.drop_last());
    }
}

/// Steps for pieces: `..` goes up, `.` and empty pieces are skipped, any
/// other piece is pushed.
pub open spec fn path_steps_spec(pieces: Seq<Seq<char>>) -> Seq<Option<Seq<char>>>
    decreases pieces.len(),
{
    if pieces.len() == 0 {
        Seq::empty()
    } else {
        let prev = path_steps_spec(pieces.drop_last());
        let p = pieces.last();
        if p == ".."@ {
            prev.push(None)
        } else if p == "."@ || p.len() == 0 {
            prev
        } else {
            prev.push(Some(p))
        }
    }
}

pub open spec fn step_view(s: PathStep) -> Option<Seq<char>> {
    match s {
        PathStep::Pop => None,
        PathStep::Push(c) => Some(c@),
    }
}

pub open spec fn steps_view(v: Seq<PathStep>) -> Seq<Option<Seq<char>>> {
    v.map_values(|s: PathStep| step_view(s))
}

fn piece_step(out: &mut Vec<PathStep>, piece: &[char])
    ensures
        steps_view(final(out)@) == (if piece@ == ".."@ {
            steps_view(old(out)@).push(None)
        } else if piece@ == "."@ || piece@.len() == 0 {
            steps_view(old(out)@)
        } else {
            steps_view(old(out)@).push(Some(piece@))
        }),
{
    if text_eq(piece, "..") {
        out.push(PathStep::Pop);
        assert(steps_view(out@) =~= steps_view(old(out)@).push(None));
    } else if text_eq(piece, ".") || piece.len() == 0 {
    } else {
        out.push(PathStep::Push(string_from_chars(piece)));
        assert(steps_view(out@) =~= steps_view(old(out)@).push(Some(piece@)));
    }
}

/// How a candidate file name is resolved against a folder (split at `/` and
/// `\`; `..` goes to the parent, `.` and empty pieces are skipped).
pub fn path_steps(cand: &str) -> (r: Vec<PathStep>)
    ensures
        steps_view(r@) == path_steps_spec(path_pieces(cand@)),
{
    let v = str_chars(cand);
    let n = v.len();
    let mut out: Vec<PathStep> = Vec::new();
    let mut cur: Vec<char> = Vec::new();
    let mut i: usize = 0;
    assert(v@.subrange(0, 0) =~= Seq::<char>::empty());
    while i < n
        invariant
            i <= n == v@.len(),
            path_pieces(v@.subrange(0, i as int)).len() >= 1,
            cur@ == path_pieces(v@.subrange(0, i as int)).last(),
            steps_view(out@) == path_steps_spec(path_pieces(v@.subrange(0, i as int)).drop_last()),
        decreases n - i,
    {
        let ghost pre = v@.subrange(0, i as int);
        let ghost pp = path_pieces(pre);
        let c = v[i];
        assert(v@.subrange(0, i + 1).drop_last() =~= pre);
        assert(v@.subrange(0, i + 1).last() == c);
        if c == '/' || c == '\\' {
            piece_step(&mut out, cur.as_slice());
            proof {
                let np = pp.push(Seq::empty());
                assert(np.drop_last() =~= pp);
                assert(pp.drop_last().push(pp.last()) =~= pp);
            }
            cur = Vec::new();
        } else {
            cur.push(c);
            proof {
                let np = pp.update(pp.len() - 1, pp.last().push(c));
                assert(np.drop_last() =~= pp.drop_last());
            }
        }
        proof {
            lemma_path_pieces_nonempty(v@.subrange(0, i + 1));
        }
        i += 1;
    }
    piece_step(&mut out, cur.as_slice());
    proof {
        let pp = path_pieces(v@.subrange(0, n as int));
        assert(v@.subrange(0, n as int) =~= v@);
        assert(pp.drop_last().push(pp.last()) =~= pp);
    }
    out
}

/// Whether data found in a discovery tier is taken.
#[derive(Debug, Clone, Copy, PartialEq, Eq, Structural)]
pub enum TierVerdict {
    /// No checksum is expected, or the data has it.
    Accept,
    /// The checksum differs but unsafe mode takes the data anyway.
    AcceptUnsafe,
    /// The checksum differs.
    Mismatch,
}

pub open spec fn tier_verdict_spec(actual: Seq<char>, expected: Option<Seq<char>>, unsafe_mode: bool) -> TierVerdict {
    match expected {
        None => TierVerdict::Accept,
        Some(e) => if unicode_lowercase(actual) == unicode_lowercase(e) {
            TierVerdict::Accept
        } else if unsafe_mode {
            TierVerdict::AcceptUnsafe
        } else {
            TierVerdict::Mismatch
        },
    }
}

fn verdict(actual: &String, expected: &String, unsafe_mode: bool) -> (r: TierVerdict)
    ensures
        r == tier_verdict_spec(actual@, Some(expected@), unsafe_mode),
{
    let a = str_chars(actual.as_str());
    let e = str_chars(expected.as_str());
    let al = to_lowercase(a.as_slice());
    let el = to_lowercase(e.as_slice());
    assert(al@.subrange(0, al@.len() as int) =~= al@);
    if range_eq(al.as_slice(), 0, al.len(), el.as_slice()) {
        TierVerdict::Accept
    } else if unsafe_mode {
        TierVerdict::AcceptUnsafe
    } else {
        TierVerdict::Mismatch
    }
}

/// Checks data against an expected plain CRC32 (security files, FlashFS).
pub fn crc_tier_check(data: &[u8], expected: &Option<String>, unsafe_mode: bool) -> (r: TierVerdict)
    ensures
        r == tier_verdict_spec(hex_digits(crc32_ieee(data@), 8), opt_string_view(*expected), unsafe_mode),
{
    match expected {
        None => TierVerdict::Accept,
        Some(e) => {
            let actual = crc32_hex(data);
            verdict(&actual, e, unsafe_mode)
        },
    }
}

/// The candidates' bytes.
pub open spec fn candidates_view(c: Seq<Vec<u8>>) -> Seq<Seq<u8>> {
    c.map_values(|v: Vec<u8>| v@)
}

/// Index of the first candidate, from `i` on, that the plain CRC32 check
/// takes (see `crc_tier_check`), or -1 when none does.
pub open spec fn first_accepted(cands: Seq<Seq<u8>>, expected: Option<Seq<char>>, unsafe_mode: bool, i: int) -> int
    decreases cands.len() - i,
{
    if i < 0 || i >= cands.len() {
        -1
    } else if !(tier_verdict_spec(hex_digits(crc32_ieee(cands[i]), 8), expected, unsafe_mode) is Mismatch) {
        i
    } else {
        first_accepted(cands, expected, unsafe_mode, i + 1)
    }
}

/// Picks a FlashFS file among the copies found for it: the first whose CRC32
/// the INI's expected value accepts (any copy when none is expected, and a
/// mismatching one in unsafe mode); none when no copy passes.
pub fn select_flashfs_candidate(candidates: &[Vec<u8>], _filename: &str, expected: &Option<String>, unsafe_mode: bool) -> (r:
    Option<Vec<u8>>)
    ensures
        ({
            let f = first_accepted(candidates_view(candidates@), opt_string_view(*expected), unsafe_mode, 0);
            &&& f == -1 ==> r is None
            &&& f >= 0 ==> (r matches Some(v) && v@ == candidates@[f]@)
        }),
{
    let ghost cv = candidates_view(candidates@);
    let ghost ev = opt_string_view(*expected);
    let mut i: usize = 0;
    while i < candidates.len()
        invariant
            i <= candidates@.len(),
            cv == candidates_view(candidates@),
            ev == opt_string_view(*expected),
            first_accepted(cv, ev, unsafe_mode, 0) == first_accepted(cv, ev, unsafe_mode, i as int),
        decreases candidates@.len() - i,
    {
        let c = &candidates[i];
        assert(cv[i as int] == c@);
        let v = crc_tier_check(c.as_slice(), expected, unsafe_mode);
        if v != TierVerdict::Mismatch {
            return Some(crate::gxcore::images::blocks::slice_to_vec(c.as_slice(), 0, c.len()));
        }
        i += 1;
    }
    None
}

/// Checks a bootloader or payload against an expected xeBuild checksum.
pub fn xebuild_tier_check(data: &[u8], filename: &str, expected: &Option<String>, unsafe_mode: bool) -> (r:
    TierVerdict)
    ensures
        r == tier_verdict_spec(xebuild_crc32_spec(data@, filename@), opt_string_view(*expected), unsafe_mode),
{
    match expected {
        None => TierVerdict::Accept,
        Some(e) => {
            let actual = get_xebuild_crc32(data, filename);
            verdict(&actual, e, unsafe_mode)
        },
    }
}

/// The platform a clean SMC is named after: the INI name's first piece
/// without a trailing `bl`, upper-cased.
pub open spec fn smc_platform_spec(name: Seq<char>) -> Seq<char> {
    let b = first_piece(name);
    unicode_uppercase(
        if b.len() >= 2 && b.subrange(b.len() - 2, b.len() as int) == "bl"@ {
            b.subrange(0, b.len() - 2)
        } else {
            b
        },
    )
}

/// The clean SMC a build falls back on: the platform (see
/// `smc_platform_spec`) and the file `<PLATFORM>_CLEAN.bin`.
pub fn smc_clean_file(ini_name: &str) -> (r: (String, String))
    ensures
        r.0@ == smc_platform_spec(ini_name@),
        r.1@ == smc_platform_spec(ini_name@) + "_CLEAN.bin"@,
{
    let v = str_chars(ini_name);
    let us = str_chars("_");
    let j = find_in(v.as_slice(), 0, v.len(), us.as_slice());
    assert(v@.subrange(0, v@.len() as int) =~= v@);
    let bl = str_chars("bl");
    let base_end = if j >= 2 && range_eq(v.as_slice(), j - 2, j, bl.as_slice()) {
        j - 2
    } else {
        j
    };
    proof {
        let b = v@.subrange(0, j as int);
        if j >= 2 {
            assert(b.subrange(b.len() - 2, b.len() as int) =~= v@.subrange(j - 2, j as int));
            assert(b.subrange(0, b.len() - 2) =~= v@.subrange(0, j - 2));
        }
    }
    let base = sub_chars(v.as_slice(), 0, base_end);
    let upper = to_uppercase(base.as_slice());
    let platform = string_from_chars(upper.as_slice());
    let mut t = to_uppercase(base.as_slice());
    push_text(&mut t, "_CLEAN.bin");
    (platform, string_from_chars(t.as_slice()))
}

} // verus!
