//! xeBuild build INI: `[section]` headers and comma-separated rows naming the
//! bootloaders, security files, FlashFS files and payloads of a build, plus
//! JTAG settings.

use vstd::prelude::*;
use crate::gxcore::data::filesearch::starts_with;
use crate::gxcore::data::gxp::PatchRecord;
use crate::gxcore::data::optini::{is_section_header, is_skipped_line, text_lines};
use crate::gxcore::session::ExPathBuf;
use crate::text::{
    find_from, find_in, lemma_split_len, lemma_split_step, push_text, range_eq, split, str_chars, string_from_chars,
    sub_chars, to_lowercase, trim, trim_end_char, trim_end_char_range, trim_range, unicode_lowercase,
};
use std::path::PathBuf;

verus! {

#[derive(Debug)]
pub enum IniError {
    SectionNotFound(String),
    FileNotFound(String),
    HashMismatch(String, String, String),
    NoVersion(),
    BadOptionsFormat(),
    BadBuildFormat(String),
    RebooterNotInitialized,
    RebooterUpdateNotInitialized,
    BootloaderError(String),
    NoAutoPatches(String, String, String),
    NoSecurityFiles,
    NoFlashFSFiles,
    NoPatches,
}

/// The text each error displays.
pub open spec fn ini_error_text(e: IniError) -> Seq<char> {
    match e {
        IniError::SectionNotFound(s) => "[ini] Ini section not found: "@ + s@,
        IniError::FileNotFound(s) => "[ini] File not found: "@ + s@,
        IniError::HashMismatch(f, x, g) => "[ini] INI CRC32 mismatch for "@ + f@ + ": expected "@ + x@ + ", got "@
            + g@,
        IniError::NoVersion() => "[ini] No version string in INI"@,
        IniError::BadOptionsFormat() => "[ini] Incorrect formatting in options.ini"@,
        IniError::BadBuildFormat(s) => "[ini] Incorrect formatting in "@ + s@,
        IniError::RebooterNotInitialized =>
            "[ini] Rebooter bootloader chain requested in INI but not initialized in NAND skeleton"@,
        IniError::RebooterUpdateNotInitialized =>
            "[ini] Rebooter update chain requested in INI but not initialized in NAND skeleton"@,
        IniError::BootloaderError(s) => "[ini] Bootloader parse error: "@ + s@,
        IniError::NoAutoPatches(a, b, c) => "[ini] "@ + a@ + " Patches for platform "@ + b@ + " not found at path "@
            + c@,
        IniError::NoSecurityFiles => "[ini] No security files found in INI"@,
        IniError::NoFlashFSFiles => "[ini] No FlashFS files found in INI"@,
        IniError::NoPatches => "[ini] No patches found in INI"@,
    }
}

impl IniError {
    /// Text of the error (see `ini_error_text`).
    pub fn message(&self) -> (r: String)
        ensures
            r@ == ini_error_text(*self),
    {
        let mut t: Vec<char> = Vec::new();
        match self {
            IniError::SectionNotFound(s) => {
                push_text(&mut t, "[ini] Ini section not found: ");
                push_text(&mut t, s.as_str());
            },
            IniError::FileNotFound(s) => {
                push_text(&mut t, "[ini] File not found: ");
                push_text(&mut t, s.as_str());
            },
            IniError::HashMismatch(f, x, g) => {
                push_text(&mut t, "[ini] INI CRC32 mismatch for ");
                push_text(&mut t, f.as_str());
                push_text(&mut t, ": expected ");
                push_text(&mut t, x.as_str());
                push_text(&mut t, ", got ");
                push_text(&mut t, g.as_str());
            },
            IniError::NoVersion() => push_text(&mut t, "[ini] No version string in INI"),
            IniError::BadOptionsFormat() => push_text(&mut t, "[ini] Incorrect formatting in options.ini"),
            IniError::BadBuildFormat(s) => {
                push_text(&mut t, "[ini] Incorrect formatting in ");
                push_text(&mut t, s.as_str());
            },
            IniError::RebooterNotInitialized => push_text(
                &mut t,
                "[ini] Rebooter bootloader chain requested in INI but not initialized in NAND skeleton",
            ),
            IniError::RebooterUpdateNotInitialized => push_text(
                &mut t,
                "[ini] Rebooter update chain requested in INI but not initialized in NAND skeleton",
            ),
            IniError::BootloaderError(s) => {
                push_text(&mut t, "[ini] Bootloader parse error: ");
                push_text(&mut t, s.as_str());
            },
            IniError::NoAutoPatches(a, b, c) => {
                push_text(&mut t, "[ini] ");
                push_text(&mut t, a.as_str());
                push_text(&mut t, " Patches for platform ");
                push_text(&mut t, b.as_str());
                push_text(&mut t, " not found at path ");
                push_text(&mut t, c.as_str());
            },
            IniError::NoSecurityFiles => push_text(&mut t, "[ini] No security files found in INI"),
            IniError::NoFlashFSFiles => push_text(&mut t, "[ini] No FlashFS files found in INI"),
            IniError::NoPatches => push_text(&mut t, "[ini] No patches found in INI"),
        }
        string_from_chars(t.as_slice())
    }
}

#[derive(Debug, Clone)]
pub struct BuildIniEntry {
    pub filename: String,
    pub hash: Option<String>,
    pub chain: u8,
}

pub open spec fn opt_text(o: Option<String>) -> Option<Seq<char>> {
    match o {
        Some(s) => Some(s@),
        None => None,
    }
}

impl View for BuildIniEntry {
    type V = (Seq<char>, Option<Seq<char>>, u8);

    open spec fn view(&self) -> (Seq<char>, Option<Seq<char>>, u8) {
        (self.filename@, opt_text(self.hash), self.chain)
    }
}

pub open spec fn entries_view(v: Seq<BuildIniEntry>) -> Seq<(Seq<char>, Option<Seq<char>>, u8)> {
    v.map_values(|e: BuildIniEntry| e@)
}

#[derive(Debug, Clone, Copy, Default)]
pub struct JtagConfig {
    pub syscall: Option<u16>,
    pub pairing_2bl: Option<[u8; 3]>,
}

#[derive(Debug, Clone)]
pub struct BuildIniPatch {
    pub enabled: bool,
    pub path: Option<PathBuf>,
    pub khv: Option<Vec<PatchRecord>>,
}

#[derive(Debug, Clone)]
pub struct XeBuildIni {
    pub name: String,
    pub buildtype: String,
    pub main: Vec<BuildIniEntry>,
    pub security: Vec<BuildIniEntry>,
    pub flashfs: Vec<BuildIniEntry>,
    pub payloads: Vec<BuildIniEntry>,
    pub patch: BuildIniPatch,
    pub rebooter: bool,
    pub jtag: JtagConfig,
}

/// `str::rsplit` on `\` and `/`, first piece: what follows the last separator.
pub open spec fn last_component(s: Seq<char>) -> Seq<char>
    decreases s.len(),
{
    if s.len() == 0 {
        s
    } else if s.last() == '\\' || s.last() == '/' {
        Seq::empty()
    } else {
        last_component(s.drop_last()).push(s.last())
    }
}

/// Strips leading relative-path indicators (`..\`, `../`, `.\`, `./`) and any
/// directory components from a FlashFS asset name: the trimmed name's last
/// path component.
pub fn strip_flashfs_path_indicator(name: &str) -> (r: String)
    ensures
        r@ == last_component(trim(name@)),
{
    let v = str_chars(name);
    let (a, b) = trim_range(v.as_slice(), 0, v.len());
    assert(v@.subrange(0, v@.len() as int) =~= v@);
    let mut i = b;
    while i > a && v[i - 1] != '\\' && v[i - 1] != '/'
        invariant
            a <= i <= b <= v@.len(),
            last_component(v@.subrange(a as int, b as int)) == last_component(v@.subrange(a as int, i as int))
                + v@.subrange(i as int, b as int),
        decreases i - a,
    {
        assert(v@.subrange(a as int, i as int).drop_last() =~= v@.subrange(a as int, i - 1));
        assert(v@.subrange(i - 1, b as int) =~= seq![v@[i - 1]] + v@.subrange(i as int, b as int));
        assert(last_component(v@.subrange(a as int, i as int)) == last_component(v@.subrange(a as int, i - 1)).push(
            v@[i - 1],
        ));
        assert(last_component(v@.subrange(a as int, i - 1)).push(v@[i - 1]) + v@.subrange(i as int, b as int)
            =~= last_component(v@.subrange(a as int, i - 1)) + v@.subrange(i - 1, b as int));
        i -= 1;
    }
    assert(last_component(v@.subrange(a as int, i as int)) =~= Seq::<char>::empty());
    assert(Seq::<char>::empty() + v@.subrange(i as int, b as int) =~= v@.subrange(i as int, b as int));
    let out = sub_chars(v.as_slice(), i, b);
    string_from_chars(out.as_slice())
}

/// A data row: the comma-separated parts of a line, each stripped of trailing
/// `;` and trimmed.
pub open spec fn ini_row(t: Seq<char>) -> Seq<Seq<char>> {
    split(t, ","@).map_values(|p: Seq<char>| trim(trim_end_char(p, ';')))
}

/// Current section (lower-cased) and the rows read so far, each tagged with its
/// section, after the first `n` lines. Rows before any section are dropped.
pub open spec fn ini_scan(lines: Seq<Seq<char>>, n: int) -> (Seq<char>, Seq<(Seq<char>, Seq<Seq<char>>)>)
    decreases n,
{
    if n <= 0 {
        (Seq::empty(), Seq::empty())
    } else {
        let prev = ini_scan(lines, n - 1);
        let t = trim(lines[n - 1]);
        if is_skipped_line(t) {
            prev
        } else if is_section_header(t) {
            (unicode_lowercase(t.subrange(1, t.len() - 1)), prev.1)
        } else if prev.0.len() > 0 {
            (prev.0, prev.1.push((prev.0, ini_row(t))))
        } else {
            prev
        }
    }
}

/// Rows of section `name`, in order.
pub open spec fn rows_in(rows: Seq<(Seq<char>, Seq<Seq<char>>)>, name: Seq<char>) -> Seq<Seq<Seq<char>>>
    decreases rows.len(),
{
    if rows.len() == 0 {
        Seq::empty()
    } else {
        let prev = rows_in(rows.drop_last(), name);
        if rows.last().0 == name {
            prev.push(rows.last().1)
        } else {
            prev
        }
    }
}

pub open spec fn ini_rows(content: Seq<char>) -> Seq<(Seq<char>, Seq<Seq<char>>)> {
    ini_scan(text_lines(content), text_lines(content).len() as int).1
}

/// Section holding a target's bootloaders: `bl` inserted after the part before
/// the first `_` (`trinity` gives `trinitybl`, `a_b` gives `abl_b`).
pub open spec fn main_section_name(target: Seq<char>) -> Seq<char> {
    let j = find_from(target, "_"@, 0);
    if j < target.len() {
        target.subrange(0, j) + "bl_"@ + target.subrange(j + 1, target.len() as int)
    } else {
        target + "bl"@
    }
}

/// `str::trim_start_matches` with a text pattern.
pub open spec fn trim_start_pat(s: Seq<char>, pat: Seq<char>) -> Seq<char>
    decreases s.len(),
{
    if pat.len() > 0 && pat.len() <= s.len() && s.subrange(0, pat.len() as int) == pat {
        trim_start_pat(s.subrange(pat.len() as int, s.len() as int), pat)
    } else {
        s
    }
}

/// `str::replace(pat, "")`: every occurrence removed.
pub open spec fn remove_all(s: Seq<char>, pat: Seq<char>) -> Seq<char>
    decreases s.len(),
{
    let j = find_from(s, pat, 0);
    if pat.len() == 0 || j >= s.len() {
        s
    } else {
        proof {
            crate::text::lemma_find_from(s, pat, 0);
        }
        s.subrange(0, j) + remove_all(s.subrange(j + pat.len(), s.len() as int), pat)
    }
}

/// Build type: the file name hint without leading `_`, lower-cased and with
/// `.ini` removed (`retail` without a hint); `glitch` means `glitch1`.
pub open spec fn build_type_spec(hint: Option<Seq<char>>) -> Seq<char> {
    let b = match hint {
        Some(h) => remove_all(unicode_lowercase(crate::text::trim_start_char(h, '_')), ".ini"@),
        None => "retail"@,
    };
    if b == "glitch"@ {
        "glitch1"@
    } else {
        b
    }
}

/// The expected hash of an entry: trimmed, when not empty.
pub open spec fn hash_of(o: Option<Seq<char>>) -> Option<Seq<char>> {
    match o {
        Some(s) => if trim(s).len() > 0 {
            Some(trim(s))
        } else {
            None
        },
        None => None,
    }
}

pub open spec fn second(row: Seq<Seq<char>>) -> Option<Seq<char>> {
    if row.len() > 1 {
        Some(row[1])
    } else {
        None
    }
}

/// Chain-counting prefix of a bootloader name: its part before the first `_`,
/// lower-cased.
pub open spec fn bl_prefix(row: Seq<Seq<char>>) -> Seq<char> {
    unicode_lowercase(split(row[0], "_"@)[0])
}

/// Number of earlier rows with the same prefix as row `k`.
pub open spec fn prefix_count(rows: Seq<Seq<Seq<char>>>, k: int, j: int) -> int
    decreases j,
{
    if j <= 0 {
        0
    } else {
        prefix_count(rows, k, j - 1) + if bl_prefix(rows[j - 1]) == bl_prefix(rows[k]) {
            1int
        } else {
            0int
        }
    }
}

/// Main entries: each bootloader's chain is the number of earlier bootloaders
/// with its prefix (a second CB starts the rebooter chain).
pub open spec fn main_entries_spec(rows: Seq<Seq<Seq<char>>>) -> Seq<(Seq<char>, Option<Seq<char>>, u8)> {
    Seq::new(rows.len(), |k: int| (rows[k][0], hash_of(second(rows[k])), prefix_count(rows, k, k) as u8))
}

proof fn lemma_prefix_count_mono(rows: Seq<Seq<Seq<char>>>, k: int, j1: int, j2: int)
    requires
        0 <= j1 <= j2,
    ensures
        prefix_count(rows, k, j1) <= prefix_count(rows, k, j2),
        prefix_count(rows, k, j2) <= prefix_count(rows, k, j1) + (j2 - j1),
    decreases j2 - j1,
{
    if j1 < j2 {
        lemma_prefix_count_mono(rows, k, j1, j2 - 1);
    }
}

proof fn lemma_prefix_count_zero(rows: Seq<Seq<Seq<char>>>, k: int, j: int)
    requires
        0 <= j,
        forall|i: int| 0 <= i < j ==> bl_prefix(rows[i]) != bl_prefix(rows[k]),
    ensures
        prefix_count(rows, k, j) == 0,
    decreases j,
{
    if j > 0 {
        lemma_prefix_count_zero(rows, k, j - 1);
    }
}

proof fn lemma_prefix_count_same(rows: Seq<Seq<Seq<char>>>, a: int, b: int, j: int)
    requires
        0 <= j,
        bl_prefix(rows[a]) == bl_prefix(rows[b]),
    ensures
        prefix_count(rows, a, j) == prefix_count(rows, b, j),
    decreases j,
{
    if j > 0 {
        lemma_prefix_count_same(rows, a, b, j - 1);
    }
}

/// Bootloader chains in the main section: a bootloader is in chain 0 when no
/// earlier one shares its prefix (the part of its name before `_`,
/// case-insensitively); each later bootloader with the same prefix is one
/// chain further than the last earlier one (a second CB is the rebooter's).
pub proof fn lemma_main_chains(rows: Seq<Seq<Seq<char>>>, k: int)
    requires
        0 <= k < rows.len(),
    ensures
        (forall|i: int| 0 <= i < k ==> bl_prefix(rows[i]) != bl_prefix(rows[k])) ==> main_entries_spec(rows)[k].2 == 0,
        forall|j: int|
            0 <= j < k && bl_prefix(rows[j]) == bl_prefix(rows[k]) && (forall|i: int|
                j < i < k ==> bl_prefix(rows[i]) != bl_prefix(rows[k])) && prefix_count(rows, k, k) < 256 ==> (
            #[trigger] main_entries_spec(rows)[j]).2 + 1 == main_entries_spec(rows)[k].2,
        main_entries_spec(rows)[k].0 == rows[k][0],
{
    if forall|i: int| 0 <= i < k ==> bl_prefix(rows[i]) != bl_prefix(rows[k]) {
        lemma_prefix_count_zero(rows, k, k);
    }
    assert forall|j: int|
        0 <= j < k && bl_prefix(rows[j]) == bl_prefix(rows[k]) && (forall|i: int|
            j < i < k ==> bl_prefix(rows[i]) != bl_prefix(rows[k])) && prefix_count(rows, k, k) < 256 implies (
        #[trigger] main_entries_spec(rows)[j]).2 + 1 == main_entries_spec(rows)[k].2 by {
        lemma_prefix_count_same(rows, j, k, j);
        lemma_prefix_gap(rows, k, j + 1, k);
        lemma_prefix_count_mono(rows, k, 0, j);
        assert(prefix_count(rows, k, j + 1) == prefix_count(rows, k, j) + 1);
        assert(prefix_count(rows, k, k) == prefix_count(rows, j, j) + 1);
        assert(main_entries_spec(rows)[j].2 == prefix_count(rows, j, j) as u8);
        assert(main_entries_spec(rows)[k].2 == prefix_count(rows, k, k) as u8);
    }
}

proof fn lemma_prefix_gap(rows: Seq<Seq<Seq<char>>>, k: int, j1: int, j2: int)
    requires
        0 <= j1 <= j2,
        forall|i: int| j1 <= i < j2 ==> bl_prefix(rows[i]) != bl_prefix(rows[k]),
    ensures
        prefix_count(rows, k, j2) == prefix_count(rows, k, j1),
    decreases j2 - j1,
{
    if j1 < j2 {
        lemma_prefix_gap(rows, k, j1, j2 - 1);
    }
}

pub open spec fn security_entries_spec(rows: Seq<Seq<Seq<char>>>) -> Seq<(Seq<char>, Option<Seq<char>>, u8)> {
    Seq::new(rows.len(), |k: int| (rows[k][0], None, 0u8))
}

/// A FlashFS entry: `name = hash` in the first part overrides the second part.
pub open spec fn flashfs_entry(row: Seq<Seq<char>>) -> (Seq<char>, Option<Seq<char>>, u8) {
    let name0 = row[0];
    if find_from(name0, "="@, 0) < name0.len() {
        let parts = split(name0, "="@);
        let hs = if parts.len() > 1 && trim(parts[1]).len() > 0 {
            Some(trim(parts[1]))
        } else {
            None
        };
        (trim(parts[0]), hash_of(if hs is Some { hs } else { second(row) }), 0u8)
    } else {
        (name0, hash_of(second(row)), 0u8)
    }
}

/// Splitting `name = hash` (neither part holding an `=`) at `=` gives the two parts.
proof fn lemma_split_eq_pair(name: Seq<char>, h: Seq<char>)
    requires
        forall|t: int| 0 <= t < name.len() ==> name[t] != '=',
        forall|t: int| 0 <= t < h.len() ==> h[t] != '=',
    ensures
        find_from(name + "="@ + h, "="@, 0) == name.len(),
        split(name + "="@ + h, "="@) == seq![name, h],
{
    reveal_strlit("=");
    let s = name + "="@ + h;
    crate::text::lemma_find_eq_sign(s, 0, name.len() as int);
    crate::text::lemma_find_eq_sign(h, 0, h.len() as int);
    crate::text::lemma_find_from(s, "="@, 0);
    assert(s.subrange(0, name.len() as int) =~= name);
    assert(s.subrange(name.len() + 1int, s.len() as int) =~= h);
    assert(split(h, "="@) == seq![h]);
    assert(split(s, "="@) =~= seq![name, h]);
}

/// A `[flashfs]` row whose first field is `name = hash` gives the entry
/// `name` (trimmed) with the expected hash `hash` (trimmed), whatever a second
/// field holds; with an empty hash, the second field's hash counts.
pub proof fn lemma_flashfs_inline_hash(row: Seq<Seq<char>>, name: Seq<char>, h: Seq<char>)
    requires
        row.len() >= 1,
        row[0] == name + "="@ + h,
        forall|t: int| 0 <= t < name.len() ==> name[t] != '=',
        forall|t: int| 0 <= t < h.len() ==> h[t] != '=',
    ensures
        flashfs_entry(row).0 == trim(name),
        trim(h).len() > 0 ==> flashfs_entry(row).1 == Some(trim(h)),
        trim(h).len() == 0 ==> flashfs_entry(row).1 == hash_of(second(row)),
        flashfs_entry(row).2 == 0,
{
    lemma_split_eq_pair(name, h);
    crate::text::lemma_trim_idempotent(h);
    reveal_strlit("=");
    assert((name + "="@ + h).len() == name.len() + 1 + h.len());
}

pub open spec fn flashfs_entries_spec(rows: Seq<Seq<Seq<char>>>) -> Seq<(Seq<char>, Option<Seq<char>>, u8)> {
    Seq::new(rows.len(), |k: int| flashfs_entry(rows[k]))
}

/// A payload entry: `[offset:]filename [= description]`.
pub open spec fn payload_entry(row: Seq<Seq<char>>) -> (Seq<char>, Option<Seq<char>>, u8) {
    let file_part = trim(split(row[0], "="@)[0]);
    let sub = split(file_part, ":"@);
    (trim(if sub.len() > 1 { sub[1] } else { sub[0] }), hash_of(second(row)), 0u8)
}

/// A payload row `offset:name` (neither part holding `:` or `=`, no blanks
/// around the row) gives the entry `name`, trimmed; a row `name` holding
/// neither gives `name`.
pub proof fn lemma_payload_entry_name(row: Seq<Seq<char>>, off: Seq<char>, name: Seq<char>)
    requires
        row.len() >= 1,
        row[0] == off + ":"@ + name || row[0] == name,
        trim(row[0]) == row[0],
        forall|t: int| 0 <= t < off.len() ==> off[t] != ':' && off[t] != '=',
        forall|t: int| 0 <= t < name.len() ==> name[t] != ':' && name[t] != '=',
    ensures
        payload_entry(row).0 == trim(name),
        payload_entry(row).1 == hash_of(second(row)),
{
    reveal_strlit(":");
    reveal_strlit("=");
    let r0 = row[0];
    assert forall|t: int| 0 <= t < r0.len() implies r0[t] != '=' by {
        if r0 == off + ":"@ + name {
            if t < off.len() {
                assert(r0[t] == off[t]);
            } else if t > off.len() {
                assert(r0[t] == name[t - off.len() - 1]);
            }
        }
    }
    crate::text::lemma_split_single(r0, "="@, Seq::empty());
    let fp = trim(split(r0, "="@)[0]);
    if r0 == off + ":"@ + name {
        crate::text::lemma_split_single(off, ":"@, name);
    } else {
        crate::text::lemma_split_single(name, ":"@, Seq::empty());
    }
}

pub open spec fn payload_entries_spec(rows: Seq<Seq<Seq<char>>>) -> Seq<(Seq<char>, Option<Seq<char>>, u8)> {
    Seq::new(rows.len(), |k: int| payload_entry(rows[k]))
}

pub open spec fn row_view(r: Seq<Vec<char>>) -> Seq<Seq<char>> {
    r.map_values(|p: Vec<char>| p@)
}

pub open spec fn rows_view(rs: Seq<Vec<Vec<char>>>) -> Seq<Seq<Seq<char>>> {
    rs.map_values(|r: Vec<Vec<char>>| row_view(r@))
}

pub open spec fn tagged_view(t: Seq<(Vec<char>, Vec<Vec<char>>)>) -> Seq<(Seq<char>, Seq<Seq<char>>)> {
    t.map_values(|e: (Vec<char>, Vec<Vec<char>>)| (e.0@, row_view(e.1@)))
}

fn copy_row(r: &Vec<Vec<char>>) -> (c: Vec<Vec<char>>)
    ensures
        row_view(c@) == row_view(r@),
{
    let mut out: Vec<Vec<char>> = Vec::new();
    let mut i: usize = 0;
    while i < r.len()
        invariant
            i <= r@.len(),
            row_view(out@) == row_view(r@.subrange(0, i as int)),
        decreases r@.len() - i,
    {
        let p = sub_chars(r[i].as_slice(), 0, r[i].len());
        assert(r[i as int]@.subrange(0, r[i as int]@.len() as int) =~= r[i as int]@);
        let ghost before = row_view(out@);
        out.push(p);
        assert(row_view(out@) =~= before.push(r@[i as int]@));
        assert(row_view(r@.subrange(0, i as int + 1)) =~= row_view(r@.subrange(0, i as int)).push(r@[i as int]@));
        i += 1;
    }
    assert(r@.subrange(0, r@.len() as int) =~= r@);
    out
}

/// Cleaned comma-separated parts of `v[a..b]`.
fn split_row(v: &[char], a: usize, b: usize) -> (r: Vec<Vec<char>>)
    requires
        a <= b <= v@.len(),
    ensures
        row_view(r@) == ini_row(v@.subrange(a as int, b as int)),
{
    let comma = str_chars(",");
    proof {
        reveal_strlit(",");
    }
    assert(comma@.len() == 1);
    let ghost clean = |p: Seq<char>| trim(trim_end_char(p, ';'));
    let mut out: Vec<Vec<char>> = Vec::new();
    let mut pos = a;
    loop
        invariant
            a <= pos <= b <= v@.len(),
            comma@ == ","@,
            comma@.len() == 1,
            clean == (|p: Seq<char>| trim(trim_end_char(p, ';'))),
            row_view(out@) + split(v@.subrange(pos as int, b as int), ","@).map_values(clean) == split(
                v@.subrange(a as int, b as int),
                ","@,
            ).map_values(clean),
        decreases b - pos,
    {
        let j = find_in(v, pos, b, comma.as_slice());
        proof {
            lemma_split_step(v@, pos as int, b as int, ","@, j as int);
        }
        let e = trim_end_char_range(v, pos, j, ';');
        let (t0, t1) = trim_range(v, pos, e);
        let piece = sub_chars(v, t0, t1);
        let ghost before = row_view(out@);
        out.push(piece);
        proof {
            assert(row_view(out@) =~= before.push(clean(v@.subrange(pos as int, j as int))));
            if j < b {
                let rest = split(v@.subrange(j + 1, b as int), ","@);
                assert(split(v@.subrange(pos as int, b as int), ","@).map_values(clean) =~= seq![clean(
                    v@.subrange(pos as int, j as int),
                )] + rest.map_values(clean));
                assert(before + (seq![clean(v@.subrange(pos as int, j as int))] + rest.map_values(clean))
                    =~= row_view(out@) + rest.map_values(clean));
            } else {
                assert(split(v@.subrange(pos as int, b as int), ","@).map_values(clean) =~= seq![clean(
                    v@.subrange(pos as int, j as int),
                )]);
            }
        }
        if j == b {
            return out;
        }
        pos = j + 1;
    }
}

/// Reads the rows of a build INI, tagged with their (lower-cased) section.
fn scan_ini(v: &[char]) -> (r: Vec<(Vec<char>, Vec<Vec<char>>)>)
    ensures
        tagged_view(r@) == ini_rows(v@),
{
    let nl = str_chars("\n");
    proof {
        reveal_strlit("\n");
    }
    assert(nl@.len() == 1);
    let ghost lines = text_lines(v@);
    let n = v.len();
    let mut cur: Vec<char> = Vec::new();
    let mut all: Vec<(Vec<char>, Vec<Vec<char>>)> = Vec::new();
    let mut pos: usize = 0;
    let ghost mut k: int = 0;
    assert(v@.subrange(0, n as int) =~= v@);
    assert(lines.subrange(0, lines.len() as int) =~= lines);
    loop
        invariant
            pos <= n == v@.len(),
            nl@ == "\n"@,
            nl@.len() == 1,
            lines == text_lines(v@),
            0 <= k <= lines.len(),
            split(v@.subrange(pos as int, n as int), nl@) == lines.subrange(k, lines.len() as int),
            cur@ == ini_scan(lines, k).0,
            tagged_view(all@) == ini_scan(lines, k).1,
        decreases n - pos,
    {
        let j = find_in(v, pos, n, nl.as_slice());
        proof {
            crate::text::lemma_split_len(v@.subrange(pos as int, n as int), nl@);
            lemma_split_step(v@, pos as int, n as int, nl@, j as int);
            assert(lines.subrange(k, lines.len() as int)[0] == v@.subrange(pos as int, j as int));
            assert(lines[k] == v@.subrange(pos as int, j as int));
        }
        let (ta, tb) = trim_range(v, pos, j);
        if ta == tb || v[ta] == ';' || v[ta] == '#' {
        } else if v[ta] == '[' && v[tb - 1] == ']' {
            let inner = sub_chars(v, ta + 1, tb - 1);
            assert(v@.subrange(ta as int, tb as int).subrange(1, (tb - ta) - 1) =~= v@.subrange(ta + 1, tb - 1));
            cur = to_lowercase(inner.as_slice());
        } else if cur.len() > 0 {
            let row = split_row(v, ta, tb);
            let name = sub_chars(cur.as_slice(), 0, cur.len());
            assert(cur@.subrange(0, cur@.len() as int) =~= cur@);
            let ghost before = tagged_view(all@);
            all.push((name, row));
            assert(tagged_view(all@) =~= before.push((cur@, ini_row(v@.subrange(ta as int, tb as int)))));
        }
        if j == n {
            assert(k + 1 == lines.len());
            return all;
        }
        proof {
            assert(lines.subrange(k + 1, lines.len() as int) =~= lines.subrange(k, lines.len() as int).drop_first());
            k = k + 1;
        }
        pos = j + 1;
    }
}

/// Copies of the rows of section `name`.
fn rows_named(all: &Vec<(Vec<char>, Vec<Vec<char>>)>, name: &[char]) -> (r: Vec<Vec<Vec<char>>>)
    ensures
        rows_view(r@) == rows_in(tagged_view(all@), name@),
{
    let mut out: Vec<Vec<Vec<char>>> = Vec::new();
    let mut i: usize = 0;
    while i < all.len()
        invariant
            i <= all@.len(),
            rows_view(out@) == rows_in(tagged_view(all@.subrange(0, i as int)), name@),
        decreases all@.len() - i,
    {
        let ghost t = tagged_view(all@.subrange(0, i as int + 1));
        assert(t.drop_last() =~= tagged_view(all@.subrange(0, i as int)));
        assert(t.last() == (all@[i as int].0@, row_view(all@[i as int].1@)));
        let nl = all[i].0.len();
        assert(all@[i as int].0@.subrange(0, nl as int) =~= all@[i as int].0@);
        if range_eq(all[i].0.as_slice(), 0, nl, name) {
            let ghost before = rows_view(out@);
            let c = copy_row(&all[i].1);
            out.push(c);
            assert(rows_view(out@) =~= before.push(row_view(all@[i as int].1@)));
        }
        i += 1;
    }
    assert(all@.subrange(0, all@.len() as int) =~= all@);
    out
}

proof fn lemma_scan_rows_nonempty(lines: Seq<Seq<char>>, n: int)
    requires
        n <= lines.len(),
    ensures
        forall|i: int|
            0 <= i < ini_scan(lines, n).1.len() ==> (#[trigger] ini_scan(lines, n).1[i]).1.len() >= 1,
    decreases n,
{
    if n > 0 {
        lemma_scan_rows_nonempty(lines, n - 1);
        let t = trim(lines[n - 1]);
        lemma_split_len(t, ","@);
        assert(ini_row(t).len() == split(t, ","@).len());
        let prev = ini_scan(lines, n - 1);
        let cur = ini_scan(lines, n);
        assert forall|i: int| 0 <= i < cur.1.len() implies (#[trigger] cur.1[i]).1.len() >= 1 by {
            if i < prev.1.len() {
                assert(cur.1[i] == prev.1[i]);
            }
        }
    }
}

proof fn lemma_rows_in_nonempty(rows: Seq<(Seq<char>, Seq<Seq<char>>)>, name: Seq<char>)
    requires
        forall|i: int| 0 <= i < rows.len() ==> (#[trigger] rows[i]).1.len() >= 1,
    ensures
        forall|i: int| 0 <= i < rows_in(rows, name).len() ==> (#[trigger] rows_in(rows, name)[i]).len() >= 1,
    decreases rows.len(),
{
    if rows.len() > 0 {
        assert forall|i: int| 0 <= i < rows.drop_last().len() implies (#[trigger] rows.drop_last()[i]).1.len() >= 1 by {
            assert(rows.drop_last()[i] == rows[i]);
        }
        lemma_rows_in_nonempty(rows.drop_last(), name);
        let prev = rows_in(rows.drop_last(), name);
        let cur = rows_in(rows, name);
        assert(rows.last().1.len() >= 1);
        assert forall|i: int| 0 <= i < cur.len() implies (#[trigger] cur[i]).len() >= 1 by {
            if i < prev.len() {
                assert(cur[i] == prev[i]);
            }
        }
    }
}

/// Expected hash of an entry, from an optional text.
fn hash_text(o: Option<&Vec<char>>) -> (r: Option<String>)
    ensures
        opt_text(r) == hash_of(
            match o {
                Some(v) => Some(v@),
                None => None,
            },
        ),
{
    match o {
        Some(v) => {
            let (a, b) = trim_range(v.as_slice(), 0, v.len());
            assert(v@.subrange(0, v@.len() as int) =~= v@);
            if a < b {
                let t = sub_chars(v.as_slice(), a, b);
                Some(string_from_chars(t.as_slice()))
            } else {
                None
            }
        },
        None => None,
    }
}

fn second_part(row: &Vec<Vec<char>>) -> (r: Option<&Vec<char>>)
    ensures
        match r {
            Some(v) => Some(v@),
            None => None::<Seq<char>>,
        } == second(row_view(row@)),
{
    if row.len() > 1 {
        Some(&row[1])
    } else {
        None
    }
}

fn text_of(v: &Vec<char>) -> (r: String)
    ensures
        r@ == v@,
{
    string_from_chars(v.as_slice())
}

/// Bootloader entries with their chain numbers.
fn main_entries(rows: &Vec<Vec<Vec<char>>>) -> (r: (Vec<BuildIniEntry>, bool))
    requires
        forall|k: int| 0 <= k < rows@.len() ==> (#[trigger] rows_view(rows@)[k]).len() >= 1,
        forall|k: int| 0 <= k < rows@.len() ==> prefix_count(rows_view(rows@), k, k) < 255,
    ensures
        entries_view(r.0@) == main_entries_spec(rows_view(rows@)),
        r.1 == exists|k: int| 0 <= k < rows@.len() && prefix_count(rows_view(rows@), k, k) >= 1,
{
    let ghost rv = rows_view(rows@);
    let us = str_chars("_");
    proof {
        reveal_strlit("_");
    }
    assert(us@.len() == 1);
    let n = rows.len();
    let mut prefixes: Vec<Vec<char>> = Vec::new();
    let mut out: Vec<BuildIniEntry> = Vec::new();
    let mut rebooter = false;
    let mut k: usize = 0;
    while k < n
        invariant
            n == rows@.len(),
            rv == rows_view(rows@),
            us@ == "_"@,
            us@.len() == 1,
            k <= n,
            prefixes@.len() == k,
            forall|q: int| 0 <= q < k ==> (#[trigger] prefixes@[q])@ == bl_prefix(rv[q]),
            forall|q: int| 0 <= q < n ==> (#[trigger] rv[q]).len() >= 1,
            forall|q: int| 0 <= q < n ==> prefix_count(rv, q, q) < 255,
            entries_view(out@) == main_entries_spec(rv).subrange(0, k as int),
            rebooter == exists|q: int| 0 <= q < k && prefix_count(rv, q, q) >= 1,
        decreases n - k,
    {
        let row = &rows[k];
        assert(rv[k as int] == row_view(row@));
        assert(rv[k as int][0] == row@[0]@);
        let name0 = &row[0];
        let l0 = name0.len();
        let j = find_in(name0.as_slice(), 0, l0, us.as_slice());
        proof {
            assert(name0@.subrange(0, l0 as int) =~= name0@);
            crate::text::lemma_split_len(name0@, "_"@);
            lemma_split_step(name0@, 0, l0 as int, "_"@, j as int);
            assert(split(name0@, "_"@)[0] == name0@.subrange(0, j as int));
        }
        let head = sub_chars(name0.as_slice(), 0, j);
        let p = to_lowercase(head.as_slice());
        let mut count: u8 = 0;
        let mut q: usize = 0;
        while q < k
            invariant
                k < n,
                q <= k,
                prefixes@.len() == k,
                forall|x: int| 0 <= x < k ==> (#[trigger] prefixes@[x])@ == bl_prefix(rv[x]),
                p@ == bl_prefix(rv[k as int]),
                count == prefix_count(rv, k as int, q as int),
                prefix_count(rv, k as int, k as int) < 255,
            decreases k - q,
        {
            proof {
                lemma_prefix_count_mono(rv, k as int, q as int + 1, k as int);
            }
            let pl = prefixes[q].len();
            assert(prefixes@[q as int]@.subrange(0, pl as int) =~= prefixes@[q as int]@);
            if range_eq(prefixes[q].as_slice(), 0, pl, p.as_slice()) {
                count = count + 1;
            }
            q += 1;
        }
        if count >= 1 {
            rebooter = true;
        }
        let filename = text_of(name0);
        let hash = hash_text(second_part(row));
        let ghost before = entries_view(out@);
        out.push(BuildIniEntry { filename, hash, chain: count });
        assert(entries_view(out@) =~= before.push(main_entries_spec(rv)[k as int]));
        assert(main_entries_spec(rv).subrange(0, k as int + 1) =~= main_entries_spec(rv).subrange(0, k as int).push(
            main_entries_spec(rv)[k as int],
        ));
        prefixes.push(p);
        k += 1;
    }
    assert(main_entries_spec(rv).subrange(0, n as int) =~= main_entries_spec(rv));
    (out, rebooter)
}

fn security_entries(rows: &Vec<Vec<Vec<char>>>) -> (r: Vec<BuildIniEntry>)
    requires
        forall|k: int| 0 <= k < rows@.len() ==> (#[trigger] rows_view(rows@)[k]).len() >= 1,
    ensures
        entries_view(r@) == security_entries_spec(rows_view(rows@)),
{
    let ghost rv = rows_view(rows@);
    let mut out: Vec<BuildIniEntry> = Vec::new();
    let mut k: usize = 0;
    while k < rows.len()
        invariant
            k <= rows@.len(),
            rv == rows_view(rows@),
            forall|q: int| 0 <= q < rows@.len() ==> (#[trigger] rv[q]).len() >= 1,
            entries_view(out@) == security_entries_spec(rv).subrange(0, k as int),
        decreases rows@.len() - k,
    {
        assert(rv[k as int] == row_view(rows@[k as int]@));
        let filename = text_of(&rows[k][0]);
        let ghost before = entries_view(out@);
        out.push(BuildIniEntry { filename, hash: None, chain: 0 });
        assert(entries_view(out@) =~= before.push(security_entries_spec(rv)[k as int]));
        assert(security_entries_spec(rv).subrange(0, k as int + 1) =~= security_entries_spec(rv).subrange(0, k as int).push(
            security_entries_spec(rv)[k as int],
        ));
        k += 1;
    }
    assert(security_entries_spec(rv).subrange(0, rows@.len() as int) =~= security_entries_spec(rv));
    out
}

fn flashfs_entry_of(row: &Vec<Vec<char>>) -> (r: BuildIniEntry)
    requires
        row@.len() >= 1,
    ensures
        r@ == flashfs_entry(row_view(row@)),
{
    let ghost rv = row_view(row@);
    let eq = str_chars("=");
    proof {
        reveal_strlit("=");
    }
    assert(eq@.len() == 1);
    let name0 = &row[0];
    assert(rv[0] == name0@);
    let l0 = name0.len();
    assert(name0@.subrange(0, l0 as int) =~= name0@);
    let j = find_in(name0.as_slice(), 0, l0, eq.as_slice());
    proof {
        lemma_split_step(name0@, 0, l0 as int, "="@, j as int);
    }
    if j < l0 {
        let (a, b) = trim_range(name0.as_slice(), 0, j);
        let fname = sub_chars(name0.as_slice(), a, b);
        let j2 = find_in(name0.as_slice(), j + 1, l0, eq.as_slice());
        proof {
            crate::text::lemma_split_len(name0@.subrange(j + 1, l0 as int), "="@);
            lemma_split_step(name0@, j + 1, l0 as int, "="@, j2 as int);
            assert(split(name0@, "="@)[0] == name0@.subrange(0, j as int));
            assert(split(name0@, "="@)[1] == name0@.subrange(j + 1, j2 as int));
            assert(split(name0@, "="@).len() > 1);
        }
        let (c, d) = trim_range(name0.as_slice(), j + 1, j2);
        let filename = string_from_chars(fname.as_slice());
        if c < d {
            let h = sub_chars(name0.as_slice(), c, d);
            let hash = hash_text(Some(&h));
            BuildIniEntry { filename, hash, chain: 0 }
        } else {
            let hash = hash_text(second_part(row));
            BuildIniEntry { filename, hash, chain: 0 }
        }
    } else {
        let filename = text_of(name0);
        let hash = hash_text(second_part(row));
        BuildIniEntry { filename, hash, chain: 0 }
    }
}

fn payload_entry_of(row: &Vec<Vec<char>>) -> (r: BuildIniEntry)
    requires
        row@.len() >= 1,
    ensures
        r@ == payload_entry(row_view(row@)),
{
    let ghost rv = row_view(row@);
    let eq = str_chars("=");
    let colon = str_chars(":");
    proof {
        reveal_strlit("=");
        reveal_strlit(":");
    }
    assert(eq@.len() == 1 && colon@.len() == 1);
    let name0 = &row[0];
    assert(rv[0] == name0@);
    let l0 = name0.len();
    assert(name0@.subrange(0, l0 as int) =~= name0@);
    let j = find_in(name0.as_slice(), 0, l0, eq.as_slice());
    proof {
        crate::text::lemma_split_len(name0@, "="@);
        lemma_split_step(name0@, 0, l0 as int, "="@, j as int);
        assert(split(name0@, "="@)[0] == name0@.subrange(0, j as int));
    }
    let (a, b) = trim_range(name0.as_slice(), 0, j);
    let ghost fp = name0@.subrange(a as int, b as int);
    let c1 = find_in(name0.as_slice(), a, b, colon.as_slice());
    proof {
        crate::text::lemma_split_len(fp, ":"@);
        lemma_split_step(name0@, a as int, b as int, ":"@, c1 as int);
    }
    let (x, y) = if c1 < b {
        let c2 = find_in(name0.as_slice(), c1 + 1, b, colon.as_slice());
        proof {
            crate::text::lemma_split_len(name0@.subrange(c1 + 1, b as int), ":"@);
            lemma_split_step(name0@, c1 + 1, b as int, ":"@, c2 as int);
            assert(split(fp, ":"@)[1] == name0@.subrange(c1 + 1, c2 as int));
            assert(split(fp, ":"@).len() > 1);
        }
        trim_range(name0.as_slice(), c1 + 1, c2)
    } else {
        assert(split(fp, ":"@)[0] == fp);
        trim_range(name0.as_slice(), a, b)
    };
    let fname = sub_chars(name0.as_slice(), x, y);
    let filename = string_from_chars(fname.as_slice());
    let hash = hash_text(second_part(row));
    BuildIniEntry { filename, hash, chain: 0 }
}

fn flashfs_entries(rows: &Vec<Vec<Vec<char>>>) -> (r: Vec<BuildIniEntry>)
    requires
        forall|k: int| 0 <= k < rows@.len() ==> (#[trigger] rows_view(rows@)[k]).len() >= 1,
    ensures
        entries_view(r@) == flashfs_entries_spec(rows_view(rows@)),
{
    let ghost rv = rows_view(rows@);
    let mut out: Vec<BuildIniEntry> = Vec::new();
    let mut k: usize = 0;
    while k < rows.len()
        invariant
            k <= rows@.len(),
            rv == rows_view(rows@),
            forall|q: int| 0 <= q < rows@.len() ==> (#[trigger] rv[q]).len() >= 1,
            entries_view(out@) == flashfs_entries_spec(rv).subrange(0, k as int),
        decreases rows@.len() - k,
    {
        assert(rv[k as int] == row_view(rows@[k as int]@));
        let e = flashfs_entry_of(&rows[k]);
        let ghost before = entries_view(out@);
        out.push(e);
        assert(entries_view(out@) =~= before.push(flashfs_entries_spec(rv)[k as int]));
        assert(flashfs_entries_spec(rv).subrange(0, k as int + 1) =~= flashfs_entries_spec(rv).subrange(0, k as int).push(
            flashfs_entries_spec(rv)[k as int],
        ));
        k += 1;
    }
    assert(flashfs_entries_spec(rv).subrange(0, rows@.len() as int) =~= flashfs_entries_spec(rv));
    out
}

fn payload_entries(rows: &Vec<Vec<Vec<char>>>) -> (r: Vec<BuildIniEntry>)
    requires
        forall|k: int| 0 <= k < rows@.len() ==> (#[trigger] rows_view(rows@)[k]).len() >= 1,
    ensures
        entries_view(r@) == payload_entries_spec(rows_view(rows@)),
{
    let ghost rv = rows_view(rows@);
    let mut out: Vec<BuildIniEntry> = Vec::new();
    let mut k: usize = 0;
    while k < rows.len()
        invariant
            k <= rows@.len(),
            rv == rows_view(rows@),
            forall|q: int| 0 <= q < rows@.len() ==> (#[trigger] rv[q]).len() >= 1,
            entries_view(out@) == payload_entries_spec(rv).subrange(0, k as int),
        decreases rows@.len() - k,
    {
        assert(rv[k as int] == row_view(rows@[k as int]@));
        let e = payload_entry_of(&rows[k]);
        let ghost before = entries_view(out@);
        out.push(e);
        assert(entries_view(out@) =~= before.push(payload_entries_spec(rv)[k as int]));
        assert(payload_entries_spec(rv).subrange(0, k as int + 1) =~= payload_entries_spec(rv).subrange(0, k as int).push(
            payload_entries_spec(rv)[k as int],
        ));
        k += 1;
    }
    assert(payload_entries_spec(rv).subrange(0, rows@.len() as int) =~= payload_entries_spec(rv));
    out
}

/// Value of hex digits.
pub open spec fn hex_digits_value(d: Seq<char>) -> int
    decreases d.len(),
{
    if d.len() == 0 {
        0
    } else {
        hex_digits_value(d.drop_last()) * 16 + crate::gxcore::session::hex_char_value(d.last())->0
    }
}

/// `u16::from_str_radix(s, 16)`: an optional `+`, then one or more hex digits
/// whose value fits in 16 bits.
pub open spec fn strip_plus(s: Seq<char>) -> Seq<char> {
    if s.len() > 0 && s[0] == '+' {
        s.subrange(1, s.len() as int)
    } else {
        s
    }
}

pub open spec fn all_hex(d: Seq<char>) -> bool {
    forall|i: int| 0 <= i < d.len() ==> (#[trigger] crate::gxcore::session::hex_char_value(d[i])) is Some
}

pub open spec fn parse_u16_hex(s: Seq<char>) -> Option<u16> {
    let d = strip_plus(s);
    if d.len() == 0 || !all_hex(d) || hex_digits_value(d) > 0xFFFF {
        None
    } else {
        Some(hex_digits_value(d) as u16)
    }
}

/// JTAG syscall after the first `n` rows of the `[jtag]` section: the last
/// `syscall` row sets it (to `None` when its value does not parse).
pub open spec fn jtag_syscall_spec(rows: Seq<Seq<Seq<char>>>, n: int) -> Option<u16>
    decreases n,
{
    if n <= 0 {
        None
    } else {
        let r = rows[n - 1];
        if r.len() >= 2 && unicode_lowercase(r[0]) == "syscall"@ {
            parse_u16_hex(trim_start_pat(r[1], "0x"@))
        } else {
            jtag_syscall_spec(rows, n - 1)
        }
    }
}

proof fn lemma_hex_value_mono(d: Seq<char>, i: int, j: int)
    requires
        0 <= i <= j <= d.len(),
        forall|q: int| 0 <= q < d.len() ==> (#[trigger] crate::gxcore::session::hex_char_value(d[q])) is Some,
    ensures
        hex_digits_value(d.subrange(0, i)) <= hex_digits_value(d.subrange(0, j)),
        hex_digits_value(d.subrange(0, j)) >= 0,
    decreases j,
{
    if j > 0 {
        assert(d.subrange(0, j).drop_last() =~= d.subrange(0, j - 1));
        assert(crate::gxcore::session::hex_char_value(d[j - 1]) is Some);
        lemma_hex_value_mono(d, if i == j { j - 1 } else { i }, j - 1);
    }
}

fn hex_char_exec(c: char) -> (r: Option<u8>)
    ensures
        r == crate::gxcore::session::hex_char_value(c),
{
    if '0' <= c && c <= '9' {
        Some(((c as u32) - 0x30) as u8)
    } else if 'a' <= c && c <= 'f' {
        Some(((c as u32) - 0x61 + 10) as u8)
    } else if 'A' <= c && c <= 'F' {
        Some(((c as u32) - 0x41 + 10) as u8)
    } else {
        None
    }
}

#[verifier::rlimit(40)]
#[verifier::spinoff_prover]
fn parse_u16_hex_exec(s: &[char], a: usize, b: usize) -> (r: Option<u16>)
    requires
        a <= b <= s@.len(),
    ensures
        r == parse_u16_hex(s@.subrange(a as int, b as int)),
{
    let ghost t = s@.subrange(a as int, b as int);
    let start = if a < b && s[a] == '+' {
        a + 1
    } else {
        a
    };
    let ghost d = s@.subrange(start as int, b as int);
    assert(d =~= strip_plus(t));
    if start == b {
        return None;
    }
    let mut acc: u32 = 0;
    let mut i = start;
    while i < b
        invariant
            a <= start <= i <= b <= s@.len(),
            d == s@.subrange(start as int, b as int),
            t == s@.subrange(a as int, b as int),
            d == strip_plus(t),
            forall|q: int| 0 <= q < i - start ==> (#[trigger] crate::gxcore::session::hex_char_value(d[q])) is Some,
            acc as int == hex_digits_value(d.subrange(0, i - start)),
            acc <= 0xFFFF,
        decreases b - i,
    {
        let v = match hex_char_exec(s[i]) {
            Some(v) => v,
            None => {
                assert(crate::gxcore::session::hex_char_value(d[i - start]) is None);
                assert(!all_hex(d));
                return None;
            },
        };
        assert(d.subrange(0, i - start + 1).drop_last() =~= d.subrange(0, i - start));
        acc = acc * 16 + v as u32;
        if acc > 0xFFFF {
            proof {
                if all_hex(d) {
                    lemma_hex_value_mono(d, i - start + 1, d.len() as int);
                    assert(d.subrange(0, d.len() as int) =~= d);
                }
            }
            return None;
        }
        i += 1;
    }
    assert(d.subrange(0, d.len() as int) =~= d);
    Some(acc as u16)
}

/// Strips repeated `0x` prefixes from `s[a..b]`; the start of what is left.
fn skip_hex_prefix(s: &[char], a: usize, b: usize) -> (r: usize)
    requires
        a <= b <= s@.len(),
    ensures
        a <= r <= b,
        s@.subrange(r as int, b as int) == trim_start_pat(s@.subrange(a as int, b as int), "0x"@),
{
    proof {
        reveal_strlit("0x");
    }
    let mut i = a;
    while b - i >= 2 && s[i] == '0' && s[i + 1] == 'x'
        invariant
            a <= i <= b <= s@.len(),
            "0x"@ == seq!['0', 'x'],
            trim_start_pat(s@.subrange(i as int, b as int), "0x"@) == trim_start_pat(s@.subrange(a as int, b as int), "0x"@),
        decreases b - i,
    {
        assert(s@.subrange(i as int, b as int).subrange(0, 2) =~= seq!['0', 'x']);
        assert(s@.subrange(i as int, b as int).subrange(2, (b - i) as int) =~= s@.subrange(i + 2, b as int));
        i += 2;
    }
    proof {
        let t = s@.subrange(i as int, b as int);
        if 2 <= t.len() && t.subrange(0, 2) == "0x"@ {
            assert(t.subrange(0, 2)[0] == '0' && t.subrange(0, 2)[1] == 'x');
        }
    }
    i
}

fn jtag_syscall(rows: &Vec<Vec<Vec<char>>>) -> (r: Option<u16>)
    requires
        forall|k: int| 0 <= k < rows@.len() ==> (#[trigger] rows_view(rows@)[k]).len() >= 1,
    ensures
        r == jtag_syscall_spec(rows_view(rows@), rows@.len() as int),
{
    let ghost rv = rows_view(rows@);
    let sc = str_chars("syscall");
    let mut out: Option<u16> = None;
    let mut k: usize = 0;
    while k < rows.len()
        invariant
            k <= rows@.len(),
            rv == rows_view(rows@),
            sc@ == "syscall"@,
            out == jtag_syscall_spec(rv, k as int),
        decreases rows@.len() - k,
    {
        let row = &rows[k];
        assert(rv[k as int] == row_view(row@));
        if row.len() >= 2 {
            assert(rv[k as int][0] == row@[0]@ && rv[k as int][1] == row@[1]@);
            let key = to_lowercase(row[0].as_slice());
            let kl = key.len();
            assert(key@.subrange(0, kl as int) =~= key@);
            if range_eq(key.as_slice(), 0, kl, sc.as_slice()) {
                let val = &row[1];
                let vl = val.len();
                assert(val@.subrange(0, vl as int) =~= val@);
                let st = skip_hex_prefix(val.as_slice(), 0, vl);
                out = parse_u16_hex_exec(val.as_slice(), st, vl);
            }
        }
        k += 1;
    }
    out
}

fn remove_all_exec(s: &[char], pat: &[char]) -> (r: Vec<char>)
    requires
        pat@.len() > 0,
    ensures
        r@ == remove_all(s@, pat@),
{
    let n = s.len();
    let pl = pat.len();
    let mut out: Vec<char> = Vec::new();
    let mut pos: usize = 0;
    assert(s@.subrange(0, n as int) =~= s@);
    loop
        invariant
            pos <= n == s@.len(),
            pl == pat@.len(),
            pl > 0,
            out@ + remove_all(s@.subrange(pos as int, n as int), pat@) == remove_all(s@, pat@),
        decreases n - pos,
    {
        let j = find_in(s, pos, n, pat);
        let ghost t = s@.subrange(pos as int, n as int);
        proof {
            crate::text::lemma_find_from(t, pat@, 0);
        }
        let mut piece = sub_chars(s, pos, j);
        let ghost before = out@;
        out.append(&mut piece);
        if j == n {
            assert(remove_all(t, pat@) == t);
            assert(t =~= s@.subrange(pos as int, j as int));
            return out;
        }
        proof {
            assert(t.subrange(0, j - pos) =~= s@.subrange(pos as int, j as int));
            assert(t.subrange(j - pos + pl, t.len() as int) =~= s@.subrange(j + pl, n as int));
            assert(before + (s@.subrange(pos as int, j as int) + remove_all(s@.subrange(j + pl, n as int), pat@))
                =~= out@ + remove_all(s@.subrange(j + pl, n as int), pat@));
        }
        pos = j + pl;
    }
}

fn build_type_of(hint: Option<&str>) -> (r: String)
    ensures
        r@ == build_type_spec(
            match hint {
                Some(h) => Some(h@),
                None => None,
            },
        ),
{
    let b: Vec<char> = match hint {
        Some(h) => {
            let hc = str_chars(h);
            let n = hc.len();
            let mut i: usize = 0;
            assert(hc@.subrange(0, n as int) =~= hc@);
            while i < n && hc[i] == '_'
                invariant
                    i <= n == hc@.len(),
                    crate::text::trim_start_char(hc@.subrange(i as int, n as int), '_') == crate::text::trim_start_char(
                        hc@,
                        '_',
                    ),
                decreases n - i,
            {
                assert(hc@.subrange(i as int, n as int).subrange(1, (n - i) as int) =~= hc@.subrange(i + 1, n as int));
                i += 1;
            }
            proof {
                assert(hc@.subrange(0, n as int) =~= hc@);
            }
            let rest = sub_chars(hc.as_slice(), i, n);
            let low = to_lowercase(rest.as_slice());
            let ini = str_chars(".ini");
            proof {
                reveal_strlit(".ini");
            }
            remove_all_exec(low.as_slice(), ini.as_slice())
        },
        None => str_chars("retail"),
    };
    let g = str_chars("glitch");
    let bl = b.len();
    assert(b@.subrange(0, bl as int) =~= b@);
    if range_eq(b.as_slice(), 0, bl, g.as_slice()) {
        "glitch1".to_owned()
    } else {
        string_from_chars(b.as_slice())
    }
}

fn main_section_of(target: &[char]) -> (r: Vec<char>)
    ensures
        r@ == main_section_name(target@),
{
    let us = str_chars("_");
    proof {
        reveal_strlit("_");
    }
    let n = target.len();
    assert(target@.subrange(0, n as int) =~= target@);
    let j = find_in(target, 0, n, us.as_slice());
    proof {
        crate::text::lemma_find_from(target@, "_"@, 0);
    }
    if j < n {
        let mut out = sub_chars(target, 0, j);
        let mut mid = str_chars("bl_");
        let mut rest = sub_chars(target, j + 1, n);
        out.append(&mut mid);
        out.append(&mut rest);
        out
    } else {
        let mut out = sub_chars(target, 0, n);
        let mut suffix = str_chars("bl");
        out.append(&mut suffix);
        out
    }
}

/// Rows of `[jtag]`, `[security]`, ... of a build INI have at least one part.
pub open spec fn rows_have_names(content: Seq<char>, name: Seq<char>) -> bool {
    forall|k: int| 0 <= k < rows_in(ini_rows(content), name).len() ==> (#[trigger] rows_in(ini_rows(content), name)[k]).len() >= 1
}

proof fn lemma_rows_have_names(content: Seq<char>, name: Seq<char>)
    ensures
        rows_have_names(content, name),
{
    lemma_scan_rows_nonempty(text_lines(content), text_lines(content).len() as int);
    lemma_rows_in_nonempty(ini_rows(content), name);
}

/// Rows of the target's bootloader section.
pub open spec fn main_rows(content: Seq<char>, target: Seq<char>) -> Seq<Seq<Seq<char>>> {
    rows_in(ini_rows(content), unicode_lowercase(main_section_name(target)))
}

pub open spec fn hint_view(h: Option<&str>) -> Option<Seq<char>> {
    match h {
        Some(s) => Some(s@),
        None => None,
    }
}

/// What parsing `content` for `target` with the file name hint gives.
pub open spec fn parsed_xe_ini(
    content: Seq<char>,
    target: Seq<char>,
    hint: Option<Seq<char>>,
    r: Result<XeBuildIni, IniError>,
) -> bool {
    let rows = ini_rows(content);
    let main = main_rows(content, target);
    &&& main.len() == 0 ==> (r matches Err(IniError::SectionNotFound(s)) && s@ == main_section_name(target))
    &&& main.len() > 0 ==> (r matches Ok(ini) && {
        &&& ini.name@ == target
        &&& ini.buildtype@ == build_type_spec(hint)
        &&& entries_view(ini.main@) == main_entries_spec(main)
        &&& entries_view(ini.security@) == security_entries_spec(rows_in(rows, "security"@))
        &&& entries_view(ini.flashfs@) == flashfs_entries_spec(rows_in(rows, "flashfs"@))
        &&& entries_view(ini.payloads@) == payload_entries_spec(rows_in(rows, "payloads"@))
        &&& ini.patch.enabled == (ini.buildtype@ != "retail"@)
        &&& ini.patch.path is None
        &&& ini.patch.khv is None
        &&& ini.rebooter == exists|k: int| 0 <= k < main.len() && prefix_count(main, k, k) >= 1
        &&& ini.jtag.syscall == jtag_syscall_spec(rows_in(rows, "jtag"@), rows_in(rows, "jtag"@).len() as int)
        &&& ini.jtag.pairing_2bl is None
    })
}

/// No bootloader prefix occurs more than 255 times (the chain counter is a byte).
pub open spec fn chain_counts_fit(content: Seq<char>, target: Seq<char>) -> bool {
    forall|k: int| 0 <= k < main_rows(content, target).len() ==> prefix_count(main_rows(content, target), k, k) < 255
}

/// Parses a build INI for a target: its bootloader section (`<target>bl`,
/// e.g. `[trinitybl]`) must hold rows; `[security]`, `[flashfs]`,
/// `[payloads]` and `[jtag]` are read when present. Section names are
/// case-insensitive; the build type comes from the file name hint.
pub fn parse_xe_ini_str(content: &str, target_section: &str, filename_hint: Option<&str>) -> (r: Result<
    XeBuildIni,
    IniError,
>)
    requires
        chain_counts_fit(content@, target_section@),
    ensures
        parsed_xe_ini(content@, target_section@, hint_view(filename_hint), r),
{
    let v = str_chars(content);
    let all = scan_ini(v.as_slice());
    let tc = str_chars(target_section);
    let main_name = main_section_of(tc.as_slice());
    let build_type = build_type_of(filename_hint);
    let key = to_lowercase(main_name.as_slice());
    let main = rows_named(&all, key.as_slice());
    if main.len() == 0 {
        return Err(IniError::SectionNotFound(string_from_chars(main_name.as_slice())));
    }
    proof {
        lemma_rows_have_names(content@, key@);
        lemma_rows_have_names(content@, "security"@);
        lemma_rows_have_names(content@, "flashfs"@);
        lemma_rows_have_names(content@, "payloads"@);
        lemma_rows_have_names(content@, "jtag"@);
    }
    assert(rows_view(main@) == main_rows(content@, target_section@));
    let (main_entries, rebooter) = main_entries(&main);
    let security = security_entries(&rows_named(&all, str_chars("security").as_slice()));
    let flashfs = flashfs_entries(&rows_named(&all, str_chars("flashfs").as_slice()));
    let payloads = payload_entries(&rows_named(&all, str_chars("payloads").as_slice()));
    let syscall = jtag_syscall(&rows_named(&all, str_chars("jtag").as_slice()));
    let retail = str_chars("retail");
    let bt = str_chars(build_type.as_str());
    let btl = bt.len();
    assert(bt@.subrange(0, btl as int) =~= bt@);
    let enabled = !range_eq(bt.as_slice(), 0, btl, retail.as_slice());
    Ok(XeBuildIni {
        name: target_section.to_owned(),
        buildtype: build_type,
        main: main_entries,
        security,
        flashfs,
        payloads,
        patch: BuildIniPatch { enabled, path: None, khv: None },
        rebooter,
        jtag: JtagConfig { syscall, pairing_2bl: None },
    })
}

/// Whether every chain count of `rows` stays below 255.
fn counts_fit(rows: &Vec<Vec<Vec<char>>>) -> (r: bool)
    requires
        forall|k: int| 0 <= k < rows@.len() ==> (#[trigger] rows_view(rows@)[k]).len() >= 1,
    ensures
        r == forall|k: int| 0 <= k < rows@.len() ==> prefix_count(rows_view(rows@), k, k) < 255,
{
    let ghost rv = rows_view(rows@);
    let us = str_chars("_");
    proof {
        reveal_strlit("_");
    }
    let n = rows.len();
    let mut prefixes: Vec<Vec<char>> = Vec::new();
    let mut k: usize = 0;
    while k < n
        invariant
            n == rows@.len(),
            rv == rows_view(rows@),
            us@ == "_"@,
            us@.len() == 1,
            k <= n,
            prefixes@.len() == k,
            forall|q: int| 0 <= q < k ==> (#[trigger] prefixes@[q])@ == bl_prefix(rv[q]),
            forall|q: int| 0 <= q < n ==> (#[trigger] rv[q]).len() >= 1,
            forall|q: int| 0 <= q < k ==> prefix_count(rv, q, q) < 255,
        decreases n - k,
    {
        let row = &rows[k];
        assert(rv[k as int] == row_view(row@));
        assert(rv[k as int][0] == row@[0]@);
        let name0 = &row[0];
        let l0 = name0.len();
        let j = find_in(name0.as_slice(), 0, l0, us.as_slice());
        proof {
            assert(name0@.subrange(0, l0 as int) =~= name0@);
            crate::text::lemma_split_len(name0@, "_"@);
            lemma_split_step(name0@, 0, l0 as int, "_"@, j as int);
            assert(split(name0@, "_"@)[0] == name0@.subrange(0, j as int));
        }
        let head = sub_chars(name0.as_slice(), 0, j);
        let p = to_lowercase(head.as_slice());
        let mut count: usize = 0;
        let mut q: usize = 0;
        while q < k
            invariant
                k < n,
                q <= k,
                prefixes@.len() == k,
                forall|x: int| 0 <= x < k ==> (#[trigger] prefixes@[x])@ == bl_prefix(rv[x]),
                p@ == bl_prefix(rv[k as int]),
                count == prefix_count(rv, k as int, q as int),
                count <= q,
            decreases k - q,
        {
            let pl = prefixes[q].len();
            assert(prefixes@[q as int]@.subrange(0, pl as int) =~= prefixes@[q as int]@);
            if range_eq(prefixes[q].as_slice(), 0, pl, p.as_slice()) {
                count = count + 1;
            }
            q += 1;
        }
        if count >= 255 {
            return false;
        }
        prefixes.push(p);
        k += 1;
    }
    true
}

/// Parses a build INI, or gives `None` when a bootloader prefix occurs 256
/// times or more (its chain number would not fit in a byte).
pub fn parse_xe_ini_checked(content: &str, target_section: &str, filename_hint: Option<&str>) -> (r: Option<
    Result<XeBuildIni, IniError>,
>)
    ensures
        r is None <==> !chain_counts_fit(content@, target_section@),
        r matches Some(res) ==> parsed_xe_ini(content@, target_section@, hint_view(filename_hint), res),
{
    let v = str_chars(content);
    let all = scan_ini(v.as_slice());
    let tc = str_chars(target_section);
    let main_name = main_section_of(tc.as_slice());
    let key = to_lowercase(main_name.as_slice());
    let main = rows_named(&all, key.as_slice());
    proof {
        lemma_rows_have_names(content@, key@);
    }
    assert(rows_view(main@) == main_rows(content@, target_section@));
    if !counts_fit(&main) {
        return None;
    }
    Some(parse_xe_ini_str(content, target_section, filename_hint))
}

/// The bootloader or update slot an INI bootloader file (lower-cased) is
/// loaded into.
#[derive(Debug, Clone, Copy, PartialEq, Eq, Structural)]
pub enum ChainSlot {
    CbA,
    CbB,
    CbX,
    Cb,
    Sc,
    Cd,
    Ce,
    Cf,
    Cg,
}

pub open spec fn chain_slot_spec(n: Seq<char>) -> Option<ChainSlot> {
    if starts_with(n, "cba_"@) {
        Some(ChainSlot::CbA)
    } else if starts_with(n, "cbb_"@) {
        Some(ChainSlot::CbB)
    } else if starts_with(n, "cbx_"@) {
        Some(ChainSlot::CbX)
    } else if starts_with(n, "cb_"@) || starts_with(n, "sb_"@) {
        Some(ChainSlot::Cb)
    } else if starts_with(n, "sc_"@) {
        Some(ChainSlot::Sc)
    } else if starts_with(n, "cd_"@) || starts_with(n, "sd_"@) {
        Some(ChainSlot::Cd)
    } else if starts_with(n, "ce_"@) || starts_with(n, "se_"@) {
        Some(ChainSlot::Ce)
    } else if starts_with(n, "cf_"@) || starts_with(n, "sf_"@) {
        Some(ChainSlot::Cf)
    } else if starts_with(n, "cg_"@) || starts_with(n, "sg_"@) {
        Some(ChainSlot::Cg)
    } else {
        None
    }
}

fn name_has_prefix(n: &[char], p: &str) -> (r: bool)
    ensures
        r == starts_with(n@, p@),
{
    let pc = str_chars(p);
    if pc.len() > n.len() {
        return false;
    }
    range_eq(n, 0, pc.len(), pc.as_slice())
}

/// The slot of an INI bootloader file name (lower-cased), see `chain_slot_spec`.
pub fn chain_slot(lower: &str) -> (r: Option<ChainSlot>)
    ensures
        r == chain_slot_spec(lower@),
{
    let c = str_chars(lower);
    let n = c.as_slice();
    if name_has_prefix(n, "cba_") {
        Some(ChainSlot::CbA)
    } else if name_has_prefix(n, "cbb_") {
        Some(ChainSlot::CbB)
    } else if name_has_prefix(n, "cbx_") {
        Some(ChainSlot::CbX)
    } else if name_has_prefix(n, "cb_") || name_has_prefix(n, "sb_") {
        Some(ChainSlot::Cb)
    } else if name_has_prefix(n, "sc_") {
        Some(ChainSlot::Sc)
    } else if name_has_prefix(n, "cd_") || name_has_prefix(n, "sd_") {
        Some(ChainSlot::Cd)
    } else if name_has_prefix(n, "ce_") || name_has_prefix(n, "se_") {
        Some(ChainSlot::Ce)
    } else if name_has_prefix(n, "cf_") || name_has_prefix(n, "sf_") {
        Some(ChainSlot::Cf)
    } else if name_has_prefix(n, "cg_") || name_has_prefix(n, "sg_") {
        Some(ChainSlot::Cg)
    } else {
        None
    }
}

/// The update slot a CF or CG goes to: the first free of the two, else the
/// first (overwritten).
pub fn update_slot(slot0_taken: bool, slot1_taken: bool) -> (r: usize)
    ensures
        r == (if !slot0_taken {
            0usize
        } else if !slot1_taken {
            1usize
        } else {
            0usize
        }),
{
    if !slot0_taken {
        0
    } else if !slot1_taken {
        1
    } else {
        0
    }
}

/// Description and fixed address of an INI payload: on a JTAG image the
/// exploit payload goes to 0x200, and the fuses and Freeboot payloads are
/// named; otherwise the file name describes it and it is placed freely.
pub open spec fn payload_placement_spec(lower: Seq<char>, filename: Seq<char>, profile: Seq<char>) -> (
    Seq<char>,
    Option<u32>,
) {
    if profile == "jtag"@ {
        if lower == "jtag_payload.bin"@ {
            ("JTAG Exploit Payload"@, Some(0x200u32))
        } else if lower == "fuses.bin"@ {
            ("Virtual Fuses"@, None)
        } else if lower == "freeboot.bin"@ {
            ("Freeboot Kernel"@, None)
        } else {
            (filename, None)
        }
    } else {
        (filename, None)
    }
}

pub fn payload_placement(lower: &str, filename: &str, profile: &str) -> (r: (String, Option<u32>))
    ensures
        (r.0@, r.1) == payload_placement_spec(lower@, filename@, profile@),
{
    let p = str_chars(profile);
    let l = str_chars(lower);
    let jt = str_chars("jtag");
    let jp = str_chars("jtag_payload.bin");
    let fu = str_chars("fuses.bin");
    let fb = str_chars("freeboot.bin");
    assert(p@.subrange(0, p@.len() as int) =~= p@);
    assert(l@.subrange(0, l@.len() as int) =~= l@);
    if range_eq(p.as_slice(), 0, p.len(), jt.as_slice()) {
        if range_eq(l.as_slice(), 0, l.len(), jp.as_slice()) {
            ("JTAG Exploit Payload".to_owned(), Some(0x200))
        } else if range_eq(l.as_slice(), 0, l.len(), fu.as_slice()) {
            ("Virtual Fuses".to_owned(), None)
        } else if range_eq(l.as_slice(), 0, l.len(), fb.as_slice()) {
            ("Freeboot Kernel".to_owned(), None)
        } else {
            (filename.to_owned(), None)
        }
    } else {
        (filename.to_owned(), None)
    }
}

} // verus!
