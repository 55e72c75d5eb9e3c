//! xeBuild binary patches: records of big-endian words grouped into sections
//! by `0xFFFFFFFF` separators; one section is an add-on, three RGH
//! (CB_B, CD, kernel), four JTAG (1BL, CB, CD, kernel).

use vstd::prelude::*;
use crate::gxcore::data::gxp::be32;

verus! {

#[derive(Debug, Clone, Copy, PartialEq, Eq, Structural)]
pub enum XeBuildBinaryType {
    Jtag,
    Rgh,
    Addon,
    Unknown,
}

#[derive(Debug, Clone, Copy, PartialEq, Eq, Structural)]
pub enum XeBuildPatchType {
    Onebl,
    Cb,
    CbB,
    Cd,
    Khv,
    Generic,
}

/// One patch entry: copy `data` to `address`.
#[derive(Debug)]
pub struct PatchRecord {
    pub address: u32,
    pub amount: u32,
    pub data: Vec<u32>,
}

impl View for PatchRecord {
    type V = (u32, u32, Seq<u32>);

    open spec fn view(&self) -> (u32, u32, Seq<u32>) {
        (self.address, self.amount, self.data@)
    }
}

#[derive(Debug)]
pub struct XeBuildPatch {
    pub patch_type: XeBuildPatchType,
    pub records: Vec<PatchRecord>,
}

#[derive(Debug)]
pub struct XeBuildBinary {
    pub xetype: XeBuildBinaryType,
    pub onebl: Option<XeBuildPatch>,
    pub cb: Option<XeBuildPatch>,
    pub cb_b: Option<XeBuildPatch>,
    pub cd: Option<XeBuildPatch>,
    pub khv: Option<XeBuildPatch>,
    pub generic: Option<XeBuildPatch>,
}

pub open spec fn records_view(s: Seq<PatchRecord>) -> Seq<(u32, u32, Seq<u32>)> {
    s.map_values(|r: PatchRecord| r@)
}

pub open spec fn sections_view(s: Seq<Vec<PatchRecord>>) -> Seq<Seq<(u32, u32, Seq<u32>)>> {
    s.map_values(|v: Vec<PatchRecord>| records_view(v@))
}

/// Big-endian words `d[p..p + 4 * n]`.
pub open spec fn words_at(d: Seq<u8>, p: int, n: int) -> Seq<u32> {
    Seq::new(n as nat, |k: int| be32(d, p + 4 * k) as u32)
}

/// Sections read from `pos` on after the closed sections `done` and the open
/// one `cur`; `None` when the data ends inside a record. Fewer than four bytes
/// left end the data, closing the open section if it holds records.
pub open spec fn xe_sections_from(
    d: Seq<u8>,
    pos: int,
    done: Seq<Seq<(u32, u32, Seq<u32>)>>,
    cur: Seq<(u32, u32, Seq<u32>)>,
) -> Option<Seq<Seq<(u32, u32, Seq<u32>)>>>
    decreases d.len() - pos,
{
    if pos < 0 || pos + 4 > d.len() {
        Some(if cur.len() > 0 { done.push(cur) } else { done })
    } else if be32(d, pos) == 0xFFFF_FFFF {
        xe_sections_from(d, pos + 4, done.push(cur), Seq::empty())
    } else if pos + 8 > d.len() {
        None
    } else {
        let amount = be32(d, pos + 4);
        if pos + 8 + 4 * amount > d.len() {
            None
        } else {
            xe_sections_from(
                d,
                pos + 8 + 4 * amount,
                done,
                cur.push((be32(d, pos) as u32, amount as u32, words_at(d, pos + 8, amount))),
            )
        }
    }
}

fn read_word(s: &[u8], p: usize) -> (r: u32)
    requires
        p + 4 <= s@.len(),
    ensures
        r == be32(s@, p as int),
{
    (s[p] as u32) * 0x100_0000 + (s[p + 1] as u32) * 0x1_0000 + (s[p + 2] as u32) * 0x100 + (s[p + 3] as u32)
}

/// Reads patch records into sections; `None` when the data ends inside a record.
pub fn parse_patch_records(data: &[u8]) -> (r: Option<Vec<Vec<PatchRecord>>>)
    ensures
        match xe_sections_from(data@, 0, Seq::empty(), Seq::empty()) {
            Some(s) => r matches Some(v) && sections_view(v@) == s,
            None => r is None,
        },
{
    let len = data.len();
    let mut sections: Vec<Vec<PatchRecord>> = Vec::new();
    let mut cur: Vec<PatchRecord> = Vec::new();
    let mut pos: usize = 0;
    assert(sections_view(sections@) =~= Seq::<Seq<(u32, u32, Seq<u32>)>>::empty());
    assert(records_view(cur@) =~= Seq::<(u32, u32, Seq<u32>)>::empty());
    loop
        invariant
            len == data@.len(),
            xe_sections_from(data@, pos as int, sections_view(sections@), records_view(cur@)) == xe_sections_from(
                data@,
                0,
                Seq::empty(),
                Seq::empty(),
            ),
        decreases len - pos,
    {
        if pos > len || len - pos < 4 {
            let ghost cv = records_view(cur@);
            let ghost before = sections_view(sections@);
            if cur.len() > 0 {
                sections.push(cur);
                assert(sections_view(sections@) =~= before.push(cv));
            }
            return Some(sections);
        }
        let word = read_word(data, pos);
        if word == 0xFFFF_FFFF {
            let ghost cv = records_view(cur@);
            let ghost before = sections_view(sections@);
            let taken = cur;
            cur = Vec::new();
            sections.push(taken);
            assert(sections_view(sections@) =~= before.push(cv));
            assert(records_view(cur@) =~= Seq::<(u32, u32, Seq<u32>)>::empty());
            pos = pos + 4;
            continue;
        }
        if len - pos < 8 {
            return None;
        }
        let amount = read_word(data, pos + 4);
        if (amount as u64) * 4 > (len - pos - 8) as u64 {
            return None;
        }
        let count = amount as usize;
        let mut words: Vec<u32> = Vec::new();
        let mut k: usize = 0;
        while k < count
            invariant
                k <= count,
                count == amount,
                pos + 8 + 4 * count <= len == data@.len(),
                words@ == words_at(data@, pos + 8, k as int),
            decreases count - k,
        {
            words.push(read_word(data, pos + 8 + 4 * k));
            assert(words@ =~= words_at(data@, pos + 8, k + 1));
            k += 1;
        }
        let ghost cv = records_view(cur@);
        let rec = PatchRecord { address: word, amount, data: words };
        cur.push(rec);
        assert(records_view(cur@) =~= cv.push(rec@));
        pos = pos + 8 + 4 * count;
    }
}

pub open spec fn patch_view(p: Option<XeBuildPatch>) -> Option<(XeBuildPatchType, Seq<(u32, u32, Seq<u32>)>)> {
    match p {
        Some(x) => Some((x.patch_type, records_view(x.records@))),
        None => None,
    }
}

/// `b` holds the sections `s` routed by their count: one is an add-on
/// (generic), three RGH (CB_B, CD, kernel), four JTAG (1BL, CB, CD, kernel);
/// other counts give an unknown binary with no patches.
pub open spec fn xe_routed(b: XeBuildBinary, s: Seq<Seq<(u32, u32, Seq<u32>)>>) -> bool {
    &&& s.len() == 1 ==> b.xetype == XeBuildBinaryType::Addon && patch_view(b.generic) == Some(
        (XeBuildPatchType::Generic, s[0]),
    ) && b.onebl is None && b.cb is None && b.cb_b is None && b.cd is None && b.khv is None
    &&& s.len() == 3 ==> b.xetype == XeBuildBinaryType::Rgh && patch_view(b.cb_b) == Some(
        (XeBuildPatchType::CbB, s[0]),
    ) && patch_view(b.cd) == Some((XeBuildPatchType::Cd, s[1])) && patch_view(b.khv) == Some(
        (XeBuildPatchType::Khv, s[2]),
    ) && b.onebl is None && b.cb is None && b.generic is None
    &&& s.len() == 4 ==> b.xetype == XeBuildBinaryType::Jtag && patch_view(b.onebl) == Some(
        (XeBuildPatchType::Onebl, s[0]),
    ) && patch_view(b.cb) == Some((XeBuildPatchType::Cb, s[1])) && patch_view(b.cd) == Some(
        (XeBuildPatchType::Cd, s[2]),
    ) && patch_view(b.khv) == Some((XeBuildPatchType::Khv, s[3])) && b.cb_b is None && b.generic is None
    &&& (s.len() != 1 && s.len() != 3 && s.len() != 4) ==> b.xetype == XeBuildBinaryType::Unknown
        && b.onebl is None && b.cb is None && b.cb_b is None && b.cd is None && b.khv is None
        && b.generic is None
}

/// Routes parsed sections by their count (see `xe_routed`).
pub fn route_xe_sections(sections: Vec<Vec<PatchRecord>>) -> (b: XeBuildBinary)
    ensures
        xe_routed(b, sections_view(sections@)),
{
    let ghost s = sections_view(sections@);
    let mut sections = sections;
    let n = sections.len();
    let mut out = XeBuildBinary {
        xetype: XeBuildBinaryType::Unknown,
        onebl: None,
        cb: None,
        cb_b: None,
        cd: None,
        khv: None,
        generic: None,
    };
    if n == 1 {
        out.xetype = XeBuildBinaryType::Addon;
        out.generic = Some(XeBuildPatch { patch_type: XeBuildPatchType::Generic, records: sections.remove(0) });
    } else if n == 3 {
        let c = sections.remove(0);
        let d = sections.remove(0);
        let k = sections.remove(0);
        out.xetype = XeBuildBinaryType::Rgh;
        out.cb_b = Some(XeBuildPatch { patch_type: XeBuildPatchType::CbB, records: c });
        out.cd = Some(XeBuildPatch { patch_type: XeBuildPatchType::Cd, records: d });
        out.khv = Some(XeBuildPatch { patch_type: XeBuildPatchType::Khv, records: k });
    } else if n == 4 {
        let o = sections.remove(0);
        let c = sections.remove(0);
        let d = sections.remove(0);
        let k = sections.remove(0);
        out.xetype = XeBuildBinaryType::Jtag;
        out.onebl = Some(XeBuildPatch { patch_type: XeBuildPatchType::Onebl, records: o });
        out.cb = Some(XeBuildPatch { patch_type: XeBuildPatchType::Cb, records: c });
        out.cd = Some(XeBuildPatch { patch_type: XeBuildPatchType::Cd, records: d });
        out.khv = Some(XeBuildPatch { patch_type: XeBuildPatchType::Khv, records: k });
    }
    out
}

/// Parses an xeBuild patch binary held in memory; `None` when it ends inside a record.
pub fn parse_xe_binary(data: &[u8]) -> (r: Option<XeBuildBinary>)
    ensures
        match xe_sections_from(data@, 0, Seq::empty(), Seq::empty()) {
            Some(s) => r matches Some(b) && xe_routed(b, s),
            None => r is None,
        },
{
    match parse_patch_records(data) {
        Some(sections) => Some(route_xe_sections(sections)),
        None => None,
    }
}

} // verus!
