//! ECC, spare data and bad-block management for Xbox 360 NAND images.
use std::collections::HashMap;
use vstd::prelude::*;

verus! {

broadcast use vstd::std_specs::hash::group_hash_axioms;

/// Physical organisation of a NAND image.
#[derive(Clone, Copy, Debug, PartialEq, Eq, Structural)]
pub enum NandLayout {
    Xsb,
    Sb,
    Bb,
    Emmc,
}

/// Format of the block metadata stored in the spare area.
#[derive(Clone, Copy, Debug, PartialEq, Eq, Structural)]
pub enum SpareMetaType {
    /// Small Block XSB
    MetaType0,
    /// Small Block PSB/KSB
    MetaType1,
    /// Big Block
    MetaType2,
    /// eMMC / Logical Image
    MetaTypeNone,
}

#[derive(Clone, Copy, Debug, PartialEq, Eq, Structural)]
pub enum SpareProfile {
    Empty,
    Metadata,
    FileSystem,
}

#[derive(Clone, Copy, Debug, PartialEq, Eq, Structural)]
pub struct BadBlock {
    pub block: usize,
    pub target: usize,
}

/// Errors raised while analysing or healing a NAND image.
#[derive(Clone, Copy, Debug, PartialEq, Eq, Structural)]
pub enum BlocksError {
    /// No known layout has an image of this size.
    UnknownLayout(usize),
    /// A bad block has no copy in the reserve area.
    BadBlockNotRemapped(usize),
}

/// Smallest image length that no slice can reach: slices never exceed `isize::MAX` bytes.
pub open spec fn slice_len_ok(n: int) -> bool {
    n <= isize::MAX
}

impl NandLayout {
    pub open spec fn block_size_spec(self) -> int {
        match self {
            NandLayout::Xsb | NandLayout::Sb => 0x4200,
            NandLayout::Bb => 0x21000,
            NandLayout::Emmc => 0x200,
        }
    }

    pub open spec fn pages_per_block_spec(self) -> int {
        match self {
            NandLayout::Xsb | NandLayout::Sb => 32,
            NandLayout::Bb => 256,
            NandLayout::Emmc => 1,
        }
    }

    pub open spec fn spare_size_spec(self) -> int {
        match self {
            NandLayout::Emmc => 0,
            _ => 0x10,
        }
    }

    pub open spec fn marker_offset_spec(self) -> int {
        match self {
            NandLayout::Xsb | NandLayout::Sb => 0x205,
            NandLayout::Bb => 0x200,
            NandLayout::Emmc => 0,
        }
    }

    pub open spec fn id_offset_spec(self) -> int {
        match self {
            NandLayout::Xsb | NandLayout::Sb => 0x200,
            NandLayout::Bb => 0x201,
            NandLayout::Emmc => 0,
        }
    }

    pub open spec fn reserve_start_spec(self) -> int {
        match self {
            NandLayout::Xsb | NandLayout::Sb => 0x3E0,
            NandLayout::Bb => 0x1E0,
            NandLayout::Emmc => 0,
        }
    }

    pub open spec fn max_blocks_spec(self) -> int {
        match self {
            NandLayout::Xsb | NandLayout::Sb => 0x400,
            NandLayout::Bb => 0x200,
            NandLayout::Emmc => 0,
        }
    }

    /// Number of blocks in an image of `len` bytes: physical blocks when the length
    /// is a multiple of the physical block size, else logical blocks when it is a
    /// multiple of the logical block size, else whole physical blocks.
    pub open spec fn total_blocks_spec(self, len: int) -> int {
        let logical = self.pages_per_block_spec() * 0x200;
        let physical = self.block_size_spec();
        if len % physical == 0 {
            len / physical
        } else if len % logical == 0 {
            len / logical
        } else {
            len / physical
        }
    }

    /// Physical offset of logical byte `lp` (spare gaps inserted every 512 bytes on
    /// small block and every 2048 bytes on big block).
    pub open spec fn logical_to_physical_spec(self, lp: int) -> int {
        match self {
            NandLayout::Emmc => lp,
            NandLayout::Xsb | NandLayout::Sb => (lp / 512) * 528 + lp % 512,
            NandLayout::Bb => (lp / 2048) * 2112 + lp % 2048,
        }
    }

    pub fn block_size(&self) -> (r: usize)
        ensures
            r == self.block_size_spec(),
    {
        match self {
            NandLayout::Xsb | NandLayout::Sb => 0x4200,
            NandLayout::Bb => 0x21000,
            NandLayout::Emmc => 0x200,
        }
    }

    pub fn logical_pages_per_block(&self) -> (r: usize)
        ensures
            r == self.pages_per_block_spec(),
    {
        match self {
            NandLayout::Xsb | NandLayout::Sb => 32,
            NandLayout::Bb => 256,
            NandLayout::Emmc => 1,
        }
    }

    pub fn total_blocks(&self, image_len: usize) -> (r: usize)
        ensures
            r == self.total_blocks_spec(image_len as int),
    {
        let logical_block_size = self.logical_pages_per_block() * 0x200;
        let physical_block_size = self.block_size();
        if physical_block_size > 0 && image_len % physical_block_size == 0 {
            image_len / physical_block_size
        } else if logical_block_size > 0 && image_len % logical_block_size == 0 {
            image_len / logical_block_size
        } else {
            image_len / physical_block_size
        }
    }

    pub fn page_size(&self) -> (r: usize)
        ensures
            r == 0x200,
    {
        0x200
    }

    pub fn spare_size(&self) -> (r: usize)
        ensures
            r == self.spare_size_spec(),
    {
        match self {
            NandLayout::Emmc => 0,
            _ => 0x10,
        }
    }

    pub fn physical_page_size(&self) -> (r: usize)
        ensures
            r == 0x200 + self.spare_size_spec(),
    {
        self.page_size() + self.spare_size()
    }

    pub fn logical_to_physical(&self, logical_page: usize) -> (r: u64)
        requires
            self.logical_to_physical_spec(logical_page as int) <= usize::MAX,
        ensures
            r == self.logical_to_physical_spec(logical_page as int),
    {
        match self {
            NandLayout::Emmc => logical_page as u64,
            NandLayout::Xsb | NandLayout::Sb => {
                ((logical_page / 512) * 528 + (logical_page % 512)) as u64
            },
            NandLayout::Bb => { ((logical_page / 2048) * 2112 + (logical_page % 2048)) as u64 },
        }
    }

    pub fn marker_offset(&self) -> (r: usize)
        ensures
            r == self.marker_offset_spec(),
    {
        match self {
            NandLayout::Xsb | NandLayout::Sb => 0x205,
            NandLayout::Bb => 0x200,
            NandLayout::Emmc => 0,
        }
    }

    pub fn id_offset(&self) -> (r: usize)
        ensures
            r == self.id_offset_spec(),
    {
        match self {
            NandLayout::Xsb | NandLayout::Sb => 0x200,
            NandLayout::Bb => 0x201,
            NandLayout::Emmc => 0,
        }
    }

    /// First block of the reserve (remap) area; the image length plays no part.
    pub fn reserve_start(&self, _image_len: usize) -> (r: usize)
        ensures
            r == self.reserve_start_spec(),
    {
        match self {
            NandLayout::Xsb | NandLayout::Sb => 0x3E0,
            NandLayout::Bb => 0x1E0,
            NandLayout::Emmc => 0,
        }
    }

    pub fn max_blocks(&self) -> (r: usize)
        ensures
            r == self.max_blocks_spec(),
    {
        match self {
            NandLayout::Xsb | NandLayout::Sb => 0x400,
            NandLayout::Bb => 0x200,
            NandLayout::Emmc => 0,
        }
    }

    pub fn physical_block_size(&self) -> (r: usize)
        ensures
            r == self.block_size_spec(),
    {
        self.block_size()
    }

    /// Layout implied by an image length, if any.
    pub open spec fn detect_spec(len: int) -> Option<NandLayout> {
        if 0x1080000 <= len <= 0x1080000 + 0x1000 {
            Some(NandLayout::Sb)
        } else if 0x4200000 <= len <= 0x4200000 + 0x1000 {
            Some(NandLayout::Bb)
        } else if 0x10800000 <= len <= 0x10800000 + 0x1000 {
            Some(NandLayout::Bb)
        } else if 0x21000000 <= len <= 0x21000000 + 0x1000 {
            Some(NandLayout::Bb)
        } else if len == 0x1000000 {
            Some(NandLayout::Sb)
        } else if len == 0x4000000 || len == 0x10000000 || len == 0x20000000 {
            Some(NandLayout::Bb)
        } else if len == 0x3000000 || len >= 0x30000000 {
            Some(NandLayout::Emmc)
        } else {
            None
        }
    }

    /// Detects the layout from the image size alone; never `Xsb`, which is
    /// promoted from `Sb` later from what the image holds.
    pub fn detect(image: &[u8]) -> (r: Result<Self, BlocksError>)
        ensures
            match Self::detect_spec(image@.len() as int) {
                Some(l) => r == Ok::<NandLayout, BlocksError>(l),
                None => r == Err::<NandLayout, BlocksError>(BlocksError::UnknownLayout(image@.len() as usize)),
            },
            r != Ok::<NandLayout, BlocksError>(NandLayout::Xsb),
    {
        let len = image.len();
        if len >= 0x1080000 && len <= 0x1080000 + 0x1000 {
            Ok(NandLayout::Sb)
        } else if len >= 0x4200000 && len <= 0x4200000 + 0x1000 {
            Ok(NandLayout::Bb)
        } else if len >= 0x10800000 && len <= 0x10800000 + 0x1000 {
            Ok(NandLayout::Bb)
        } else if len >= 0x21000000 && len <= 0x21000000 + 0x1000 {
            Ok(NandLayout::Bb)
        } else if len == 0x1000000 {
            Ok(NandLayout::Sb)
        } else if len == 0x4000000 || len == 0x10000000 || len == 0x20000000 {
            Ok(NandLayout::Bb)
        } else if len == 0x3000000 || len >= 0x30000000 {
            Ok(NandLayout::Emmc)
        } else {
            Err(BlocksError::UnknownLayout(len))
        }
    }
}

// ---------------------------------------------------------------------------
// Spare area access
// ---------------------------------------------------------------------------

/// Offset of the 16-byte spare region that belongs to physical page `page`.
pub open spec fn spare_offset_spec(page: int, layout: NandLayout) -> int {
    match layout {
        NandLayout::Bb => (page / 4) * 0x840 + 0x800 + (page % 4) * 0x10,
        _ => page * 0x210 + 0x200,
    }
}

pub open spec fn get_page_spare_spec(image: Seq<u8>, page: int, layout: NandLayout) -> Option<Seq<u8>> {
    if layout == NandLayout::Emmc {
        None
    } else {
        let off = spare_offset_spec(page, layout);
        if off + 0x10 <= image.len() {
            Some(image.subrange(off, off + 0x10))
        } else {
            None
        }
    }
}

pub fn get_page_spare(image: &[u8], page: usize, layout: &NandLayout) -> (r: Option<Vec<u8>>)
    requires
        spare_offset_spec(page as int, *layout) + 0x10 <= usize::MAX,
    ensures
        match get_page_spare_spec(image@, page as int, *layout) {
            Some(s) => r is Some && r->0@ == s,
            None => r is None,
        },
{
    let spare_size = layout.spare_size();
    if spare_size == 0 {
        return None;
    }
    match layout {
        NandLayout::Bb => {
            let group = page / 4;
            let page_in_group = page % 4;
            let group_offset = group * 0x840;
            let spare_offset = group_offset + 0x800 + (page_in_group * 0x10);
            if spare_offset + spare_size <= image.len() {
                Some(slice_to_vec(image, spare_offset, spare_offset + spare_size))
            } else {
                None
            }
        },
        NandLayout::Xsb | NandLayout::Sb => {
            let offset = (page * layout.physical_page_size()) + layout.page_size();
            if offset + spare_size <= image.len() {
                Some(slice_to_vec(image, offset, offset + spare_size))
            } else {
                None
            }
        },
        NandLayout::Emmc => None,
    }
}

/// Copies `image[start..end]` into a new vector.
pub fn slice_to_vec(image: &[u8], start: usize, end: usize) -> (r: Vec<u8>)
    requires
        start <= end <= image@.len(),
    ensures
        r@ == image@.subrange(start as int, end as int),
{
    let mut out: Vec<u8> = Vec::with_capacity(end - start);
    let mut i = start;
    while i < end
        invariant
            start <= i <= end <= image@.len(),
            out@ == image@.subrange(start as int, i as int),
        decreases end - i,
    {
        out.push(image[i]);
        i += 1;
    }
    out
}

/// True when every byte of `s[start..end]` equals `b`.
pub open spec fn all_eq(s: Seq<u8>, start: int, end: int, b: u8) -> bool {
    forall|k: int| start <= k < end ==> s[k] == b
}

fn range_all_eq(image: &[u8], start: usize, end: usize, b: u8) -> (r: bool)
    requires
        start <= end <= image@.len(),
    ensures
        r == all_eq(image@, start as int, end as int, b),
{
    let mut i = start;
    while i < end
        invariant
            start <= i <= end <= image@.len(),
            all_eq(image@, start as int, i as int, b),
        decreases end - i,
    {
        if image[i] != b {
            return false;
        }
        i += 1;
    }
    true
}

// ---------------------------------------------------------------------------
// Bad block detection
// ---------------------------------------------------------------------------

pub open spec fn bb_group_bad(image: Seq<u8>, offset: int, g: int) -> bool {
    &&& offset + g * 0x840 + 0x840 <= image.len()
    &&& image[offset + g * 0x840 + 0x800] != 0xFF
}

pub open spec fn sb_page_bad(image: Seq<u8>, offset: int, p: int) -> bool {
    let po = offset + p * 0x210;
    all_eq(image, po + 0x200, po + 0x210, 0) || image[po + 0x205] != 0xFF
}

/// A block is bad when it lies inside the image and, on big block, one of its
/// 0x840-byte groups (that fits in the image) has a marker other than 0xFF, or,
/// on small block, one of its 32 pages has an all-zero spare or a marker other
/// than 0xFF. eMMC has no bad blocks.
pub open spec fn is_bad_block_spec(image: Seq<u8>, block: int, layout: NandLayout) -> bool {
    let offset = block * layout.block_size_spec();
    if offset + layout.block_size_spec() > image.len() {
        false
    } else {
        match layout {
            NandLayout::Bb => exists|g: int| 0 <= g < 66 && #[trigger] bb_group_bad(image, offset, g),
            NandLayout::Xsb | NandLayout::Sb => exists|p: int|
                0 <= p < 32 && #[trigger] sb_page_bad(image, offset, p),
            NandLayout::Emmc => false,
        }
    }
}

/// On big block, a block inside the image is bad exactly when, in one of its
/// first 66 groups of 0x840 bytes that lie inside the image, the first spare
/// byte (at 0x800 in the group) is not 0xFF.
pub proof fn lemma_bb_bad_block_marker(image: Seq<u8>, block: int)
    requires
        0 <= block,
        (block + 1) * 0x21000 <= image.len(),
    ensures
        is_bad_block_spec(image, block, NandLayout::Bb) <==> exists|g: int|
            0 <= g < 66 && block * 0x21000 + g * 0x840 + 0x840 <= image.len() && #[trigger] image[block * 0x21000 + g
                * 0x840 + 0x800] != 0xFF,
{
    let offset = block * 0x21000;
    assert(offset == block * NandLayout::Bb.block_size_spec());
    assert(offset + NandLayout::Bb.block_size_spec() <= image.len());
    let m = |g: int|
        0 <= g < 66 && block * 0x21000 + g * 0x840 + 0x840 <= image.len() && image[block * 0x21000 + g * 0x840
            + 0x800] != 0xFF;
    assert forall|g: int| 0 <= g < 66 implies #[trigger] bb_group_bad(image, offset, g) == m(g) by {}
    if is_bad_block_spec(image, block, NandLayout::Bb) {
        assert(exists|g: int| 0 <= g < 66 && #[trigger] bb_group_bad(image, offset, g));
        let g = choose|g: int| 0 <= g < 66 && #[trigger] bb_group_bad(image, offset, g);
        assert(m(g));
        assert(image[block * 0x21000 + g * 0x840 + 0x800] != 0xFF);
    }
    if exists|g: int|
        0 <= g < 66 && block * 0x21000 + g * 0x840 + 0x840 <= image.len() && #[trigger] image[block * 0x21000 + g
            * 0x840 + 0x800] != 0xFF {
        let g = choose|g: int|
            0 <= g < 66 && block * 0x21000 + g * 0x840 + 0x840 <= image.len() && #[trigger] image[block * 0x21000 + g
                * 0x840 + 0x800] != 0xFF;
        assert(bb_group_bad(image, offset, g));
        assert(is_bad_block_spec(image, block, NandLayout::Bb));
    }
}

/// On small block, a block inside the image is bad exactly when one of its 32
/// pages has a spare (bytes 0x200..0x210 of the page) of all zero bytes, or a
/// bad-block marker (spare byte 5, at 0x205 in the page) other than 0xFF.
pub proof fn lemma_sb_bad_block_marker(image: Seq<u8>, block: int, layout: NandLayout)
    requires
        layout == NandLayout::Sb || layout == NandLayout::Xsb,
        0 <= block,
        (block + 1) * 0x4200 <= image.len(),
    ensures
        is_bad_block_spec(image, block, layout) <==> exists|p: int|
            0 <= p < 32 && (#[trigger] all_eq(image, block * 0x4200 + p * 0x210 + 0x200, block * 0x4200 + p * 0x210
                + 0x210, 0) || image[block * 0x4200 + p * 0x210 + 0x205] != 0xFF),
{
    let offset = block * 0x4200;
    assert(offset == block * layout.block_size_spec());
    assert forall|p: int|
        #![trigger sb_page_bad(image, offset, p)]
        #![trigger all_eq(image, block * 0x4200 + p * 0x210 + 0x200, block * 0x4200 + p * 0x210 + 0x210, 0)]
        0 <= p < 32 implies sb_page_bad(image, offset, p) == (all_eq(
        image,
        block * 0x4200 + p * 0x210 + 0x200,
        block * 0x4200 + p * 0x210 + 0x210,
        0,
    ) || image[block * 0x4200 + p * 0x210 + 0x205] != 0xFF) by {
        let po = offset + p * 0x210;
        assert(po + 0x200 == block * 0x4200 + p * 0x210 + 0x200);
        assert(po + 0x210 == block * 0x4200 + p * 0x210 + 0x210);
        assert(po + 0x205 == block * 0x4200 + p * 0x210 + 0x205);
    }
    if is_bad_block_spec(image, block, layout) {
        let p = choose|p: int| 0 <= p < 32 && #[trigger] sb_page_bad(image, offset, p);
        assert(all_eq(image, block * 0x4200 + p * 0x210 + 0x200, block * 0x4200 + p * 0x210 + 0x210, 0) || image[block
            * 0x4200 + p * 0x210 + 0x205] != 0xFF);
    } else {
        assert forall|p: int|
            #![trigger all_eq(image, block * 0x4200 + p * 0x210 + 0x200, block * 0x4200 + p * 0x210 + 0x210, 0)]
            0 <= p < 32 implies !(all_eq(image, block * 0x4200 + p * 0x210 + 0x200, block * 0x4200 + p * 0x210 + 0x210, 0)
                || image[block * 0x4200 + p * 0x210 + 0x205] != 0xFF) by {
            assert(!sb_page_bad(image, offset, p));
        }
    }
}

pub fn is_bad_block(image: &[u8], block_number: usize, layout: &NandLayout) -> (r: bool)
    requires
        block_number * layout.block_size_spec() + layout.block_size_spec() <= usize::MAX,
        slice_len_ok(image@.len() as int),
    ensures
        r == is_bad_block_spec(image@, block_number as int, *layout),
{
    let block_size = layout.block_size();
    let marker_offset = layout.marker_offset();
    let offset = block_number * block_size;
    assert(offset as int == block_number as int * layout.block_size_spec());
    if offset + block_size > image.len() {
        return false;
    }
    let p_page_size = layout.physical_page_size();
    let l_page_size = layout.page_size();
    match layout {
        NandLayout::Bb => {
            let pages_per_block = block_size / 0x800;
            assert(pages_per_block == 66);
            let mut group: usize = 0;
            while group < pages_per_block
                invariant
                    pages_per_block == 66,
                    *layout == NandLayout::Bb,
                    offset + 0x21000 <= image@.len(),
                    slice_len_ok(image@.len() as int),
                    offset == block_number * 0x21000,
                    group <= 66,
                    forall|g: int| 0 <= g < group ==> !bb_group_bad(image@, offset as int, g),
                decreases 66 - group,
            {
                let group_offset = offset + (group * 0x840);
                if group_offset + 0x840 > image.len() {
                    assert forall|g: int| group <= g < 66 implies !bb_group_bad(
                        image@,
                        offset as int,
                        g,
                    ) by {
                        assert(offset + g * 0x840 >= offset + group * 0x840) by (nonlinear_arith)
                            requires
                                g >= group,
                        ;
                    }
                    return false;
                }
                if image[group_offset + 0x800] != 0xFF {
                    assert(bb_group_bad(image@, block_number as int * layout.block_size_spec(), group as int));
                    return true;
                }
                group += 1;
            }
            false
        },
        NandLayout::Xsb | NandLayout::Sb => {
            let mut i: usize = 0;
            let mut p: usize = 0;
            // 32 physical pages of 0x210 bytes fill the 0x4200-byte block exactly.
            while p < 32
                invariant
                    p_page_size == 0x210,
                    l_page_size == 0x200,
                    block_size == 0x4200,
                    *layout == NandLayout::Sb || *layout == NandLayout::Xsb,
                    marker_offset == 0x205,
                    i == p * 0x210,
                    p <= 32,
                    offset + 0x4200 <= image@.len(),
                    offset == block_number * 0x4200,
                    image@.len() <= usize::MAX,
                    forall|q: int| 0 <= q < p ==> !#[trigger] sb_page_bad(image@, block_number as int * layout.block_size_spec(), q),
                decreases 32 - p,
            {
                let page_offset = offset + i;
                if range_all_eq(image, page_offset + l_page_size, page_offset + p_page_size, 0) {
                    assert(sb_page_bad(image@, block_number as int * layout.block_size_spec(), p as int));
                    return true;
                }
                if image[page_offset + marker_offset] != 0xFF {
                    assert(sb_page_bad(image@, block_number as int * layout.block_size_spec(), p as int));
                    return true;
                }
                i += p_page_size;
                p += 1;
            }
            assert(p == 32);
            false
        },
        NandLayout::Emmc => false,
    }
}

/// Promotes `Sb` to `Xsb` when the first spare has 0xFF at byte 5 and a
/// non-zero byte 0 (Xenon spare format).
pub open spec fn promote_layout_spec(image: Seq<u8>, layout: NandLayout) -> NandLayout {
    if layout != NandLayout::Sb || image.len() < 0x210 {
        layout
    } else if image[0x205] == 0xFF && image[0x200] != 0x00 {
        NandLayout::Xsb
    } else {
        layout
    }
}

pub fn promote_layout(image: &[u8], layout: NandLayout) -> (r: NandLayout)
    ensures
        r == promote_layout_spec(image@, layout),
{
    if layout != NandLayout::Sb {
        return layout;
    }
    if image.len() < 0x210 {
        return layout;
    }
    let spare5 = image[0x205];
    let spare0 = image[0x200];
    if spare5 == 0xFF && spare0 != 0x00 {
        return NandLayout::Xsb;
    }
    layout
}


// ---------------------------------------------------------------------------
// Spare presence detection
// ---------------------------------------------------------------------------

/// Big-block spare pattern at `i`: markers 0xFF every 0x10 bytes, zero ECC bytes
/// 3 and 4, and not an erased (all 0xFF) 0x40-byte block.
pub open spec fn bb_spare_hit(s: Seq<u8>, i: int) -> bool {
    &&& i + 0x40 <= s.len()
    &&& s[i] == 0xFF
    &&& s[i + 0x10] == 0xFF
    &&& s[i + 0x20] == 0xFF
    &&& s[i + 0x30] == 0xFF
    &&& s[i + 3] == 0
    &&& s[i + 4] == 0
    &&& !all_eq(s, i, i + 0x40, 0xFF)
}

/// Small-block spare pattern at `i`: 0xFF at byte 0 or 5, zero bytes 3 and 4, and
/// ECC bytes 0xC..0x10 neither all 0xFF nor all zero.
pub open spec fn sb_spare_hit(s: Seq<u8>, i: int) -> bool {
    &&& i + 0x10 <= s.len()
    &&& (s[i] == 0xFF || s[i + 5] == 0xFF)
    &&& s[i + 3] == 0
    &&& s[i + 4] == 0
    &&& !all_eq(s, i + 0xC, i + 0x10, 0xFF)
    &&& !all_eq(s, i + 0xC, i + 0x10, 0)
}

/// The page scan of `has_spare` from position `i` with `counter` blocks seen.
pub open spec fn has_spare_scan(s: Seq<u8>, i: int, counter: int) -> bool
    decreases s.len() + 0x300 - i,
{
    if i < 0 || i >= s.len() || counter > 0x100 {
        false
    } else if i % 0x800 == 0 {
        if bb_spare_hit(s, i) {
            true
        } else {
            let j = i + 0x40 + 0x200;
            has_spare_scan(s, j, if j % 0x4200 == 0 { counter + 1 } else { counter })
        }
    } else {
        if sb_spare_hit(s, i) {
            true
        } else {
            let j = i + 0x10 + 0x200;
            has_spare_scan(s, j, if j % 0x4200 == 0 { counter + 1 } else { counter })
        }
    }
}

pub open spec fn has_spare_spec(s: Seq<u8>) -> bool {
    ||| (s.len() > 0x210 && has_spare_scan(s, 0x200, 0))
    ||| (s.len() > 0x840 && s[0x800] == 0xFF && s[0x810] == 0xFF && s[0x820] == 0xFF && !all_eq(s, 0x800, 0x840, 0xFF))
}

/// Returns true if the image has spare/ECC data appended to each page. The
/// pages and their ECC bytes are checked so that erased NAND (all 0xFF) is not
/// taken for spare data; this includes the big-block check at 0x800.
pub fn has_spare(image: &[u8]) -> (r: bool)
    requires
        slice_len_ok(image@.len() as int),
    ensures
        r == has_spare_spec(image@),
{
    let len = image.len();
    if len > 0x210 {
        let mut counter: usize = 0;
        let mut i: usize = 0x200;
        while i < len && counter <= 0x100
            invariant
                len == image@.len(),
                len > 0x210,
                i >= 0x200,
                slice_len_ok(len as int),
                i <= len + 0x240,
                counter <= 0x101,
                has_spare_scan(image@, 0x200, 0) == has_spare_scan(image@, i as int, counter as int),
            decreases len + 0x240 - i,
        {
            if i % 0x800 == 0 {
                if i + 0x40 <= len {
                    if image[i] == 0xFF && image[i + 0x10] == 0xFF && image[i + 0x20] == 0xFF
                        && image[i + 0x30] == 0xFF && image[i + 3] == 0x00 && image[i + 4] == 0x00 {
                        if !range_all_eq(image, i, i + 0x40, 0xFF) {
                            assert(bb_spare_hit(image@, i as int));
                            return true;
                        }
                    }
                }
                i += 0x40;
            } else {
                if i + 0x10 <= len {
                    let spare0 = image[i];
                    let spare5 = image[i + 5];
                    let spare3 = image[i + 3];
                    let spare4 = image[i + 4];
                    if (spare0 == 0xFF || spare5 == 0xFF) && spare3 == 0x00 && spare4 == 0x00 {
                        let all_ff = range_all_eq(image, i + 0xC, i + 0x10, 0xFF);
                        let all_00 = range_all_eq(image, i + 0xC, i + 0x10, 0x00);
                        if !all_ff && !all_00 {
                            assert(sb_spare_hit(image@, i as int));
                            return true;
                        }
                    }
                }
                i += 0x10;
            }
            i += 0x200;
            if i % 0x4200 == 0 {
                counter += 1;
            }
        }
    }
    if len > 0x840 {
        if image[0x800] == 0xFF && image[0x810] == 0xFF && image[0x820] == 0xFF && !range_all_eq(image, 0x800, 0x840, 0xFF) {
            return true;
        }
    }
    false
}

// ---------------------------------------------------------------------------
// Spare metadata format detection
// ---------------------------------------------------------------------------

pub open spec fn lba_at(spare: Seq<u8>, lo: int, hi: int) -> u16 {
    (((spare[hi] as u16) & 0xFu16) << 8u16) | (spare[lo] as u16)
}

/// MetaType2 when byte 0 is 0xFF and the block id in bytes 1..2 is 1; MetaType0
/// when byte 5 is 0xFF and the id in bytes 0..1 is 1; MetaType1 when byte 5 is
/// 0xFF and the id in bytes 1..2 is 1; MetaType1 otherwise.
pub open spec fn detect_from_spare_spec(spare: Seq<u8>) -> SpareMetaType {
    if spare[0] == 0xFF && lba_at(spare, 1, 2) == 1 {
        SpareMetaType::MetaType2
    } else if spare[5] == 0xFF && lba_at(spare, 0, 1) == 1 {
        SpareMetaType::MetaType0
    } else if spare[5] == 0xFF && lba_at(spare, 1, 2) == 1 {
        SpareMetaType::MetaType1
    } else {
        SpareMetaType::MetaType1
    }
}

proof fn lemma_lba_is_one(a: u8, b: u8)
    ensures
        ((((b as u16) & 0xFu16) << 8u16) | (a as u16)) == 1u16 <==> (a == 1 && b % 16 == 0),
{
    assert(((((b as u16) & 0xFu16) << 8u16) | (a as u16)) == 1u16 <==> (a == 1 && b % 16 == 0)) by (bit_vector);
}

/// The spare format a page's spare shows: MetaType2 when byte 0 is 0xFF and
/// the block number in bytes 1 and 2 (low nibble of byte 2 high) is 1;
/// otherwise MetaType0 when byte 5 is 0xFF and the block number in bytes 0 and
/// 1 is 1; otherwise MetaType1.
pub proof fn lemma_spare_meta_type(spare: Seq<u8>)
    requires
        spare.len() >= 16,
    ensures
        spare[0] == 0xFF && spare[1] == 1 && spare[2] % 16 == 0 ==> detect_from_spare_spec(spare)
            == SpareMetaType::MetaType2,
        !(spare[0] == 0xFF && spare[1] == 1 && spare[2] % 16 == 0) && spare[5] == 0xFF && spare[0] == 1 && spare[1]
            % 16 == 0 ==> detect_from_spare_spec(spare) == SpareMetaType::MetaType0,
        !(spare[0] == 0xFF && spare[1] == 1 && spare[2] % 16 == 0) && !(spare[5] == 0xFF && spare[0] == 1 && spare[1]
            % 16 == 0) ==> detect_from_spare_spec(spare) == SpareMetaType::MetaType1,
{
    lemma_lba_is_one(spare[1], spare[2]);
    lemma_lba_is_one(spare[0], spare[1]);
}

pub fn detect_from_spare(spare: &[u8; 16], _layout: NandLayout) -> (r: SpareMetaType)
    ensures
        r == detect_from_spare_spec(spare@),
{
    let lba_mt2 = (((spare[2] as u16) & 0xF) << 8) | spare[1] as u16;
    if spare[0] == 0xFF && lba_mt2 == 1 {
        return SpareMetaType::MetaType2;
    }
    let lba_mt0 = (((spare[1] as u16) & 0xF) << 8) | spare[0] as u16;
    if spare[5] == 0xFF && lba_mt0 == 1 {
        return SpareMetaType::MetaType0;
    }
    let lba_mt1 = (((spare[2] as u16) & 0xF) << 8) | spare[1] as u16;
    if spare[5] == 0xFF && lba_mt1 == 1 {
        return SpareMetaType::MetaType1;
    }
    SpareMetaType::MetaType1
}

pub open spec fn read_spare_spec(s: Seq<u8>, off: int) -> Option<Seq<u8>> {
    if off + 16 <= s.len() {
        Some(s.subrange(off, off + 16))
    } else {
        None
    }
}

pub open spec fn detect_meta_type_spec(s: Seq<u8>, layout: NandLayout) -> SpareMetaType {
    if layout == NandLayout::Emmc || s.len() < 0x4410 {
        SpareMetaType::MetaTypeNone
    } else {
        let first = if layout == NandLayout::Bb {
            read_spare_spec(s, 0x21800)
        } else {
            read_spare_spec(s, 0x4400)
        };
        let tail = read_spare_spec(s, s.len() - 0x4000);
        let spare = match first {
            Some(x) => x,
            None => tail.unwrap(),
        };
        if spare[5] != 0xFF && spare[0] != 0xFF {
            match tail {
                Some(t) => detect_from_spare_spec(t),
                None => SpareMetaType::MetaTypeNone,
            }
        } else {
            detect_from_spare_spec(spare)
        }
    }
}

fn read_spare(image: &[u8], offset: usize) -> (r: Option<[u8; 16]>)
    ensures
        match read_spare_spec(image@, offset as int) {
            Some(x) => r is Some && r->0@ == x,
            None => r is None,
        },
{
    if offset <= image.len() && 16 <= image.len() - offset {
        let mut s = [0u8; 16];
        let mut k: usize = 0;
        while k < 16
            invariant
                offset + 16 <= image@.len(),
                image@.len() <= usize::MAX,
                k <= 16,
                s@.len() == 16,
                forall|j: int| 0 <= j < k ==> s@[j] == image@[offset + j],
            decreases 16 - k,
        {
            s[k] = image[offset + k];
            k += 1;
        }
        assert(s@ =~= image@.subrange(offset as int, offset + 16));
        Some(s)
    } else {
        None
    }
}

/// Detects the spare metadata format (MetaType0/1/2) of a physical NAND image
/// from the spare of block 1, page 0, retrying near the end of the image when
/// that block looks bad.
pub fn detect_meta_type(image: &[u8], layout: NandLayout) -> (r: SpareMetaType)
    ensures
        r == detect_meta_type_spec(image@, layout),
{
    if layout == NandLayout::Emmc {
        return SpareMetaType::MetaTypeNone;
    }
    if image.len() < 0x4410 {
        return SpareMetaType::MetaTypeNone;
    }
    let first = match layout {
        NandLayout::Bb => read_spare(image, 0x21800),
        _ => read_spare(image, 0x4400),
    };
    let spare = match first {
        Some(s) => s,
        None => match read_spare(image, image.len() - 0x4000) {
            Some(s) => s,
            None => [0u8; 16],
        },
    };
    let is_bad_mt0_1 = spare[5] != 0xFF;
    let is_bad_mt2 = spare[0] != 0xFF;
    if is_bad_mt0_1 && is_bad_mt2 {
        if let Some(s) = read_spare(image, image.len() - 0x4000) {
            return detect_from_spare(&s, layout);
        }
        return SpareMetaType::MetaTypeNone;
    }
    detect_from_spare(&spare, layout)
}

// ---------------------------------------------------------------------------
// Spare removal
// ---------------------------------------------------------------------------

/// Keeps the first `keep` bytes of each of the first `n` chunks of `chunk` bytes.
pub open spec fn strip_chunks(s: Seq<u8>, chunk: int, keep: int, n: int) -> Seq<u8>
    decreases n,
{
    if n <= 0 {
        Seq::empty()
    } else {
        strip_chunks(s, chunk, keep, n - 1) + s.subrange((n - 1) * chunk, (n - 1) * chunk + keep)
    }
}

pub open spec fn remove_spare_spec(s: Seq<u8>) -> Seq<u8> {
    match NandLayout::detect_spec(s.len() as int) {
        None => s,
        Some(l) => {
            if l == NandLayout::Emmc || !has_spare_spec(s) {
                s
            } else if l == NandLayout::Bb {
                strip_chunks(s, 0x840, 0x800, s.len() as int / 0x840)
            } else {
                strip_chunks(s, 0x210, 0x200, s.len() as int / 0x210)
            }
        },
    }
}

/// Appends `image[start..end]` to `out`.
pub fn append_range(out: &mut Vec<u8>, image: &[u8], start: usize, end: usize)
    requires
        start <= end <= image@.len(),
    ensures
        final(out)@ == old(out)@ + image@.subrange(start as int, end as int),
{
    let mut i = start;
    while i < end
        invariant
            start <= i <= end <= image@.len(),
            out@ == old(out)@ + image@.subrange(start as int, i as int),
        decreases end - i,
    {
        out.push(image[i]);
        assert(image@.subrange(start as int, i + 1) =~= image@.subrange(start as int, i as int).push(image@[i as int]));
        i += 1;
    }
}

fn strip_chunks_exec(image: &[u8], chunk: usize, keep: usize) -> (r: Vec<u8>)
    requires
        0 < keep <= chunk,
    ensures
        r@ == strip_chunks(image@, chunk as int, keep as int, image@.len() as int / chunk as int),
{
    let n = image.len() / chunk;
    let mut result: Vec<u8> = Vec::new();
    let mut i: usize = 0;
    while i < n
        invariant
            n == image@.len() as int / chunk as int,
            image@.len() <= usize::MAX,
            0 < keep <= chunk,
            i <= n,
            result@ == strip_chunks(image@, chunk as int, keep as int, i as int),
        decreases n - i,
    {
        assert(i * chunk + chunk <= n * chunk) by (nonlinear_arith)
            requires
                i < n,
        ;
        assert(n * chunk <= image@.len()) by (nonlinear_arith)
            requires
                n == image@.len() as int / chunk as int,
                chunk > 0,
        ;
        assert(i * chunk + keep <= i * chunk + chunk);
        let start = i * chunk;
        append_range(&mut result, image, start, start + keep);
        i += 1;
    }
    result
}

/// Strips spare/ECC bytes from a physical image, when the layout is known and
/// the image actually carries spare data; otherwise returns a copy.
pub fn remove_spare(image: &[u8]) -> (r: Vec<u8>)
    requires
        slice_len_ok(image@.len() as int),
    ensures
        r@ == remove_spare_spec(image@),
{
    let layout = match NandLayout::detect(image) {
        Ok(l) => l,
        Err(_) => return slice_to_vec(image, 0, image.len()),
    };
    assert(image@.subrange(0, image@.len() as int) =~= image@);
    if layout == NandLayout::Emmc {
        return slice_to_vec(image, 0, image.len());
    }
    if !has_spare(image) {
        return slice_to_vec(image, 0, image.len());
    }
    match layout {
        NandLayout::Bb => strip_chunks_exec(image, 0x840, 0x800),
        _ => strip_chunks_exec(image, 0x210, 0x200),
    }
}

// ---------------------------------------------------------------------------
// ECC
// ---------------------------------------------------------------------------

/// Little-endian 32-bit word at `off`.
pub open spec fn le_word(d: Seq<u8>, off: int) -> u32 {
    (d[off] as u32) | ((d[off + 1] as u32) << 8u32) | ((d[off + 2] as u32) << 16u32) | ((
    d[off + 3] as u32) << 24u32)
}

/// State `(val, v)` of the ECC shift register after `n` of the 0x1066 bit steps.
pub open spec fn ecc_state(d: Seq<u8>, n: nat) -> (u32, u32)
    decreases n,
{
    if n == 0 {
        (0u32, 0u32)
    } else {
        let prev = ecc_state(d, (n - 1) as nat);
        let i = n - 1;
        let v1 = if i % 32 == 0 {
            !le_word(d, i / 8)
        } else {
            prev.1
        };
        let val1 = prev.0 ^ (v1 & 1u32);
        let val2 = if val1 & 1u32 != 0 {
            val1 ^ 0x6954559u32
        } else {
            val1
        };
        (val2 >> 1u32, v1 >> 1u32)
    }
}

/// The four ECC bytes written at 0x20C; the low six bits of byte 0x20C are kept.
pub open spec fn ecc_bytes(d: Seq<u8>) -> Seq<u8> {
    let w = (!ecc_state(d, 0x1066).0) << 6u32;
    seq![
        (((w & 0xffu32) as u8) & 0xC0u8) | (d[0x20C] & 0x3Fu8),
        ((w >> 8u32) & 0xffu32) as u8,
        ((w >> 16u32) & 0xffu32) as u8,
        ((w >> 24u32) & 0xffu32) as u8,
    ]
}

/// A page (data + spare) with its ECC bytes recomputed; short buffers are unchanged.
pub open spec fn ecc_page_spec(d: Seq<u8>) -> Seq<u8> {
    if d.len() < 0x210 {
        d
    } else {
        d.subrange(0, 0x20C) + ecc_bytes(d) + d.subrange(0x210, d.len() as int)
    }
}

pub fn calculate_ecc(data: &mut [u8])
    ensures
        final(data)@ == ecc_page_spec(old(data)@),
{
    if data.len() < 0x210 {
        return;
    }
    let ghost d = data@;
    let mut val: u32 = 0;
    let mut v: u32 = 0;
    let mut i: usize = 0;
    while i < 0x1066
        invariant
            data@ == d,
            d.len() >= 0x210,
            i <= 0x1066,
            (val, v) == ecc_state(d, i as nat),
        decreases 0x1066 - i,
    {
        if i % 32 == 0 {
            let offset = i / 8;
            let w = (data[offset] as u32) | ((data[offset + 1] as u32) << 8) | ((data[offset + 2] as u32) << 16) | ((data[offset + 3] as u32) << 24);
            v = !w;
        }
        val ^= v & 1;
        v >>= 1;
        if (val & 1) != 0 {
            val ^= 0x6954559;
        }
        val >>= 1;
        i += 1;
    }
    val = !val;
    let w = val << 6;
    let b0 = (((w & 0xff) as u8) & 0xC0) | (data[0x20C] & 0x3F);
    let b1 = ((w >> 8) & 0xff) as u8;
    let b2 = ((w >> 16) & 0xff) as u8;
    let b3 = ((w >> 24) & 0xff) as u8;
    data[0x20C] = b0;
    data[0x20D] = b1;
    data[0x20E] = b2;
    data[0x20F] = b3;
    assert(data@ =~= ecc_page_spec(d));
}


// ---------------------------------------------------------------------------
// Spare generation (finalizing a clean image into a physical one)
// ---------------------------------------------------------------------------

/// FlashFS metadata stored in the spare area of a block.
#[derive(Clone, Copy, Debug, PartialEq, Eq, Structural)]
pub struct FsSpareInfo {
    pub sequence: u32,
    pub size: u16,
    pub page_count: u8,
    pub block_type: u8,
}

pub open spec fn fs_view(fs_meta: Option<&HashMap<usize, FsSpareInfo>>) -> Option<Map<usize, FsSpareInfo>> {
    match fs_meta {
        Some(m) => Some(m@),
        None => None,
    }
}

pub open spec fn fs_lookup(fs: Option<Map<usize, FsSpareInfo>>, val: usize) -> Option<FsSpareInfo> {
    match fs {
        Some(m) => if m.contains_key(val) {
            Some(m[val])
        } else {
            None
        },
        None => None,
    }
}

fn fs_get(fs_meta: Option<&HashMap<usize, FsSpareInfo>>, val: usize) -> (r: Option<FsSpareInfo>)
    ensures
        r == fs_lookup(fs_view(fs_meta), val),
{
    match fs_meta {
        Some(m) => match m.get(&val) {
            Some(info) => Some(*info),
            None => None,
        },
        None => None,
    }
}

/// Data of logical page `idx` (0x200 bytes), zero-padded past the end of the image.
pub open spec fn page_data(image: Seq<u8>, idx: int) -> Seq<u8> {
    Seq::new(0x200, |k: int| if idx * 0x200 + k < image.len() { image[idx * 0x200 + k] } else { 0u8 })
}

pub open spec fn zeros(n: nat) -> Seq<u8> {
    Seq::new(n, |k: int| 0u8)
}

/// Small-block spare of page `i` whose block number is `val`.
pub open spec fn sb_spare_spec(
    i: int,
    val: usize,
    meta_type: SpareMetaType,
    fs: Option<FsSpareInfo>,
    jtag_syscall: Option<u16>,
) -> Seq<u8> {
    let s0 = zeros(16);
    let s1 = match jtag_syscall {
        Some(sc) => if i == 1 {
            s0.update(10, (sc >> 8u16) as u8).update(11, (sc & 0xFFu16) as u8)
        } else {
            s0
        },
        None => s0,
    };
    let lo = (val & 0xFFusize) as u8;
    let hi = ((val / 0x100) & 0xFFusize) as u8;
    match fs {
        Some(f) => {
            let s2 = s1.update(5, 0xFFu8).update(7, (f.size & 0xFFu16) as u8).update(
                8,
                ((f.size >> 8u16) & 0xFFu16) as u8,
            ).update(9, f.page_count).update(12, f.block_type);
            let q0 = (f.sequence & 0xFFu32) as u8;
            let q1 = ((f.sequence >> 8u32) & 0xFFu32) as u8;
            let q2 = ((f.sequence >> 16u32) & 0xFFu32) as u8;
            match meta_type {
                SpareMetaType::MetaType0 => s2.update(0, lo).update(1, hi).update(2, q0).update(
                    3,
                    q1,
                ).update(4, q2),
                SpareMetaType::MetaType1 => s2.update(1, lo).update(2, hi).update(0, q0).update(
                    3,
                    q1,
                ).update(4, q2),
                _ => s2,
            }
        },
        None => {
            let s2 = s1.update(5, 0xFFu8);
            match meta_type {
                SpareMetaType::MetaType0 => s2.update(0, lo).update(1, hi),
                SpareMetaType::MetaType1 => s2.update(1, lo).update(2, hi),
                _ => s2,
            }
        },
    }
}

/// Big-block spare of a page whose block number is `val`.
pub open spec fn bb_spare_spec(val: usize, fs: Option<FsSpareInfo>) -> Seq<u8> {
    let s0 = zeros(16).update(0, 0xFFu8);
    let lo = (val & 0xFFusize) as u8;
    let hi = ((val >> 8usize) & 0xFFusize) as u8;
    match fs {
        Some(f) => s0.update(1, lo).update(2, hi).update(5, (f.sequence & 0xFFu32) as u8).update(
            4,
            ((f.sequence >> 8u32) & 0xFFu32) as u8,
        ).update(3, ((f.sequence >> 16u32) & 0xFFu32) as u8).update(7, (f.size & 0xFFu16) as u8).update(
            8,
            ((f.size >> 8u16) & 0xFFu16) as u8,
        ).update(9, f.page_count).update(12, f.block_type),
        None => s0.update(1, lo).update(2, hi),
    }
}

pub open spec fn total_pages_spec(len: int) -> int {
    (len + 0x1ff) / 0x200
}

/// Physical small-block page `i`: data, spare, then ECC over both.
pub open spec fn sb_page_spec(
    image: Seq<u8>,
    i: int,
    base: int,
    meta_type: SpareMetaType,
    fs: Option<Map<usize, FsSpareInfo>>,
    jtag_syscall: Option<u16>,
) -> Seq<u8> {
    let val = (i / 32 + base) as usize;
    ecc_page_spec(page_data(image, i) + sb_spare_spec(i, val, meta_type, fs_lookup(fs, val), jtag_syscall))
}

pub open spec fn sb_output(
    image: Seq<u8>,
    n: int,
    base: int,
    meta_type: SpareMetaType,
    fs: Option<Map<usize, FsSpareInfo>>,
    jtag_syscall: Option<u16>,
) -> Seq<u8>
    decreases n,
{
    if n <= 0 {
        Seq::empty()
    } else {
        sb_output(image, n - 1, base, meta_type, fs, jtag_syscall) + sb_page_spec(
            image,
            n - 1,
            base,
            meta_type,
            fs,
            jtag_syscall,
        )
    }
}

/// Page `p` (0..4) of big-block chunk `c`: its data and its spare, both zero
/// when the page lies past the end of the image.
pub open spec fn bb_data(image: Seq<u8>, c: int, p: int) -> Seq<u8> {
    if c * 4 + p < total_pages_spec(image.len() as int) {
        page_data(image, c * 4 + p)
    } else {
        zeros(0x200)
    }
}

pub open spec fn bb_spare_of(image: Seq<u8>, c: int, p: int, base: int, fs: Option<Map<usize, FsSpareInfo>>) -> Seq<u8> {
    if c * 4 + p < total_pages_spec(image.len() as int) {
        let val = ((c * 4 + p) / 256 + base) as usize;
        bb_spare_spec(val, fs_lookup(fs, val))
    } else {
        zeros(16)
    }
}

/// A big-block chunk before ECC: four data pages then four spares.
pub open spec fn bb_fill(image: Seq<u8>, c: int, base: int, fs: Option<Map<usize, FsSpareInfo>>) -> Seq<u8> {
    bb_data(image, c, 0) + bb_data(image, c, 1) + bb_data(image, c, 2) + bb_data(image, c, 3)
        + bb_spare_of(image, c, 0, base, fs) + bb_spare_of(image, c, 1, base, fs) + bb_spare_of(
        image,
        c,
        2,
        base,
        fs,
    ) + bb_spare_of(image, c, 3, base, fs)
}

/// ECC step `p` on a big-block chunk: the ECC of data page `p` joined with its
/// spare (the 16 bytes at 0x800 + p*0x10) goes into the last four bytes of that
/// spare, 0x80C + p*0x10.
pub open spec fn bb_ecc_step(chunk: Seq<u8>, p: int) -> Seq<u8> {
    let pws = chunk.subrange(p * 0x200, p * 0x200 + 0x200) + chunk.subrange(
        0x800 + p * 0x10,
        0x810 + p * 0x10,
    );
    chunk.subrange(0, 0x80C + p * 0x10) + ecc_bytes(pws) + chunk.subrange(
        0x810 + p * 0x10,
        chunk.len() as int,
    )
}

pub open spec fn bb_chunk_spec(image: Seq<u8>, c: int, base: int, fs: Option<Map<usize, FsSpareInfo>>) -> Seq<u8> {
    bb_ecc_step(bb_ecc_step(bb_ecc_step(bb_ecc_step(bb_fill(image, c, base, fs), 0), 1), 2), 3)
}

proof fn lemma_bb_step(ch: Seq<u8>, p: int)
    requires
        ch.len() == 0x840,
        0 <= p < 4,
    ensures
        bb_ecc_step(ch, p).len() == 0x840,
        forall|i: int|
            0 <= i < 0x840 && !(0x80C + p * 0x10 <= i < 0x810 + p * 0x10) ==> #[trigger] bb_ecc_step(ch, p)[i]
                == ch[i],
        forall|k: int|
            0 <= k < 4 ==> #[trigger] bb_ecc_step(ch, p)[0x80C + p * 0x10 + k] == ecc_bytes(
                ch.subrange(p * 0x200, p * 0x200 + 0x200) + ch.subrange(0x800 + p * 0x10, 0x810 + p * 0x10),
            )[k],
{
    let pws = ch.subrange(p * 0x200, p * 0x200 + 0x200) + ch.subrange(0x800 + p * 0x10, 0x810 + p * 0x10);
    assert(ecc_bytes(pws).len() == 4);
}

/// The spare of page `p` of big-block chunk `c` as written: its first twelve
/// bytes as filled, then the ECC of the page's data joined with that spare.
pub open spec fn bb_spare_with_ecc(image: Seq<u8>, c: int, p: int, base: int, fs: Option<Map<usize, FsSpareInfo>>) -> Seq<
    u8,
> {
    bb_spare_of(image, c, p, base, fs).subrange(0, 0xC) + ecc_bytes(
        bb_data(image, c, p) + bb_spare_of(image, c, p, base, fs),
    )
}

/// A big-block chunk keeps its four data pages as they are, and puts after
/// them the four spares, each with the ECC of its page (over the page's data
/// and spare) in the spare's last four bytes.
#[verifier::rlimit(40)]
#[verifier::spinoff_prover]
pub proof fn lemma_bb_chunk_layout(image: Seq<u8>, c: int, base: int, fs: Option<Map<usize, FsSpareInfo>>)
    ensures
        bb_chunk_spec(image, c, base, fs) == bb_data(image, c, 0) + bb_data(image, c, 1) + bb_data(image, c, 2)
            + bb_data(image, c, 3) + bb_spare_with_ecc(image, c, 0, base, fs) + bb_spare_with_ecc(
            image,
            c,
            1,
            base,
            fs,
        ) + bb_spare_with_ecc(image, c, 2, base, fs) + bb_spare_with_ecc(image, c, 3, base, fs),
{
    let f = bb_fill(image, c, base, fs);
    assert forall|p: int| 0 <= p < 4 implies #[trigger] bb_data(image, c, p).len() == 0x200 && bb_spare_of(
        image,
        c,
        p,
        base,
        fs,
    ).len() == 16 by {
        if c * 4 + p < total_pages_spec(image.len() as int) {
            let val = ((c * 4 + p) / 256 + base) as usize;
            let o = fs_lookup(fs, val);
            assert(bb_spare_spec(val, o).len() == 16);
        }
    }
    assert(f.len() == 0x840);
    assert forall|p: int| 0 <= p < 4 implies #[trigger] f.subrange(p * 0x200, p * 0x200 + 0x200) == bb_data(
        image,
        c,
        p,
    ) && f.subrange(0x800 + p * 0x10, 0x810 + p * 0x10) == bb_spare_of(image, c, p, base, fs) by {
        assert(bb_data(image, c, 0).len() == 0x200 && bb_data(image, c, 1).len() == 0x200);
        assert(bb_data(image, c, 2).len() == 0x200 && bb_data(image, c, 3).len() == 0x200);
        assert(bb_spare_of(image, c, 0, base, fs).len() == 16 && bb_spare_of(image, c, 1, base, fs).len() == 16);
        assert(bb_spare_of(image, c, 2, base, fs).len() == 16 && bb_spare_of(image, c, 3, base, fs).len() == 16);
        assert(f.subrange(p * 0x200, p * 0x200 + 0x200) =~= bb_data(image, c, p));
        assert(f.subrange(0x800 + p * 0x10, 0x810 + p * 0x10) =~= bb_spare_of(image, c, p, base, fs));
    }
    let s0 = bb_ecc_step(f, 0);
    lemma_bb_step(f, 0);
    let s1 = bb_ecc_step(s0, 1);
    lemma_bb_step(s0, 1);
    let s2 = bb_ecc_step(s1, 2);
    lemma_bb_step(s1, 2);
    let s3 = bb_ecc_step(s2, 3);
    lemma_bb_step(s2, 3);
    assert(s0.subrange(0x200, 0x400) =~= f.subrange(0x200, 0x400));
    assert(s0.subrange(0x810, 0x820) =~= f.subrange(0x810, 0x820));
    assert(s1.subrange(0x400, 0x600) =~= f.subrange(0x400, 0x600));
    assert(s1.subrange(0x820, 0x830) =~= f.subrange(0x820, 0x830));
    assert(s2.subrange(0x600, 0x800) =~= f.subrange(0x600, 0x800));
    assert(s2.subrange(0x830, 0x840) =~= f.subrange(0x830, 0x840));
    let want = bb_data(image, c, 0) + bb_data(image, c, 1) + bb_data(image, c, 2) + bb_data(image, c, 3)
        + bb_spare_with_ecc(image, c, 0, base, fs) + bb_spare_with_ecc(image, c, 1, base, fs) + bb_spare_with_ecc(
        image,
        c,
        2,
        base,
        fs,
    ) + bb_spare_with_ecc(image, c, 3, base, fs);
    assert forall|p: int| 0 <= p < 4 implies #[trigger] bb_spare_with_ecc(image, c, p, base, fs).len() == 16 by {
        assert(ecc_bytes(bb_data(image, c, p) + bb_spare_of(image, c, p, base, fs)).len() == 4);
    }
    assert forall|i: int| 0 <= i < 0x840 implies #[trigger] s3[i] == want[i] by {
        if i < 0x800 {
            let p = i / 0x200;
            assert(f[i] == bb_data(image, c, p)[i - p * 0x200]) by {
                assert(f.subrange(p * 0x200, p * 0x200 + 0x200)[i - p * 0x200] == f[i]);
            }
        } else {
            let p = (i - 0x800) / 0x10;
            let k = (i - 0x800) % 0x10;
            assert(f.subrange(0x800 + p * 0x10, 0x810 + p * 0x10)[k] == f[i]);
            if k >= 0xC {
                assert(i == 0x80C + p * 0x10 + (k - 0xC));
            }
        }
    }
    assert(s3 =~= want);
}

pub open spec fn bb_output(image: Seq<u8>, n: int, base: int, fs: Option<Map<usize, FsSpareInfo>>) -> Seq<u8>
    decreases n,
{
    if n <= 0 {
        Seq::empty()
    } else {
        bb_output(image, n - 1, base, fs) + bb_chunk_spec(image, n - 1, base, fs)
    }
}

pub open spec fn add_spare_spec(
    image: Seq<u8>,
    layout: NandLayout,
    meta_type: SpareMetaType,
    blockstart: int,
    fs: Option<Map<usize, FsSpareInfo>>,
    jtag_syscall: Option<u16>,
) -> Seq<u8> {
    let total = total_pages_spec(image.len() as int);
    let base = blockstart / layout.block_size_spec();
    match layout {
        NandLayout::Bb => bb_output(image, (total + 3) / 4, base, fs),
        NandLayout::Xsb | NandLayout::Sb => sb_output(image, total, base, meta_type, fs, jtag_syscall),
        NandLayout::Emmc => image,
    }
}

fn page_data_exec(image: &[u8], idx: usize) -> (r: Vec<u8>)
    requires
        idx * 0x200 <= image@.len(),
        slice_len_ok(image@.len() as int),
    ensures
        r@ == page_data(image@, idx as int),
{
    let start = idx * 0x200;
    let mut out: Vec<u8> = Vec::new();
    let mut k: usize = 0;
    while k < 0x200
        invariant
            start == idx * 0x200,
            start <= image@.len(),
            slice_len_ok(image@.len() as int),
            k <= 0x200,
            out@.len() == k,
            forall|j: int| 0 <= j < k ==> out@[j] == page_data(image@, idx as int)[j],
        decreases 0x200 - k,
    {
        if start + k < image.len() {
            out.push(image[start + k]);
        } else {
            out.push(0);
        }
        k += 1;
    }
    assert(out@ =~= page_data(image@, idx as int));
    out
}

fn sb_spare_exec(
    i: usize,
    val: usize,
    meta_type: SpareMetaType,
    fs: Option<FsSpareInfo>,
    jtag_syscall: Option<u16>,
) -> (r: [u8; 16])
    ensures
        r@ == sb_spare_spec(i as int, val, meta_type, fs, jtag_syscall),
{
    let mut spare = [0u8; 16];
    assert(spare@ =~= zeros(16));
    if i == 1 {
        if let Some(syscall) = jtag_syscall {
            spare[10] = (syscall >> 8) as u8;
            spare[11] = (syscall & 0xFF) as u8;
        }
    }
    let lo = (val & 0xFF) as u8;
    let hi = ((val / 0x100) & 0xFF) as u8;
    match fs {
        Some(f) => {
            spare[5] = 0xFF;
            spare[7] = (f.size & 0xFF) as u8;
            spare[8] = ((f.size >> 8) & 0xFF) as u8;
            spare[9] = f.page_count;
            spare[12] = f.block_type;
            let q0 = (f.sequence & 0xFF) as u8;
            let q1 = ((f.sequence >> 8) & 0xFF) as u8;
            let q2 = ((f.sequence >> 16) & 0xFF) as u8;
            match meta_type {
                SpareMetaType::MetaType0 => {
                    spare[0] = lo;
                    spare[1] = hi;
                    spare[2] = q0;
                    spare[3] = q1;
                    spare[4] = q2;
                },
                SpareMetaType::MetaType1 => {
                    spare[1] = lo;
                    spare[2] = hi;
                    spare[0] = q0;
                    spare[3] = q1;
                    spare[4] = q2;
                },
                _ => {},
            }
        },
        None => {
            spare[5] = 0xFF;
            match meta_type {
                SpareMetaType::MetaType0 => {
                    spare[0] = lo;
                    spare[1] = hi;
                },
                SpareMetaType::MetaType1 => {
                    spare[1] = lo;
                    spare[2] = hi;
                },
                _ => {},
            }
        },
    }
    assert(spare@ =~= sb_spare_spec(i as int, val, meta_type, fs, jtag_syscall));
    spare
}

fn bb_spare_exec(val: usize, fs: Option<FsSpareInfo>) -> (r: [u8; 16])
    ensures
        r@ == bb_spare_spec(val, fs),
{
    let mut spare = [0u8; 16];
    spare[0] = 0xFF;
    let lo = (val & 0xFF) as u8;
    let hi = ((val >> 8) & 0xFF) as u8;
    match fs {
        Some(f) => {
            spare[1] = lo;
            spare[2] = hi;
            spare[5] = (f.sequence & 0xFF) as u8;
            spare[4] = ((f.sequence >> 8) & 0xFF) as u8;
            spare[3] = ((f.sequence >> 16) & 0xFF) as u8;
            spare[7] = (f.size & 0xFF) as u8;
            spare[8] = ((f.size >> 8) & 0xFF) as u8;
            spare[9] = f.page_count;
            spare[12] = f.block_type;
        },
        None => {
            spare[1] = lo;
            spare[2] = hi;
        },
    }
    assert(spare@ =~= bb_spare_spec(val, fs));
    spare
}

fn push_array16(out: &mut Vec<u8>, a: &[u8; 16])
    ensures
        final(out)@ == old(out)@ + a@,
{
    let mut k: usize = 0;
    while k < 16
        invariant
            k <= 16,
            a@.len() == 16,
            out@ == old(out)@ + a@.subrange(0, k as int),
        decreases 16 - k,
    {
        out.push(a[k]);
        assert(a@.subrange(0, k + 1) =~= a@.subrange(0, k as int).push(a@[k as int]));
        k += 1;
    }
    assert(a@.subrange(0, 16) =~= a@);
}

/// One ECC step on a big-block chunk held in `chunk` (0x840 bytes).
fn bb_ecc_step_exec(chunk: &mut Vec<u8>, p: usize)
    requires
        old(chunk)@.len() == 0x840,
        p < 4,
    ensures
        final(chunk)@ == bb_ecc_step(old(chunk)@, p as int),
{
    let mut pws: Vec<u8> = Vec::new();
    append_range(&mut pws, chunk.as_slice(), p * 0x200, p * 0x200 + 0x200);
    append_range(&mut pws, chunk.as_slice(), 0x800 + p * 0x10, 0x810 + p * 0x10);
    let ghost before = pws@;
    calculate_ecc(pws.as_mut_slice());
    assert(pws@ == ecc_page_spec(before));
    let base = 0x80C + p * 0x10;
    chunk.set(base, pws[0x20C]);
    chunk.set(base + 1, pws[0x20D]);
    chunk.set(base + 2, pws[0x20E]);
    chunk.set(base + 3, pws[0x20F]);
    assert(chunk@ =~= bb_ecc_step(old(chunk)@, p as int));
}

#[verifier::rlimit(40)]
#[verifier::spinoff_prover]
fn bb_chunk_exec(
    image: &[u8],
    c: usize,
    total_pages: usize,
    base: usize,
    fs_meta: Option<&HashMap<usize, FsSpareInfo>>,
) -> (r: Vec<u8>)
    requires
        total_pages == total_pages_spec(image@.len() as int),
        slice_len_ok(image@.len() as int),
        c * 4 < total_pages + 4,
        base <= usize::MAX / 2,
    ensures
        r@ == bb_chunk_spec(image@, c as int, base as int, fs_view(fs_meta)),
{
    let ghost fs = fs_view(fs_meta);
    let mut data: Vec<u8> = Vec::new();
    let mut spares: Vec<u8> = Vec::new();
    let mut p: usize = 0;
    while p < 4
        invariant
            p <= 4,
            total_pages == total_pages_spec(image@.len() as int),
            slice_len_ok(image@.len() as int),
            c * 4 < total_pages + 4,
            base <= usize::MAX / 2,
            fs == fs_view(fs_meta),
            p == 0 ==> data@ == Seq::<u8>::empty() && spares@ == Seq::<u8>::empty(),
            p >= 1 ==> data@ =~= bb_data(image@, c as int, 0) + (if p >= 2 { bb_data(image@, c as int, 1) } else { Seq::empty() })
                + (if p >= 3 { bb_data(image@, c as int, 2) } else { Seq::empty() }) + (if p >= 4 { bb_data(image@, c as int, 3) } else { Seq::empty() }),
            p >= 1 ==> spares@ =~= bb_spare_of(image@, c as int, 0, base as int, fs) + (if p >= 2 { bb_spare_of(image@, c as int, 1, base as int, fs) } else { Seq::empty() })
                + (if p >= 3 { bb_spare_of(image@, c as int, 2, base as int, fs) } else { Seq::empty() }) + (if p >= 4 { bb_spare_of(image@, c as int, 3, base as int, fs) } else { Seq::empty() }),
        decreases 4 - p,
    {
        let page_idx = c * 4 + p;
        if page_idx < total_pages {
            assert(page_idx * 0x200 <= image@.len());
            let d = page_data_exec(image, page_idx);
            append_range(&mut data, d.as_slice(), 0, 0x200);
            assert(d@.subrange(0, 0x200) =~= d@);
            let val = page_idx / 256 + base;
            let info = fs_get(fs_meta, val);
            let sp = bb_spare_exec(val, info);
            push_array16(&mut spares, &sp);
        } else {
            let z = [0u8; 16];
            let mut k: usize = 0;
            let ghost d0 = data@;
            while k < 0x200
                invariant
                    k <= 0x200,
                    data@ == d0 + zeros(k as nat),
                decreases 0x200 - k,
            {
                data.push(0);
                assert(zeros((k + 1) as nat) =~= zeros(k as nat).push(0u8));
                k += 1;
            }
            assert(z@ =~= zeros(16));
            push_array16(&mut spares, &z);
        }
        p += 1;
    }
    let mut chunk = data;
    append_range(&mut chunk, spares.as_slice(), 0, spares.len());
    assert(spares@.subrange(0, spares@.len() as int) =~= spares@);
    assert(chunk@ =~= bb_fill(image@, c as int, base as int, fs));
    bb_ecc_step_exec(&mut chunk, 0);
    bb_ecc_step_exec(&mut chunk, 1);
    bb_ecc_step_exec(&mut chunk, 2);
    bb_ecc_step_exec(&mut chunk, 3);
    chunk
}

/// Turns a clean (logical) image into a physical one: every page gets a spare
/// carrying its block number (and FlashFS metadata where `fs_meta` has some for
/// that block, and the JTAG syscall on page 1), followed by its ECC. Big block
/// packs four pages and their spares in 0x840-byte chunks; eMMC is copied.
#[verifier::rlimit(30)]
pub fn add_spare(
    image: &[u8],
    layout: NandLayout,
    meta_type: SpareMetaType,
    blockstart: usize,
    fs_meta: Option<&HashMap<usize, FsSpareInfo>>,
    jtag_syscall: Option<u16>,
) -> (r: Vec<u8>)
    requires
        slice_len_ok(image@.len() as int),
    ensures
        r@ == add_spare_spec(image@, layout, meta_type, blockstart as int, fs_view(fs_meta), jtag_syscall),
{
    let page_size = layout.page_size();
    let total_pages = (image.len() + page_size - 1) / page_size;
    match layout {
        NandLayout::Bb => {
            let chunks = (total_pages + 3) / 4;
            let block_number_base = blockstart / layout.block_size();
            let mut result: Vec<u8> = Vec::new();
            let mut chunk: usize = 0;
            while chunk < chunks
                invariant
                    chunks == (total_pages + 3) / 4,
                    total_pages == total_pages_spec(image@.len() as int),
                    slice_len_ok(image@.len() as int),
                    block_number_base == blockstart as int / 0x21000,
                    chunk <= chunks,
                    result@ == bb_output(image@, chunk as int, block_number_base as int, fs_view(fs_meta)),
                decreases chunks - chunk,
            {
                assert(chunk * 4 < total_pages + 4) by (nonlinear_arith)
                    requires
                        chunk < chunks,
                        chunks == (total_pages + 3) / 4,
                ;
                let c = bb_chunk_exec(image, chunk, total_pages, block_number_base, fs_meta);
                let ghost before = result@;
                append_range(&mut result, c.as_slice(), 0, c.len());
                proof {
                    assert(c@.subrange(0, c@.len() as int) =~= c@);
                    assert(bb_output(image@, chunk as int + 1, block_number_base as int, fs_view(fs_meta))
                        == before + c@);
                }
                chunk += 1;
            }
            result
        },
        NandLayout::Xsb | NandLayout::Sb => {
            let block_number_base = blockstart / layout.block_size();
            let mut result: Vec<u8> = Vec::new();
            let mut i: usize = 0;
            while i < total_pages
                invariant
                    total_pages == total_pages_spec(image@.len() as int),
                    slice_len_ok(image@.len() as int),
                    block_number_base == blockstart as int / 0x4200,
                    i <= total_pages,
                    result@ == sb_output(image@, i as int, block_number_base as int, meta_type, fs_view(fs_meta), jtag_syscall),
                decreases total_pages - i,
            {
                assert(i * 0x200 <= image@.len());
                let d = page_data_exec(image, i);
                let val = i / 32 + block_number_base;
                let info = fs_get(fs_meta, val);
                let sp = sb_spare_exec(i, val, meta_type, info, jtag_syscall);
                let mut page = d;
                push_array16(&mut page, &sp);
                let ghost before = page@;
                calculate_ecc(page.as_mut_slice());
                append_range(&mut result, page.as_slice(), 0, page.len());
                assert(page@.subrange(0, page@.len() as int) =~= page@);
                i += 1;
            }
            result
        },
        NandLayout::Emmc => {
            let r = slice_to_vec(image, 0, image.len());
            assert(image@.subrange(0, image@.len() as int) =~= image@);
            r
        },
    }
}


proof fn lemma_sb_output_pages(
    image: Seq<u8>,
    n: int,
    base: int,
    meta_type: SpareMetaType,
    fs: Option<Map<usize, FsSpareInfo>>,
    jtag_syscall: Option<u16>,
)
    requires
        n >= 0,
    ensures
        sb_output(image, n, base, meta_type, fs, jtag_syscall).len() == n * 0x210,
        forall|k: int|
            0 <= k < n ==> #[trigger] sb_output(image, n, base, meta_type, fs, jtag_syscall).subrange(
                k * 0x210,
                k * 0x210 + 0x200,
            ) == page_data(image, k),
    decreases n,
{
    if n > 0 {
        lemma_sb_output_pages(image, n - 1, base, meta_type, fs, jtag_syscall);
        let prev = sb_output(image, n - 1, base, meta_type, fs, jtag_syscall);
        let page = sb_page_spec(image, n - 1, base, meta_type, fs, jtag_syscall);
        let all = sb_output(image, n, base, meta_type, fs, jtag_syscall);
        let val = ((n - 1) / 32 + base) as usize;
        let raw = page_data(image, n - 1) + sb_spare_spec(n - 1, val, meta_type, fs_lookup(fs, val), jtag_syscall);
        assert(page == ecc_page_spec(raw));
        assert(page.subrange(0, 0x200) =~= page_data(image, n - 1));
        assert(all == prev + page);
        assert forall|k: int| 0 <= k < n implies #[trigger] all.subrange(k * 0x210, k * 0x210 + 0x200) == page_data(
            image,
            k,
        ) by {
            if k < n - 1 {
                assert(all.subrange(k * 0x210, k * 0x210 + 0x200) =~= prev.subrange(k * 0x210, k * 0x210 + 0x200));
            } else {
                assert(all.subrange(k * 0x210, k * 0x210 + 0x200) =~= page.subrange(0, 0x200));
            }
        }
    }
}

proof fn lemma_strip_sb_pages(s: Seq<u8>, image: Seq<u8>, m: int)
    requires
        0 <= m,
        m * 0x200 <= image.len(),
        forall|k: int| 0 <= k < m ==> #[trigger] s.subrange(k * 0x210, k * 0x210 + 0x200) == page_data(image, k),
    ensures
        strip_chunks(s, 0x210, 0x200, m) == image.subrange(0, m * 0x200),
    decreases m,
{
    if m > 0 {
        lemma_strip_sb_pages(s, image, m - 1);
        let k = m - 1;
        assert(s.subrange(k * 0x210, k * 0x210 + 0x200) == page_data(image, k));
        assert(page_data(image, k) =~= image.subrange(k * 0x200, m * 0x200));
        assert(image.subrange(0, k * 0x200) + image.subrange(k * 0x200, m * 0x200) =~= image.subrange(0, m * 0x200));
    }
}

/// On small block, the data `add_spare` lays out page by page is exactly what
/// stripping the spare keeps (`remove_spare`'s small-block step): an image of
/// whole pages comes back unchanged.
pub proof fn lemma_sb_spare_roundtrip(
    image: Seq<u8>,
    layout: NandLayout,
    meta_type: SpareMetaType,
    blockstart: int,
    fs: Option<Map<usize, FsSpareInfo>>,
    jtag_syscall: Option<u16>,
)
    requires
        layout == NandLayout::Sb || layout == NandLayout::Xsb,
        image.len() % 0x200 == 0,
    ensures
        strip_chunks(
            add_spare_spec(image, layout, meta_type, blockstart, fs, jtag_syscall),
            0x210,
            0x200,
            image.len() as int / 0x200,
        ) == image,
{
    let n = total_pages_spec(image.len() as int);
    assert(n == image.len() / 0x200);
    let base = blockstart / layout.block_size_spec();
    lemma_sb_output_pages(image, n, base, meta_type, fs, jtag_syscall);
    lemma_strip_sb_pages(sb_output(image, n, base, meta_type, fs, jtag_syscall), image, n);
    assert(image.subrange(0, n * 0x200) =~= image);
}

/// Removing the spare data undoes adding it: a 16 MB small-block image given
/// its spare areas (and detected as having them) comes back unchanged.
pub proof fn lemma_remove_spare_undoes_add_spare(
    image: Seq<u8>,
    layout: NandLayout,
    meta_type: SpareMetaType,
    fs: Option<Map<usize, FsSpareInfo>>,
    jtag_syscall: Option<u16>,
)
    requires
        layout == NandLayout::Sb || layout == NandLayout::Xsb,
        image.len() == 0x1000000,
        has_spare_spec(add_spare_spec(image, layout, meta_type, 0, fs, jtag_syscall)),
    ensures
        remove_spare_spec(add_spare_spec(image, layout, meta_type, 0, fs, jtag_syscall)) == image,
{
    let n = total_pages_spec(image.len() as int);
    assert(n == image.len() / 0x200);
    let base = 0int / layout.block_size_spec();
    lemma_sb_output_pages(image, n, base, meta_type, fs, jtag_syscall);
    let s = add_spare_spec(image, layout, meta_type, 0, fs, jtag_syscall);
    assert(s.len() == 0x1080000);
    assert(NandLayout::detect_spec(s.len() as int) == Some(NandLayout::Sb));
    lemma_sb_spare_roundtrip(image, layout, meta_type, 0, fs, jtag_syscall);
    assert(s.len() as int / 0x210 == image.len() as int / 0x200);
}

// ---------------------------------------------------------------------------
// Logical reads and writes over a physical image
// ---------------------------------------------------------------------------

pub open spec fn min_int(a: int, b: int) -> int {
    if a <= b {
        a
    } else {
        b
    }
}

/// Bytes gathered by `read_logical_from_physical` from position `cur` on:
/// logical byte `lp * 0x200 + cur` is translated to its physical offset (the
/// spare areas skipped), read up to the end of its page; the scan stops at the
/// first chunk that passes the end of the image.
pub open spec fn read_chunks(image: Seq<u8>, lp: int, len: int, layout: NandLayout, cur: int) -> Seq<u8>
    decreases len - cur,
{
    if cur < 0 || cur >= len {
        Seq::empty()
    } else {
        let lb = lp * 512 + cur;
        let phys = layout.logical_to_physical_spec(lb);
        let to_read = min_int(512 - lb % 512, len - cur);
        if phys + to_read > image.len() {
            Seq::empty()
        } else {
            image.subrange(phys, phys + to_read) + read_chunks(image, lp, len, layout, cur + to_read)
        }
    }
}

/// The logical and physical byte offsets of the read fit a machine word.
pub open spec fn read_ok(image_len: int, lp: int, len: int, layout: NandLayout) -> bool {
    &&& lp * 512 + len <= usize::MAX
    &&& layout.logical_to_physical_spec(lp * 512 + len) <= usize::MAX
}

proof fn lemma_phys_monotonic(layout: NandLayout, a: int, b: int)
    requires
        0 <= a <= b,
    ensures
        layout.logical_to_physical_spec(a) <= layout.logical_to_physical_spec(b),
        a <= layout.logical_to_physical_spec(a),
{
    vstd::arithmetic::div_mod::lemma_fundamental_div_mod(a, 512);
    vstd::arithmetic::div_mod::lemma_fundamental_div_mod(b, 512);
    vstd::arithmetic::div_mod::lemma_fundamental_div_mod(a, 2048);
    vstd::arithmetic::div_mod::lemma_fundamental_div_mod(b, 2048);
    vstd::arithmetic::div_mod::lemma_div_is_ordered(a, b, 512);
    vstd::arithmetic::div_mod::lemma_div_is_ordered(a, b, 2048);
    vstd::arithmetic::div_mod::lemma_div_pos_is_pos(a, 512);
    vstd::arithmetic::div_mod::lemma_div_pos_is_pos(a, 2048);
}

/// Byte `k` of a logical read from page `lp` of a small-block image: the
/// physical page `lp + k / 0x200`, offset `k % 0x200`.
pub open spec fn sb_logical_byte_offset(lp: int, k: int) -> int {
    (lp + k / 0x200) * 0x210 + k % 0x200
}

proof fn lemma_sb_read_chunks(image: Seq<u8>, lp: int, len: int, layout: NandLayout, cur: int)
    requires
        layout == NandLayout::Sb || layout == NandLayout::Xsb,
        0 <= lp,
        0 <= cur <= len,
        cur % 512 == 0 || cur == len,
        (lp + (len + 0x1FF) / 0x200) * 0x210 <= image.len(),
    ensures
        read_chunks(image, lp, len, layout, cur).len() == len - cur,
        forall|j: int| 0 <= j < len - cur ==> #[trigger] read_chunks(image, lp, len, layout, cur)[j]
            == image[sb_logical_byte_offset(lp, cur + j)],
    decreases len - cur,
{
    if cur < len {
        let lb = lp * 512 + cur;
        assert(lb % 512 == 0 && lb / 512 == lp + cur / 512) by (nonlinear_arith)
            requires
                lb == lp * 512 + cur,
                cur % 512 == 0,
                cur >= 0,
        ;
        let phys = layout.logical_to_physical_spec(lb);
        assert(phys == (lp + cur / 512) * 528);
        let to_read = min_int(512, len - cur);
        assert((lp + cur / 512 + 1) * 0x210 <= image.len()) by (nonlinear_arith)
            requires
                (lp + (len + 0x1FF) / 0x200) * 0x210 <= image.len(),
                cur < len,
                cur % 512 == 0,
                cur >= 0,
                lp >= 0,
        ;
        let next = cur + to_read;
        if next < len {
            assert(next % 512 == 0);
        }
        lemma_sb_read_chunks(image, lp, len, layout, next);
        let rest = read_chunks(image, lp, len, layout, next);
        assert forall|j: int| 0 <= j < len - cur implies #[trigger] read_chunks(image, lp, len, layout, cur)[j]
            == image[sb_logical_byte_offset(lp, cur + j)] by {
            if j < to_read {
                assert((cur + j) / 0x200 == cur / 512 && (cur + j) % 0x200 == j) by (nonlinear_arith)
                    requires
                        cur % 512 == 0,
                        0 <= j < 512,
                        cur >= 0,
                ;
            } else {
                assert(read_chunks(image, lp, len, layout, cur)[j] == rest[j - to_read]);
            }
        }
    }
}

/// Reads `len` bytes starting from logical page `logical_page` of a physical
/// image: each logical page comes from its physical page, the spare areas
/// skipped; `None` when nothing could be read.
#[verifier::rlimit(50)]
#[verifier::spinoff_prover]
pub fn read_logical_from_physical(image: &[u8], logical_page: usize, len: usize, layout: NandLayout) -> (r:
    Option<Vec<u8>>)
    requires
        read_ok(image@.len() as int, logical_page as int, len as int, layout),
    ensures
        image@.len() == 0 || len == 0 ==> r is None,
        image@.len() > 0 && len > 0 ==> {
            let s = read_chunks(image@, logical_page as int, len as int, layout, 0);
            if s.len() == 0 {
                r is None
            } else {
                r is Some && r->0@ == s
            }
        },
        (layout == NandLayout::Sb || layout == NandLayout::Xsb) && len > 0 && (logical_page + (len + 0x1FF)
            / 0x200) * 0x210 <= image@.len() ==> (r matches Some(v) && v@.len() == len && forall|k: int|
            0 <= k < len ==> #[trigger] v@[k] == image@[sb_logical_byte_offset(logical_page as int, k)]),
{
    proof {
        if (layout == NandLayout::Sb || layout == NandLayout::Xsb) && len > 0 && (logical_page + (len + 0x1FF)
            / 0x200) * 0x210 <= image@.len() {
            lemma_sb_read_chunks(image@, logical_page as int, len as int, layout, 0);
        }
    }
    if image.len() == 0 || len == 0 {
        return None;
    }
    let logical_page_size = layout.page_size();
    let mut result: Vec<u8> = Vec::new();
    let mut cur: usize = 0;
    while cur < len
        invariant
            cur <= len,
            logical_page_size == 512,
            read_ok(image@.len() as int, logical_page as int, len as int, layout),
            read_chunks(image@, logical_page as int, len as int, layout, 0) == result@ + read_chunks(
                image@,
                logical_page as int,
                len as int,
                layout,
                cur as int,
            ),
            result@.len() == cur,
        decreases len - cur,
    {
        let lb = logical_page * logical_page_size + cur;
        proof {
            lemma_phys_monotonic(layout, lb as int, logical_page * 512 + len);
        }
        let phys = layout.logical_to_physical(lb);
        let chunk_len = logical_page_size - lb % logical_page_size;
        let to_read = if chunk_len < len - cur {
            chunk_len
        } else {
            len - cur
        };
        if phys >= image.len() as u64 || (image.len() - phys as usize) < to_read {
            assert(result@ + Seq::<u8>::empty() =~= result@);
            if cur == 0 {
                return None;
            }
            return Some(result);
        }
        let src_start = phys as usize;
        append_range(&mut result, image, src_start, src_start + to_read);
        assert(result@ + read_chunks(image@, logical_page as int, len as int, layout, cur + to_read)
            =~= old_result_concat(result@, to_read as int, image@, logical_page as int, len as int, layout, cur + to_read as int));
        cur += to_read;
    }
    assert(result@ + Seq::<u8>::empty() =~= result@);
    Some(result)
}

/// Helper view used in the loop proof of `read_logical_from_physical`.
pub open spec fn old_result_concat(
    res: Seq<u8>,
    n: int,
    image: Seq<u8>,
    lp: int,
    len: int,
    layout: NandLayout,
    cur: int,
) -> Seq<u8> {
    res + read_chunks(image, lp, len, layout, cur)
}

/// `s` with `src` written at offset `at`.
pub open spec fn splice(s: Seq<u8>, at: int, src: Seq<u8>) -> Seq<u8> {
    s.subrange(0, at) + src + s.subrange(at + src.len(), s.len() as int)
}

/// Image after `write_logical_data` has written from position `cur` on; each
/// chunk goes to the physical offset of its logical byte, and the writing stops
/// at the first chunk that would pass the end of the image.
pub open spec fn write_chunks(image: Seq<u8>, lo: int, data: Seq<u8>, layout: NandLayout, cur: int) -> Seq<u8>
    decreases data.len() - cur,
{
    if cur < 0 || cur >= data.len() {
        image
    } else {
        let clb = lo + cur;
        let phys = layout.logical_to_physical_spec(clb);
        let po = clb % 512;
        let to_write = min_int(512 - po, data.len() - cur);
        if phys + to_write > image.len() {
            image
        } else {
            write_chunks(splice(image, phys, data.subrange(cur, cur + to_write)), lo, data, layout, cur + to_write)
        }
    }
}

pub open spec fn write_ok(lo: int, data_len: int, layout: NandLayout, cur: int) -> bool
    decreases data_len - cur,
{
    if cur < 0 || cur >= data_len {
        true
    } else {
        let clb = lo + cur;
        let phys = layout.logical_to_physical_spec(clb);
        let po = clb % 512;
        let to_write = min_int(512 - po, data_len - cur);
        &&& clb <= usize::MAX
        &&& phys + to_write <= usize::MAX
        &&& write_ok(lo, data_len, layout, cur + to_write)
    }
}

/// Within one 512-byte logical page, physical offsets run on with the
/// logical ones.
proof fn lemma_phys_in_page(layout: NandLayout, x: int, j: int)
    requires
        0 <= x,
        x % 512 == 0,
        0 <= j < 512,
    ensures
        layout.logical_to_physical_spec(x + j) == layout.logical_to_physical_spec(x) + j,
{
    vstd::arithmetic::div_mod::lemma_fundamental_div_mod(x, 512);
    let m = x / 512;
    assert(x == m * 512);
    match layout {
        NandLayout::Emmc => {},
        NandLayout::Xsb | NandLayout::Sb => {
            vstd::arithmetic::div_mod::lemma_fundamental_div_mod_converse(x, 512, m, 0);
            vstd::arithmetic::div_mod::lemma_fundamental_div_mod_converse(x + j, 512, m, j);
        },
        NandLayout::Bb => {
            vstd::arithmetic::div_mod::lemma_fundamental_div_mod(m, 4);
            let a = m / 4;
            let b = m % 4;
            assert(x == a * 2048 + 512 * b) by (nonlinear_arith)
                requires
                    x == m * 512,
                    m == 4 * a + b,
            ;
            assert(0 <= 512 * b + j < 2048) by (nonlinear_arith)
                requires
                    0 <= b < 4,
                    0 <= j < 512,
            ;
            vstd::arithmetic::div_mod::lemma_fundamental_div_mod_converse(x, 2048, a, 512 * b);
            vstd::arithmetic::div_mod::lemma_fundamental_div_mod_converse(x + j, 2048, a, 512 * b + j);
        },
    }
}

/// Physical offsets grow at least as fast as logical ones.
proof fn lemma_phys_gap(layout: NandLayout, a: int, b: int)
    requires
        0 <= a <= b,
    ensures
        layout.logical_to_physical_spec(a) + (b - a) <= layout.logical_to_physical_spec(b),
{
    vstd::arithmetic::div_mod::lemma_fundamental_div_mod(a, 512);
    vstd::arithmetic::div_mod::lemma_fundamental_div_mod(b, 512);
    vstd::arithmetic::div_mod::lemma_fundamental_div_mod(a, 2048);
    vstd::arithmetic::div_mod::lemma_fundamental_div_mod(b, 2048);
    vstd::arithmetic::div_mod::lemma_div_is_ordered(a, b, 512);
    vstd::arithmetic::div_mod::lemma_div_is_ordered(a, b, 2048);
}

proof fn lemma_write_chunks_pages(image: Seq<u8>, lp: int, data: Seq<u8>, layout: NandLayout, cur: int)
    requires
        0 <= lp,
        0 <= cur <= data.len(),
        cur % 512 == 0 || cur == data.len(),
        data.len() > 0,
        layout.logical_to_physical_spec(lp * 512 + data.len() - 1) < image.len(),
    ensures
        write_chunks(image, lp * 512, data, layout, cur).len() == image.len(),
        forall|k: int|
            cur <= k < data.len() ==> #[trigger] write_chunks(image, lp * 512, data, layout, cur)[
                layout.logical_to_physical_spec(lp * 512 + k)] == data[k],
        forall|p: int|
            0 <= p < layout.logical_to_physical_spec(lp * 512 + cur) ==> #[trigger] write_chunks(
                image,
                lp * 512,
                data,
                layout,
                cur,
            )[p] == image[p],
    decreases data.len() - cur,
{
    let len = data.len() as int;
    if cur < len {
        let lb = lp * 512 + cur;
        assert(lb % 512 == 0) by (nonlinear_arith)
            requires
                lb == lp * 512 + cur,
                cur % 512 == 0,
                cur >= 0,
        ;
        let phys = layout.logical_to_physical_spec(lb);
        let to_write = min_int(512, len - cur);
        let next = cur + to_write;
        lemma_phys_in_page(layout, lb, to_write - 1);
        lemma_phys_gap(layout, lb + to_write - 1, lp * 512 + len - 1);
        assert(phys + to_write <= image.len());
        let img1 = splice(image, phys, data.subrange(cur, next));
        assert(img1.len() == image.len());
        let w = write_chunks(image, lp * 512, data, layout, cur);
        assert(w == write_chunks(img1, lp * 512, data, layout, next));
        if next < len {
            assert(next % 512 == 0) by (nonlinear_arith)
                requires
                    next == cur + 512,
                    cur % 512 == 0,
                    cur >= 0,
            ;
        } else {
            assert(w == img1);
        }
        lemma_write_chunks_pages(img1, lp, data, layout, next);
        lemma_phys_gap(layout, lb, lp * 512 + next);
        assert forall|k: int| cur <= k < len implies #[trigger] w[layout.logical_to_physical_spec(lp * 512 + k)]
            == data[k] by {
            if k < next {
                lemma_phys_in_page(layout, lb, k - cur);
                assert(img1[phys + (k - cur)] == data[k]);
            }
        }
        assert forall|p: int| 0 <= p < phys implies #[trigger] w[p] == image[p] by {
            assert(img1[p] == image[p]);
        }
    }
}

proof fn lemma_read_chunks_pages(image: Seq<u8>, lp: int, len: int, layout: NandLayout, cur: int)
    requires
        0 <= lp,
        0 <= cur <= len,
        cur % 512 == 0 || cur == len,
        len > 0,
        layout.logical_to_physical_spec(lp * 512 + len - 1) < image.len(),
    ensures
        read_chunks(image, lp, len, layout, cur).len() == len - cur,
        forall|j: int| 0 <= j < len - cur ==> #[trigger] read_chunks(image, lp, len, layout, cur)[j]
            == image[layout.logical_to_physical_spec(lp * 512 + cur + j)],
    decreases len - cur,
{
    if cur < len {
        let lb = lp * 512 + cur;
        assert(lb % 512 == 0) by (nonlinear_arith)
            requires
                lb == lp * 512 + cur,
                cur % 512 == 0,
                cur >= 0,
        ;
        let phys = layout.logical_to_physical_spec(lb);
        let to_read = min_int(512, len - cur);
        let next = cur + to_read;
        lemma_phys_in_page(layout, lb, to_read - 1);
        lemma_phys_gap(layout, lb + to_read - 1, lp * 512 + len - 1);
        if next < len {
            assert(next % 512 == 0) by (nonlinear_arith)
                requires
                    next == cur + 512,
                    cur % 512 == 0,
                    cur >= 0,
            ;
        }
        lemma_read_chunks_pages(image, lp, len, layout, next);
        let rest = read_chunks(image, lp, len, layout, next);
        assert forall|j: int| 0 <= j < len - cur implies #[trigger] read_chunks(image, lp, len, layout, cur)[j]
            == image[layout.logical_to_physical_spec(lp * 512 + cur + j)] by {
            if j < to_read {
                lemma_phys_in_page(layout, lb, j);
            } else {
                assert(read_chunks(image, lp, len, layout, cur)[j] == rest[j - to_read]);
            }
        }
    }
}

/// Reading back the logical pages that a logical write covered gives the
/// written bytes: a write of `data` at the start of logical page `lp`,
/// followed by a read of `data.len()` bytes from that page, on an image that
/// holds the last byte written.
pub proof fn lemma_read_after_write(image: Seq<u8>, lp: int, data: Seq<u8>, layout: NandLayout)
    requires
        0 <= lp,
        data.len() > 0,
        layout.logical_to_physical_spec(lp * 512 + data.len() - 1) < image.len(),
    ensures
        read_chunks(write_chunks(image, lp * 512, data, layout, 0), lp, data.len() as int, layout, 0) == data,
{
    let w = write_chunks(image, lp * 512, data, layout, 0);
    lemma_write_chunks_pages(image, lp, data, layout, 0);
    lemma_read_chunks_pages(w, lp, data.len() as int, layout, 0);
    let r = read_chunks(w, lp, data.len() as int, layout, 0);
    assert forall|j: int| 0 <= j < data.len() implies #[trigger] r[j] == data[j] by {
        assert(r[j] == w[layout.logical_to_physical_spec(lp * 512 + 0 + j)]);
    }
    assert(r =~= data);
}

/// Copies `src[s_start..s_end]` into `dst` at `at`.
pub fn copy_into(dst: &mut [u8], at: usize, src: &[u8], s_start: usize, s_end: usize)
    requires
        s_start <= s_end <= src@.len(),
        at + (s_end - s_start) <= old(dst)@.len(),
    ensures
        final(dst)@ == splice(old(dst)@, at as int, src@.subrange(s_start as int, s_end as int)),
{
    let dst_len = dst.len();
    let mut k = s_start;
    while k < s_end
        invariant
            dst_len == old(dst)@.len(),
            s_start <= k <= s_end <= src@.len(),
            at + (s_end - s_start) <= dst@.len(),
            dst@.len() == old(dst)@.len(),
            forall|j: int| 0 <= j < at ==> dst@[j] == old(dst)@[j],
            forall|j: int| at + (s_end - s_start) <= j < dst@.len() ==> dst@[j] == old(dst)@[j],
            forall|j: int| at <= j < at + (k - s_start) ==> dst@[j] == src@[s_start + j - at],
            forall|j: int| at + (k - s_start) <= j < at + (s_end - s_start) ==> dst@[j] == old(dst)@[j],
        decreases s_end - k,
    {
        dst[at + (k - s_start)] = src[k];
        k += 1;
    }
    assert(dst@ =~= splice(old(dst)@, at as int, src@.subrange(s_start as int, s_end as int)));
}

/// Writes `data` at logical byte offset `logical_offset` of a physical image,
/// translating each chunk to its physical offset.
pub fn write_logical_data(image: &mut [u8], logical_offset: usize, data: &[u8], layout: NandLayout)
    requires
        write_ok(logical_offset as int, data@.len() as int, layout, 0),
    ensures
        old(image)@.len() == 0 || data@.len() == 0 ==> final(image)@ == old(image)@,
        old(image)@.len() > 0 && data@.len() > 0 ==> final(image)@ == write_chunks(
            old(image)@,
            logical_offset as int,
            data@,
            layout,
            0,
        ),
{
    if image.len() == 0 || data.len() == 0 {
        return;
    }
    let logical_page_size = layout.page_size();
    let len = data.len();
    let mut cur: usize = 0;
    while cur < len
        invariant
            cur <= len,
            len == data@.len(),
            logical_page_size == 512,
            image@.len() == old(image)@.len(),
            write_ok(logical_offset as int, len as int, layout, cur as int),
            write_chunks(old(image)@, logical_offset as int, data@, layout, 0) == write_chunks(
                image@,
                logical_offset as int,
                data@,
                layout,
                cur as int,
            ),
        decreases len - cur,
    {
        let current_logical_byte = logical_offset + cur;
        let phys_offset = layout.logical_to_physical(current_logical_byte);
        let page_offset = current_logical_byte % logical_page_size;
        let chunk_len = logical_page_size - page_offset;
        let to_write = if chunk_len < len - cur {
            chunk_len
        } else {
            len - cur
        };
        if (phys_offset as usize) + to_write > image.len() {
            return;
        }
        let dest_start = phys_offset as usize;
        copy_into(image, dest_start, data, cur, cur + to_write);
        cur += to_write;
    }
}


// ---------------------------------------------------------------------------
// Bad block maps and healing
// ---------------------------------------------------------------------------

/// Bad blocks among the first `n` blocks, in increasing order, each mapped to itself.
pub open spec fn bad_block_list(image: Seq<u8>, layout: NandLayout, n: int) -> Seq<BadBlock>
    decreases n,
{
    if n <= 0 {
        Seq::empty()
    } else {
        let prev = bad_block_list(image, layout, n - 1);
        if is_bad_block_spec(image, n - 1, layout) {
            prev.push(BadBlock { block: (n - 1) as usize, target: (n - 1) as usize })
        } else {
            prev
        }
    }
}

#[derive(Clone, Debug)]
pub struct BlockMap {
    pub blocks: Vec<BadBlock>,
    pub layout: NandLayout,
}

impl BlockMap {
    /// Scans a physical image for bad blocks; `None` when its size matches no layout.
    pub fn new(image: &[u8]) -> (r: Option<Self>)
        requires
            slice_len_ok(image@.len() as int),
        ensures
            match NandLayout::detect_spec(image@.len() as int) {
                None => r is None,
                Some(l) => r is Some && r->0.layout == l && r->0.blocks@ == bad_block_list(
                    image@,
                    l,
                    l.total_blocks_spec(image@.len() as int),
                ),
            },
    {
        let layout = match NandLayout::detect(image) {
            Ok(l) => l,
            Err(_) => return None,
        };
        let total = layout.total_blocks(image.len());
        let mut bad_blocks: Vec<BadBlock> = Vec::new();
        let mut block: usize = 0;
        while block < total
            invariant
                NandLayout::detect_spec(image@.len() as int) == Some(layout),
                total == layout.total_blocks_spec(image@.len() as int),
                slice_len_ok(image@.len() as int),
                block <= total,
                bad_blocks@ == bad_block_list(image@, layout, block as int),
            decreases total - block,
        {
            proof {
                lemma_block_in_range(image@.len() as int, layout, block as int);
            }
            if is_bad_block(image, block, &layout) {
                bad_blocks.push(BadBlock { block, target: block });
            }
            block += 1;
        }
        Some(BlockMap { blocks: bad_blocks, layout })
    }
}

proof fn lemma_block_in_range(len: int, layout: NandLayout, block: int)
    requires
        NandLayout::detect_spec(len) == Some(layout),
        0 <= block < layout.total_blocks_spec(len),
        len <= usize::MAX,
    ensures
        block * layout.block_size_spec() + layout.block_size_spec() <= usize::MAX,
{
    if layout == NandLayout::Emmc {
        assert(block * 0x200 + 0x200 <= len) by (nonlinear_arith)
            requires
                block < len / 0x200,
        ;
    } else if layout == NandLayout::Bb {
        assert(len <= 0x21001000);
        assert(len / 0x21000 <= len / 0x20000) by (nonlinear_arith)
            requires len >= 0,
        ;
        assert(block < len / 0x20000);
        assert(len / 0x20000 <= 0x1080) by (nonlinear_arith)
            requires len <= 0x21001000, len >= 0,
        ;
        assert(block * 0x21000 + 0x21000 <= 0x1080 * 0x21000) by (nonlinear_arith)
            requires block < 0x1080,
        ;
    } else {
        assert(len <= 0x1081000);
        assert(len / 0x4200 <= len / 0x4000) by (nonlinear_arith)
            requires len >= 0,
        ;
        assert(block < len / 0x4000);
        assert(len / 0x4000 <= 0x420) by (nonlinear_arith)
            requires len <= 0x1081000, len >= 0,
        ;
        assert(block * 0x4200 + 0x4200 <= 0x420 * 0x4200) by (nonlinear_arith)
            requires block < 0x420,
        ;
    }
}

/// Block id recorded in a spare, with the high nibble masked: bytes 0..1 on
/// Xenon small block, bytes 1..2 otherwise.
pub open spec fn spare_block_id(spare: Seq<u8>, layout: NandLayout) -> usize {
    if layout == NandLayout::Xsb {
        lba_at(spare, 0, 1) as usize
    } else {
        lba_at(spare, 1, 2) as usize
    }
}

fn spare_block_id_exec(spare: &Vec<u8>, layout: &NandLayout) -> (r: usize)
    requires
        spare@.len() == 16,
    ensures
        r == spare_block_id(spare@, *layout),
{
    if *layout == NandLayout::Xsb {
        ((((spare[1] as u16) & 0xF) << 8) | spare[0] as u16) as usize
    } else {
        ((((spare[2] as u16) & 0xF) << 8) | spare[1] as u16) as usize
    }
}

pub open spec fn id_or_max(spare: Option<Seq<u8>>, layout: NandLayout) -> usize {
    match spare {
        Some(s) => spare_block_id(s, layout),
        None => usize::MAX,
    }
}

/// First index `>= i` whose bad block is unresolved and matches one of the ids.
pub open spec fn first_match(rem: Seq<Option<usize>>, bads: Seq<usize>, id1: usize, id2: usize, i: int) -> Option<int>
    decreases bads.len() - i,
{
    if i < 0 || i >= bads.len() {
        None
    } else if rem[i] is None && (bads[i] == id1 || bads[i] == id2) {
        Some(i)
    } else {
        first_match(rem, bads, id1, id2, i + 1)
    }
}

/// State `(remapped, resolved)` after `k` of the 32 reserve blocks (scanned from the last down).
pub open spec fn resolve_state(image: Seq<u8>, bads: Seq<usize>, layout: NandLayout, k: nat) -> (Seq<Option<usize>>, int)
    decreases k,
{
    if k == 0 {
        (Seq::new(bads.len(), |i: int| None::<usize>), 0)
    } else {
        let prev = resolve_state(image, bads, layout, (k - 1) as nat);
        if prev.1 == bads.len() {
            prev
        } else {
            let pb = layout.reserve_start_spec() + (31 - (k - 1));
            let bs = layout.block_size_spec();
            if pb * bs + bs > image.len() {
                prev
            } else {
                let first_page = pb * layout.pages_per_block_spec();
                let last_page = first_page + layout.pages_per_block_spec() - 1;
                let id1 = id_or_max(get_page_spare_spec(image, first_page, layout), layout);
                let id2 = id_or_max(get_page_spare_spec(image, last_page, layout), layout);
                match first_match(prev.0, bads, id1, id2, 0) {
                    Some(i) => (prev.0.update(i, Some(pb as usize)), prev.1 + 1),
                    None => prev,
                }
            }
        }
    }
}

pub open spec fn resolve_spec(image: Seq<u8>, bads: Seq<usize>, layout: NandLayout) -> Seq<Option<usize>> {
    resolve_state(image, bads, layout, 32).0
}

/// Finds, for each bad block, the reserve block (among the last 32 reserve blocks,
/// scanned from the end) whose first or last page spare records that block's id.
pub fn resolve_remapped_blocks(image: &[u8], bad_blocks: &[usize], layout: &NandLayout) -> (r: Result<
    Vec<Option<usize>>,
    BlocksError,
>)
    ensures
        match r {
            Ok(v) => v@ == resolve_spec(image@, bad_blocks@, *layout),
            Err(_) => false,
        },
{
    let n = bad_blocks.len();
    let mut remapped: Vec<Option<usize>> = Vec::new();
    let mut z: usize = 0;
    while z < n
        invariant
            n == bad_blocks@.len(),
            z <= n,
            remapped@ =~= Seq::new(z as nat, |i: int| None::<usize>),
        decreases n - z,
    {
        remapped.push(None);
        z += 1;
    }
    let mut resolved: usize = 0;
    let b_size = layout.block_size();
    let res_start = layout.reserve_start(image.len());
    let pages_per_block = layout.logical_pages_per_block();
    let mut k: usize = 0;
    while k < 32
        invariant
            n == bad_blocks@.len(),
            k <= 32,
            b_size == layout.block_size_spec(),
            res_start == layout.reserve_start_spec(),
            pages_per_block == layout.pages_per_block_spec(),
            (remapped@, resolved as int) == resolve_state(image@, bad_blocks@, *layout, k as nat),
            resolved <= n,
            remapped@.len() == n,
        decreases 32 - k,
    {
        let block_idx = 31 - k;
        if resolved == n {
            k += 1;
            continue;
        }
        let physical_block = res_start + block_idx;
        let offset = physical_block * b_size;
        if offset + b_size > image.len() {
            k += 1;
            continue;
        }
        let first_page = physical_block * pages_per_block;
        let last_page = first_page + pages_per_block - 1;
        let id1 = match get_page_spare(image, first_page, layout) {
            Some(s) => spare_block_id_exec(&s, layout),
            None => usize::MAX,
        };
        let id2 = match get_page_spare(image, last_page, layout) {
            Some(s) => spare_block_id_exec(&s, layout),
            None => usize::MAX,
        };
        let mut i: usize = 0;
        while i < n
            invariant
                n == bad_blocks@.len(),
                remapped@.len() == n,
                i <= n,
                first_match(remapped@, bad_blocks@, id1, id2, 0) == first_match(remapped@, bad_blocks@, id1, id2, i as int),
            ensures
                i <= n,
                first_match(remapped@, bad_blocks@, id1, id2, 0) == first_match(remapped@, bad_blocks@, id1, id2, i as int),
                i < n ==> remapped@[i as int] is None && (bad_blocks@[i as int] == id1 || bad_blocks@[i as int] == id2),
            decreases n - i,
        {
            if remapped[i].is_none() && (bad_blocks[i] == id1 || bad_blocks[i] == id2) {
                break;
            }
            i += 1;
        }
        let ghost prev = (remapped@, resolved as int);
        assert(prev == resolve_state(image@, bad_blocks@, *layout, k as nat));
        assert(physical_block == layout.reserve_start_spec() + (31 - k));
        assert(id1 == id_or_max(get_page_spare_spec(image@, first_page as int, *layout), *layout));
        assert(id2 == id_or_max(get_page_spare_spec(image@, last_page as int, *layout), *layout));
        if i < n {
            assert(first_match(remapped@, bad_blocks@, id1, id2, 0) == Some(i as int));
            remapped.set(i, Some(physical_block));
            resolved += 1;
        } else {
            assert(first_match(remapped@, bad_blocks@, id1, id2, 0) == None::<int>);
        }
        assert((remapped@, resolved as int) == resolve_state(image@, bad_blocks@, *layout, (k + 1) as nat));
        k += 1;
    }
    Ok(remapped)
}



proof fn lemma_resolve_targets(image: Seq<u8>, bads: Seq<usize>, layout: NandLayout, k: nat)
    requires
        k <= 32,
    ensures
        resolve_state(image, bads, layout, k).0.len() == bads.len(),
        0 <= resolve_state(image, bads, layout, k).1 <= bads.len(),
        forall|i: int|
            0 <= i < bads.len() && (#[trigger] resolve_state(image, bads, layout, k).0[i]) is Some ==> {
                let p = resolve_state(image, bads, layout, k).0[i]->0;
                p * layout.block_size_spec() + layout.block_size_spec() <= image.len()
            },
    decreases k,
{
    if k > 0 {
        lemma_resolve_targets(image, bads, layout, (k - 1) as nat);
        let prev = resolve_state(image, bads, layout, (k - 1) as nat);
        if prev.1 != bads.len() {
            let pb = layout.reserve_start_spec() + (31 - (k - 1));
            let bs = layout.block_size_spec();
            if pb * bs + bs <= image.len() {
                let first_page = pb * layout.pages_per_block_spec();
                let last_page = first_page + layout.pages_per_block_spec() - 1;
                let id1 = id_or_max(get_page_spare_spec(image, first_page, layout), layout);
                let id2 = id_or_max(get_page_spare_spec(image, last_page, layout), layout);
                lemma_first_match_range(prev.0, bads, id1, id2, 0);
                match first_match(prev.0, bads, id1, id2, 0) {
                    Some(j) => {
                        assert(pb as usize as int == pb);
                    },
                    None => {},
                }
            }
        }
    }
}

proof fn lemma_first_match_range(rem: Seq<Option<usize>>, bads: Seq<usize>, id1: usize, id2: usize, i: int)
    ensures
        first_match(rem, bads, id1, id2, i) matches Some(j) ==> i <= j < bads.len() && rem[j] is None,
    decreases bads.len() - i,
{
    if 0 <= i < bads.len() && !(rem[i] is None && (bads[i] == id1 || bads[i] == id2)) {
        lemma_first_match_range(rem, bads, id1, id2, i + 1);
    }
}

/// Index of the first unresolved entry at or after `i` (the length when none).
pub open spec fn first_unresolved(rem: Seq<Option<usize>>, i: int) -> int
    decreases rem.len() - i,
{
    if i < 0 || i >= rem.len() {
        rem.len() as int
    } else if rem[i] is None {
        i
    } else {
        first_unresolved(rem, i + 1)
    }
}

proof fn lemma_first_unresolved(rem: Seq<Option<usize>>, i: int)
    requires
        0 <= i <= rem.len(),
    ensures
        i <= first_unresolved(rem, i) <= rem.len(),
        first_unresolved(rem, i) < rem.len() ==> rem[first_unresolved(rem, i)] is None,
        forall|q: int| i <= q < first_unresolved(rem, i) ==> rem[q] is Some,
    decreases rem.len() - i,
{
    if i < rem.len() && rem[i] is Some {
        lemma_first_unresolved(rem, i + 1);
    }
}

/// Copies block `target` over block `bad`, then erases `target` to 0xFF.
pub open spec fn heal_block(img: Seq<u8>, bad: int, target: int, bs: int) -> Seq<u8> {
    let buf = img.subrange(target * bs, target * bs + bs);
    splice(splice(img, bad * bs, buf), target * bs, Seq::new(bs as nat, |k: int| 0xFFu8))
}

pub open spec fn heal_prefix(img: Seq<u8>, bads: Seq<usize>, rem: Seq<Option<usize>>, bs: int, n: int) -> Seq<u8>
    decreases n,
{
    if n <= 0 {
        img
    } else {
        heal_block(heal_prefix(img, bads, rem, bs, n - 1), bads[n - 1] as int, rem[n - 1]->0 as int, bs)
    }
}

pub open spec fn block_ids(blocks: Seq<BadBlock>) -> Seq<usize> {
    blocks.map_values(|b: BadBlock| b.block)
}

impl BlockMap {
    /// Heals every bad block by copying its remapped reserve block over it and
    /// erasing the reserve block, recording the target; stops with an error at
    /// the first bad block that has no remapped copy.
    pub fn map_and_heal(&mut self, image: &mut [u8]) -> (r: Result<(), BlocksError>)
        requires
            ({
                let bads = block_ids(old(self).blocks@);
                let rem = resolve_spec(old(image)@, bads, old(self).layout);
                forall|i: int|
                    0 <= i < first_unresolved(rem, 0) ==> bads[i] * old(self).layout.block_size_spec()
                        + old(self).layout.block_size_spec() <= old(image)@.len()
            }),
        ensures
            final(self).layout == old(self).layout,
            final(image)@.len() == old(image)@.len(),
            ({
                let bads = block_ids(old(self).blocks@);
                let rem = resolve_spec(old(image)@, bads, old(self).layout);
                let j = if bads.len() == 0 { 0 } else { first_unresolved(rem, 0) };
                &&& final(image)@ == heal_prefix(old(image)@, bads, rem, old(self).layout.block_size_spec(), j)
                &&& final(self).blocks@.len() == old(self).blocks@.len()
                &&& forall|i: int|
                    0 <= i < old(self).blocks@.len() ==> #[trigger] final(self).blocks@[i] == if i < j {
                        BadBlock { block: bads[i], target: rem[i]->0 }
                    } else {
                        old(self).blocks@[i]
                    }
                &&& r == if j < bads.len() {
                    Err::<(), BlocksError>(BlocksError::BadBlockNotRemapped(bads[j]))
                } else {
                    Ok::<(), BlocksError>(())
                }
            }),
    {
        let n = self.blocks.len();
        let mut bad_indices: Vec<usize> = Vec::new();
        let mut z: usize = 0;
        while z < n
            invariant
                n == self.blocks@.len(),
                z <= n,
                bad_indices@ =~= block_ids(self.blocks@).subrange(0, z as int),
            decreases n - z,
        {
            bad_indices.push(self.blocks[z].block);
            z += 1;
        }
        assert(bad_indices@ =~= block_ids(self.blocks@));
        if n == 0 {
            return Ok(());
        }
        let remapped = match resolve_remapped_blocks(image, bad_indices.as_slice(), &self.layout) {
            Ok(v) => v,
            Err(e) => return Err(e),
        };
        let ghost img0 = image@;
        let ghost bads = bad_indices@;
        let ghost rem = remapped@;
        let ghost blocks0 = self.blocks@;
        proof {
            lemma_resolve_targets(img0, bads, self.layout, 32);
            lemma_first_unresolved(rem, 0);
        }
        let b_size = self.layout.block_size();
        let img_len = image.len();
        let mut i: usize = 0;
        while i < n
            invariant
                img_len == img0.len(),
                n == bads.len(),
                n > 0,
                img0 == old(image)@,
                blocks0 == old(self).blocks@,
                self.layout == old(self).layout,
                bads == block_ids(blocks0),
                rem == resolve_spec(img0, bads, self.layout),
                remapped@ == rem,
                bad_indices@ == bads,
                rem.len() == n,
                b_size == self.layout.block_size_spec(),
                i <= n,
                i <= first_unresolved(rem, 0),
                first_unresolved(rem, 0) == first_unresolved(rem, i as int),
                image@.len() == img0.len(),
                image@ == heal_prefix(img0, bads, rem, b_size as int, i as int),
                forall|q: int| 0 <= q < first_unresolved(rem, 0) ==> bads[q] * b_size + b_size <= img0.len(),
                forall|q: int|
                    0 <= q < n && (#[trigger] rem[q]) is Some ==> rem[q]->0 * b_size + b_size <= img0.len(),
                self.blocks@.len() == n,
                forall|q: int|
                    0 <= q < n ==> #[trigger] self.blocks@[q] == if q < i {
                        BadBlock { block: bads[q], target: rem[q]->0 }
                    } else {
                        blocks0[q]
                    },
            decreases n - i,
        {
            let target = match remapped[i] {
                Some(t) => t,
                None => {
                    proof {
                        lemma_first_unresolved(rem, i as int);
                    }
                    return Err(BlocksError::BadBlockNotRemapped(bad_indices[i]));
                },
            };
            proof {
                lemma_first_unresolved(rem, i as int);
                lemma_first_unresolved(rem, i + 1);
            }
            let bad_block = bad_indices[i];
            assert(bad_block * b_size + b_size <= img0.len());
            assert(target * b_size + b_size <= img0.len());
            let buf = slice_to_vec(image, target * b_size, target * b_size + b_size);
            copy_into(image, bad_block * b_size, buf.as_slice(), 0, b_size);
            assert(buf@.subrange(0, b_size as int) =~= buf@);
            let ff_start = target * b_size;
            let mut k: usize = 0;
            let ghost mid = image@;
            while k < b_size
                invariant
                    k <= b_size,
                    ff_start + b_size <= img0.len(),
                    image@.len() == mid.len(),
                    mid.len() == img0.len(),
                    forall|j: int| 0 <= j < ff_start ==> image@[j] == mid[j],
                    forall|j: int| ff_start + b_size <= j < mid.len() ==> image@[j] == mid[j],
                    forall|j: int| ff_start <= j < ff_start + k ==> image@[j] == 0xFFu8,
                    forall|j: int| ff_start + k <= j < ff_start + b_size ==> image@[j] == mid[j],
                decreases b_size - k,
            {
                image[ff_start + k] = 0xFF;
                k += 1;
            }
            assert(image@ =~= splice(mid, ff_start as int, Seq::new(b_size as nat, |k: int| 0xFFu8)));
            let block = self.blocks[i].block;
            self.blocks.set(i, BadBlock { block, target });
            i += 1;
        }
        Ok(())
    }
}

// ---------------------------------------------------------------------------
// Logical block address map
// ---------------------------------------------------------------------------

/// Tracks logical-to-physical block mapping after bad block healing.
#[derive(Clone, Debug)]
pub struct LbaMap {
    /// Bad physical blocks that were detected and remapped.
    pub bad_blocks: Vec<usize>,
    /// Physical location of each logical block.
    pub logical_to_physical: Vec<usize>,
    /// Spare metadata format detected.
    pub meta_type: SpareMetaType,
}

fn vec_contains(v: &Vec<usize>, x: usize) -> (r: bool)
    ensures
        r == v@.contains(x),
{
    let mut i: usize = 0;
    while i < v.len()
        invariant
            i <= v@.len(),
            forall|j: int| 0 <= j < i ==> v@[j] != x,
        decreases v@.len() - i,
    {
        if v[i] == x {
            assert(v@[i as int] == x);
            return true;
        }
        i += 1;
    }
    false
}

/// Replaces every entry equal to `from` by `to`.
pub open spec fn redirect(s: Seq<usize>, from: usize, to: usize) -> Seq<usize> {
    s.map_values(|p: usize| if p == from { to } else { p })
}

fn redirect_in_place(v: &mut Vec<usize>, from: usize, to: usize)
    ensures
        final(v)@ == redirect(old(v)@, from, to),
{
    let n = v.len();
    let mut i: usize = 0;
    while i < n
        invariant
            n == old(v)@.len(),
            v@.len() == n,
            i <= n,
            forall|j: int| 0 <= j < i ==> v@[j] == (if old(v)@[j] == from { to } else { old(v)@[j] }),
            forall|j: int| i <= j < n ==> v@[j] == old(v)@[j],
        decreases n - i,
    {
        if v[i] == from {
            v.set(i, to);
        }
        i += 1;
    }
    assert(v@ =~= redirect(old(v)@, from, to));
}

pub open spec fn add_once(s: Seq<usize>, x: usize) -> Seq<usize> {
    if s.contains(x) {
        s
    } else {
        s.push(x)
    }
}

/// The reserve block chosen for a live remap: scanning the 32 reserve blocks
/// from the last one down, the first that lies below `max_blocks` and is
/// neither a known bad block nor the target of any logical block.
pub open spec fn find_reserve_from(bad: Seq<usize>, l2p: Seq<usize>, layout: NandLayout, idx: int) -> Option<usize>
    decreases idx + 1,
{
    if idx < 0 {
        None
    } else {
        let pb = layout.reserve_start_spec() + idx;
        if pb < layout.max_blocks_spec() && !bad.contains(pb as usize) && !l2p.contains(pb as usize) {
            Some(pb as usize)
        } else {
            find_reserve_from(bad, l2p, layout, idx - 1)
        }
    }
}

proof fn lemma_find_reserve(bad: Seq<usize>, l2p: Seq<usize>, layout: NandLayout, idx: int)
    ensures
        find_reserve_from(bad, l2p, layout, idx) matches Some(t) ==> !bad.contains(t) && !l2p.contains(t)
            && layout.reserve_start_spec() <= t < layout.max_blocks_spec(),
    decreases idx + 1,
{
    if idx >= 0 {
        lemma_find_reserve(bad, l2p, layout, idx - 1);
    }
}

impl LbaMap {
    /// Identity map over `total_blocks` blocks with no bad blocks.
    pub fn new(total_blocks: usize) -> (r: Self)
        ensures
            r.bad_blocks@ == Seq::<usize>::empty(),
            r.logical_to_physical@ == Seq::new(total_blocks as nat, |i: int| i as usize),
            r.meta_type == SpareMetaType::MetaTypeNone,
    {
        let mut l2p: Vec<usize> = Vec::new();
        let mut i: usize = 0;
        while i < total_blocks
            invariant
                i <= total_blocks,
                l2p@ =~= Seq::new(i as nat, |j: int| j as usize),
            decreases total_blocks - i,
        {
            l2p.push(i);
            i += 1;
        }
        LbaMap { bad_blocks: Vec::new(), logical_to_physical: l2p, meta_type: SpareMetaType::MetaTypeNone }
    }

    /// Identity map whose metadata format follows the layout (MetaType2 on big block, MetaType1 otherwise).
    pub fn from_layout(layout: NandLayout, total_blocks: usize) -> (r: Self)
        ensures
            r.bad_blocks@ == Seq::<usize>::empty(),
            r.logical_to_physical@ == Seq::new(total_blocks as nat, |i: int| i as usize),
            r.meta_type == (if layout == NandLayout::Bb { SpareMetaType::MetaType2 } else { SpareMetaType::MetaType1 }),
    {
        let mut map = Self::new(total_blocks);
        map.meta_type = match layout {
            NandLayout::Bb => SpareMetaType::MetaType2,
            _ => SpareMetaType::MetaType1,
        };
        map
    }

    /// Records that `bad_block` was healed with the content of `replacement_block`:
    /// the bad block is listed once, and every logical block that pointed at the
    /// replacement now points at the healed block.
    pub fn record_remap(&mut self, bad_block: usize, replacement_block: usize)
        ensures
            final(self).bad_blocks@ == add_once(old(self).bad_blocks@, bad_block),
            final(self).logical_to_physical@ == redirect(old(self).logical_to_physical@, replacement_block, bad_block),
            final(self).meta_type == old(self).meta_type,
            final(self).bad_blocks@.contains(bad_block),
            replacement_block != bad_block ==> !final(self).logical_to_physical@.contains(replacement_block),
    {
        if !vec_contains(&self.bad_blocks, bad_block) {
            self.bad_blocks.push(bad_block);
            assert(self.bad_blocks@.last() == bad_block);
        }
        redirect_in_place(&mut self.logical_to_physical, replacement_block, bad_block);
        proof {
            let l = self.logical_to_physical@;
            if replacement_block != bad_block && l.contains(replacement_block) {
                let j = choose|j: int| 0 <= j < l.len() && l[j] == replacement_block;
                assert(l[j] == (if old(self).logical_to_physical@[j] == replacement_block { bad_block } else {
                    old(self).logical_to_physical@[j] }));
            }
        }
    }

    /// Physical block of a logical block, if it is mapped.
    pub fn physical_block(&self, logical: usize) -> (r: Option<usize>)
        ensures
            r == (if logical < self.logical_to_physical@.len() {
                Some(self.logical_to_physical@[logical as int])
            } else {
                None
            }),
    {
        if logical < self.logical_to_physical.len() {
            Some(self.logical_to_physical[logical])
        } else {
            None
        }
    }

    /// True if a physical block is known to be bad.
    pub fn is_bad(&self, physical: usize) -> (r: bool)
        ensures
            r == self.bad_blocks@.contains(physical),
    {
        vec_contains(&self.bad_blocks, physical)
    }

    /// Finds the next available reserve block, starting from the end of the NAND.
    pub fn find_available_reserve_block(&self, layout: &NandLayout, image_len: usize) -> (r: Option<usize>)
        ensures
            r == find_reserve_from(self.bad_blocks@, self.logical_to_physical@, *layout, 31),
            r matches Some(t) ==> !self.bad_blocks@.contains(t) && !self.logical_to_physical@.contains(t)
                && layout.reserve_start_spec() <= t < layout.max_blocks_spec(),
    {
        proof {
            lemma_find_reserve(self.bad_blocks@, self.logical_to_physical@, *layout, 31);
        }
        let res_start = layout.reserve_start(image_len);
        let max_blocks = layout.max_blocks();
        let mut idx: usize = 32;
        while idx > 0
            invariant
                idx <= 32,
                res_start == layout.reserve_start_spec(),
                max_blocks == layout.max_blocks_spec(),
                find_reserve_from(self.bad_blocks@, self.logical_to_physical@, *layout, 31)
                    == find_reserve_from(self.bad_blocks@, self.logical_to_physical@, *layout, idx - 1),
            decreases idx,
        {
            let block_idx = idx - 1;
            let physical_block = res_start + block_idx;
            if physical_block < max_blocks {
                if !vec_contains(&self.bad_blocks, physical_block) && !vec_contains(
                    &self.logical_to_physical,
                    physical_block,
                ) {
                    return Some(physical_block);
                }
            }
            idx -= 1;
        }
        None
    }

    /// Handles a write-time failure of `bad_block` outside the reserve area: picks a
    /// free reserve block, lists the bad block once and redirects every logical
    /// block that used it to the new target.
    pub fn get_live_remap_target(&mut self, bad_block: usize, layout: &NandLayout, image_len: usize) -> (r:
        Option<usize>)
        ensures
            bad_block >= layout.reserve_start_spec() ==> r is None && *final(self) == *old(self),
            bad_block < layout.reserve_start_spec() ==> r == find_reserve_from(
                old(self).bad_blocks@,
                old(self).logical_to_physical@,
                *layout,
                31,
            ),
            r is None ==> *final(self) == *old(self),
            r matches Some(t) ==> {
                &&& final(self).bad_blocks@ == add_once(old(self).bad_blocks@, bad_block)
                &&& final(self).logical_to_physical@ == redirect(old(self).logical_to_physical@, bad_block, t)
                &&& final(self).meta_type == old(self).meta_type
                &&& !old(self).bad_blocks@.contains(t)
                &&& !old(self).logical_to_physical@.contains(t)
                &&& !final(self).logical_to_physical@.contains(bad_block)
                &&& final(self).bad_blocks@.contains(bad_block)
            },
    {
        if bad_block >= layout.reserve_start(image_len) {
            return None;
        }
        let target = match self.find_available_reserve_block(layout, image_len) {
            Some(t) => t,
            None => return None,
        };
        if !vec_contains(&self.bad_blocks, bad_block) {
            self.bad_blocks.push(bad_block);
            assert(self.bad_blocks@.last() == bad_block);
        }
        redirect_in_place(&mut self.logical_to_physical, bad_block, target);
        proof {
            let l = self.logical_to_physical@;
            if l.contains(bad_block) {
                let j = choose|j: int| 0 <= j < l.len() && l[j] == bad_block;
                assert(l[j] == (if old(self).logical_to_physical@[j] == bad_block { target } else {
                    old(self).logical_to_physical@[j] }));
            }
        }
        Some(target)
    }
}


// ---------------------------------------------------------------------------
// Whole-image processing
// ---------------------------------------------------------------------------

proof fn lemma_bad_list_in_range(image: Seq<u8>, layout: NandLayout, n: int)
    requires
        image.len() <= usize::MAX,
    ensures
        forall|i: int|
            0 <= i < bad_block_list(image, layout, n).len() ==> {
                let b = #[trigger] bad_block_list(image, layout, n)[i];
                b.block * layout.block_size_spec() + layout.block_size_spec() <= image.len()
            },
    decreases n,
{
    if n > 0 {
        lemma_bad_list_in_range(image, layout, n - 1);
        let prev = bad_block_list(image, layout, n - 1);
        if is_bad_block_spec(image, n - 1, layout) {
            let cur = bad_block_list(image, layout, n);
            assert forall|i: int| 0 <= i < cur.len() implies {
                let b = #[trigger] cur[i];
                b.block * layout.block_size_spec() + layout.block_size_spec() <= image.len()
            } by {
                if i < prev.len() {
                    assert(cur[i] == prev[i]);
                } else {
                    let bs = layout.block_size_spec();
                    assert((n - 1) * bs + bs <= image.len());
                    assert(n - 1 <= image.len()) by (nonlinear_arith)
                        requires
                            (n - 1) * bs + bs <= image.len(),
                            bs >= 1,
                            n - 1 >= 0,
                    ;
                    assert(cur[i].block == n - 1);
                }
            }
        }
    }
}

pub open spec fn truncate_bb(s: Seq<u8>, layout: NandLayout) -> Seq<u8> {
    if layout == NandLayout::Bb && s.len() > 0x4000000 {
        s.subrange(0, 0x4000000)
    } else {
        s
    }
}

/// What preprocessing a raw image with its LBA map gives (see
/// `NandProcessor::preprocess_nand_with_lba`).
/// A block map sending each of the first `n` logical blocks to itself.
pub open spec fn identity_blocks(m: Seq<usize>, n: int) -> bool {
    m.len() == n && forall|i: int| 0 <= i < n ==> #[trigger] m[i] == i as usize
}

pub open spec fn preprocess_lba_post(raw: Seq<u8>, r: Result<(Vec<u8>, NandLayout, LbaMap), BlocksError>) -> bool {
    let len = raw.len() as int;
    match NandLayout::detect_spec(len) {
        None => r == Err::<(Vec<u8>, NandLayout, LbaMap), BlocksError>(BlocksError::UnknownLayout(len as usize)),
        Some(base) => if base == NandLayout::Emmc {
            match r {
                Ok((clean, layout, lba)) => clean@ =~= raw && layout == NandLayout::Emmc
                    && lba.bad_blocks@ =~= Seq::<usize>::empty()
                    && identity_blocks(lba.logical_to_physical@, len / 0x200)
                    && lba.meta_type == SpareMetaType::MetaTypeNone,
                Err(_) => false,
            }
        } else {
            let layout = promote_layout_spec(raw, base);
            let bads = block_ids(bad_block_list(raw, base, base.total_blocks_spec(len)));
            let rem = resolve_spec(raw, bads, base);
            let j = if bads.len() == 0 { 0 } else { first_unresolved(rem, 0) };
            let healed = heal_prefix(raw, bads, rem, base.block_size_spec(), j);
            if j < bads.len() {
                r == Err::<(Vec<u8>, NandLayout, LbaMap), BlocksError>(BlocksError::BadBlockNotRemapped(bads[j]))
            } else {
                match r {
                    Ok((clean, l, lba)) => clean@ =~= truncate_bb(remove_spare_spec(healed), layout)
                        && l == layout && lba.bad_blocks@ =~= bads
                        && identity_blocks(lba.logical_to_physical@, layout.total_blocks_spec(len)) && lba.meta_type == detect_meta_type_spec(raw, layout),
                    Err(_) => false,
                }
            }
        },
    }
}

/// What preprocessing a raw image gives: its layout's error, the eMMC image
/// as it is, the first bad block that cannot be remapped, or the healed image
/// without spare areas (big block cut to 64 MB) and the promoted layout.
pub open spec fn preprocess_post(raw: Seq<u8>, r: Result<(Vec<u8>, NandLayout), BlocksError>) -> bool {
    let len = raw.len() as int;
    match NandLayout::detect_spec(len) {
        None => r == Err::<(Vec<u8>, NandLayout), BlocksError>(BlocksError::UnknownLayout(len as usize)),
        Some(base) => if base == NandLayout::Emmc {
            r matches Ok((clean, l)) && clean@ =~= raw && l == base
        } else {
            let layout = promote_layout_spec(raw, base);
            let bads = block_ids(bad_block_list(raw, base, base.total_blocks_spec(len)));
            let rem = resolve_spec(raw, bads, base);
            let j = if bads.len() == 0 { 0 } else { first_unresolved(rem, 0) };
            let healed = heal_prefix(raw, bads, rem, base.block_size_spec(), j);
            if j < bads.len() {
                r == Err::<(Vec<u8>, NandLayout), BlocksError>(BlocksError::BadBlockNotRemapped(bads[j]))
            } else {
                r matches Ok((clean, l)) && clean@ =~= truncate_bb(remove_spare_spec(healed), layout)
                    && l == layout
            }
        },
    }
}

/// Preprocessing without the LBA map gives what preprocessing with it gives,
/// less the map: the same error, or the same clean image and layout.
pub proof fn lemma_preprocess_drops_only_the_map(
    raw: Seq<u8>,
    with_map: Result<(Vec<u8>, NandLayout, LbaMap), BlocksError>,
    without: Result<(Vec<u8>, NandLayout), BlocksError>,
)
    requires
        preprocess_lba_post(raw, with_map),
        preprocess_post(raw, without),
    ensures
        match (with_map, without) {
            (Ok((c1, l1, _)), Ok((c2, l2))) => c1@ == c2@ && l1 == l2,
            (Err(e1), Err(e2)) => e1 == e2,
            _ => false,
        },
{
}

/// The layout an image's size stands for: 16 MB clean, or with its spare
/// areas (0x1080000 bytes, up to 4 KB more), is small block; 64, 256 and 512
/// MB clean, or with spare areas, are big block; 48 MB, or 768 MB and more,
/// are eMMC; every other size is refused. Small block is never reported as the
/// Xenon variant from the size alone.
pub proof fn lemma_layout_by_size(len: int)
    ensures
        NandLayout::detect_spec(len) == Some(NandLayout::Sb) <==> (len == 0x1000000 || 0x1080000 <= len <= 0x1081000),
        NandLayout::detect_spec(len) == Some(NandLayout::Bb) <==> (len == 0x4000000 || len == 0x10000000 || len
            == 0x20000000 || 0x4200000 <= len <= 0x4201000 || 0x10800000 <= len <= 0x10801000 || 0x21000000 <= len
            <= 0x21001000),
        NandLayout::detect_spec(len) == Some(NandLayout::Emmc) <==> (len == 0x3000000 || len >= 0x30000000),
        NandLayout::detect_spec(len) != Some(NandLayout::Xsb),
{
}

/// An image with its spare areas (16 bytes more for every 512) has the layout
/// of the clean image it holds.
pub proof fn lemma_spare_keeps_layout(n: int)
    requires
        n == 0x1000000 || n == 0x4000000 || n == 0x10000000 || n == 0x20000000,
    ensures
        NandLayout::detect_spec(n + n / 32) == NandLayout::detect_spec(n),
        NandLayout::detect_spec(n) is Some,
{
}

/// Where logical bytes lie in a physical image: the first 512 bytes stay in
/// place; on small block each 512-byte page is followed by a 16-byte spare, so
/// the next page starts 528 bytes on; on big block each 2048 bytes are
/// followed by 64 bytes of spare; eMMC holds no spare.
pub proof fn lemma_physical_offsets(layout: NandLayout, x: int)
    requires
        0 <= x,
    ensures
        0 <= x < 512 ==> layout.logical_to_physical_spec(x) == x,
        (layout == NandLayout::Sb || layout == NandLayout::Xsb) ==> layout.logical_to_physical_spec(x + 512)
            == layout.logical_to_physical_spec(x) + 528,
        layout == NandLayout::Bb ==> layout.logical_to_physical_spec(x + 2048) == layout.logical_to_physical_spec(x)
            + 2112,
        layout == NandLayout::Emmc ==> layout.logical_to_physical_spec(x) == x,
{
    vstd::arithmetic::div_mod::lemma_fundamental_div_mod(x, 512);
    vstd::arithmetic::div_mod::lemma_fundamental_div_mod(x, 2048);
    vstd::arithmetic::div_mod::lemma_fundamental_div_mod_converse(x + 512, 512, x / 512 + 1, x % 512);
    vstd::arithmetic::div_mod::lemma_fundamental_div_mod_converse(x + 2048, 2048, x / 2048 + 1, x % 2048);
    if x < 512 {
        vstd::arithmetic::div_mod::lemma_fundamental_div_mod_converse(x, 512, 0, x);
        vstd::arithmetic::div_mod::lemma_fundamental_div_mod_converse(x, 2048, 0, x);
    }
}

pub struct NandProcessor;

impl NandProcessor {
    /// Preprocesses a raw NAND image: detects the layout (promoting small block to
    /// Xenon small block when the spare says so), detects the spare metadata format,
    /// heals bad blocks from their reserve copies, strips the spare data (and cuts
    /// big-block images to 64 MB). Returns the clean image, the layout and the LBA map.
    pub fn preprocess_nand_with_lba(raw_image: &[u8]) -> (r: Result<(Vec<u8>, NandLayout, LbaMap), BlocksError>)
        requires
            slice_len_ok(raw_image@.len() as int),
        ensures
            ({
                let raw = raw_image@;
                let len = raw.len() as int;
                match NandLayout::detect_spec(len) {
                    None => r == Err::<(Vec<u8>, NandLayout, LbaMap), BlocksError>(BlocksError::UnknownLayout(len as usize)),
                    Some(base) => if base == NandLayout::Emmc {
                        match r {
                            Ok((clean, layout, lba)) => clean@ == raw && layout == NandLayout::Emmc
                                && lba.bad_blocks@ == Seq::<usize>::empty()
                                && lba.logical_to_physical@ == Seq::new((len / 0x200) as nat, |i: int| i as usize)
                                && lba.meta_type == SpareMetaType::MetaTypeNone,
                            Err(_) => false,
                        }
                    } else {
                        let layout = promote_layout_spec(raw, base);
                        let bads = block_ids(bad_block_list(raw, base, base.total_blocks_spec(len)));
                        let rem = resolve_spec(raw, bads, base);
                        let j = if bads.len() == 0 { 0 } else { first_unresolved(rem, 0) };
                        let healed = heal_prefix(raw, bads, rem, base.block_size_spec(), j);
                        if j < bads.len() {
                            r == Err::<(Vec<u8>, NandLayout, LbaMap), BlocksError>(BlocksError::BadBlockNotRemapped(bads[j]))
                        } else {
                            match r {
                                Ok((clean, l, lba)) => clean@ == truncate_bb(remove_spare_spec(healed), layout)
                                    && l == layout && lba.bad_blocks@ == bads
                                    && lba.logical_to_physical@ == Seq::new(
                                    layout.total_blocks_spec(len) as nat,
                                    |i: int| i as usize,
                                ) && lba.meta_type == detect_meta_type_spec(raw, layout),
                                Err(_) => false,
                            }
                        }
                    },
                }
            }),
            preprocess_lba_post(raw_image@, r),
    {
        let base_layout = match NandLayout::detect(raw_image) {
            Ok(l) => l,
            Err(e) => return Err(e),
        };
        if base_layout == NandLayout::Emmc {
            let total_blocks = raw_image.len() / (base_layout.logical_pages_per_block() * 0x200);
            let copy = slice_to_vec(raw_image, 0, raw_image.len());
            assert(raw_image@.subrange(0, raw_image@.len() as int) =~= raw_image@);
            return Ok((copy, base_layout, LbaMap::new(total_blocks)));
        }
        let layout = promote_layout(raw_image, base_layout);
        let meta_type = detect_meta_type(raw_image, layout);
        let mut working = slice_to_vec(raw_image, 0, raw_image.len());
        assert(raw_image@.subrange(0, raw_image@.len() as int) =~= raw_image@);
        let total_blocks = layout.total_blocks(working.len());
        let mut lba_map = LbaMap::new(total_blocks);
        lba_map.meta_type = meta_type;
        let ghost raw = raw_image@;
        match BlockMap::new(working.as_slice()) {
            Some(mut bm) => {
                proof {
                    lemma_bad_list_in_range(raw, base_layout, base_layout.total_blocks_spec(raw.len() as int));
                }
                if bm.blocks.len() > 0 {
                    let nb = bm.blocks.len();
                    let mut k: usize = 0;
                    while k < nb
                        invariant
                            nb == bm.blocks@.len(),
                            k <= nb,
                            lba_map.bad_blocks@ =~= block_ids(bm.blocks@).subrange(0, k as int),
                            lba_map.logical_to_physical@ == Seq::new(total_blocks as nat, |i: int| i as usize),
                            lba_map.meta_type == meta_type,
                        decreases nb - k,
                    {
                        lba_map.bad_blocks.push(bm.blocks[k].block);
                        k += 1;
                    }
                    assert(lba_map.bad_blocks@ =~= block_ids(bm.blocks@));
                    proof {
                        let bads = block_ids(bm.blocks@);
                        assert(working@ == raw);
                        assert(bm.layout == base_layout);
                        let rem = resolve_spec(working@, bads, bm.layout);
                        lemma_resolve_targets(working@, bads, bm.layout, 32);
                        lemma_first_unresolved(rem, 0);
                        assert forall|i: int| 0 <= i < first_unresolved(rem, 0) implies bads[i] * bm.layout.block_size_spec()
                            + bm.layout.block_size_spec() <= working@.len() by {
                            let b = bad_block_list(raw, base_layout, base_layout.total_blocks_spec(raw.len() as int))[i];
                            assert(bads[i] == b.block);
                        }
                    }
                    match bm.map_and_heal(working.as_mut_slice()) {
                        Ok(()) => {},
                        Err(e) => return Err(e),
                    }
                }
            },
            None => {},
        }
        assert(working@.len() == raw_image@.len());
        let mut clean = remove_spare(working.as_slice());
        if layout == NandLayout::Bb && clean.len() > 0x4000000 {
            clean.truncate(0x4000000);
        }
        Ok((clean, layout, lba_map))
    }

    /// Preprocesses a raw NAND image and returns the clean image and its layout.
    pub fn preprocess_nand(raw_image: &[u8]) -> (r: Result<(Vec<u8>, NandLayout), BlocksError>)
        requires
            slice_len_ok(raw_image@.len() as int),
        ensures
            preprocess_post(raw_image@, r),
            r matches Ok((clean, l)) ==> (l == NandLayout::Bb ==> clean@.len() <= 0x4000000),
    {
        match Self::preprocess_nand_with_lba(raw_image) {
            Ok((clean, layout, _lba_map)) => Ok((clean, layout)),
            Err(e) => Err(e),
        }
    }

    /// Finalizes a clean image into a physical one (spare + ECC); eMMC is copied.
    pub fn finalize_nand(
        clean_data: &[u8],
        layout: NandLayout,
        meta_type: SpareMetaType,
        fs_meta: Option<&HashMap<usize, FsSpareInfo>>,
        jtag_syscall: Option<u16>,
    ) -> (r: Vec<u8>)
        requires
            slice_len_ok(clean_data@.len() as int),
        ensures
            r@ == add_spare_spec(clean_data@, layout, meta_type, 0, fs_view(fs_meta), jtag_syscall),
            layout == NandLayout::Emmc ==> r@ == clean_data@,
    {
        if layout == NandLayout::Emmc {
            let r = slice_to_vec(clean_data, 0, clean_data.len());
            assert(clean_data@.subrange(0, clean_data@.len() as int) =~= clean_data@);
            return r;
        }
        add_spare(clean_data, layout, meta_type, 0, fs_meta, jtag_syscall)
    }
}

} // verus!
