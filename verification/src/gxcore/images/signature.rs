//! Byte-signature patching: a pattern of hex bytes with `??`/`..` wildcards is
//! searched in a buffer and every match is overwritten by the replacement
//! (wildcards in the replacement keep the original byte).

use vstd::prelude::*;
use vstd::utf8::is_char_boundary;
use vstd::string::StringSliceAdditionalSpecFns;

verus! {

/// Errors of signature parsing.
#[derive(Debug, Clone, Copy, PartialEq, Eq, Structural)]
pub enum SignatureError {
    /// The hex text (spaces removed) has an odd number of bytes.
    OddLength,
    /// A two-byte chunk is neither a wildcard nor a hex byte.
    InvalidByte(u8, u8),
    /// Pattern and replacement lengths differ.
    LengthMismatch(usize, usize),
}

#[derive(Debug, Clone)]
pub struct Signature {
    pub name: Option<String>,
    pub pattern: Vec<Option<u8>>,
    pub replacement: Vec<Option<u8>>,
}

/// The text with its ASCII spaces removed.
pub open spec fn strip_spaces(b: Seq<u8>) -> Seq<u8>
    decreases b.len(),
{
    if b.len() == 0 {
        b
    } else if b.last() == 0x20 {
        strip_spaces(b.drop_last())
    } else {
        strip_spaces(b.drop_last()).push(b.last())
    }
}

/// Value of a hex digit.
pub open spec fn hex_val(c: u8) -> Option<u8> {
    if 0x30 <= c <= 0x39 {
        Some((c - 0x30) as u8)
    } else if 0x61 <= c <= 0x66 {
        Some((c - 0x61 + 10) as u8)
    } else if 0x41 <= c <= 0x46 {
        Some((c - 0x41 + 10) as u8)
    } else {
        None
    }
}

/// Meaning of a two-byte chunk: `??` and `..` are wildcards; otherwise a base-16
/// byte as `u8::from_str_radix` reads it (two hex digits, or `+` and one digit);
/// `None` when invalid.
pub open spec fn chunk_value(b0: u8, b1: u8) -> Option<Option<u8>> {
    if (b0 == 0x3F && b1 == 0x3F) || (b0 == 0x2E && b1 == 0x2E) {
        Some(None)
    } else if b0 == 0x2B {
        match hex_val(b1) {
            Some(v) => Some(Some(v)),
            None => None,
        }
    } else {
        match (hex_val(b0), hex_val(b1)) {
            (Some(h), Some(l)) => Some(Some((h * 16 + l) as u8)),
            _ => None,
        }
    }
}

/// Chunks from byte `i` on, appended to `acc`; the first invalid chunk is the error.
pub open spec fn chunks_from(h: Seq<u8>, i: int, acc: Seq<Option<u8>>) -> Result<Seq<Option<u8>>, SignatureError>
    decreases h.len() - i,
{
    if i < 0 || i + 2 > h.len() {
        Ok(acc)
    } else {
        match chunk_value(h[i], h[i + 1]) {
            None => Err(SignatureError::InvalidByte(h[i], h[i + 1])),
            Some(v) => chunks_from(h, i + 2, acc.push(v)),
        }
    }
}

/// Whether reading the chunks from `i` on reaches one that does not start and
/// end on a character boundary (slicing the text there panics).
pub open spec fn chunks_split_char(h: Seq<u8>, i: int) -> bool
    decreases h.len() - i,
{
    if i < 0 || i + 2 > h.len() {
        false
    } else if !is_char_boundary(h, i) || !is_char_boundary(h, i + 2) {
        true
    } else if chunk_value(h[i], h[i + 1]) is None {
        false
    } else {
        chunks_split_char(h, i + 2)
    }
}

/// Bytes described by a hex text (UTF-8 bytes of the text).
pub open spec fn parse_hex_spec(text: Seq<u8>) -> Result<Seq<Option<u8>>, SignatureError> {
    let h = strip_spaces(text);
    if h.len() % 2 != 0 {
        Err(SignatureError::OddLength)
    } else {
        chunks_from(h, 0, Seq::empty())
    }
}

/// Texts on which parsing panics, slicing a multi-byte character.
pub open spec fn parse_hex_panics(text: Seq<u8>) -> bool {
    let h = strip_spaces(text);
    h.len() % 2 == 0 && chunks_split_char(h, 0)
}

/// Pattern and replacement a signature gets from two hex texts.
pub open spec fn signature_spec(pattern_text: Seq<u8>, replacement_text: Seq<u8>) -> Result<
    (Seq<Option<u8>>, Seq<Option<u8>>),
    SignatureError,
> {
    match parse_hex_spec(pattern_text) {
        Err(e) => Err(e),
        Ok(p) => match parse_hex_spec(replacement_text) {
            Err(e) => Err(e),
            Ok(r) => if p.len() != r.len() {
                Err(SignatureError::LengthMismatch(p.len() as usize, r.len() as usize))
            } else {
                Ok((p, r))
            },
        },
    }
}

/// The two texts can be parsed without panicking (the replacement is only
/// read when the pattern parsed).
pub open spec fn texts_parse_safely(pattern_text: Seq<u8>, replacement_text: Seq<u8>) -> bool {
    &&& !parse_hex_panics(pattern_text)
    &&& parse_hex_spec(pattern_text) is Ok ==> !parse_hex_panics(replacement_text)
}

fn hex_digit(c: u8) -> (r: Option<u8>)
    ensures
        r == hex_val(c),
{
    if 0x30 <= c && c <= 0x39 {
        Some(c - 0x30)
    } else if 0x61 <= c && c <= 0x66 {
        Some(c - 0x61 + 10)
    } else if 0x41 <= c && c <= 0x46 {
        Some(c - 0x41 + 10)
    } else {
        None
    }
}

fn chunk_byte(b0: u8, b1: u8) -> (r: Option<Option<u8>>)
    ensures
        r == chunk_value(b0, b1),
{
    if (b0 == 0x3F && b1 == 0x3F) || (b0 == 0x2E && b1 == 0x2E) {
        Some(None)
    } else if b0 == 0x2B {
        match hex_digit(b1) {
            Some(v) => Some(Some(v)),
            None => None,
        }
    } else {
        match (hex_digit(b0), hex_digit(b1)) {
            (Some(h), Some(l)) => Some(Some(h * 16 + l)),
            _ => None,
        }
    }
}

fn parse_hex_bytes(text: &[u8]) -> (r: Result<Vec<Option<u8>>, SignatureError>)
    ensures
        match parse_hex_spec(text@) {
            Ok(v) => r matches Ok(out) && out@ == v,
            Err(e) => r == Err::<Vec<Option<u8>>, SignatureError>(e),
        },
{
    let n = text.len();
    let mut h: Vec<u8> = Vec::new();
    let mut i: usize = 0;
    while i < n
        invariant
            n == text@.len(),
            i <= n,
            h@ == strip_spaces(text@.subrange(0, i as int)),
        decreases n - i,
    {
        assert(text@.subrange(0, i as int + 1).drop_last() =~= text@.subrange(0, i as int));
        if text[i] != 0x20 {
            h.push(text[i]);
        }
        i += 1;
    }
    assert(text@.subrange(0, n as int) =~= text@);
    let hl = h.len();
    if hl % 2 != 0 {
        return Err(SignatureError::OddLength);
    }
    let mut out: Vec<Option<u8>> = Vec::new();
    let mut k: usize = 0;
    while k < hl
        invariant
            hl == h@.len(),
            h@ == strip_spaces(text@),
            hl % 2 == 0,
            k % 2 == 0,
            k <= hl,
            chunks_from(h@, k as int, out@) == chunks_from(h@, 0, Seq::empty()),
        decreases hl - k,
    {
        assert(k + 2 <= hl) by (nonlinear_arith)
            requires
                k % 2 == 0,
                hl % 2 == 0,
                k < hl,
        ;
        match chunk_byte(h[k], h[k + 1]) {
            None => return Err(SignatureError::InvalidByte(h[k], h[k + 1])),
            Some(v) => out.push(v),
        }
        k += 2;
    }
    Ok(out)
}

pub open spec fn opt_str_view(o: Option<&str>) -> Option<Seq<char>> {
    match o {
        Some(s) => Some(s@),
        None => None,
    }
}

pub open spec fn opt_string_view(o: Option<String>) -> Option<Seq<char>> {
    match o {
        Some(s) => Some(s@),
        None => None,
    }
}

impl Signature {
    /// Well-formed signatures have a non-empty pattern and a replacement of the
    /// same length.
    pub open spec fn wf(&self) -> bool {
        &&& self.pattern@.len() > 0
        &&& self.replacement@.len() == self.pattern@.len()
    }

    fn from_hex_bytes(name: Option<String>, pattern_text: &[u8], replacement_text: &[u8]) -> (r: Result<Self, SignatureError>)
        ensures
            match signature_spec(pattern_text@, replacement_text@) {
                Ok((p, q)) => r matches Ok(sig) && sig.pattern@ == p && sig.replacement@ == q
                    && opt_string_view(sig.name) == opt_string_view(name),
                Err(e) => r == Err::<Self, SignatureError>(e),
            },
    {
        let pattern = match parse_hex_bytes(pattern_text) {
            Ok(p) => p,
            Err(e) => return Err(e),
        };
        let replacement = match parse_hex_bytes(replacement_text) {
            Ok(p) => p,
            Err(e) => return Err(e),
        };
        if pattern.len() != replacement.len() {
            return Err(SignatureError::LengthMismatch(pattern.len(), replacement.len()));
        }
        Ok(Signature { name, pattern, replacement })
    }

    /// Builds a signature from hex texts: spaces are ignored, `??` and `..` are
    /// wildcards, and the two texts must describe the same number of bytes.
    pub fn from_hex(name: Option<&str>, pattern_hex: &str, replacement_hex: &str) -> (r: Result<Self, SignatureError>)
        requires
            texts_parse_safely(pattern_hex.spec_bytes(), replacement_hex.spec_bytes()),
        ensures
            match signature_spec(pattern_hex.spec_bytes(), replacement_hex.spec_bytes()) {
                Ok((p, q)) => r matches Ok(sig) && sig.pattern@ == p && sig.replacement@ == q
                    && opt_string_view(sig.name) == opt_str_view(name),
                Err(e) => r == Err::<Self, SignatureError>(e),
            },
    {
        let owned: Option<String> = match name {
            Some(s) => Some(s.to_owned()),
            None => None,
        };
        Self::from_hex_bytes(owned, pattern_hex.as_bytes(), replacement_hex.as_bytes())
    }
}

/// The pattern matches `d` at `off`: every non-wildcard byte is equal.
pub open spec fn matches_at_spec(pat: Seq<Option<u8>>, d: Seq<u8>, off: int) -> bool {
    forall|k: int| 0 <= k < pat.len() && (#[trigger] pat[k]) is Some ==> d[off + k] == pat[k]->0
}

/// `d` with the non-wildcard replacement bytes written at `off`.
pub open spec fn patch_at_spec(rep: Seq<Option<u8>>, d: Seq<u8>, off: int) -> Seq<u8> {
    Seq::new(
        d.len(),
        |j: int|
            if off <= j < off + rep.len() && rep[j - off] is Some {
                rep[j - off]->0
            } else {
                d[j]
            },
    )
}

/// Scan from offset `i` with `count` matches so far: a match is patched and the
/// scan resumes after it; otherwise it moves one byte on. Returns the buffer and
/// the number of matches.
pub open spec fn scan(pat: Seq<Option<u8>>, rep: Seq<Option<u8>>, d: Seq<u8>, i: int, count: nat) -> (Seq<u8>, nat)
    decreases d.len() - i,
{
    if pat.len() == 0 || i < 0 || i + pat.len() > d.len() {
        (d, count)
    } else if matches_at_spec(pat, d, i) {
        scan(pat, rep, patch_at_spec(rep, d, i), i + pat.len(), count + 1)
    } else {
        scan(pat, rep, d, i + 1, count)
    }
}

impl Signature {
    fn matches_at(&self, data: &[u8], offset: usize) -> (r: bool)
        requires
            offset + self.pattern@.len() <= data@.len(),
        ensures
            r == matches_at_spec(self.pattern@, data@, offset as int),
    {
        let n = self.pattern.len();
        let dl = data.len();
        let mut k: usize = 0;
        while k < n
            invariant
                n == self.pattern@.len(),
                dl == data@.len(),
                k <= n,
                offset + n <= data@.len(),
                forall|q: int| 0 <= q < k && (#[trigger] self.pattern@[q]) is Some ==> data@[offset + q] == self.pattern@[q]->0,
            decreases n - k,
        {
            if let Some(expected) = self.pattern[k] {
                if data[offset + k] != expected {
                    return false;
                }
            }
            k += 1;
        }
        true
    }

    fn patch_at(&self, data: &mut [u8], offset: usize)
        requires
            offset + self.replacement@.len() <= old(data)@.len(),
        ensures
            final(data)@ == patch_at_spec(self.replacement@, old(data)@, offset as int),
    {
        let n = self.replacement.len();
        let dl = data.len();
        let mut k: usize = 0;
        while k < n
            invariant
                n == self.replacement@.len(),
                dl == old(data)@.len(),
                k <= n,
                offset + n <= old(data)@.len(),
                data@.len() == old(data)@.len(),
                forall|j: int|
                    0 <= j < data@.len() ==> #[trigger] data@[j] == (if offset <= j < offset + k
                        && self.replacement@[j - offset] is Some {
                        self.replacement@[j - offset]->0
                    } else {
                        old(data)@[j]
                    }),
            decreases n - k,
        {
            if let Some(new_val) = self.replacement[k] {
                data[offset + k] = new_val;
            }
            k += 1;
        }
        assert(data@ =~= patch_at_spec(self.replacement@, old(data)@, offset as int));
    }

    /// Patches every match of the pattern, scanning from the start and resuming
    /// after each match; returns the number of matches.
    pub fn apply(&self, data: &mut [u8]) -> (r: usize)
        requires
            self.wf(),
        ensures
            (final(data)@, r as nat) == scan(self.pattern@, self.replacement@, old(data)@, 0, 0),
    {
        let plen = self.pattern.len();
        let len = data.len();
        if len < plen {
            return 0;
        }
        let mut matches: usize = 0;
        let mut i: usize = 0;
        while i <= len - plen
            invariant
                plen == self.pattern@.len(),
                plen > 0,
                self.replacement@.len() == plen,
                len == data@.len(),
                plen <= len,
                matches <= i,
                scan(self.pattern@, self.replacement@, data@, i as int, matches as nat) == scan(
                    self.pattern@,
                    self.replacement@,
                    old(data)@,
                    0,
                    0,
                ),
            decreases len - i,
        {
            if self.matches_at(data, i) {
                self.patch_at(data, i);
                matches += 1;
                i += plen;
            } else {
                i += 1;
            }
        }
        matches
    }
}

// ---------------------------------------------------------------------------
// Batch texts: `{"pattern": "replacement", ...}`, read as UTF-8 bytes
// ---------------------------------------------------------------------------

/// Length of the UTF-8 encoded Unicode white-space character at `i` (the
/// `White_Space` code points: U+0009..U+000D, U+0020, U+0085, U+00A0, U+1680,
/// U+2000..U+200A, U+2028, U+2029, U+202F, U+205F, U+3000), or 0.
pub open spec fn ws_len_at(s: Seq<u8>, i: int) -> int {
    if 0 <= i < s.len() && ((0x09 <= s[i] <= 0x0D) || s[i] == 0x20) {
        1
    } else if 0 <= i && i + 1 < s.len() && s[i] == 0xC2 && (s[i + 1] == 0x85 || s[i + 1] == 0xA0) {
        2
    } else if 0 <= i && i + 2 < s.len() && ((s[i] == 0xE1 && s[i + 1] == 0x9A && s[i + 2] == 0x80) || (s[i]
        == 0xE2 && s[i + 1] == 0x80 && ((0x80 <= s[i + 2] <= 0x8A) || s[i + 2] == 0xA8 || s[i + 2] == 0xA9
        || s[i + 2] == 0xAF)) || (s[i] == 0xE2 && s[i + 1] == 0x81 && s[i + 2] == 0x9F) || (s[i] == 0xE3 && s[i
        + 1] == 0x80 && s[i + 2] == 0x80)) {
        3
    } else {
        0
    }
}

/// Length of the white-space character that ends `s`, or 0.
pub open spec fn ws_tail(s: Seq<u8>) -> int {
    if s.len() >= 1 && ws_len_at(s, s.len() - 1) == 1 {
        1
    } else if s.len() >= 2 && ws_len_at(s, s.len() - 2) == 2 {
        2
    } else if s.len() >= 3 && ws_len_at(s, s.len() - 3) == 3 {
        3
    } else {
        0
    }
}

pub open spec fn trim_start_ws(s: Seq<u8>) -> Seq<u8>
    decreases s.len(),
{
    if ws_len_at(s, 0) > 0 {
        trim_start_ws(s.subrange(ws_len_at(s, 0), s.len() as int))
    } else {
        s
    }
}

pub open spec fn trim_end_ws(s: Seq<u8>) -> Seq<u8>
    decreases s.len(),
{
    if ws_tail(s) > 0 {
        trim_end_ws(s.subrange(0, s.len() - ws_tail(s)))
    } else {
        s
    }
}

/// `str::trim`: white space removed from both ends.
pub open spec fn trim_ws(s: Seq<u8>) -> Seq<u8> {
    trim_end_ws(trim_start_ws(s))
}

/// `str::trim_start_matches` with one ASCII character.
pub open spec fn trim_start_byte(s: Seq<u8>, c: u8) -> Seq<u8>
    decreases s.len(),
{
    if s.len() > 0 && s[0] == c {
        trim_start_byte(s.subrange(1, s.len() as int), c)
    } else {
        s
    }
}

/// `str::trim_end_matches` with one ASCII character.
pub open spec fn trim_end_byte(s: Seq<u8>, c: u8) -> Seq<u8>
    decreases s.len(),
{
    if s.len() > 0 && s.last() == c {
        trim_end_byte(s.drop_last(), c)
    } else {
        s
    }
}

/// First index at or after `i` holding `sep`, or the length.
pub open spec fn sep_index_from(s: Seq<u8>, sep: u8, i: int) -> int
    decreases s.len() - i,
{
    if i < 0 || i >= s.len() {
        s.len() as int
    } else if s[i] == sep {
        i
    } else {
        sep_index_from(s, sep, i + 1)
    }
}

/// `str::split` with one ASCII separator.
pub open spec fn split_spec(s: Seq<u8>, sep: u8) -> Seq<Seq<u8>>
    decreases s.len(),
{
    let j = sep_index_from(s, sep, 0);
    if j < 0 || j >= s.len() {
        seq![s]
    } else {
        seq![s.subrange(0, j)] + split_spec(s.subrange(j + 1, s.len() as int), sep)
    }
}

/// Body of a batch text: trimmed, then stripped of its braces.
pub open spec fn batch_content(text: Seq<u8>) -> Seq<u8> {
    trim_end_byte(trim_start_byte(trim_ws(text), 0x7B), 0x7D)
}

/// A key or value: trimmed, then stripped of its quotes.
pub open spec fn batch_field(s: Seq<u8>) -> Seq<u8> {
    trim_end_byte(trim_start_byte(trim_ws(s), 0x22), 0x22)
}

/// The two hex texts of a `pattern: replacement` entry, when it has exactly one
/// colon and neither side is empty.
pub open spec fn batch_pair(piece: Seq<u8>) -> Option<(Seq<u8>, Seq<u8>)> {
    let parts = split_spec(piece, 0x3A);
    if parts.len() == 2 {
        let p = batch_field(parts[0]);
        let r = batch_field(parts[1]);
        if p.len() == 0 || r.len() == 0 {
            None
        } else {
            Some((p, r))
        }
    } else {
        None
    }
}

/// Buffer and match count after one entry; entries that are not pairs or do not
/// parse are skipped.
pub open spec fn batch_step(piece: Seq<u8>, d: Seq<u8>) -> (Seq<u8>, nat) {
    match batch_pair(piece) {
        None => (d, 0),
        Some((p, r)) => match signature_spec(p, r) {
            Err(_) => (d, 0),
            Ok((pat, rep)) => scan(pat, rep, d, 0, 0),
        },
    }
}

pub open spec fn batch_fold(pieces: Seq<Seq<u8>>, d: Seq<u8>, total: int) -> (Seq<u8>, int)
    decreases pieces.len(),
{
    if pieces.len() == 0 {
        (d, total)
    } else {
        let st = batch_step(pieces[0], d);
        batch_fold(pieces.drop_first(), st.0, total + st.1)
    }
}

/// An entry that parses without panicking and, when it parses, has a non-empty
/// pattern (an empty pattern would match forever).
pub open spec fn batch_entry_ok(piece: Seq<u8>) -> bool {
    match batch_pair(piece) {
        None => true,
        Some((p, r)) => texts_parse_safely(p, r) && (signature_spec(p, r) matches Ok((pat, _)) ==> pat.len() > 0),
    }
}

proof fn lemma_split_len(s: Seq<u8>, sep: u8)
    ensures
        split_spec(s, sep).len() >= 1,
        0 <= sep_index_from(s, sep, 0) < s.len() ==> split_spec(s, sep).len() >= 2,
    decreases s.len(),
{
    let j = sep_index_from(s, sep, 0);
    if 0 <= j < s.len() {
        lemma_split_len(s.subrange(j + 1, s.len() as int), sep);
    }
}

proof fn lemma_fold_grows(pieces: Seq<Seq<u8>>, d: Seq<u8>, total: int)
    ensures
        batch_fold(pieces, d, total).1 >= total,
    decreases pieces.len(),
{
    if pieces.len() > 0 {
        let st = batch_step(pieces[0], d);
        lemma_fold_grows(pieces.drop_first(), st.0, total + st.1);
    }
}

fn ws_at(b: &[u8], i: usize, e: usize) -> (r: usize)
    requires
        i <= e <= b@.len(),
    ensures
        r == ws_len_at(b@.subrange(i as int, e as int), 0),
        r <= e - i,
{
    let ghost s = b@.subrange(i as int, e as int);
    if i < e && ((0x09 <= b[i] && b[i] <= 0x0D) || b[i] == 0x20) {
        return 1;
    }
    if e - i >= 2 && b[i] == 0xC2 && (b[i + 1] == 0x85 || b[i + 1] == 0xA0) {
        return 2;
    }
    if e - i >= 3 {
        let (c0, c1, c2) = (b[i], b[i + 1], b[i + 2]);
        if (c0 == 0xE1 && c1 == 0x9A && c2 == 0x80) || (c0 == 0xE2 && c1 == 0x80 && ((0x80 <= c2 && c2 <= 0x8A)
            || c2 == 0xA8 || c2 == 0xA9 || c2 == 0xAF)) || (c0 == 0xE2 && c1 == 0x81 && c2 == 0x9F) || (c0 == 0xE3
            && c1 == 0x80 && c2 == 0x80) {
            return 3;
        }
    }
    0
}

/// Trims white space from both ends of `b[s..e]`, as a range of `b`.
fn trim_ws_range(b: &[u8], s: usize, e: usize) -> (r: (usize, usize))
    requires
        s <= e <= b@.len(),
    ensures
        s <= r.0 <= r.1 <= e,
        b@.subrange(r.0 as int, r.1 as int) == trim_ws(b@.subrange(s as int, e as int)),
{
    let mut i = s;
    loop
        invariant
            s <= i <= e <= b@.len(),
            trim_start_ws(b@.subrange(i as int, e as int)) == trim_start_ws(b@.subrange(s as int, e as int)),
        ensures
            s <= i <= e,
            b@.subrange(i as int, e as int) == trim_start_ws(b@.subrange(s as int, e as int)),
        decreases e - i,
    {
        let k = ws_at(b, i, e);
        if k == 0 {
            break;
        }
        assert(b@.subrange(i as int, e as int).subrange(k as int, (e - i) as int) =~= b@.subrange(i + k, e as int));
        i = i + k;
    }
    let mut j = e;
    loop
        invariant
            i <= j <= e <= b@.len(),
            trim_end_ws(b@.subrange(i as int, j as int)) == trim_ws(b@.subrange(s as int, e as int)),
        ensures
            i <= j <= e,
            b@.subrange(i as int, j as int) == trim_ws(b@.subrange(s as int, e as int)),
        decreases j - i,
    {
        let ghost t = b@.subrange(i as int, j as int);
        let mut k: usize = 0;
        if j - i >= 1 && ws_at(b, j - 1, j) == 1 {
            assert(b@.subrange(j - 1, j as int) =~= t.subrange(t.len() - 1, t.len() as int));
            k = 1;
        } else if j - i >= 2 && ws_at(b, j - 2, j) == 2 {
            k = 2;
        } else if j - i >= 3 && ws_at(b, j - 3, j) == 3 {
            k = 3;
        }
        proof {
            if j - i >= 1 {
                assert(b@.subrange(j - 1, j as int) =~= t.subrange(t.len() - 1, t.len() as int));
            }
            if j - i >= 2 {
                assert(b@.subrange(j - 2, j as int) =~= t.subrange(t.len() - 2, t.len() as int));
            }
            if j - i >= 3 {
                assert(b@.subrange(j - 3, j as int) =~= t.subrange(t.len() - 3, t.len() as int));
            }
            assert(k == ws_tail(t));
        }
        if k == 0 {
            break;
        }
        assert(t.subrange(0, t.len() - k) =~= b@.subrange(i as int, j - k));
        j = j - k;
    }
    (i, j)
}

fn trim_byte_range(b: &[u8], s: usize, e: usize, first: u8, last: u8) -> (r: (usize, usize))
    requires
        s <= e <= b@.len(),
    ensures
        s <= r.0 <= r.1 <= e,
        b@.subrange(r.0 as int, r.1 as int) == trim_end_byte(trim_start_byte(b@.subrange(s as int, e as int), first), last),
{
    let mut i = s;
    while i < e && b[i] == first
        invariant
            s <= i <= e <= b@.len(),
            trim_start_byte(b@.subrange(i as int, e as int), first) == trim_start_byte(b@.subrange(s as int, e as int), first),
        decreases e - i,
    {
        assert(b@.subrange(i as int, e as int).subrange(1, (e - i) as int) =~= b@.subrange(i + 1, e as int));
        i += 1;
    }
    let mut j = e;
    while j > i && b[j - 1] == last
        invariant
            s <= i <= j <= e <= b@.len(),
            trim_end_byte(b@.subrange(i as int, j as int), last) == trim_end_byte(
                trim_start_byte(b@.subrange(s as int, e as int), first),
                last,
            ),
        decreases j - i,
    {
        assert(b@.subrange(i as int, j as int).drop_last() =~= b@.subrange(i as int, j - 1));
        j -= 1;
    }
    (i, j)
}

/// Index of the first `sep` in `b[s..e]`, or `e`.
fn find_byte(b: &[u8], s: usize, e: usize, sep: u8) -> (r: usize)
    requires
        s <= e <= b@.len(),
    ensures
        s <= r <= e,
        r - s == sep_index_from(b@.subrange(s as int, e as int), sep, 0),
{
    let ghost t = b@.subrange(s as int, e as int);
    let mut k = s;
    while k < e
        invariant
            s <= k <= e <= b@.len(),
            t == b@.subrange(s as int, e as int),
            sep_index_from(t, sep, (k - s) as int) == sep_index_from(t, sep, 0),
        decreases e - k,
    {
        if b[k] == sep {
            return k;
        }
        k += 1;
    }
    k
}

/// Applies one `pattern: replacement` entry `b[ps..pe]` of a batch.
fn apply_entry(data: &mut [u8], b: &[u8], ps: usize, pe: usize) -> (r: usize)
    requires
        ps <= pe <= b@.len(),
        batch_entry_ok(b@.subrange(ps as int, pe as int)),
    ensures
        (final(data)@, r as nat) == batch_step(b@.subrange(ps as int, pe as int), old(data)@),
{
    let ghost piece = b@.subrange(ps as int, pe as int);
    let j = find_byte(b, ps, pe, 0x3A);
    proof {
        lemma_split_len(piece, 0x3A);
    }
    if j == pe {
        return 0;
    }
    let ghost rest = piece.subrange(j - ps + 1, piece.len() as int);
    assert(rest =~= b@.subrange(j + 1, pe as int));
    let j2 = find_byte(b, j + 1, pe, 0x3A);
    proof {
        lemma_split_len(rest, 0x3A);
    }
    if j2 != pe {
        return 0;
    }
    assert(piece.subrange(0, j - ps) =~= b@.subrange(ps as int, j as int));
    assert(split_spec(piece, 0x3A) =~= seq![b@.subrange(ps as int, j as int), b@.subrange(j + 1, pe as int)]);
    let (p0, p1) = trim_ws_range(b, ps, j);
    let (p2, p3) = trim_byte_range(b, p0, p1, 0x22, 0x22);
    let (r0, r1) = trim_ws_range(b, j + 1, pe);
    let (r2, r3) = trim_byte_range(b, r0, r1, 0x22, 0x22);
    if p2 == p3 || r2 == r3 {
        return 0;
    }
    let pat_text = crate::gxcore::images::blocks::slice_to_vec(b, p2, p3);
    let rep_text = crate::gxcore::images::blocks::slice_to_vec(b, r2, r3);
    match Signature::from_hex_bytes(None, pat_text.as_slice(), rep_text.as_slice()) {
        Ok(sig) => sig.apply(data),
        Err(_) => 0,
    }
}

impl Signature {
    /// Applies every `"pattern": "replacement"` entry of a brace-enclosed,
    /// comma-separated batch text in order; entries that are not pairs, have an
    /// empty side or do not parse are skipped. Returns the total match count.
    pub fn apply_batch(data: &mut [u8], json_str: &str) -> (r: Result<usize, SignatureError>)
        requires
            forall|k: int|
                0 <= k < split_spec(batch_content(json_str.spec_bytes()), 0x2C).len() ==> batch_entry_ok(
                    #[trigger] split_spec(batch_content(json_str.spec_bytes()), 0x2C)[k],
                ),
            batch_fold(split_spec(batch_content(json_str.spec_bytes()), 0x2C), old(data)@, 0).1 <= usize::MAX,
        ensures
            ({
                let res = batch_fold(split_spec(batch_content(json_str.spec_bytes()), 0x2C), old(data)@, 0);
                &&& final(data)@ == res.0
                &&& r == Ok::<usize, SignatureError>(res.1 as usize)
            }),
    {
        let b = json_str.as_bytes();
        let ghost pieces = split_spec(batch_content(b@), 0x2C);
        let (s0, e0) = trim_ws_range(b, 0, b.len());
        assert(b@.subrange(0, b@.len() as int) =~= b@);
        let (s1, e1) = trim_byte_range(b, s0, e0, 0x7B, 0x7D);
        let mut total: usize = 0;
        let mut pos = s1;
        loop
            invariant
                s1 <= pos <= e1 <= b@.len(),
                b@ == json_str.spec_bytes(),
                pieces == split_spec(batch_content(b@), 0x2C),
                forall|k: int|
                    0 <= k < split_spec(b@.subrange(pos as int, e1 as int), 0x2C).len() ==> batch_entry_ok(
                        #[trigger] split_spec(b@.subrange(pos as int, e1 as int), 0x2C)[k],
                    ),
                batch_fold(split_spec(b@.subrange(pos as int, e1 as int), 0x2C), data@, total as int) == batch_fold(
                    pieces,
                    old(data)@,
                    0,
                ),
                batch_fold(pieces, old(data)@, 0).1 <= usize::MAX,
            decreases e1 - pos,
        {
            let ghost t = b@.subrange(pos as int, e1 as int);
            let ghost d0 = data@;
            let j = find_byte(b, pos, e1, 0x2C);
            let ghost first = b@.subrange(pos as int, j as int);
            let ghost tail = if j < e1 { split_spec(b@.subrange(j + 1, e1 as int), 0x2C) } else { Seq::empty() };
            proof {
                assert(t.subrange(0, j - pos) =~= first);
                if j < e1 {
                    assert(t.subrange(j - pos + 1, t.len() as int) =~= b@.subrange(j + 1, e1 as int));
                }
                assert(split_spec(t, 0x2C) =~= seq![first] + tail);
                assert(split_spec(t, 0x2C)[0] == first);
                assert((seq![first] + tail).drop_first() =~= tail);
                assert forall|k: int| 0 <= k < tail.len() implies batch_entry_ok(#[trigger] tail[k]) by {
                    assert(split_spec(t, 0x2C)[k + 1] == tail[k]);
                }
            }
            let ghost tot0 = total as int;
            let c = apply_entry(data, b, pos, j);
            proof {
                lemma_fold_grows(tail, data@, total + c);
                assert(batch_fold(split_spec(t, 0x2C), d0, tot0) == batch_fold(tail, data@, tot0 + c));
            }
            total = total + c;
            if j == e1 {
                assert(batch_fold(tail, data@, total as int) == (data@, total as int));
                return Ok(total);
            }
            pos = j + 1;
        }
    }
}

} // verus!
