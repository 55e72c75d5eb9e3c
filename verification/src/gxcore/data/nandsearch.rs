//! Matching files against the CRC32 a build INI expects for them.

use vstd::prelude::*;
use crate::gxcore::data::filesearch::{crc32_hex, crc32_ieee, hex_digits};
use crate::text::{eq_ignore_ascii_case, range_eq, range_eq_ignore_ascii_case, str_chars, sub_chars, trim, trim_range};

verus! {

/// Pairing data and lock-down value read from a bootloader stage.
#[derive(Debug, Clone)]
pub struct PdLdv {
    pub pd: [u8; 3],
    pub ldv: u8,
    pub stage: String,
}

/// An expected hash, trimmed; `None` when absent or a placeholder (empty,
/// `skip` or `none` in any ASCII case, `0`, `00000000`).
pub open spec fn normalized_hash(h: Option<Seq<char>>) -> Option<Seq<char>> {
    match h {
        None => None,
        Some(x) => {
            let s = trim(x);
            if s.len() == 0 || eq_ignore_ascii_case(s, "skip"@) || eq_ignore_ascii_case(s, "none"@) || s == "0"@ || s
                == "00000000"@ {
                None
            } else {
                Some(s)
            }
        },
    }
}

pub open spec fn opt_string_view(o: Option<String>) -> Option<Seq<char>> {
    match o {
        Some(s) => Some(s@),
        None => None,
    }
}

/// The expected hash to check, if any (see `normalized_hash`).
pub fn normalize_optional_hash(hash: &Option<String>) -> (r: Option<String>)
    ensures
        opt_string_view(r) == normalized_hash(opt_string_view(*hash)),
{
    match hash {
        None => None,
        Some(h) => {
            let v = str_chars(h.as_str());
            let (a, b) = trim_range(v.as_slice(), 0, v.len());
            assert(v@.subrange(0, v@.len() as int) =~= v@);
            let skip = str_chars("skip");
            let none = str_chars("none");
            let zero = str_chars("0");
            let zeros = str_chars("00000000");
            if a == b || range_eq_ignore_ascii_case(v.as_slice(), a, b, skip.as_slice())
                || range_eq_ignore_ascii_case(v.as_slice(), a, b, none.as_slice()) || range_eq(
                v.as_slice(),
                a,
                b,
                zero.as_slice(),
            ) || range_eq(v.as_slice(), a, b, zeros.as_slice()) {
                None
            } else {
                let t = sub_chars(v.as_slice(), a, b);
                Some(crate::text::string_from_chars(t.as_slice()))
            }
        },
    }
}

/// Data matches when no hash is expected, or its CRC32 (8 hex digits)
/// equals the expected hash in any ASCII case.
pub open spec fn hash_matches(data: Seq<u8>, expected: Option<Seq<char>>) -> bool {
    match normalized_hash(expected) {
        None => true,
        Some(e) => eq_ignore_ascii_case(hex_digits(crc32_ieee(data), 8), e),
    }
}

/// Whether data has the CRC32 an INI entry expects (see `hash_matches`).
pub fn hash_match_simple(data: &[u8], expected: &Option<String>) -> (r: bool)
    ensures
        r == hash_matches(data@, opt_string_view(*expected)),
{
    match normalize_optional_hash(expected) {
        None => true,
        Some(exp) => {
            let actual = crc32_hex(data);
            let a = str_chars(actual.as_str());
            let e = str_chars(exp.as_str());
            assert(a@.subrange(0, a@.len() as int) =~= a@);
            range_eq_ignore_ascii_case(a.as_slice(), 0, a.len(), e.as_slice())
        },
    }
}

} // verus!
