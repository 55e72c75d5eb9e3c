//! STFS (PIRS) content packages: the checks before a package is opened and
//! the assembly of the files extracted from it.

use vstd::prelude::*;
use crate::gxcore::data::filesearch::starts_with;
use crate::gxcore::data::pool::{pool_of, pool_view, pools};
use crate::text::{push_text, range_eq, str_chars, string_from_chars, sub_chars, to_lowercase, unicode_lowercase};

verus! {

/// The console's first-stage bootloader key.
pub const ONE_BL_KEY: [u8; 16] = [
    0xDDu8, 0x88u8, 0xADu8, 0x0Cu8, 0x9Eu8, 0xD6u8, 0x69u8, 0xE7u8, 0xB5u8, 0x67u8, 0x94u8, 0xFBu8, 0x68u8, 0x56u8,
    0x3Eu8, 0xFAu8,
];

/// Key a file is kept under in memory: its name lower-cased, after dropping
/// a leading `$flash_` (in any case).
pub open spec fn memory_key(name: Seq<char>) -> Seq<char> {
    if name.len() >= 7 && starts_with(unicode_lowercase(name), "$flash_"@) {
        unicode_lowercase(name.subrange(7, name.len() as int))
    } else {
        unicode_lowercase(name)
    }
}

/// Files paired with the keys they are kept under.
pub open spec fn keyed_files(files: Seq<(Seq<char>, Seq<u8>)>) -> Seq<(Seq<char>, Seq<u8>)> {
    files.map_values(|f: (Seq<char>, Seq<u8>)| (memory_key(f.0), f.1))
}

fn memory_key_exec(name: &String) -> (r: String)
    ensures
        r@ == memory_key(name@),
{
    let v = str_chars(name.as_str());
    let lower = to_lowercase(v.as_slice());
    let prefix = str_chars("$flash_");
    proof {
        reveal_strlit("$flash_");
    }
    let has_prefix = v.len() >= 7 && lower.len() >= 7 && range_eq(lower.as_slice(), 0, 7, prefix.as_slice());
    if has_prefix {
        let rest = sub_chars(v.as_slice(), 7, v.len());
        let l = to_lowercase(rest.as_slice());
        string_from_chars(l.as_slice())
    } else {
        string_from_chars(lower.as_slice())
    }
}

/// Keeps extracted files in memory: each under its key (see `memory_key`),
/// a later file replacing an earlier one with the same key.
pub fn collect_extracted(files: Vec<(String, Vec<u8>)>) -> (r: Vec<(String, Vec<u8>)>)
    ensures
        pools(keyed_files(pool_view(files@)), files@.len() as int, pool_view(r@)),
{
    let ghost fv = pool_view(files@);
    let n = files.len();
    let mut files = files;
    let mut keyed: Vec<(String, Vec<u8>)> = Vec::new();
    let mut i: usize = 0;
    while i < n
        invariant
            n == fv.len(),
            i <= n,
            files@.len() == n - i,
            forall|q: int| 0 <= q < n - i ==> #[trigger] pool_view(files@)[q] == fv[i + q],
            pool_view(keyed@) == keyed_files(fv).subrange(0, i as int),
        decreases n - i,
    {
        let ghost before = files@;
        assert(pool_view(before)[0] == fv[i as int]);
        let (name, data) = files.remove(0);
        assert(pool_view(before)[0] == (before[0].0@, before[0].1@));
        assert forall|q: int| 0 <= q < n - (i + 1) implies #[trigger] pool_view(files@)[q] == fv[i + 1 + q] by {
            assert(files@[q] == before[q + 1]);
            assert(pool_view(before)[q + 1] == fv[i + (q + 1)]);
        }
        assert(fv[i as int] == (name@, data@));
        let key = memory_key_exec(&name);
        assert(keyed_files(fv)[i as int] == (key@, data@));
        let ghost kb = pool_view(keyed@);
        keyed.push((key, data));
        assert(pool_view(keyed@) =~= kb.push((key@, data@)));
        assert(pool_view(keyed@) =~= keyed_files(fv).subrange(0, i + 1));
        i += 1;
    }
    assert(keyed_files(fv).subrange(0, n as int) =~= keyed_files(fv));
    pool_of(keyed)
}

/// What extracting one file gave, as plain values: its name, its path, and
/// its bytes or the error text.
pub open spec fn outcome_view(o: (String, String, Result<Vec<u8>, String>)) -> (
    Seq<char>,
    Seq<char>,
    Result<Seq<u8>, Seq<char>>,
) {
    (
        o.0@,
        o.1@,
        match o.2 {
            Ok(d) => Ok(d@),
            Err(e) => Err(e@),
        },
    )
}

pub open spec fn outcomes_view(v: Seq<(String, String, Result<Vec<u8>, String>)>) -> Seq<
    (Seq<char>, Seq<char>, Result<Seq<u8>, Seq<char>>),
> {
    v.map_values(|o: (String, String, Result<Vec<u8>, String>)| outcome_view(o))
}

/// Index of the first failed extraction at or after `i`, or -1.
pub open spec fn first_failure(outs: Seq<(Seq<char>, Seq<char>, Result<Seq<u8>, Seq<char>>)>, i: int) -> int
    decreases outs.len() - i,
{
    if i < 0 || i >= outs.len() {
        -1
    } else if outs[i].2 is Err {
        i
    } else {
        first_failure(outs, i + 1)
    }
}

/// The names and bytes of extractions that all succeeded.
pub open spec fn extracted_files(outs: Seq<(Seq<char>, Seq<char>, Result<Seq<u8>, Seq<char>>)>) -> Seq<
    (Seq<char>, Seq<u8>),
> {
    outs.map_values(
        |o: (Seq<char>, Seq<char>, Result<Seq<u8>, Seq<char>>)|
            (
                o.0,
                match o.2 {
                    Ok(d) => d,
                    Err(_) => Seq::empty(),
                },
            ),
    )
}

/// The error text for a file that could not be extracted.
pub open spec fn extract_failure_text(path: Seq<char>, reason: Seq<char>) -> Seq<char> {
    "Failed to extract file '"@ + path + "': "@ + reason
}

/// What extracting a package gives for the extraction outcomes: the first
/// failure as an error naming the file's path and the reason, else every file
/// in memory under its key (see `collect_extracted`).
pub open spec fn extraction_result(
    outs: Seq<(Seq<char>, Seq<char>, Result<Seq<u8>, Seq<char>>)>,
    r: Result<Vec<(String, Vec<u8>)>, String>,
) -> bool {
    let f = first_failure(outs, 0);
    if f >= 0 {
        r matches Err(m) && m@ == extract_failure_text(
            outs[f].1,
            match outs[f].2 {
                Err(e) => e,
                Ok(_) => Seq::empty(),
            },
        )
    } else {
        r matches Ok(v) && pools(keyed_files(extracted_files(outs)), outs.len() as int, pool_view(v@))
    }
}

proof fn lemma_first_failure_bounds(outs: Seq<(Seq<char>, Seq<char>, Result<Seq<u8>, Seq<char>>)>, i: int)
    requires
        0 <= i,
    ensures
        first_failure(outs, i) == -1 || (i <= first_failure(outs, i) < outs.len() && outs[first_failure(outs, i)].2 is Err
            && forall|q: int| i <= q < first_failure(outs, i) ==> outs[q].2 is Ok),
        first_failure(outs, i) == -1 ==> forall|q: int| i <= q < outs.len() ==> outs[q].2 is Ok,
    decreases outs.len() - i,
{
    if i < outs.len() && outs[i].2 is Ok {
        lemma_first_failure_bounds(outs, i + 1);
    }
}

/// Turns the outcomes of extracting a package's files into its result (see
/// `extraction_result`).
pub fn assemble_extraction(outcomes: Vec<(String, String, Result<Vec<u8>, String>)>) -> (r: Result<
    Vec<(String, Vec<u8>)>,
    String,
>)
    ensures
        extraction_result(outcomes_view(outcomes@), r),
{
    let ghost ov = outcomes_view(outcomes@);
    let n = outcomes.len();
    proof {
        lemma_first_failure_bounds(ov, 0);
    }
    let mut i: usize = 0;
    while i < n
        invariant
            i <= n == outcomes@.len() == ov.len(),
            ov == outcomes_view(outcomes@),
            forall|q: int| 0 <= q < i ==> ov[q].2 is Ok,
        decreases n - i,
    {
        assert(ov[i as int] == outcome_view(outcomes@[i as int]));
        match &outcomes[i].2 {
            Err(reason) => {
                proof {
                    lemma_first_failure_back(ov, i as int, i as int);
                    assert(first_failure(ov, 0) == i as int);
                }
                let mut t: Vec<char> = Vec::new();
                push_text(&mut t, "Failed to extract file '");
                push_text(&mut t, outcomes[i].1.as_str());
                push_text(&mut t, "': ");
                push_text(&mut t, reason.as_str());
                return Err(string_from_chars(t.as_slice()));
            },
            Ok(_) => {},
        }
        i += 1;
    }
    proof {
        lemma_first_failure_none(ov, n as int, n as int);
        assert(first_failure(ov, 0) == -1);
    }
    let mut outcomes = outcomes;
    let mut files: Vec<(String, Vec<u8>)> = Vec::new();
    let mut k: usize = 0;
    while k < n
        invariant
            k <= n == ov.len(),
            outcomes@.len() == n - k,
            forall|q: int| 0 <= q < n - k ==> #[trigger] outcome_view(outcomes@[q]) == ov[k + q],
            forall|q: int| 0 <= q < n ==> ov[q].2 is Ok,
            pool_view(files@) == extracted_files(ov).subrange(0, k as int),
        decreases n - k,
    {
        let ghost before = outcomes@;
        let (name, _path, res) = outcomes.remove(0);
        assert(outcome_view(before[0]) == ov[k as int]);
        assert forall|q: int| 0 <= q < n - (k + 1) implies #[trigger] outcome_view(outcomes@[q]) == ov[k + 1 + q] by {
            assert(outcomes@[q] == before[q + 1]);
        }
        match res {
            Ok(data) => {
                let ghost fb = pool_view(files@);
                files.push((name, data));
                assert(pool_view(files@) =~= fb.push(extracted_files(ov)[k as int]));
                assert(pool_view(files@) =~= extracted_files(ov).subrange(0, k + 1));
            },
            Err(_) => {
                assert(false);
            },
        }
        k += 1;
    }
    assert(extracted_files(ov).subrange(0, n as int) =~= extracted_files(ov));
    Ok(collect_extracted(files))
}

proof fn lemma_first_failure_back(outs: Seq<(Seq<char>, Seq<char>, Result<Seq<u8>, Seq<char>>)>, i: int, j: int)
    requires
        0 <= j <= i < outs.len(),
        outs[i].2 is Err,
        forall|q: int| 0 <= q < i ==> outs[q].2 is Ok,
    ensures
        first_failure(outs, i - j) == i,
    decreases j,
{
    if j > 0 {
        lemma_first_failure_back(outs, i, j - 1);
    }
}

proof fn lemma_first_failure_none(outs: Seq<(Seq<char>, Seq<char>, Result<Seq<u8>, Seq<char>>)>, n: int, j: int)
    requires
        0 <= j <= n == outs.len(),
        forall|q: int| 0 <= q < n ==> outs[q].2 is Ok,
    ensures
        first_failure(outs, n - j) == -1,
    decreases j,
{
    if j > 0 {
        lemma_first_failure_none(outs, n, j - 1);
    }
}

pub open spec fn has_pirs_magic(data: Seq<u8>) -> bool {
    data.len() >= 4 && data[0] == 0x50 && data[1] == 0x49 && data[2] == 0x52 && data[3] == 0x53
}

/// The magic check before a package is opened: data that does not start
/// with `PIRS` is refused with the message the package reader gives.
pub fn check_pirs_magic(data: &[u8]) -> (r: Result<(), String>)
    ensures
        has_pirs_magic(data@) ==> r is Ok,
        !has_pirs_magic(data@) ==> (r matches Err(m) && m@ == "Invalid STFS signature: Expected 'PIRS'"@),
{
    if data.len() < 4 || data[0] != 0x50 || data[1] != 0x49 || data[2] != 0x52 || data[3] != 0x53 {
        return Err("Invalid STFS signature: Expected 'PIRS'".to_owned());
    }
    Ok(())
}

/// The message for a package the `stfs` crate refused to open, from the
/// crate's reason.
pub fn open_failure_text(reason: &str) -> (r: String)
    ensures
        r@ == "Failed to open STFS package: "@ + reason@,
{
    let mut t: Vec<char> = Vec::new();
    push_text(&mut t, "Failed to open STFS package: ");
    push_text(&mut t, reason);
    string_from_chars(t.as_slice())
}

} // verus!
