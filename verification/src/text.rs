//! Character-level text helpers shared by the INI parsers: Unicode trimming,
//! splitting, ASCII case-insensitive comparison, and conversions between `str`
//! and character vectors.

use vstd::prelude::*;
use vstd::string::StrSliceExecFns;

verus! {

/// `char::is_whitespace`: the Unicode `White_Space` code points.
pub open spec fn is_ws(c: char) -> bool {
    let u = c as u32;
    (0x09 <= u <= 0x0D) || u == 0x20 || u == 0x85 || u == 0xA0 || u == 0x1680 || (0x2000 <= u <= 0x200A) || u
        == 0x2028 || u == 0x2029 || u == 0x202F || u == 0x205F || u == 0x3000
}

pub fn is_ws_char(c: char) -> (r: bool)
    ensures
        r == is_ws(c),
{
    let u = c as u32;
    (0x09 <= u && u <= 0x0D) || u == 0x20 || u == 0x85 || u == 0xA0 || u == 0x1680 || (0x2000 <= u && u <= 0x200A)
        || u == 0x2028 || u == 0x2029 || u == 0x202F || u == 0x205F || u == 0x3000
}

pub open spec fn trim_start(s: Seq<char>) -> Seq<char>
    decreases s.len(),
{
    if s.len() > 0 && is_ws(s[0]) {
        trim_start(s.subrange(1, s.len() as int))
    } else {
        s
    }
}

pub open spec fn trim_end(s: Seq<char>) -> Seq<char>
    decreases s.len(),
{
    if s.len() > 0 && is_ws(s.last()) {
        trim_end(s.drop_last())
    } else {
        s
    }
}

/// `str::trim`.
pub open spec fn trim(s: Seq<char>) -> Seq<char> {
    trim_end(trim_start(s))
}

/// `str::trim_start_matches` with one character.
pub open spec fn trim_start_char(s: Seq<char>, c: char) -> Seq<char>
    decreases s.len(),
{
    if s.len() > 0 && s[0] == c {
        trim_start_char(s.subrange(1, s.len() as int), c)
    } else {
        s
    }
}

/// `str::trim_end_matches` with one character.
pub open spec fn trim_end_char(s: Seq<char>, c: char) -> Seq<char>
    decreases s.len(),
{
    if s.len() > 0 && s.last() == c {
        trim_end_char(s.drop_last(), c)
    } else {
        s
    }
}

/// First index at or after `i` where `pat` occurs in `s`, or the length of `s`.
pub open spec fn find_from(s: Seq<char>, pat: Seq<char>, i: int) -> int
    decreases s.len() - i,
{
    if i < 0 || i >= s.len() || i + pat.len() > s.len() {
        s.len() as int
    } else if s.subrange(i, i + pat.len()) == pat {
        i
    } else {
        find_from(s, pat, i + 1)
    }
}

/// `str::split` with a non-empty pattern: the pieces between the
/// non-overlapping occurrences found from the left.
pub open spec fn split(s: Seq<char>, pat: Seq<char>) -> Seq<Seq<char>>
    decreases s.len(),
{
    let j = find_from(s, pat, 0);
    if pat.len() == 0 || j < 0 || j >= s.len() {
        seq![s]
    } else {
        proof {
            lemma_find_from(s, pat, 0);
        }
        seq![s.subrange(0, j)] + split(s.subrange(j + pat.len(), s.len() as int), pat)
    }
}

pub proof fn lemma_find_from(s: Seq<char>, pat: Seq<char>, i: int)
    requires
        0 <= i,
    ensures
        find_from(s, pat, i) == s.len() || (i <= find_from(s, pat, i) && find_from(s, pat, i) < s.len()
            && find_from(s, pat, i) + pat.len() <= s.len() && s.subrange(
            find_from(s, pat, i),
            find_from(s, pat, i) + pat.len(),
        ) == pat),
    decreases s.len() - i,
{
    if i < s.len() && i + pat.len() <= s.len() && s.subrange(i, i + pat.len()) != pat {
        lemma_find_from(s, pat, i + 1);
    }
}

/// ASCII lower-case of one character.
pub open spec fn ascii_lower(c: char) -> char {
    if 'A' <= c <= 'Z' {
        ((c as u8) + 32) as char
    } else {
        c
    }
}

/// `str::eq_ignore_ascii_case`.
pub open spec fn eq_ignore_ascii_case(a: Seq<char>, b: Seq<char>) -> bool {
    a.len() == b.len() && forall|i: int| 0 <= i < a.len() ==> ascii_lower(#[trigger] a[i]) == ascii_lower(b[i])
}

/// `str::to_lowercase` (Unicode lower-casing), on the characters of a text.
pub uninterp spec fn unicode_lowercase(s: Seq<char>) -> Seq<char>;

/// Lower-cases a text with `str::to_lowercase`; the result is the name
/// `unicode_lowercase` of the input characters.
#[verifier::external_body]
pub fn to_lowercase(s: &[char]) -> (r: Vec<char>)
    ensures
        r@ == unicode_lowercase(s@),
{
    let text: String = s.iter().collect();
    text.to_lowercase().chars().collect()
}

/// `str::to_uppercase` (Unicode upper-casing), on the characters of a text.
pub uninterp spec fn unicode_uppercase(s: Seq<char>) -> Seq<char>;

/// Upper-cases a text with `str::to_uppercase`; the result is the name
/// `unicode_uppercase` of the input characters.
#[verifier::external_body]
pub fn to_uppercase(s: &[char]) -> (r: Vec<char>)
    ensures
        r@ == unicode_uppercase(s@),
{
    let text: String = s.iter().collect();
    text.to_uppercase().chars().collect()
}

/// Builds a `String` from characters (`String::from_iter`); the result holds
/// exactly those characters.
#[verifier::external_body]
pub fn string_from_chars(s: &[char]) -> (r: String)
    ensures
        r@ == s@,
{
    s.iter().collect()
}

/// Characters of a text.
pub fn str_chars(s: &str) -> (r: Vec<char>)
    ensures
        r@ == s@,
{
    let n = s.unicode_len();
    let mut v: Vec<char> = Vec::new();
    let mut i: usize = 0;
    while i < n
        invariant
            n == s@.len(),
            i <= n,
            v@ == s@.subrange(0, i as int),
        decreases n - i,
    {
        v.push(s.get_char(i));
        i += 1;
    }
    v
}

/// Appends the characters of a text.
pub fn push_text(out: &mut Vec<char>, s: &str)
    ensures
        final(out)@ == old(out)@ + s@,
{
    let mut c = str_chars(s);
    out.append(&mut c);
}

/// Copy of `s[a..b]`.
pub fn sub_chars(s: &[char], a: usize, b: usize) -> (r: Vec<char>)
    requires
        a <= b <= s@.len(),
    ensures
        r@ == s@.subrange(a as int, b as int),
{
    let mut v: Vec<char> = Vec::new();
    let mut i = a;
    while i < b
        invariant
            a <= i <= b <= s@.len(),
            v@ == s@.subrange(a as int, i as int),
        decreases b - i,
    {
        v.push(s[i]);
        i += 1;
    }
    v
}

/// Trims `s[a..b]`, as a range of `s`.
pub fn trim_range(s: &[char], a: usize, b: usize) -> (r: (usize, usize))
    requires
        a <= b <= s@.len(),
    ensures
        a <= r.0 <= r.1 <= b,
        s@.subrange(r.0 as int, r.1 as int) == trim(s@.subrange(a as int, b as int)),
{
    let mut i = a;
    while i < b && is_ws_char(s[i])
        invariant
            a <= i <= b <= s@.len(),
            trim_start(s@.subrange(i as int, b as int)) == trim_start(s@.subrange(a as int, b as int)),
        decreases b - i,
    {
        assert(s@.subrange(i as int, b as int).subrange(1, (b - i) as int) =~= s@.subrange(i + 1, b as int));
        i += 1;
    }
    let mut j = b;
    while j > i && is_ws_char(s[j - 1])
        invariant
            a <= i <= j <= b <= s@.len(),
            trim_end(s@.subrange(i as int, j as int)) == trim(s@.subrange(a as int, b as int)),
        decreases j - i,
    {
        assert(s@.subrange(i as int, j as int).drop_last() =~= s@.subrange(i as int, j - 1));
        j -= 1;
    }
    (i, j)
}

/// Strips repeated `first` characters from the start and `last` characters from
/// the end of `s[a..b]`, as a range of `s`.
pub fn trim_chars_range(s: &[char], a: usize, b: usize, first: char, last: char) -> (r: (usize, usize))
    requires
        a <= b <= s@.len(),
    ensures
        a <= r.0 <= r.1 <= b,
        s@.subrange(r.0 as int, r.1 as int) == trim_end_char(trim_start_char(s@.subrange(a as int, b as int), first), last),
{
    let mut i = a;
    while i < b && s[i] == first
        invariant
            a <= i <= b <= s@.len(),
            trim_start_char(s@.subrange(i as int, b as int), first) == trim_start_char(s@.subrange(a as int, b as int), first),
        decreases b - i,
    {
        assert(s@.subrange(i as int, b as int).subrange(1, (b - i) as int) =~= s@.subrange(i + 1, b as int));
        i += 1;
    }
    let mut j = b;
    while j > i && s[j - 1] == last
        invariant
            a <= i <= j <= b <= s@.len(),
            trim_end_char(s@.subrange(i as int, j as int), last) == trim_end_char(
                trim_start_char(s@.subrange(a as int, b as int), first),
                last,
            ),
        decreases j - i,
    {
        assert(s@.subrange(i as int, j as int).drop_last() =~= s@.subrange(i as int, j - 1));
        j -= 1;
    }
    (i, j)
}

/// Index of the first occurrence of `pat` in `s[a..b]` (relative to `a` in the
/// contract), or `b`.
pub fn find_in(s: &[char], a: usize, b: usize, pat: &[char]) -> (r: usize)
    requires
        a <= b <= s@.len(),
    ensures
        a <= r <= b,
        r - a == find_from(s@.subrange(a as int, b as int), pat@, 0),
{
    let ghost t = s@.subrange(a as int, b as int);
    let pl = pat.len();
    let mut k = a;
    while k < b && pl <= b - k
        invariant
            a <= k <= b <= s@.len(),
            pl == pat@.len(),
            t == s@.subrange(a as int, b as int),
            find_from(t, pat@, (k - a) as int) == find_from(t, pat@, 0),
        decreases b - k,
    {
        let mut m: usize = 0;
        while m < pl && s[k + m] == pat[m]
            invariant
                m <= pl,
                k + pl <= b <= s@.len(),
                pl == pat@.len(),
                forall|q: int| 0 <= q < m ==> s@[k + q] == pat@[q],
            decreases pl - m,
        {
            m += 1;
        }
        if m == pl {
            assert(t.subrange((k - a) as int, (k - a + pl) as int) =~= pat@);
            return k;
        }
        assert(t.subrange((k - a) as int, (k - a + pl) as int)[m as int] != pat@[m as int]);
        k += 1;
    }
    b
}

/// Whether `s[a..b]` equals the text `lit`.
pub fn range_eq(s: &[char], a: usize, b: usize, lit: &[char]) -> (r: bool)
    requires
        a <= b <= s@.len(),
    ensures
        r == (s@.subrange(a as int, b as int) == lit@),
{
    if b - a != lit.len() {
        return false;
    }
    let mut k: usize = 0;
    while k < lit.len()
        invariant
            b - a == lit@.len(),
            a <= b <= s@.len(),
            k <= lit@.len(),
            forall|q: int| 0 <= q < k ==> s@[a + q] == lit@[q],
        decreases lit@.len() - k,
    {
        if s[a + k] != lit[k] {
            assert(s@.subrange(a as int, b as int)[k as int] != lit@[k as int]);
            return false;
        }
        k += 1;
    }
    assert(s@.subrange(a as int, b as int) =~= lit@);
    true
}

pub fn ascii_lower_char(c: char) -> (r: char)
    ensures
        r == ascii_lower(c),
{
    if 'A' <= c && c <= 'Z' {
        let u = (c as u8) + 32;
        u as char
    } else {
        c
    }
}

/// `str::eq_ignore_ascii_case` on `s[a..b]` and `lit`.
pub fn range_eq_ignore_ascii_case(s: &[char], a: usize, b: usize, lit: &[char]) -> (r: bool)
    requires
        a <= b <= s@.len(),
    ensures
        r == eq_ignore_ascii_case(s@.subrange(a as int, b as int), lit@),
{
    if b - a != lit.len() {
        return false;
    }
    let mut k: usize = 0;
    while k < lit.len()
        invariant
            b - a == lit@.len(),
            a <= b <= s@.len(),
            k <= lit@.len(),
            forall|q: int| 0 <= q < k ==> ascii_lower(s@[a + q]) == ascii_lower(lit@[q]),
        decreases lit@.len() - k,
    {
        if ascii_lower_char(s[a + k]) != ascii_lower_char(lit[k]) {
            assert(ascii_lower(s@.subrange(a as int, b as int)[k as int]) != ascii_lower(lit@[k as int]));
            return false;
        }
        k += 1;
    }
    assert forall|i: int| 0 <= i < (b - a) implies ascii_lower(#[trigger] s@.subrange(a as int, b as int)[i])
        == ascii_lower(lit@[i]) by {
        assert(s@.subrange(a as int, b as int)[i] == s@[a + i]);
    }
    true
}

/// Strips repeated `c` characters from the end of `s[a..b]`, as a range of `s`.
pub fn trim_end_char_range(s: &[char], a: usize, b: usize, c: char) -> (r: usize)
    requires
        a <= b <= s@.len(),
    ensures
        a <= r <= b,
        s@.subrange(a as int, r as int) == trim_end_char(s@.subrange(a as int, b as int), c),
{
    let mut j = b;
    while j > a && s[j - 1] == c
        invariant
            a <= j <= b <= s@.len(),
            trim_end_char(s@.subrange(a as int, j as int), c) == trim_end_char(s@.subrange(a as int, b as int), c),
        decreases j - a,
    {
        assert(s@.subrange(a as int, j as int).drop_last() =~= s@.subrange(a as int, j - 1));
        j -= 1;
    }
    j
}

/// Splitting gives at least one piece, and at least two when the pattern occurs.
pub proof fn lemma_split_len(s: Seq<char>, pat: Seq<char>)
    ensures
        split(s, pat).len() >= 1,
        pat.len() > 0 && 0 <= find_from(s, pat, 0) < s.len() ==> split(s, pat).len() >= 2,
    decreases s.len(),
{
    let j = find_from(s, pat, 0);
    if pat.len() > 0 && 0 <= j < s.len() {
        lemma_find_from(s, pat, 0);
        lemma_split_len(s.subrange(j + pat.len(), s.len() as int), pat);
    }
}

/// The first piece of `s[a..b]` ends at `j`, the first occurrence of `pat`;
/// the other pieces are those of the text after it.
pub proof fn lemma_split_step(s: Seq<char>, a: int, b: int, pat: Seq<char>, j: int)
    requires
        0 <= a <= j <= b <= s.len(),
        pat.len() > 0,
        j - a == find_from(s.subrange(a, b), pat, 0),
    ensures
        j == b ==> split(s.subrange(a, b), pat) == seq![s.subrange(a, b)],
        j < b ==> j + pat.len() <= b && split(s.subrange(a, b), pat) == seq![s.subrange(a, j)] + split(
            s.subrange(j + pat.len(), b),
            pat,
        ),
{
    let t = s.subrange(a, b);
    lemma_find_from(t, pat, 0);
    if j < b {
        assert(t.subrange(0, j - a) =~= s.subrange(a, j));
        assert(t.subrange(j - a + pat.len(), t.len() as int) =~= s.subrange(j + pat.len(), b));
    }
}

proof fn lemma_trim_start_shape(s: Seq<char>)
    ensures
        trim_start(s).len() == 0 || !is_ws(trim_start(s)[0]),
    decreases s.len(),
{
    if s.len() > 0 && is_ws(s[0]) {
        lemma_trim_start_shape(s.subrange(1, s.len() as int));
    }
}

proof fn lemma_trim_end_shape(s: Seq<char>)
    ensures
        trim_end(s).len() <= s.len(),
        trim_end(s) == s.subrange(0, trim_end(s).len() as int),
        trim_end(s).len() == 0 || !is_ws(trim_end(s).last()),
    decreases s.len(),
{
    if s.len() > 0 && is_ws(s.last()) {
        lemma_trim_end_shape(s.drop_last());
        assert(s.drop_last().subrange(0, trim_end(s).len() as int) =~= s.subrange(0, trim_end(s).len() as int));
    } else {
        assert(s.subrange(0, s.len() as int) =~= s);
    }
}

/// Trimming twice is trimming once.
pub proof fn lemma_trim_idempotent(s: Seq<char>)
    ensures
        trim(trim(s)) == trim(s),
{
    let a = trim_start(s);
    let t = trim_end(a);
    lemma_trim_start_shape(s);
    lemma_trim_end_shape(a);
    if t.len() > 0 {
        assert(t[0] == a[0]);
        assert(trim_start(t) == t);
        assert(trim_end(t) == t);
    } else {
        assert(trim_start(t) == t);
        assert(trim_end(t) == t);
    }
}

/// The first `=` at or after `i` is at `k` when `s[k]` is one and none comes
/// between.
pub proof fn lemma_find_eq_sign(s: Seq<char>, i: int, k: int)
    requires
        0 <= i <= k <= s.len(),
        k < s.len() ==> s[k] == '=',
        forall|t: int| i <= t < k ==> s[t] != '=',
    ensures
        find_from(s, "="@, i) == k,
    decreases k - i,
{
    reveal_strlit("=");
    if i < k {
        assert(s.subrange(i, i + 1)[0] == s[i]);
        assert(s.subrange(i, i + 1) != "="@);
        lemma_find_eq_sign(s, i + 1, k);
    } else if k < s.len() {
        assert(s.subrange(k, k + 1) =~= "="@);
    }
}


/// The first occurrence of a one-character pattern at or after `i` is at `k`
/// when `s[k]` is that character and none comes between.
pub proof fn lemma_find_single(s: Seq<char>, pat: Seq<char>, i: int, k: int)
    requires
        pat.len() == 1,
        0 <= i <= k <= s.len(),
        k < s.len() ==> s[k] == pat[0],
        forall|t: int| i <= t < k ==> s[t] != pat[0],
    ensures
        find_from(s, pat, i) == k,
    decreases k - i,
{
    if i < k {
        assert(s.subrange(i, i + 1)[0] == s[i]);
        assert(s.subrange(i, i + 1) != pat);
        lemma_find_single(s, pat, i + 1, k);
    } else if k < s.len() {
        assert(s.subrange(k, k + 1) =~= pat);
    }
}

/// Splitting a text with no occurrence of a one-character pattern gives the
/// text alone; splitting `a`, the pattern, `b` (neither holding it) gives `a`
/// and `b`.
#[verifier::spinoff_prover]
pub proof fn lemma_split_single(a: Seq<char>, pat: Seq<char>, b: Seq<char>)
    requires
        pat.len() == 1,
        forall|t: int| 0 <= t < a.len() ==> a[t] != pat[0],
        forall|t: int| 0 <= t < b.len() ==> b[t] != pat[0],
    ensures
        split(a, pat) == seq![a],
        split(a + pat + b, pat) == seq![a, b],
{
    lemma_find_single(a, pat, 0, a.len() as int);
    lemma_find_single(b, pat, 0, b.len() as int);
    let s = a + pat + b;
    assert(s[a.len() as int] == pat[0]);
    lemma_find_single(s, pat, 0, a.len() as int);
    assert(s.subrange(0, a.len() as int) =~= a);
    assert(s.subrange(a.len() + 1int, s.len() as int) =~= b);
    assert(find_from(s, pat, 0) == a.len());
    assert(split(b, pat) == seq![b]);
    assert(split(s, pat) == seq![s.subrange(0, a.len() as int)] + split(s.subrange(a.len() + 1int, s.len() as int), pat));
    assert(split(s, pat) =~= seq![a, b]);
}

} // verus!
