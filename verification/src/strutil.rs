//! Verified string helpers: substring search, ASCII lowering, decimal
//! rendering, and the masking of credential query parameters in logged URLs.

use vstd::prelude::*;
use vstd::string::StrSliceExecFns;
use vstd::string::StringExecFns;

verus! {

/// Whether two slices hold the same characters.
pub fn str_eq(a: &str, b: &str) -> (r: bool)
    ensures
        r == (a@ == b@),
{
    let la = a.unicode_len();
    let lb = b.unicode_len();
    if la != lb {
        return false;
    }
    let matched = match_at(a, b, 0, la, lb);
    proof {
        if matched {
            assert(a@.subrange(0, la as int) =~= a@);
        } else {
            if a@ == b@ {
                assert(a@.subrange(0, la as int) =~= b@);
                assert(is_match(a@, b@, 0));
            }
        }
    }
    matched
}

/// Relies on `String::push`: appends one character at the end.
#[verifier::external_body]
pub fn push_char(s: &mut String, c: char)
    ensures
        final(s)@ == old(s)@.push(c),
{
    s.push(c);
}

/// Duplicates an optional string; the copy equals the original.
pub fn clone_opt_string(s: &Option<String>) -> (r: Option<String>)
    ensures
        r == *s,
{
    match s {
        Some(t) => Some(t.clone()),
        None => None,
    }
}

/// Duplicates a vector of strings; the copy's view equals the original's.
pub fn clone_vec_string(v: &Vec<String>) -> (r: Vec<String>)
    ensures
        r@ == v@,
{
    let mut out: Vec<String> = Vec::new();
    let mut i: usize = 0;
    while i < v.len()
        invariant
            i <= v@.len(),
            out@ =~= v@.subrange(0, i as int),
        decreases v@.len() - i,
    {
        out.push(v[i].clone());
        assert(out@ =~= v@.subrange(0, i + 1));
        i = i + 1;
    }
    assert(v@.subrange(0, v@.len() as int) =~= v@);
    out
}

/// True when `needle` occurs in `hay` starting at index `i`.
pub open spec fn is_match(hay: Seq<char>, needle: Seq<char>, i: int) -> bool {
    0 <= i && i + needle.len() <= hay.len() && hay.subrange(i, i + needle.len()) == needle
}

/// Index of the first occurrence of `needle` in `hay` at or after `i`.
pub open spec fn first_match_from(hay: Seq<char>, needle: Seq<char>, i: int) -> Option<int>
    decreases hay.len() - i + 1,
{
    if i < 0 || i + needle.len() > hay.len() {
        None
    } else if is_match(hay, needle, i) {
        Some(i)
    } else {
        first_match_from(hay, needle, i + 1)
    }
}

/// Index of the first occurrence of `needle` in `hay`.
pub open spec fn first_match(hay: Seq<char>, needle: Seq<char>) -> Option<int> {
    first_match_from(hay, needle, 0)
}

/// True when `needle` occurs somewhere in `hay`.
pub open spec fn contains_sub(hay: Seq<char>, needle: Seq<char>) -> bool {
    first_match(hay, needle) is Some
}

/// True when `needle` occurs in `hay` compared ASCII-case-insensitively.
pub open spec fn contains_sub_ci(hay: Seq<char>, needle: Seq<char>) -> bool {
    contains_sub(lower_seq(hay), lower_seq(needle))
}

/// Checks one candidate position of a substring search.
pub(crate) fn match_at(hay: &str, needle: &str, i: usize, hay_len: usize, needle_len: usize) -> (r: bool)
    requires
        hay_len == hay@.len(),
        needle_len == needle@.len(),
        i + needle_len <= hay_len,
    ensures
        r == is_match(hay@, needle@, i as int),
{
    let mut k: usize = 0;
    while k < needle_len
        invariant
            k <= needle_len,
            hay_len == hay@.len(),
            needle_len == needle@.len(),
            i + needle_len <= hay_len,
            forall|t: int| 0 <= t < k ==> hay@[i + t] == needle@[t],
        decreases needle_len - k,
    {
        if hay.get_char(i + k) != needle.get_char(k) {
            assert(hay@.subrange(i as int, i + needle@.len())[k as int] != needle@[k as int]);
            return false;
        }
        k = k + 1;
    }
    assert(hay@.subrange(i as int, i + needle@.len()) =~= needle@);
    true
}

/// Finds the first occurrence of `needle` in `hay`, as [`first_match`]
/// describes it.
pub fn find_sub(hay: &str, needle: &str) -> (r: Option<usize>)
    ensures
        match r {
            Some(i) => first_match(hay@, needle@) == Some(i as int),
            None => first_match(hay@, needle@) is None,
        },
{
    let hay_len: usize = hay.unicode_len();
    let needle_len: usize = needle.unicode_len();
    if needle_len > hay_len {
        return None;
    }
    if needle_len == 0 {
        assert(hay@.subrange(0, 0) =~= needle@);
        return Some(0);
    }
    let mut i: usize = 0;
    while i <= hay_len - needle_len
        invariant
            hay_len == hay@.len(),
            needle_len == needle@.len(),
            1 <= needle_len <= hay_len,
            i <= hay_len - needle_len + 1,
            first_match(hay@, needle@) == first_match_from(hay@, needle@, i as int),
        decreases hay_len - i,
    {
        if match_at(hay, needle, i, hay_len, needle_len) {
            return Some(i);
        }
        i = i + 1;
    }
    None
}

/// Whether `prefix` stands at the start of `s`.
pub fn str_starts_with(s: &str, prefix: &str) -> (r: bool)
    ensures
        r == is_match(s@, prefix@, 0),
{
    let s_len: usize = s.unicode_len();
    let p_len: usize = prefix.unicode_len();
    if p_len > s_len {
        return false;
    }
    match_at(s, prefix, 0, s_len, p_len)
}

/// Index of the last occurrence of character `c` in `s` at or before `i`.
pub open spec fn last_char_from(s: Seq<char>, c: char, i: int) -> Option<int>
    decreases i + 1,
{
    if i < 0 || i >= s.len() {
        None
    } else if s[i] == c {
        Some(i)
    } else {
        last_char_from(s, c, i - 1)
    }
}

/// Finds the last occurrence of `c` in `s` at or before `from`, as
/// [`last_char_from`] describes it.
pub fn find_char_last(s: &str, c: char, from: usize) -> (r: Option<usize>)
    requires
        from < s@.len() || from == 0,
    ensures
        match r {
            Some(i) => last_char_from(s@, c, from as int) == Some(i as int),
            None => last_char_from(s@, c, from as int) is None,
        },
{
    let s_len: usize = s.unicode_len();
    if from >= s_len {
        return None;
    }
    let mut i: usize = from;
    loop
        invariant
            s_len == s@.len(),
            i <= from < s_len,
            last_char_from(s@, c, from as int) == last_char_from(s@, c, i as int),
        decreases i + 1,
    {
        if s.get_char(i) == c {
            return Some(i);
        }
        if i == 0 {
            return None;
        }
        i = i - 1;
    }
}

/// A found last-occurrence index lies within the string, at or before the
/// start of the search.
pub proof fn lemma_last_char_bounds(s: Seq<char>, c: char, i: int)
    ensures
        match last_char_from(s, c, i) {
            Some(k) => 0 <= k <= i && k < s.len() && s[k] == c,
            None => true,
        },
    decreases i + 1,
{
    if i < 0 || i >= s.len() {
    } else if s[i] == c {
    } else {
        lemma_last_char_bounds(s, c, i - 1);
    }
}

/// Index of the first occurrence of character `c` in `s` at or after `i`.
pub open spec fn first_char_from(s: Seq<char>, c: char, i: int) -> Option<int>
    decreases s.len() - i + 1,
{
    if i < 0 || i >= s.len() {
        None
    } else if s[i] == c {
        Some(i)
    } else {
        first_char_from(s, c, i + 1)
    }
}

/// Finds the first occurrence of `c` in `s` at or after `from`, as
/// [`first_char_from`] describes it.
pub fn find_char_from(s: &str, c: char, from: usize) -> (r: Option<usize>)
    ensures
        match r {
            Some(i) => first_char_from(s@, c, from as int) == Some(i as int),
            None => first_char_from(s@, c, from as int) is None,
        },
{
    let s_len: usize = s.unicode_len();
    let mut i: usize = from;
    while i < s_len
        invariant
            s_len == s@.len(),
            from <= i,
            first_char_from(s@, c, from as int) == first_char_from(s@, c, i as int),
        decreases s_len - i,
    {
        if s.get_char(i) == c {
            return Some(i);
        }
        i = i + 1;
    }
    None
}

/// ASCII lower-casing of one character; anything but `'A'..'Z'` is kept.
pub open spec fn spec_lower_char(c: char) -> char {
    match c {
        'A' => 'a',
        'B' => 'b',
        'C' => 'c',
        'D' => 'd',
        'E' => 'e',
        'F' => 'f',
        'G' => 'g',
        'H' => 'h',
        'I' => 'i',
        'J' => 'j',
        'K' => 'k',
        'L' => 'l',
        'M' => 'm',
        'N' => 'n',
        'O' => 'o',
        'P' => 'p',
        'Q' => 'q',
        'R' => 'r',
        'S' => 's',
        'T' => 't',
        'U' => 'u',
        'V' => 'v',
        'W' => 'w',
        'X' => 'x',
        'Y' => 'y',
        'Z' => 'z',
        _ => c,
    }
}

/// ASCII lower-casing of a character sequence.
pub open spec fn lower_seq(s: Seq<char>) -> Seq<char> {
    s.map(|_i: int, c: char| spec_lower_char(c))
}

#[verifier::when_used_as_spec(spec_lower_char)]
fn lower_char(c: char) -> (r: char)
    ensures
        r == spec_lower_char(c),
{
    match c {
        'A' => 'a',
        'B' => 'b',
        'C' => 'c',
        'D' => 'd',
        'E' => 'e',
        'F' => 'f',
        'G' => 'g',
        'H' => 'h',
        'I' => 'i',
        'J' => 'j',
        'K' => 'k',
        'L' => 'l',
        'M' => 'm',
        'N' => 'n',
        'O' => 'o',
        'P' => 'p',
        'Q' => 'q',
        'R' => 'r',
        'S' => 's',
        'T' => 't',
        'U' => 'u',
        'V' => 'v',
        'W' => 'w',
        'X' => 'x',
        'Y' => 'y',
        'Z' => 'z',
        _ => c,
    }
}

/// ASCII lower-casing of a slice.
pub fn to_lower(s: &str) -> (r: String)
    ensures
        r@ == lower_seq(s@),
{
    let s_len: usize = s.unicode_len();
    let mut r: String = String::new();
    let mut i: usize = 0;
    while i < s_len
        invariant
            s_len == s@.len(),
            i <= s_len,
            r@ == lower_seq(s@.subrange(0, i as int)),
        decreases s_len - i,
    {
        let c = lower_char(s.get_char(i));
        push_char(&mut r, c);
        assert(lower_seq(s@.subrange(0, i + 1)) =~= lower_seq(s@.subrange(0, i as int)).push(
            spec_lower_char(s@[i as int]),
        ));
        i = i + 1;
    }
    assert(s@.subrange(0, s_len as int) =~= s@);
    r
}

/// Whether `needle` occurs in `hay` when both are compared
/// ASCII-case-insensitively.
pub fn contains_ci(hay: &str, needle: &str) -> (r: bool)
    ensures
        r == contains_sub_ci(hay@, needle@),
{
    let hay_low = to_lower(hay);
    let needle_low = to_lower(needle);
    find_sub(hay_low.as_str(), needle_low.as_str()).is_some()
}

/// The decimal digit character of `d`, which must be below ten.
pub open spec fn spec_digit_char(d: int) -> char {
    if d == 0 {
        '0'
    } else if d == 1 {
        '1'
    } else if d == 2 {
        '2'
    } else if d == 3 {
        '3'
    } else if d == 4 {
        '4'
    } else if d == 5 {
        '5'
    } else if d == 6 {
        '6'
    } else if d == 7 {
        '7'
    } else if d == 8 {
        '8'
    } else {
        '9'
    }
}

/// Decimal rendering of a natural number, most significant digit first.
pub open spec fn spec_decimal(n: nat) -> Seq<char>
    decreases n,
{
    if n < 10 {
        seq![spec_digit_char(n as int)]
    } else {
        spec_decimal(n / 10).push(spec_digit_char((n % 10) as int))
    }
}

fn digit_char(d: u64) -> (r: char)
    requires
        d < 10,
    ensures
        r == spec_digit_char(d as int),
{
    match d {
        0 => '0',
        1 => '1',
        2 => '2',
        3 => '3',
        4 => '4',
        5 => '5',
        6 => '6',
        7 => '7',
        8 => '8',
        _ => '9',
    }
}

/// Renders `n` in decimal.
pub fn dec_u64(n: u64) -> (r: String)
    ensures
        r@ == spec_decimal(n as nat),
    decreases n,
{
    if n < 10 {
        let mut r: String = String::new();
        push_char(&mut r, digit_char(n));
        assert(r@ =~= spec_decimal(n as nat));
        r
    } else {
        let mut r = dec_u64(n / 10);
        push_char(&mut r, digit_char(n % 10));
        r
    }
}

/// The replacement text that stands in for a masked credential value.
pub open spec fn mask_text() -> Seq<char> {
    "***MASKED***"@
}

/// One masking pass: if `pat` occurs, the text between its end and the next
/// `'&'` (or the end of the string) is replaced by the mask text.
pub open spec fn spec_mask_one(s: Seq<char>, pat: Seq<char>) -> Seq<char> {
    match first_match(s, pat) {
        None => s,
        Some(i) => {
            let after = i + pat.len();
            match first_char_from(s, '&', after) {
                Some(j) => s.subrange(0, after) + mask_text() + s.subrange(j, s.len() as int),
                None => s.subrange(0, after) + mask_text(),
            }
        },
    }
}

/// What [`mask_sensitive_url`] returns: the three credential query
/// parameters masked in turn, each pass working on the previous result, and
/// the URL untouched when none of the three parameter names occurs in it.
pub open spec fn spec_mask_url(s: Seq<char>) -> Seq<char> {
    if contains_sub(s, "token="@) || contains_sub(s, "access_token="@) || contains_sub(
        s,
        "key="@,
    ) {
        spec_mask_one(spec_mask_one(spec_mask_one(s, "token="@), "access_token="@), "key="@)
    } else {
        s
    }
}

fn mask_one(s: &str, pat: &str) -> (r: String)
    ensures
        r@ == spec_mask_one(s@, pat@),
{
    let s_len: usize = s.unicode_len();
    let pat_len: usize = pat.unicode_len();
    match find_sub(s, pat) {
        None => s.to_owned(),
        Some(i) => {
            assert(is_match(s@, pat@, i as int)) by {
                lemma_first_match_is_match(s@, pat@, 0);
            }
            let after: usize = i + pat_len;
            let mut r: String = String::from_str(s.substring_char(0, after));
            r.append("***MASKED***");
            match find_char_from(s, '&', after) {
                Some(j) => {
                    assert(after <= j < s@.len()) by {
                        lemma_first_char_bounds(s@, '&', after as int);
                    }
                    r.append(s.substring_char(j, s_len));
                    r
                },
                None => r,
            }
        },
    }
}

/// A found first match really is a match at that index.
proof fn lemma_first_match_is_match(hay: Seq<char>, needle: Seq<char>, i: int)
    ensures
        match first_match_from(hay, needle, i) {
            Some(k) => is_match(hay, needle, k) && i <= k,
            None => true,
        },
    decreases hay.len() - i + 1,
{
    if i < 0 || i + needle.len() > hay.len() {
    } else if is_match(hay, needle, i) {
    } else {
        lemma_first_match_is_match(hay, needle, i + 1);
    }
}

/// A found first character index lies within the string, at or after the
/// start of the search.
proof fn lemma_first_char_bounds(s: Seq<char>, c: char, i: int)
    ensures
        match first_char_from(s, c, i) {
            Some(k) => i <= k < s.len() && s[k] == c,
            None => true,
        },
    decreases s.len() - i + 1,
{
    if i < 0 || i >= s.len() {
    } else if s[i] == c {
    } else {
        lemma_first_char_bounds(s, c, i + 1);
    }
}

/// Masks the values of credential-carrying query parameters (`token=`,
/// `access_token=`, `key=`) in a URL before it is logged.
pub fn mask_sensitive_url(url: &str) -> (r: String)
    ensures
        r@ == spec_mask_url(url@),
{
    let has_any = find_sub(url, "token=").is_some() || find_sub(url, "access_token=").is_some()
        || find_sub(url, "key=").is_some();
    if has_any {
        let pass1 = mask_one(url, "token=");
        let pass2 = mask_one(pass1.as_str(), "access_token=");
        mask_one(pass2.as_str(), "key=")
    } else {
        url.to_owned()
    }
}

} // verus!
