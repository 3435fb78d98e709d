//! Character-level string helpers shared by the parsers in this crate.

use vstd::prelude::*;

verus! {

/// Append one character to a `String` (std `String::push`).
#[verifier::external_body]
pub(crate) fn push_char(s: &mut String, c: char)
    ensures
        final(s)@ == old(s)@.push(c),
{
    s.push(c);
}

/// The characters of a string slice, in order.
pub fn chars_of(s: &str) -> (v: Vec<char>)
    ensures
        v@ == s@,
{
    let mut v: Vec<char> = Vec::new();
    for c in it: s.chars()
        invariant
            v@ == it.seq().take(it.index() as int),
            it.seq() == s@,
    {
        v.push(c);
    }
    v
}

/// A `String` holding `v[start..end]`.
pub fn string_of_range(v: &Vec<char>, start: usize, end: usize) -> (s: String)
    requires
        start <= end <= v.len(),
    ensures
        s@ == v@.subrange(start as int, end as int),
{
    let mut s = String::new();
    let mut i = start;
    while i < end
        invariant
            start <= i <= end <= v.len(),
            s@ == v@.subrange(start as int, i as int),
        decreases end - i,
    {
        push_char(&mut s, v[i]);
        i = i + 1;
        assert(s@ =~= v@.subrange(start as int, i as int));
    }
    s
}

/// A `String` holding all of `v`.
pub fn string_of_chars(v: &Vec<char>) -> (s: String)
    ensures
        s@ == v@,
{
    let s = string_of_range(v, 0, v.len());
    assert(v@.subrange(0, v@.len() as int) =~= v@);
    s
}

/// A copy of a string slice as an owned `String`.
pub fn owned(s: &str) -> (r: String)
    ensures
        r@ == s@,
{
    s.to_owned()
}

/// The first index `j >= from` with `s[j] == c`.
pub open spec fn find_char(s: Seq<char>, c: char, from: int) -> Option<int>
    decreases s.len() - from,
{
    if from < 0 || from >= s.len() {
        None
    } else if s[from] == c {
        Some(from)
    } else {
        find_char(s, c, from + 1)
    }
}

/// The first index `j >= from` with `s[j] == a` or `s[j] == b`.
pub open spec fn find_either(s: Seq<char>, a: char, b: char, from: int) -> Option<int>
    decreases s.len() - from,
{
    if from < 0 || from >= s.len() {
        None
    } else if s[from] == a || s[from] == b {
        Some(from)
    } else {
        find_either(s, a, b, from + 1)
    }
}

pub proof fn lemma_find_char_bounds(s: Seq<char>, c: char, from: int)
    ensures
        find_char(s, c, from) matches Some(j) ==> from <= j < s.len() && s[j] == c && 0 <= from,
        find_char(s, c, from) is None ==> forall|k: int| 0 <= from <= k < s.len() ==> s[k] != c,
        find_char(s, c, from) matches Some(j) ==> forall|k: int| from <= k < j ==> s[k] != c,
    decreases s.len() - from,
{
    if from >= 0 && from < s.len() && s[from] != c {
        lemma_find_char_bounds(s, c, from + 1);
    }
}

pub proof fn lemma_find_either_bounds(s: Seq<char>, a: char, b: char, from: int)
    ensures
        find_either(s, a, b, from) matches Some(j) ==> from <= j < s.len() && (s[j] == a || s[j]
            == b) && 0 <= from,
        find_either(s, a, b, from) is None ==> forall|k: int|
            0 <= from <= k < s.len() ==> s[k] != a && s[k] != b,
        find_either(s, a, b, from) matches Some(j) ==> forall|k: int|
            from <= k < j ==> s[k] != a && s[k] != b,
    decreases s.len() - from,
{
    if from >= 0 && from < s.len() && s[from] != a && s[from] != b {
        lemma_find_either_bounds(s, a, b, from + 1);
    }
}

pub proof fn lemma_find_char_at(s: Seq<char>, c: char, from: int, j: int)
    requires
        0 <= from <= j < s.len(),
        s[j] == c,
        forall|k: int| from <= k < j ==> s[k] != c,
    ensures
        find_char(s, c, from) == Some(j),
    decreases j - from,
{
    if from < j {
        lemma_find_char_at(s, c, from + 1, j);
    }
}

pub proof fn lemma_find_either_at(s: Seq<char>, a: char, b: char, from: int, j: int)
    requires
        0 <= from <= j < s.len(),
        s[j] == a || s[j] == b,
        forall|k: int| from <= k < j ==> s[k] != a && s[k] != b,
    ensures
        find_either(s, a, b, from) == Some(j),
    decreases j - from,
{
    if from < j {
        lemma_find_either_at(s, a, b, from + 1, j);
    }
}

/// Locate `c` in `v` at or after `from`.
pub fn find_char_from(v: &Vec<char>, c: char, from: usize) -> (r: Option<usize>)
    ensures
        r matches Some(j) ==> find_char(v@, c, from as int) == Some(j as int),
        r is None ==> find_char(v@, c, from as int) is None,
{
    let mut i = from;
    while i < v.len()
        invariant
            from <= i,
            find_char(v@, c, from as int) == find_char(v@, c, i as int),
        decreases v.len() - i,
    {
        if v[i] == c {
            return Some(i);
        }
        i = i + 1;
    }
    None
}

/// Locate `a` or `b` in `v` at or after `from`.
pub fn find_either_from(v: &Vec<char>, a: char, b: char, from: usize) -> (r: Option<usize>)
    ensures
        r matches Some(j) ==> find_either(v@, a, b, from as int) == Some(j as int),
        r is None ==> find_either(v@, a, b, from as int) is None,
{
    let mut i = from;
    while i < v.len()
        invariant
            from <= i,
            find_either(v@, a, b, from as int) == find_either(v@, a, b, i as int),
        decreases v.len() - i,
    {
        if v[i] == a || v[i] == b {
            return Some(i);
        }
        i = i + 1;
    }
    None
}

/// Whether `v[start..end]` equals `w`.
pub fn range_is(v: &Vec<char>, start: usize, end: usize, w: &[char]) -> (r: bool)
    requires
        start <= end <= v.len(),
    ensures
        r == (v@.subrange(start as int, end as int) == w@),
{
    if end - start != w.len() {
        return false;
    }
    let mut k: usize = 0;
    while k < w.len()
        invariant
            end - start == w.len(),
            start <= end <= v.len(),
            k <= w.len(),
            forall|j: int| 0 <= j < k ==> v@[start + j] == w@[j],
        decreases w.len() - k,
    {
        if v[start + k] != w[k] {
            assert(v@.subrange(start as int, end as int)[k as int] != w@[k as int]);
            return false;
        }
        k = k + 1;
    }
    assert(v@.subrange(start as int, end as int) =~= w@);
    true
}

/// The Unicode lowercase mapping std's `str::to_lowercase` applies to `s`.
pub uninterp spec fn unicode_lowercase(s: Seq<char>) -> Seq<char>;

/// std's `str::to_lowercase`: the lowercase equivalent of `s` under the
/// Unicode `Lowercase` mapping, a function of `s` alone.
#[verifier::external_body]
pub(crate) fn to_lowercase(s: &str) -> (r: String)
    ensures
        r@ == unicode_lowercase(s@),
{
    s.to_lowercase()
}

/// Whether `needle` occurs in `hay` as a contiguous run.
pub open spec fn contains_seq(hay: Seq<char>, needle: Seq<char>) -> bool {
    exists|i: int|
        0 <= i && i + needle.len() <= hay.len() && #[trigger] hay.subrange(i, i + needle.len())
            == needle
}

/// Whether `needle` occurs in `hay` (the empty needle occurs everywhere).
pub fn contains_str(hay: &str, needle: &str) -> (r: bool)
    ensures
        r == contains_seq(hay@, needle@),
{
    let h = chars_of(hay);
    let n = chars_of(needle);
    if n.len() > h.len() {
        proof {
            assert forall|i: int|
                0 <= i && i + needle@.len() <= hay@.len() implies #[trigger] hay@.subrange(
                i,
                i + needle@.len(),
            ) != needle@ by {
            }
        }
        return false;
    }
    let mut i: usize = 0;
    while i <= h.len() - n.len()
        invariant
            n.len() <= h.len(),
            h@ == hay@,
            n@ == needle@,
            i <= h.len() - n.len() + 1,
            forall|k: int| 0 <= k < i ==> #[trigger] hay@.subrange(k, k + needle@.len()) != needle@,
        decreases h.len() - i,
    {
        let mut j: usize = 0;
        while j < n.len() && h[i + j] == n[j]
            invariant
                j <= n.len(),
                i + n.len() <= h.len(),
                forall|t: int| 0 <= t < j ==> h@[i + t] == n@[t],
            decreases n.len() - j,
        {
            j = j + 1;
        }
        if j == n.len() {
            assert(hay@.subrange(i as int, i + needle@.len()) =~= needle@);
            return true;
        }
        assert(hay@.subrange(i as int, i + needle@.len())[j as int] != needle@[j as int]);
        i = i + 1;
    }
    false
}

/// The lowercase hexadecimal digit of `d` (below 16).
pub open spec fn hex_digit(d: nat) -> char {
    if d < 10 {
        ((d + 48) as u8) as char
    } else {
        ((d + 87) as u8) as char
    }
}

/// The last `width` lowercase hexadecimal digits of `v`, zero-padded.
pub open spec fn hex_text(v: nat, width: nat) -> Seq<char>
    decreases width,
{
    if width == 0 {
        Seq::empty()
    } else {
        hex_text(v / 16, (width - 1) as nat).push(hex_digit(v % 16))
    }
}

pub proof fn lemma_hex_text_len(v: nat, width: nat)
    ensures
        hex_text(v, width).len() == width,
    decreases width,
{
    if width > 0 {
        lemma_hex_text_len(v / 16, (width - 1) as nat);
    }
}

fn hex_digit_exec(d: u64) -> (c: char)
    requires
        d < 16,
    ensures
        c == hex_digit(d as nat),
{
    if d < 10 {
        ((d + 48) as u8) as char
    } else {
        ((d + 87) as u8) as char
    }
}

/// The last `width` lowercase hex digits of `v`, as `format!("{:0w$x}")`
/// gives them when `v` has at most `width` digits.
pub fn hex_fixed(v: u64, width: usize) -> (r: Vec<char>)
    ensures
        r@ == hex_text(v as nat, width as nat),
        r@.len() == width,
    decreases width,
{
    if width == 0 {
        Vec::new()
    } else {
        let mut r = hex_fixed(v / 16, width - 1);
        r.push(hex_digit_exec(v % 16));
        r
    }
}

/// Unicode `White_Space`, the property `char::is_whitespace` tests.
pub open spec fn is_white_space(c: char) -> bool {
    ('\u{9}' <= c && c <= '\u{d}') || c == ' ' || c == '\u{85}' || c == '\u{a0}' || c == '\u{1680}'
        || ('\u{2000}' <= c && c <= '\u{200a}') || c == '\u{2028}' || c == '\u{2029}' || c
        == '\u{202f}' || c == '\u{205f}' || c == '\u{3000}'
}

pub fn is_white_space_exec(c: char) -> (r: bool)
    ensures
        r == is_white_space(c),
{
    ('\u{9}' <= c && c <= '\u{d}') || c == ' ' || c == '\u{85}' || c == '\u{a0}' || c == '\u{1680}'
        || ('\u{2000}' <= c && c <= '\u{200a}') || c == '\u{2028}' || c == '\u{2029}' || c
        == '\u{202f}' || c == '\u{205f}' || c == '\u{3000}'
}

/// `s` without its leading whitespace.
pub open spec fn trim_start_seq(s: Seq<char>) -> Seq<char>
    decreases s.len(),
{
    if s.len() > 0 && is_white_space(s[0]) {
        trim_start_seq(s.drop_first())
    } else {
        s
    }
}

/// `s` without its trailing whitespace.
pub open spec fn trim_end_seq(s: Seq<char>) -> Seq<char>
    decreases s.len(),
{
    if s.len() > 0 && is_white_space(s.last()) {
        trim_end_seq(s.drop_last())
    } else {
        s
    }
}

/// `s` without leading and trailing whitespace, as `str::trim` gives it.
pub open spec fn trim_seq(s: Seq<char>) -> Seq<char> {
    trim_end_seq(trim_start_seq(s))
}

/// `s` without leading and trailing whitespace.
pub fn trim(s: &str) -> (r: String)
    ensures
        r@ == trim_seq(s@),
{
    let v = chars_of(s);
    let mut i: usize = 0;
    assert(s@.subrange(0, s@.len() as int) =~= s@);
    while i < v.len() && is_white_space_exec(v[i])
        invariant
            i <= v.len(),
            v@ == s@,
            trim_start_seq(s@) == trim_start_seq(s@.subrange(i as int, s@.len() as int)),
        decreases v.len() - i,
    {
        assert(s@.subrange(i as int, s@.len() as int).drop_first() =~= s@.subrange(
            i + 1,
            s@.len() as int,
        ));
        i = i + 1;
    }
    let ghost t = s@.subrange(i as int, s@.len() as int);
    let mut j: usize = v.len();
    assert(t.subrange(0, (j - i) as int) =~= t);
    while j > i && is_white_space_exec(v[j - 1])
        invariant
            i <= j <= v.len(),
            v@ == s@,
            t == s@.subrange(i as int, s@.len() as int),
            trim_end_seq(t) == trim_end_seq(t.subrange(0, (j - i) as int)),
        decreases j,
    {
        assert(t.subrange(0, (j - i) as int).drop_last() =~= t.subrange(0, (j - 1 - i) as int));
        j = j - 1;
    }
    assert(t.subrange(0, (j - i) as int) =~= s@.subrange(i as int, j as int));
    string_of_range(&v, i, j)
}

/// The finished pieces and the piece being read, scanning `s` for `sep`.
pub open spec fn split_scan(s: Seq<char>, sep: char) -> (Seq<Seq<char>>, Seq<char>)
    decreases s.len(),
{
    if s.len() == 0 {
        (Seq::empty(), Seq::empty())
    } else {
        let (done, cur) = split_scan(s.drop_last(), sep);
        if s.last() == sep {
            (done.push(cur), Seq::empty())
        } else {
            (done, cur.push(s.last()))
        }
    }
}

/// The pieces of `s` between occurrences of `sep`, as `str::split` yields
/// them (always at least one, possibly empty).
pub open spec fn split_seq(s: Seq<char>, sep: char) -> Seq<Seq<char>> {
    let (done, cur) = split_scan(s, sep);
    done.push(cur)
}

/// The pieces of `s` between occurrences of `sep`.
pub fn split_char(s: &str, sep: char) -> (r: Vec<String>)
    ensures
        r@.map_values(|x: String| x@) == split_seq(s@, sep),
{
    let v = chars_of(s);
    let mut done: Vec<String> = Vec::new();
    let mut cur = String::new();
    let mut i: usize = 0;
    while i < v.len()
        invariant
            i <= v.len(),
            v@ == s@,
            split_scan(s@.take(i as int), sep) == (done@.map_values(|x: String| x@), cur@),
        decreases v.len() - i,
    {
        assert(s@.take(i + 1).drop_last() =~= s@.take(i as int));
        assert(s@.take(i + 1).last() == v@[i as int]);
        if v[i] == sep {
            let piece = cur;
            cur = String::new();
            let ghost d0 = done@.map_values(|x: String| x@);
            done.push(piece);
            assert(done@.map_values(|x: String| x@) =~= d0.push(piece@));
            assert(cur@ =~= Seq::<char>::empty());
        } else {
            push_char(&mut cur, v[i]);
        }
        i = i + 1;
    }
    assert(s@.take(i as int) =~= s@);
    let ghost d0 = done@.map_values(|x: String| x@);
    done.push(cur);
    assert(done@.map_values(|x: String| x@) =~= d0.push(split_scan(s@, sep).1));
    done
}

/// `s` split at its first `sep`, if it has one.
pub open spec fn split_once_seq(s: Seq<char>, sep: char) -> Option<(Seq<char>, Seq<char>)> {
    match find_char(s, sep, 0) {
        Some(i) => Some((s.take(i), s.skip(i + 1))),
        None => None,
    }
}

/// `s` split at its first `sep`, if it has one.
pub fn split_once_char(s: &str, sep: char) -> (r: Option<(String, String)>)
    ensures
        match r {
            Some((a, b)) => split_once_seq(s@, sep) == Some((a@, b@)),
            None => split_once_seq(s@, sep) is None,
        },
{
    let v = chars_of(s);
    match find_char_from(&v, sep, 0) {
        Some(i) => {
            proof {
                lemma_find_char_bounds(v@, sep, 0);
            }
            let a = string_of_range(&v, 0, i);
            let b = string_of_range(&v, i + 1, v.len());
            assert(a@ =~= s@.take(i as int));
            assert(b@ =~= s@.skip(i + 1));
            Some((a, b))
        },
        None => None,
    }
}

/// `Some(s)` for a non-empty `s`, else `None`.
pub open spec fn non_empty(s: Seq<char>) -> Option<Seq<char>> {
    if s.len() > 0 {
        Some(s)
    } else {
        None
    }
}

/// `s` without the prefix `p`, when it starts with it.
pub open spec fn strip_prefix_seq(s: Seq<char>, p: Seq<char>) -> Option<Seq<char>> {
    if p.len() <= s.len() && s.take(p.len() as int) == p {
        Some(s.skip(p.len() as int))
    } else {
        None
    }
}

/// `s` without the prefix `p`, when it starts with it.
pub fn strip_prefix(s: &str, p: &str) -> (r: Option<String>)
    ensures
        opt_view(r) == strip_prefix_seq(s@, p@),
{
    let v = chars_of(s);
    let w = chars_of(p);
    if w.len() > v.len() {
        return None;
    }
    let mut i: usize = 0;
    while i < w.len()
        invariant
            i <= w.len() <= v.len(),
            v@ == s@,
            w@ == p@,
            forall|k: int| 0 <= k < i ==> v@[k] == w@[k],
        decreases w.len() - i,
    {
        if v[i] != w[i] {
            assert(s@.take(p@.len() as int)[i as int] != p@[i as int]);
            return None;
        }
        i = i + 1;
    }
    assert(s@.take(p@.len() as int) =~= p@);
    let r = string_of_range(&v, w.len(), v.len());
    assert(r@ =~= s@.skip(p@.len() as int));
    Some(r)
}

} // verus!

verus! {

/// A copy of a list of strings.
pub fn copy_strings(v: &Vec<String>) -> (r: Vec<String>)
    ensures
        r@ == v@,
{
    let mut r: Vec<String> = Vec::new();
    let mut i: usize = 0;
    while i < v.len()
        invariant
            i <= v.len(),
            r@ == v@.take(i as int),
        decreases v.len() - i,
    {
        r.push(v[i].clone());
        i = i + 1;
        assert(r@ =~= v@.take(i as int));
    }
    assert(v@.take(i as int) =~= v@);
    r
}

/// A copy of an optional string.
pub fn copy_opt(v: &Option<String>) -> (r: Option<String>)
    ensures
        r == *v,
{
    match v {
        Some(s) => Some(s.clone()),
        None => None,
    }
}

/// The ASCII lower-case form of a character.
pub open spec fn ascii_lower(c: char) -> char {
    if 'A' <= c <= 'Z' {
        ((c as u32) + 32) as char
    } else {
        c
    }
}

pub open spec fn ascii_lower_seq(s: Seq<char>) -> Seq<char> {
    s.map_values(|c: char| ascii_lower(c))
}

pub fn ascii_lower_char(c: char) -> (r: char)
    ensures
        r == ascii_lower(c),
{
    if 'A' <= c && c <= 'Z' {
        let b: u8 = (c as u8) + 32;
        b as char
    } else {
        c
    }
}

/// The ASCII lower-case form of a string.
pub fn ascii_lowercase(s: &str) -> (r: String)
    ensures
        r@ == ascii_lower_seq(s@),
{
    let v = chars_of(s);
    let mut out = String::new();
    let mut i: usize = 0;
    while i < v.len()
        invariant
            i <= v.len(),
            v@ == s@,
            out@ == ascii_lower_seq(s@.take(i as int)),
        decreases v.len() - i,
    {
        push_char(&mut out, ascii_lower_char(v[i]));
        i = i + 1;
        assert(out@ =~= ascii_lower_seq(s@.take(i as int)));
    }
    assert(s@.take(i as int) =~= s@);
    out
}

} // verus!

verus! {

/// The characters of an optional string.
pub open spec fn opt_view(o: Option<String>) -> Option<Seq<char>> {
    match o {
        Some(s) => Some(s@),
        None => None,
    }
}

} // verus!

verus! {

/// The ASCII upper-case form of a character.
pub open spec fn ascii_upper(c: char) -> char {
    if 'a' <= c <= 'z' {
        ((c as u32) - 32) as char
    } else {
        c
    }
}

pub open spec fn ascii_upper_seq(s: Seq<char>) -> Seq<char> {
    s.map_values(|c: char| ascii_upper(c))
}

pub fn ascii_upper_char(c: char) -> (r: char)
    ensures
        r == ascii_upper(c),
{
    if 'a' <= c && c <= 'z' {
        let b: u8 = (c as u8) - 32;
        b as char
    } else {
        c
    }
}

/// The ASCII upper-case form of a string.
pub fn ascii_uppercase(s: &str) -> (r: String)
    ensures
        r@ == ascii_upper_seq(s@),
{
    let v = chars_of(s);
    let mut out = String::new();
    let mut i: usize = 0;
    while i < v.len()
        invariant
            i <= v.len(),
            v@ == s@,
            out@ == ascii_upper_seq(s@.take(i as int)),
        decreases v.len() - i,
    {
        push_char(&mut out, ascii_upper_char(v[i]));
        i = i + 1;
        assert(out@ =~= ascii_upper_seq(s@.take(i as int)));
    }
    assert(s@.take(i as int) =~= s@);
    out
}

/// A `String` holding `a` followed by `b`.
pub fn concat2(a: &str, b: &str) -> (r: String)
    ensures
        r@ == a@ + b@,
{
    let mut r = owned(a);
    r.append(b);
    r
}

/// A lowercase hexadecimal digit.
pub open spec fn is_lower_hex(c: char) -> bool {
    ('0' <= c && c <= '9') || ('a' <= c && c <= 'f')
}

/// The hyphenated lowercase form of a UUID of the given version: 36
/// characters, `-` at positions 8, 13, 18 and 23, lowercase hex digits
/// elsewhere, and the version digit at position 14.
pub open spec fn is_uuid_text(s: Seq<char>, version: char) -> bool {
    &&& s.len() == 36
    &&& forall|i: int|
        0 <= i < 36 ==> (if i == 8 || i == 13 || i == 18 || i == 23 {
            #[trigger] s[i] == '-'
        } else {
            is_lower_hex(s[i])
        })
    &&& s[14] == version
}

} // verus!
