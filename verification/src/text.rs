//! Strings as sequences of characters: cutting, trimming, searching and
//! replacing.
use vstd::prelude::*;
use vstd::string::{StrSliceExecFns, StringExecFns};

verus! {

// ---------------------------------------------------------------------------
// Standard string operations
// ---------------------------------------------------------------------------

/// `String::push`: the character is appended at the end.
pub assume_specification[ std::string::String::push ](s: &mut std::string::String, c: char)
    ensures
        final(s)@ == old(s)@.push(c),
;

/// Characters with the Unicode property `White_Space`.
pub open spec fn white_space(c: char) -> bool {
    let u = c as u32;
    ||| 0x9 <= u <= 0xd
    ||| u == 0x20
    ||| u == 0x85
    ||| u == 0xa0
    ||| u == 0x1680
    ||| 0x2000 <= u <= 0x200a
    ||| u == 0x2028
    ||| u == 0x2029
    ||| u == 0x202f
    ||| u == 0x205f
    ||| u == 0x3000
}

pub open spec fn trimmed_start(s: Seq<char>) -> Seq<char>
    decreases s.len(),
{
    if s.len() > 0 && white_space(s.first()) {
        trimmed_start(s.drop_first())
    } else {
        s
    }
}

pub open spec fn trimmed_end(s: Seq<char>) -> Seq<char>
    decreases s.len(),
{
    if s.len() > 0 && white_space(s.last()) {
        trimmed_end(s.drop_last())
    } else {
        s
    }
}

/// The text without the white space at either end.
pub open spec fn trimmed(s: Seq<char>) -> Seq<char> {
    trimmed_end(trimmed_start(s))
}

/// `str::trim`: leading and trailing white space is removed.
pub assume_specification[ str::trim ](s: &str) -> (r: &str)
    ensures
        r@ == trimmed(s@),
;

pub open spec fn ascii_lower_char(c: char) -> char {
    if 'A' <= c <= 'Z' {
        (c as u32 + 32) as char
    } else {
        c
    }
}

pub open spec fn ascii_lower(s: Seq<char>) -> Seq<char> {
    s.map_values(|c: char| ascii_lower_char(c))
}

/// `str::to_ascii_lowercase`: ASCII letters become lower case, every other
/// character is kept.
pub assume_specification[ str::to_ascii_lowercase ](s: &str) -> (r: std::string::String)
    ensures
        r@ == ascii_lower(s@),
;

/// `==` of two string slices: they are equal when they hold the same characters.
#[verifier::external_body]
pub(crate) fn str_eq(a: &str, b: &str) -> (r: bool)
    ensures
        r == (a@ == b@),
{
    a == b
}

pub open spec fn occurs_at(hay: Seq<char>, needle: Seq<char>, i: int) -> bool {
    &&& 0 <= i <= hay.len() - needle.len()
    &&& hay.subrange(i, i + needle.len()) == needle
}

/// The needle is a substring of the hay.
pub open spec fn has_substring(hay: Seq<char>, needle: Seq<char>) -> bool {
    exists|i: int| occurs_at(hay, needle, i)
}

// ---------------------------------------------------------------------------
// Characters in and out
// ---------------------------------------------------------------------------

/// The characters of a string, in order.
pub fn chars_of(s: &str) -> (r: Vec<char>)
    ensures
        r@ == s@,
{
    let mut out: Vec<char> = Vec::new();
    for c in it: s.chars()
        invariant
            out@ == it.seq().take(it.index()),
    {
        out.push(c);
    }
    assert(out@ =~= s@);
    out
}

/// The view of an optional string.
pub open spec fn text_of(s: Option<String>) -> Option<Seq<char>> {
    match s {
        Some(t) => Some(t@),
        None => None,
    }
}

/// The view of an optional string slice.
pub open spec fn slice_text(s: Option<&str>) -> Option<Seq<char>> {
    match s {
        Some(t) => Some(t@),
        None => None,
    }
}

/// The views of a list of strings.
pub open spec fn texts(v: Seq<String>) -> Seq<Seq<char>> {
    v.map_values(|s: String| s@)
}

/// Whether a list of strings holds the given one.
pub fn texts_contain(v: &Vec<String>, s: &str) -> (r: bool)
    ensures
        r == texts(v@).contains(s@),
{
    let mut i: usize = 0;
    while i < v.len()
        invariant
            i <= v.len(),
            forall|k: int| 0 <= k < i ==> texts(v@)[k] != s@,
        decreases v.len() - i,
    {
        if str_eq(v[i].as_str(), s) {
            assert(texts(v@)[i as int] == s@);
            return true;
        }
        i = i + 1;
    }
    false
}

// ---------------------------------------------------------------------------
// Cutting
// ---------------------------------------------------------------------------

/// What stands before and after the first `sep`.
pub open spec fn cut(s: Seq<char>, sep: char) -> Option<(Seq<char>, Seq<char>)>
    decreases s.len(),
{
    if s.len() == 0 {
        None
    } else if s.first() == sep {
        Some((Seq::empty(), s.drop_first()))
    } else {
        match cut(s.drop_first(), sep) {
            Some((a, b)) => Some((seq![s.first()] + a, b)),
            None => None,
        }
    }
}

/// What stands before and after the last `sep`.
pub open spec fn cut_last(s: Seq<char>, sep: char) -> Option<(Seq<char>, Seq<char>)>
    decreases s.len(),
{
    if s.len() == 0 {
        None
    } else if s.last() == sep {
        Some((s.drop_last(), Seq::empty()))
    } else {
        match cut_last(s.drop_last(), sep) {
            Some((a, b)) => Some((a, b.push(s.last()))),
            None => None,
        }
    }
}

/// The pieces between the occurrences of `sep`.
pub open spec fn pieces(s: Seq<char>, sep: char) -> Seq<Seq<char>>
    decreases s.len(),
{
    match cut(s, sep) {
        None => seq![s],
        Some((a, b)) => if b.len() < s.len() {
            seq![a] + pieces(b, sep)
        } else {
            seq![s]
        },
    }
}

/// The first cut is at the only place where no `sep` stands before it.
pub proof fn lemma_cut(s: Seq<char>, sep: char)
    ensures
        cut(s, sep) matches Some((a, b)) ==> s == a + seq![sep] + b && !a.contains(sep),
        cut(s, sep) is None <==> !s.contains(sep),
    decreases s.len(),
{
    if s.len() == 0 {
    } else if s.first() == sep {
        assert(s =~= Seq::<char>::empty() + seq![sep] + s.drop_first());
        assert(s.contains(sep));
    } else {
        lemma_cut(s.drop_first(), sep);
        let t = s.drop_first();
        match cut(t, sep) {
            Some((a, b)) => {
                let a2 = seq![s.first()] + a;
                assert(s =~= seq![s.first()] + t);
                assert(s =~= a2 + seq![sep] + b);
                assert forall|i: int| 0 <= i < a2.len() implies a2[i] != sep by {
                    if i > 0 {
                        assert(a2[i] == a[i - 1]);
                    }
                }
                assert(s[a2.len() as int] == sep);
            },
            None => {
                assert forall|i: int| 0 <= i < s.len() implies s[i] != sep by {
                    if i > 0 {
                        assert(s[i] == t[i - 1]);
                    }
                }
            },
        }
    }
}

/// A text made of a part without `sep`, a `sep` and a rest is cut there.
pub proof fn lemma_cut_at(a: Seq<char>, sep: char, b: Seq<char>)
    requires
        !a.contains(sep),
    ensures
        cut(a + seq![sep] + b, sep) == Some((a, b)),
    decreases a.len(),
{
    let s = a + seq![sep] + b;
    if a.len() == 0 {
        assert(s.first() == sep);
        assert(s.drop_first() =~= b);
        assert(a =~= Seq::empty());
    } else {
        let t = a.drop_first();
        assert(a[0] == a.first());
        assert(s.first() != sep);
        assert forall|i: int| 0 <= i < t.len() implies t[i] != sep by {
            assert(t[i] == a[i + 1]);
        }
        lemma_cut_at(t, sep, b);
        assert(s.drop_first() =~= t + seq![sep] + b);
        assert(seq![s.first()] + t =~= a);
    }
}

/// Without a `sep` there is one piece.
pub proof fn lemma_pieces_none(s: Seq<char>, sep: char)
    requires
        !s.contains(sep),
    ensures
        pieces(s, sep) == seq![s],
{
    lemma_cut(s, sep);
}

/// A part without `sep`, a `sep` and a rest have that part as the first piece.
pub proof fn lemma_pieces_at(a: Seq<char>, sep: char, b: Seq<char>)
    requires
        !a.contains(sep),
    ensures
        pieces(a + seq![sep] + b, sep) == seq![a] + pieces(b, sep),
{
    lemma_cut_at(a, sep, b);
}

/// A text is cut at the last separator.
pub proof fn lemma_cut_last_at(a: Seq<char>, sep: char, b: Seq<char>)
    requires
        !b.contains(sep),
    ensures
        cut_last(a + seq![sep] + b, sep) == Some((a, b)),
    decreases b.len(),
{
    let s = a + seq![sep] + b;
    if b.len() == 0 {
        assert(s.last() == sep);
        assert(s.drop_last() =~= a);
        assert(b =~= Seq::empty());
    } else {
        let t = b.drop_last();
        assert(b[b.len() - 1] == b.last());
        assert(s.last() == b.last());
        assert forall|i: int| 0 <= i < t.len() implies t[i] != sep by {
            assert(t[i] == b[i]);
        }
        lemma_cut_last_at(a, sep, t);
        assert(s.drop_last() =~= a + seq![sep] + t);
        assert(t.push(s.last()) =~= b);
    }
}

/// A text without the separator is not cut.
pub proof fn lemma_cut_last_none(s: Seq<char>, sep: char)
    requires
        !s.contains(sep),
    ensures
        cut_last(s, sep) is None,
    decreases s.len(),
{
    if s.len() > 0 {
        assert(s[s.len() - 1] == s.last());
        assert forall|i: int| 0 <= i < s.drop_last().len() implies s.drop_last()[i] != sep by {
            assert(s.drop_last()[i] == s[i]);
        }
        lemma_cut_last_none(s.drop_last(), sep);
    }
}

/// Cuts at the first `sep`.
pub fn cut_str<'a>(s: &'a str, sep: char) -> (r: Option<(&'a str, &'a str)>)
    ensures
        match r {
            Some((a, b)) => cut(s@, sep) == Some((a@, b@)),
            None => cut(s@, sep) is None,
        },
{
    let chars = chars_of(s);
    let mut i: usize = 0;
    while i < chars.len()
        invariant
            chars@ == s@,
            i <= chars.len(),
            forall|k: int| 0 <= k < i ==> s@[k] != sep,
        decreases chars.len() - i,
    {
        if chars[i] == sep {
            let a = s.substring_char(0, i);
            let b = s.substring_char(i + 1, chars.len());
            proof {
                assert(s@ =~= a@ + seq![sep] + b@);
                lemma_cut_at(a@, sep, b@);
            }
            return Some((a, b));
        }
        i = i + 1;
    }
    proof {
        lemma_cut(s@, sep);
    }
    None
}

/// Cuts at the last `sep`.
pub fn cut_last_str<'a>(s: &'a str, sep: char) -> (r: Option<(&'a str, &'a str)>)
    ensures
        match r {
            Some((a, b)) => cut_last(s@, sep) == Some((a@, b@)),
            None => cut_last(s@, sep) is None,
        },
{
    let chars = chars_of(s);
    let mut i: usize = chars.len();
    while i > 0
        invariant
            chars@ == s@,
            i <= chars.len(),
            forall|k: int| i <= k < chars.len() ==> s@[k] != sep,
        decreases i,
    {
        i = i - 1;
        if chars[i] == sep {
            let a = s.substring_char(0, i);
            let b = s.substring_char(i + 1, chars.len());
            proof {
                assert(s@ =~= a@ + seq![sep] + b@);
                lemma_cut_last_at(a@, sep, b@);
            }
            return Some((a, b));
        }
    }
    proof {
        lemma_cut_last_none(s@, sep);
    }
    None
}

/// The pieces between the occurrences of `sep`.
pub fn pieces_of<'a>(s: &'a str, sep: char) -> (r: Vec<&'a str>)
    ensures
        r@.map_values(|p: &'a str| p@) == pieces(s@, sep),
{
    let mut out: Vec<&'a str> = Vec::new();
    let mut rest: &'a str = s;
    loop
        invariant
            out@.map_values(|p: &'a str| p@) + pieces(rest@, sep) == pieces(s@, sep),
        decreases rest@.len(),
    {
        match cut_str(rest, sep) {
            None => {
                proof {
                    assert(out@.push(rest).map_values(|p: &'a str| p@) =~= out@.map_values(
                        |p: &'a str| p@,
                    ) + pieces(rest@, sep));
                }
                out.push(rest);
                return out;
            },
            Some((a, b)) => {
                proof {
                    lemma_cut(rest@, sep);
                    assert(out@.push(a).map_values(|p: &'a str| p@) + pieces(b@, sep)
                        =~= out@.map_values(|p: &'a str| p@) + pieces(rest@, sep));
                }
                out.push(a);
                rest = b;
            },
        }
    }
}

// ---------------------------------------------------------------------------
// Stripping, searching, replacing, joining
// ---------------------------------------------------------------------------

/// The text without the run of `c` at its end.
pub open spec fn stripped_end(s: Seq<char>, c: char) -> Seq<char>
    decreases s.len(),
{
    if s.len() > 0 && s.last() == c {
        stripped_end(s.drop_last(), c)
    } else {
        s
    }
}

/// Removes the run of `c` at the end.
pub fn strip_end<'a>(s: &'a str, c: char) -> (r: &'a str)
    ensures
        r@ == stripped_end(s@, c),
{
    let chars = chars_of(s);
    let mut n: usize = chars.len();
    proof {
        assert(s@.take(n as int) =~= s@);
    }
    while n > 0 && chars[n - 1] == c
        invariant
            chars@ == s@,
            n <= chars.len(),
            stripped_end(s@.take(n as int), c) == stripped_end(s@, c),
        decreases n,
    {
        proof {
            assert(s@.take(n as int).drop_last() =~= s@.take(n - 1));
            assert(s@.take(n as int).last() == c);
        }
        n = n - 1;
    }
    proof {
        if n > 0 {
            assert(s@.take(n as int).last() == s@[n - 1]);
        }
        assert(s@.take(n as int) =~= s@.subrange(0, n as int));
    }
    s.substring_char(0, n)
}

/// The first place at or after `from` where the needle occurs.
pub open spec fn found_at(hay: Seq<char>, needle: Seq<char>, from: int) -> Option<int>
    decreases hay.len() + 1 - from,
{
    if from > hay.len() - needle.len() {
        None
    } else if occurs_at(hay, needle, from) {
        Some(from)
    } else {
        found_at(hay, needle, from + 1)
    }
}

fn chars_occur_at(hay: &Vec<char>, needle: &Vec<char>, at: usize) -> (r: bool)
    requires
        at + needle.len() <= hay.len(),
    ensures
        r == occurs_at(hay@, needle@, at as int),
{
    let mut k: usize = 0;
    while k < needle.len()
        invariant
            at + needle.len() <= hay.len(),
            k <= needle.len(),
            forall|j: int| 0 <= j < k ==> hay@[at + j] == needle@[j],
        decreases needle.len() - k,
    {
        if hay[at + k] != needle[k] {
            assert(hay@.subrange(at as int, at + needle@.len())[k as int] == hay@[at + k]);
            return false;
        }
        k = k + 1;
    }
    assert(hay@.subrange(at as int, at + needle@.len()) =~= needle@);
    true
}

/// The first place at or after `from` where the needle occurs.
pub fn find_chars(hay: &Vec<char>, needle: &Vec<char>, from: usize) -> (r: Option<usize>)
    requires
        from <= hay.len(),
    ensures
        match r {
            Some(i) => found_at(hay@, needle@, from as int) == Some(i as int)
                && i + needle.len() <= hay.len(),
            None => found_at(hay@, needle@, from as int) is None,
        },
{
    let mut i: usize = from;
    if needle.len() > hay.len() {
        return None;
    }
    if needle.len() == 0 {
        assert(hay@.subrange(from as int, from as int) =~= needle@);
        return Some(from);
    }
    while i <= hay.len() - needle.len()
        invariant
            0 < needle.len() <= hay.len(),
            from <= i <= hay.len(),
            found_at(hay@, needle@, from as int) == found_at(hay@, needle@, i as int),
        decreases hay.len() - i,
    {
        if chars_occur_at(hay, needle, i) {
            return Some(i);
        }
        i = i + 1;
    }
    None
}

proof fn lemma_found(hay: Seq<char>, needle: Seq<char>, from: int)
    requires
        0 <= from,
    ensures
        found_at(hay, needle, from) is Some <==> exists|i: int|
            from <= i && #[trigger] occurs_at(hay, needle, i),
    decreases hay.len() + 1 - from,
{
    if from <= hay.len() - needle.len() {
        lemma_found(hay, needle, from + 1);
    }
}

/// Whether the needle is a substring of the hay.
pub fn str_contains(hay: &str, needle: &str) -> (r: bool)
    ensures
        r == has_substring(hay@, needle@),
{
    proof {
        lemma_found(hay@, needle@, 0);
    }
    find_chars(&chars_of(hay), &chars_of(needle), 0).is_some()
}

/// Whether the text starts with the prefix.
pub fn str_starts_with(s: &str, prefix: &str) -> (r: bool)
    ensures
        r == prefix@.is_prefix_of(s@),
{
    let chars = chars_of(s);
    let head = chars_of(prefix);
    if head.len() > chars.len() {
        return false;
    }
    let r = chars_occur_at(&chars, &head, 0);
    proof {
        assert(s@.subrange(0, prefix@.len() as int) =~= s@.take(prefix@.len() as int));
    }
    r
}

/// The text from `from` on, with each occurrence of the pattern replaced, found
/// from left to right.
pub open spec fn replaced_from(
    s: Seq<char>,
    pattern: Seq<char>,
    with: Seq<char>,
    from: int,
) -> Seq<char>
    decreases s.len() - from,
{
    if pattern.len() == 0 || from < 0 || from > s.len() {
        Seq::empty()
    } else if occurs_at(s, pattern, from) {
        with + replaced_from(s, pattern, with, from + pattern.len())
    } else if from == s.len() {
        Seq::empty()
    } else {
        seq![s[from]] + replaced_from(s, pattern, with, from + 1)
    }
}

/// The text with each occurrence of the pattern replaced.
pub open spec fn replaced(s: Seq<char>, pattern: Seq<char>, with: Seq<char>) -> Seq<char> {
    replaced_from(s, pattern, with, 0)
}

/// Replaces each occurrence of a non-empty pattern.
pub fn replace_str(s: &str, pattern: &str, with: &str) -> (r: String)
    requires
        pattern@.len() > 0,
    ensures
        r@ == replaced(s@, pattern@, with@),
{
    let chars = chars_of(s);
    let pat = chars_of(pattern);
    let mut out = String::new();
    let mut i: usize = 0;
    while i < chars.len()
        invariant
            chars@ == s@,
            pat@ == pattern@,
            pat.len() > 0,
            i <= chars.len(),
            out@ + replaced_from(s@, pattern@, with@, i as int) =~= replaced(s@, pattern@, with@),
        decreases chars.len() - i,
    {
        if pat.len() <= chars.len() - i && chars_occur_at(&chars, &pat, i) {
            out.append(with);
            i = i + pat.len();
        } else {
            out.push(chars[i]);
            i = i + 1;
        }
    }
    assert(out@ =~= replaced(s@, pattern@, with@));
    out
}

/// The parts with the separator between each two.
pub open spec fn joined(parts: Seq<Seq<char>>, sep: Seq<char>) -> Seq<char>
    decreases parts.len(),
{
    if parts.len() == 0 {
        Seq::empty()
    } else if parts.len() == 1 {
        parts[0]
    } else {
        joined(parts.drop_last(), sep) + sep + parts.last()
    }
}

/// Joins the parts with the separator.
pub fn join(parts: &Vec<String>, sep: &str) -> (r: String)
    ensures
        r@ == joined(texts(parts@), sep@),
{
    let mut out = String::new();
    let mut i: usize = 0;
    while i < parts.len()
        invariant
            i <= parts.len(),
            out@ == joined(texts(parts@).take(i as int), sep@),
        decreases parts.len() - i,
    {
        if i > 0 {
            out.append(sep);
        }
        out.append(parts[i].as_str());
        proof {
            assert(texts(parts@).take(i + 1).drop_last() =~= texts(parts@).take(i as int));
            assert(texts(parts@).take(i + 1).last() == parts@[i as int]@);
            if i == 0 {
                assert(out@ =~= parts@[0]@);
            }
        }
        i = i + 1;
    }
    assert(texts(parts@).take(parts.len() as int) =~= texts(parts@));
    out
}

} // verus!
