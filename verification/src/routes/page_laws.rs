//! What the pages show, and where they are.
//!
//! Each law speaks of what a function was given and of what it gave.
use vstd::prelude::*;
use crate::routes::pages::{html_char, html_escape, html_escaped};
use crate::routes::verify::{login_url, path_of, path_only};
use crate::text::{found_at, lemma_cut_at, occurs_at};
use crate::url::{url_decoded, url_encoded};

verus! {

// ---------------------------------------------------------------------------
// Texts on pages
// ---------------------------------------------------------------------------

/// The text starts with the name of a character.
spec fn begins(s: Seq<char>, name: Seq<char>) -> bool {
    name.len() <= s.len() && s.take(name.len() as int) == name
}

/// What a browser shows of a text without markup: the characters, and those whose
/// names stand in it.
pub closed spec fn shown(s: Seq<char>) -> Seq<char>
    decreases s.len(),
{
    if s.len() == 0 {
        Seq::empty()
    } else if begins(s, seq!['&', 'l', 't', ';']) {
        seq!['<'] + shown(s.skip(4))
    } else if begins(s, seq!['&', 'g', 't', ';']) {
        seq!['>'] + shown(s.skip(4))
    } else if begins(s, seq!['&', 'a', 'm', 'p', ';']) {
        seq!['&'] + shown(s.skip(5))
    } else {
        seq![s[0]] + shown(s.skip(1))
    }
}

proof fn lemma_escaped_first(c: char, s: Seq<char>)
    ensures
        html_escaped(seq![c] + s) == html_char(c) + html_escaped(s),
    decreases s.len(),
{
    let all = seq![c] + s;
    if s.len() == 0 {
        assert(all.drop_last() =~= Seq::empty());
        assert(all.last() == c);
        assert(html_escaped(all.drop_last()) =~= Seq::empty());
        assert(html_escaped(s) =~= Seq::empty());
        assert(html_escaped(all) =~= html_char(c) + html_escaped(s));
    } else {
        assert(all.drop_last() =~= seq![c] + s.drop_last());
        assert(all.last() == s.last());
        lemma_escaped_first(c, s.drop_last());
        assert(html_escaped(all) =~= html_char(c) + html_escaped(s));
    }
}

proof fn lemma_shown(s: Seq<char>)
    ensures
        shown(html_escaped(s)) == s,
    decreases s.len(),
{
    if s.len() > 0 {
        let c = s[0];
        let rest = s.drop_first();
        assert(s =~= seq![c] + rest);
        lemma_escaped_first(c, rest);
        lemma_shown(rest);
        let e = html_escaped(s);
        let h = html_char(c);
        let tail = html_escaped(rest);
        reveal_strlit("&amp;");
        reveal_strlit("&lt;");
        reveal_strlit("&gt;");
        let lt = seq!['&', 'l', 't', ';'];
        let gt = seq!['&', 'g', 't', ';'];
        let amp = seq!['&', 'a', 'm', 'p', ';'];
        assert("&lt;"@ =~= lt && "&gt;"@ =~= gt && "&amp;"@ =~= amp);
        if c == '<' {
            assert(e.take(4) =~= lt);
            assert(e.skip(4) =~= tail);
        } else if c == '>' {
            assert(e.take(4) =~= gt);
            assert(e.take(4)[1] != lt[1]);
            assert(e.skip(4) =~= tail);
        } else if c == '&' {
            assert(e.take(5) =~= amp);
            assert(e[1] == 'a');
            assert(e.take(4)[1] != lt[1]);
            assert(e.take(4)[1] != gt[1]);
            assert(e.skip(5) =~= tail);
        } else {
            assert(e[0] == c);
            if e.len() >= 4 {
                assert(e.take(4)[0] != lt[0]);
                assert(e.take(4)[0] != gt[0]);
            }
            if e.len() >= 5 {
                assert(e.take(5)[0] != amp[0]);
            }
            assert(e.skip(1) =~= tail);
        }
        assert(shown(e) =~= s);
    } else {
        assert(html_escaped(s) =~= Seq::empty());
        assert(shown(html_escaped(s)) =~= s);
    }
}

/// A text that is written out is shown as it is.
pub proof fn written_out_text_is_shown_as_it_is(s: &str, r: String)
    requires
        call_ensures(html_escape, (s,), r),
    ensures
        shown(r@) == s@,
{
    lemma_shown(s@);
}

// ---------------------------------------------------------------------------
// Addresses
// ---------------------------------------------------------------------------

proof fn lemma_scheme(hay: Seq<char>, scheme: Seq<char>, rest: Seq<char>, from: int)
    requires
        hay == scheme + seq![':', '/', '/'] + rest,
        !scheme.contains(':'),
        0 <= from <= scheme.len(),
    ensures
        found_at(hay, seq![':', '/', '/'], from) == Some(scheme.len() as int),
    decreases scheme.len() - from,
{
    let needle = seq![':', '/', '/'];
    let n = scheme.len() as int;
    if from < n {
        assert(hay[from] == scheme[from]);
        assert(scheme.contains(scheme[from]));
        if occurs_at(hay, needle, from) {
            assert(hay.subrange(from, from + 3)[0] == hay[from]);
            assert(needle[0] == ':');
        }
        lemma_scheme(hay, scheme, rest, from + 1);
    } else {
        assert(hay.subrange(n, n + 3) =~= needle);
    }
}

/// The path of an address is what stands behind the host, without slashes at its
/// end; an address that ends with the host has none.
pub proof fn path_stands_behind_the_host(
    base: &str,
    r: String,
    scheme: Seq<char>,
    host: Seq<char>,
    path: Seq<char>,
)
    requires
        call_ensures(path_only, (base,), r),
        !scheme.contains(':'),
        !host.contains('/'),
    ensures
        base@ == scheme + seq![':', '/', '/'] + host ==> r@.len() == 0,
        base@ == scheme + seq![':', '/', '/'] + (host + seq!['/'] + path) && path.len() > 0
            && path.last() != '/' ==> r@ == seq!['/'] + path,
{
    reveal_strlit("://");
    let needle = seq![':', '/', '/'];
    assert("://"@ =~= needle);
    let n = scheme.len() as int;
    if base@ == scheme + needle + host {
        lemma_scheme(base@, scheme, host, 0);
        assert(base@.skip(n + 3) =~= host);
        crate::text::lemma_cut(host, '/');
    }
    if base@ == scheme + needle + (host + seq!['/'] + path) && path.len() > 0 && path.last()
        != '/' {
        let rest = host + seq!['/'] + path;
        lemma_scheme(base@, scheme, rest, 0);
        assert(base@.skip(n + 3) =~= rest);
        lemma_cut_at(host, '/', path);
        assert((seq!['/'] + path).last() == path.last());
    }
}

/// The address to sign in at sends one back to the page under the path.
pub proof fn login_sends_one_back(gateway: &str, base: &str, r: String)
    requires
        call_ensures(login_url, (gateway, base), r),
    ensures
        exists|back: Seq<char>|
            {
                &&& r@ == gateway@ + "/auth/login?return_to="@ + #[trigger] url_encoded(back)
                &&& back == path_of(base@) + "/verify"@
                &&& url_decoded(url_encoded(back)) == Some(back)
            },
{
    let back = path_of(base@) + "/verify"@;
    crate::url::encoding_decodes_back(back);
    assert(r@ == gateway@ + "/auth/login?return_to="@ + url_encoded(back));
}

} // verus!
