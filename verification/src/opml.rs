//! OPML subscription lists: the text written on export, and the feed
//! addresses read back on import.

use vstd::prelude::*;

use crate::text::{chars_of, push_char, trim, trimmed};
use crate::types::Feed;

verus! {

// ---------------------------------------------------------------------------
// XML escaping
// ---------------------------------------------------------------------------

/// The escaped form of one character: `&`, `<`, `>`, `"` and `'` become
/// entities, every other character stands for itself.
pub open spec fn escape_char(c: char) -> Seq<char> {
    if c == '&' {
        "&amp;"@
    } else if c == '<' {
        "&lt;"@
    } else if c == '>' {
        "&gt;"@
    } else if c == '"' {
        "&quot;"@
    } else if c == '\'' {
        "&apos;"@
    } else {
        seq![c]
    }
}

/// `s` with each character escaped.
pub open spec fn escape_spec(s: Seq<char>) -> Seq<char>
    decreases s.len(),
{
    if s.len() == 0 {
        Seq::empty()
    } else {
        escape_spec(s.drop_last()) + escape_char(s.last())
    }
}

/// Escapes the XML special characters `&`, `<`, `>`, `"` and `'`.
pub fn escape_xml(s: &str) -> (r: String)
    ensures
        r@ == escape_spec(s@),
{
    let cs = chars_of(s);
    let mut r = String::new();
    let mut i: usize = 0;
    while i < cs.len()
        invariant
            i <= cs.len(),
            cs@ == s@,
            r@ == escape_spec(cs@.take(i as int)),
        decreases cs.len() - i,
    {
        let c = cs[i];
        assert(cs@.take(i + 1).drop_last() == cs@.take(i as int));
        if c == '&' {
            r.append("&amp;");
        } else if c == '<' {
            r.append("&lt;");
        } else if c == '>' {
            r.append("&gt;");
        } else if c == '"' {
            r.append("&quot;");
        } else if c == '\'' {
            r.append("&apos;");
        } else {
            push_char(&mut r, c);
        }
        i = i + 1;
    }
    assert(cs@.take(cs.len() as int) == cs@);
    r
}

// ---------------------------------------------------------------------------
// Export
// ---------------------------------------------------------------------------

/// The document's opening lines, up to and including `<body>`.
pub open spec fn opml_header() -> Seq<char> {
    "<?xml version=\"1.0\" encoding=\"UTF-8\"?>\n"@ + "<opml version=\"2.0\">\n"@ + "<head>\n"@ + "<title>RuSStly Subscriptions</title>\n"@ + "</head>\n"@ + "<body>\n"@
}

/// The document's closing lines.
pub open spec fn opml_footer() -> Seq<char> {
    "</body>\n</opml>\n"@
}

/// The `outline` line written for a feed with the given title and address.
pub open spec fn outline_line(title: Seq<char>, url: Seq<char>) -> Seq<char> {
    "<outline text=\""@ + escape_spec(title) + "\" title=\""@ + escape_spec(title)
        + "\" type=\"rss\" xmlUrl=\""@ + escape_spec(url) + "\" />\n"@
}

/// The `outline` lines of the feeds, in order.
pub open spec fn outline_lines(feeds: Seq<Feed>) -> Seq<char>
    decreases feeds.len(),
{
    if feeds.len() == 0 {
        Seq::empty()
    } else {
        outline_lines(feeds.drop_last()) + outline_line(
            feeds.last().title@,
            feeds.last().url@,
        )
    }
}

/// The OPML document listing the feeds.
pub open spec fn opml_document(feeds: Seq<Feed>) -> Seq<char> {
    opml_header() + outline_lines(feeds) + opml_footer()
}

/// The OPML document that lists `feeds`, one `outline` element per feed
/// carrying its title and address.
pub fn opml_text(feeds: &[Feed]) -> (r: String)
    ensures
        r@ == opml_document(feeds@),
{
    let mut xml = String::new();
    xml.append("<?xml version=\"1.0\" encoding=\"UTF-8\"?>\n");
    xml.append("<opml version=\"2.0\">\n");
    xml.append("<head>\n");
    xml.append("<title>RuSStly Subscriptions</title>\n");
    xml.append("</head>\n");
    xml.append("<body>\n");
    let mut i: usize = 0;
    while i < feeds.len()
        invariant
            i <= feeds.len(),
            xml@ == opml_header() + outline_lines(feeds@.take(i as int)),
        decreases feeds.len() - i,
    {
        let feed = &feeds[i];
        let title = escape_xml(feed.title.as_str());
        let url = escape_xml(feed.url.as_str());
        xml.append("<outline text=\"");
        xml.append(title.as_str());
        xml.append("\" title=\"");
        xml.append(title.as_str());
        xml.append("\" type=\"rss\" xmlUrl=\"");
        xml.append(url.as_str());
        xml.append("\" />\n");
        assert(feeds@.take(i + 1).drop_last() == feeds@.take(i as int));
        i = i + 1;
    }
    xml.append("</body>\n</opml>\n");
    assert(feeds@.take(feeds.len() as int) == feeds@);
    xml
}

// ---------------------------------------------------------------------------
// Import
// ---------------------------------------------------------------------------

/// The attribute opening that precedes each feed address: `xmlUrl="`.
pub open spec fn url_marker() -> Seq<char> {
    seq!['x', 'm', 'l', 'U', 'r', 'l', '=', '"']
}

/// Whether `url_marker()` occurs in `t` at position `j`.
pub open spec fn marker_at(t: Seq<char>, j: int) -> bool {
    0 <= j && j + 8 <= t.len() && t.subrange(j, j + 8) == url_marker()
}

/// The first position `>= i` at which the marker occurs, or `-1`.
pub open spec fn next_marker(t: Seq<char>, i: int) -> int
    decreases t.len() - i,
{
    if i < 0 || i + 8 > t.len() {
        -1
    } else if marker_at(t, i) {
        i
    } else {
        next_marker(t, i + 1)
    }
}

/// The first position `>= i` holding `"`, or `-1`.
pub open spec fn next_quote(t: Seq<char>, i: int) -> int
    decreases t.len() - i,
{
    if i < 0 || i >= t.len() {
        -1
    } else if t[i] == '"' {
        i
    } else {
        next_quote(t, i + 1)
    }
}

/// The next `xmlUrl="` marker from `i`, when there is one, is at or after `i`.
pub proof fn lemma_next_marker_bounds(t: Seq<char>, i: int)
    ensures
        next_marker(t, i) == -1 || (i <= next_marker(t, i) && marker_at(t, next_marker(t, i))),
    decreases t.len() - i,
{
    if !(i < 0 || i + 8 > t.len()) && !marker_at(t, i) {
        lemma_next_marker_bounds(t, i + 1);
    }
}

/// The next `"` from `i`, when there is one, is at or after `i` and within the text.
pub proof fn lemma_next_quote_bounds(t: Seq<char>, i: int)
    ensures
        next_quote(t, i) == -1 || (i <= next_quote(t, i) < t.len() && t[next_quote(t, i)]
            == '"'),
    decreases t.len() - i,
{
    if !(i < 0 || i >= t.len()) && t[i] != '"' {
        lemma_next_quote_bounds(t, i + 1);
    }
}

/// The feed addresses found in `t` from position `p` on: each marker is
/// followed by an address running to the next `"`; addresses are trimmed,
/// empty ones are skipped, and a marker without a closing `"` ends the scan.
pub open spec fn urls_from(t: Seq<char>, p: int) -> Seq<Seq<char>>
    decreases t.len() - p,
{
    let m = next_marker(t, p);
    if m < 0 {
        Seq::empty()
    } else {
        let q = next_quote(t, m + 8);
        if q < 0 {
            Seq::empty()
        } else {
            proof {
                lemma_next_marker_bounds(t, p);
                lemma_next_quote_bounds(t, m + 8);
            }
            let u = trim(t.subrange(m + 8, q));
            let rest = urls_from(t, q + 1);
            if u.len() > 0 {
                seq![u] + rest
            } else {
                rest
            }
        }
    }
}

/// The feed addresses listed in an OPML document.
pub open spec fn opml_urls(t: Seq<char>) -> Seq<Seq<char>> {
    urls_from(t, 0)
}

fn marker_at_exec(t: &Vec<char>, j: usize) -> (r: bool)
    ensures
        r == marker_at(t@, j as int),
{
    if j > t.len() || t.len() - j < 8 {
        return false;
    }
    let r = t[j] == 'x' && t[j + 1] == 'm' && t[j + 2] == 'l' && t[j + 3] == 'U' && t[j + 4]
        == 'r' && t[j + 5] == 'l' && t[j + 6] == '=' && t[j + 7] == '"';
    proof {
        let w = t@.subrange(j as int, j + 8);
        if r {
            assert(w == url_marker());
        } else {
            assert(w != url_marker()) by {
                if w == url_marker() {
                    assert(w[0] == t@[j as int]);
                    assert(w[1] == t@[j + 1]);
                    assert(w[2] == t@[j + 2]);
                    assert(w[3] == t@[j + 3]);
                    assert(w[4] == t@[j + 4]);
                    assert(w[5] == t@[j + 5]);
                    assert(w[6] == t@[j + 6]);
                    assert(w[7] == t@[j + 7]);
                }
            }
        }
    }
    r
}

fn find_marker(t: &Vec<char>, from: usize) -> (r: Option<usize>)
    requires
        from <= t.len(),
    ensures
        match r {
            Some(m) => next_marker(t@, from as int) == m as int,
            None => next_marker(t@, from as int) == -1,
        },
{
    let mut i = from;
    while i <= t.len() && t.len() - i >= 8
        invariant
            from <= i <= t.len(),
            next_marker(t@, from as int) == next_marker(t@, i as int),
        decreases t.len() - i,
    {
        if marker_at_exec(t, i) {
            return Some(i);
        }
        i = i + 1;
    }
    None
}

fn find_quote(t: &Vec<char>, from: usize) -> (r: Option<usize>)
    requires
        from <= t.len(),
    ensures
        match r {
            Some(q) => next_quote(t@, from as int) == q as int,
            None => next_quote(t@, from as int) == -1,
        },
{
    let mut i = from;
    while i < t.len()
        invariant
            from <= i <= t.len(),
            next_quote(t@, from as int) == next_quote(t@, i as int),
        decreases t.len() - i,
    {
        if t[i] == '"' {
            return Some(i);
        }
        i = i + 1;
    }
    None
}

/// The views of a vector of strings.
pub open spec fn string_views(v: Seq<String>) -> Seq<Seq<char>> {
    v.map_values(|s: String| s@)
}

/// Reads the feed addresses out of an OPML document: the value of every
/// `xmlUrl="..."` attribute, trimmed, in order, skipping empty ones. A
/// document without any address is an error.
pub fn parse_opml(content: &str) -> (r: Result<Vec<String>, String>)
    ensures
        match r {
            Ok(urls) => string_views(urls@) == opml_urls(content@) && urls.len() > 0,
            Err(e) => opml_urls(content@).len() == 0 && e@ == "No feed URLs found in OPML file"@,
        },
{
    let t = chars_of(content);
    let mut urls: Vec<String> = Vec::new();
    let mut pos: usize = 0;
    loop
        invariant
            pos <= t.len(),
            t@ == content@,
            string_views(urls@) + urls_from(t@, pos as int) == urls_from(t@, 0),
        ensures
            t@ == content@,
            string_views(urls@) == urls_from(t@, 0),
        decreases t.len() - pos,
    {
        let m = match find_marker(&t, pos) {
            Some(m) => m,
            None => {
                assert(urls_from(t@, pos as int) == Seq::<Seq<char>>::empty());
                assert(string_views(urls@) + Seq::<Seq<char>>::empty() == string_views(urls@));
                break ;
            },
        };
        proof {
            lemma_next_marker_bounds(t@, pos as int);
        }
        let start = m + 8;
        let q = match find_quote(&t, start) {
            Some(q) => q,
            None => {
                assert(urls_from(t@, pos as int) == Seq::<Seq<char>>::empty());
                assert(string_views(urls@) + Seq::<Seq<char>>::empty() == string_views(urls@));
                break ;
            },
        };
        proof {
            lemma_next_quote_bounds(t@, start as int);
        }
        let piece = slice_chars(&t, start, q);
        let url = trimmed(&piece);
        let ghost before = string_views(urls@);
        if !url.as_str().is_empty() {
            urls.push(url);
            proof {
                assert(string_views(urls@) == before.push(url@));
                assert(url@.len() > 0);
                assert(before + urls_from(t@, pos as int) == before + (seq![url@] + urls_from(
                    t@,
                    q + 1,
                )));
                assert(before.push(url@) + urls_from(t@, q + 1) == before + (seq![url@]
                    + urls_from(t@, q + 1)));
            }
        } else {
            proof {
                assert(url@.len() == 0);
            }
        }
        pos = q + 1;
    }
    if urls.len() == 0 {
        assert(string_views(urls@).len() == 0);
        return Err(String::from_str("No feed URLs found in OPML file"));
    }
    Ok(urls)
}

fn slice_chars(t: &Vec<char>, lo: usize, hi: usize) -> (r: Vec<char>)
    requires
        lo <= hi <= t.len(),
    ensures
        r@ == t@.subrange(lo as int, hi as int),
{
    let mut r: Vec<char> = Vec::new();
    let mut i = lo;
    while i < hi
        invariant
            lo <= i <= hi <= t.len(),
            r@ == t@.subrange(lo as int, i as int),
        decreases hi - i,
    {
        r.push(t[i]);
        assert(t@.subrange(lo as int, i + 1) == t@.subrange(lo as int, i as int).push(t@[i as int]));
        i = i + 1;
    }
    r
}


// ---------------------------------------------------------------------------
// Round trip: export, then import
// ---------------------------------------------------------------------------

/// Whether `s` holds none of the characters that escaping rewrites.
pub open spec fn plain_text(s: Seq<char>) -> bool {
    forall|i: int|
        0 <= i < s.len() ==> #[trigger] s[i] != '&' && s[i] != '<' && s[i] != '>' && s[i] != '"'
            && s[i] != '\''
}

/// The text `xmlUrl=` that, followed by `"`, opens a feed address.
pub open spec fn url_attr_name() -> Seq<char> {
    seq!['x', 'm', 'l', 'U', 'r', 'l', '=']
}

/// A feed that comes back unchanged from an export and re-import: its
/// address is non-empty, has no surrounding white space and no character
/// that needs escaping, and its title does not end in `xmlUrl=`.
pub open spec fn round_trips(f: Feed) -> bool {
    &&& f.url@.len() > 0
    &&& trim(f.url@) == f.url@
    &&& plain_text(f.url@)
    &&& !url_attr_name().is_suffix_of(f.title@)
}

/// The addresses of the feeds, in order.
pub open spec fn feed_urls(feeds: Seq<Feed>) -> Seq<Seq<char>> {
    feeds.map_values(|f: Feed| f.url@)
}

/// Text without `&`, `<`, `>`, `"` and `'` is unchanged by escaping.
pub proof fn lemma_escape_plain(s: Seq<char>)
    requires
        plain_text(s),
    ensures
        escape_spec(s) == s,
    decreases s.len(),
{
    if s.len() > 0 {
        let t = s.drop_last();
        assert(plain_text(t)) by {
            assert forall|i: int| 0 <= i < t.len() implies #[trigger] t[i] != '&' && t[i] != '<'
                && t[i] != '>' && t[i] != '"' && t[i] != '\'' by {
                assert(t[i] == s[i]);
            }
        }
        lemma_escape_plain(t);
        let c = s[s.len() - 1];
        assert(c != '&' && c != '<' && c != '>' && c != '"' && c != '\'');
        assert(t.push(c) == s);
    } else {
        assert(s == Seq::<char>::empty());
    }
}

/// The entities that escaping writes, character by character.
pub proof fn lemma_entities()
    ensures
        "&amp;"@ == seq!['&', 'a', 'm', 'p', ';'],
        "&lt;"@ == seq!['&', 'l', 't', ';'],
        "&gt;"@ == seq!['&', 'g', 't', ';'],
        "&quot;"@ == seq!['&', 'q', 'u', 'o', 't', ';'],
        "&apos;"@ == seq!['&', 'a', 'p', 'o', 's', ';'],
{
    reveal_strlit("&amp;");
    reveal_strlit("&lt;");
    reveal_strlit("&gt;");
    reveal_strlit("&quot;");
    reveal_strlit("&apos;");
    assert("&amp;"@ =~= seq!['&', 'a', 'm', 'p', ';']);
    assert("&lt;"@ =~= seq!['&', 'l', 't', ';']);
    assert("&gt;"@ =~= seq!['&', 'g', 't', ';']);
    assert("&quot;"@ =~= seq!['&', 'q', 'u', 'o', 't', ';']);
    assert("&apos;"@ =~= seq!['&', 'a', 'p', 'o', 's', ';']);
}

proof fn lemma_escape_char_shape(c: char)
    ensures
        escape_char(c).len() >= 1,
        forall|i: int| 0 <= i < escape_char(c).len() ==> #[trigger] escape_char(c)[i] != '"',
        forall|i: int|
            0 <= i < escape_char(c).len() ==> #[trigger] escape_char(c)[i] != '<' && escape_char(
                c,
            )[i] != '>' && escape_char(c)[i] != '\'',
        escape_char(c) == seq![c] || escape_char(c).last() == ';',
{
    lemma_entities();
}

/// Whether one of the entities `&amp;`, `&lt;`, `&gt;`, `&quot;` and
/// `&apos;` starts at position `i` of `t`.
pub open spec fn entity_at(t: Seq<char>, i: int) -> bool {
    let rest = t.subrange(i, t.len() as int);
    ||| seq!['&', 'a', 'm', 'p', ';'].is_prefix_of(rest)
    ||| seq!['&', 'l', 't', ';'].is_prefix_of(rest)
    ||| seq!['&', 'g', 't', ';'].is_prefix_of(rest)
    ||| seq!['&', 'q', 'u', 'o', 't', ';'].is_prefix_of(rest)
    ||| seq!['&', 'a', 'p', 'o', 's', ';'].is_prefix_of(rest)
}

proof fn lemma_entity_at_extend(a: Seq<char>, b: Seq<char>, i: int)
    requires
        0 <= i < a.len(),
        entity_at(a, i),
    ensures
        entity_at(a + b, i),
{
    let r = a.subrange(i, a.len() as int);
    let r2 = (a + b).subrange(i, (a + b).len() as int);
    assert forall|k: int| 0 <= k < r.len() implies #[trigger] r2[k] == r[k] by {
        assert(r2[k] == (a + b)[i + k]);
    }
    assert forall|e: Seq<char>| e.is_prefix_of(r) implies e.is_prefix_of(r2) by {
        assert(r2.subrange(0, e.len() as int) =~= r.subrange(0, e.len() as int));
    }
}

/// Every `&` that escaping writes begins an entity: `&amp;`, `&lt;`,
/// `&gt;`, `&quot;` or `&apos;`.
pub proof fn lemma_escape_ampersands(s: Seq<char>)
    ensures
        forall|i: int|
            0 <= i < escape_spec(s).len() && #[trigger] escape_spec(s)[i] == '&' ==> entity_at(
                escape_spec(s),
                i,
            ),
    decreases s.len(),
{
    if s.len() > 0 {
        let t = s.drop_last();
        lemma_escape_ampersands(t);
        lemma_entities();
        let a = escape_spec(t);
        let b = escape_char(s.last());
        assert(escape_spec(s) == a + b);
        assert forall|i: int| 0 <= i < (a + b).len() && #[trigger] (a + b)[i] == '&' implies entity_at(
            a + b,
            i,
        ) by {
            if i < a.len() {
                assert(a[i] == (a + b)[i]);
                lemma_entity_at_extend(a, b, i);
            } else {
                assert((a + b)[i] == b[i - a.len()]);
                assert((a + b).subrange(i, (a + b).len() as int) =~= b.subrange(
                    i - a.len(),
                    b.len() as int,
                ));
                if i > a.len() {
                    assert(b[i - a.len()] != '&');
                } else {
                    assert(b.subrange(0, b.len() as int) =~= b);
                    assert(b.is_prefix_of(b));
                }
            }
        }
    }
}

/// Escaped text holds none of `<`, `>`, `"` and `'`.
pub proof fn lemma_escape_no_quote(s: Seq<char>)
    ensures
        forall|i: int| 0 <= i < escape_spec(s).len() ==> #[trigger] escape_spec(s)[i] != '"',
        forall|i: int|
            0 <= i < escape_spec(s).len() ==> #[trigger] escape_spec(s)[i] != '<' && escape_spec(
                s,
            )[i] != '>' && escape_spec(s)[i] != '\'',
    decreases s.len(),
{
    if s.len() > 0 {
        lemma_escape_no_quote(s.drop_last());
        lemma_escape_char_shape(s.last());
        let a = escape_spec(s.drop_last());
        let b = escape_char(s.last());
        assert forall|i: int| 0 <= i < (a + b).len() implies #[trigger] (a + b)[i] != '"' && (a
            + b)[i] != '<' && (a + b)[i] != '>' && (a + b)[i] != '\'' by {
            if i < a.len() {
                assert((a + b)[i] == a[i]);
            } else {
                assert((a + b)[i] == b[i - a.len()]);
            }
        }
    }
}

proof fn lemma_escape_keeps_suffix(s: Seq<char>, w: Seq<char>)
    requires
        forall|i: int| 0 <= i < w.len() ==> #[trigger] w[i] != ';',
        w.is_suffix_of(escape_spec(s)),
    ensures
        w.is_suffix_of(s),
    decreases s.len(),
{
    if w.len() == 0 {
        assert(s.subrange(s.len() as int, s.len() as int) =~= w);
    } else if s.len() == 0 {
        assert(escape_spec(s).len() == 0);
    } else {
        let t = s.drop_last();
        let c = s.last();
        let e = escape_spec(t);
        lemma_escape_char_shape(c);
        let full = e + escape_char(c);
        assert(full == escape_spec(s));
        assert(w.last() == full.last()) by {
            assert(w[w.len() - 1] == full.subrange(full.len() - w.len(), full.len() as int)[w.len()
                - 1]);
        }
        if escape_char(c) != seq![c] {
            assert(full.last() == escape_char(c).last());
            assert(w[w.len() - 1] != ';');
        } else {
            assert(full == e.push(c));
            let w2 = w.drop_last();
            assert(w2.is_suffix_of(e)) by {
                assert(w2 =~= e.subrange(e.len() - w2.len(), e.len() as int));
            }
            lemma_escape_keeps_suffix(t, w2);
            assert(w.last() == c) by {
                assert(full.last() == c);
            }
            assert forall|i: int| 0 <= i < w.len() implies #[trigger] w[i] == s.subrange(
                s.len() - w.len(),
                s.len() as int,
            )[i] by {
                if i < w.len() - 1 {
                    assert(w[i] == w2[i]);
                    assert(w2[i] == t.subrange(t.len() - w2.len(), t.len() as int)[i]);
                }
            }
            assert(w =~= s.subrange(s.len() - w.len(), s.len() as int));
        }
    }
}

proof fn lemma_marker_chars(t: Seq<char>, j: int)
    requires
        marker_at(t, j),
    ensures
        t[j] == 'x',
        t[j + 1] == 'm',
        t[j + 2] == 'l',
        t[j + 3] == 'U',
        t[j + 4] == 'r',
        t[j + 5] == 'l',
        t[j + 6] == '=',
        t[j + 7] == '"',
{
    let w = t.subrange(j, j + 8);
    assert(w[0] == t[j]);
    assert(w[1] == t[j + 1]);
    assert(w[2] == t[j + 2]);
    assert(w[3] == t[j + 3]);
    assert(w[4] == t[j + 4]);
    assert(w[5] == t[j + 5]);
    assert(w[6] == t[j + 6]);
    assert(w[7] == t[j + 7]);
}

proof fn lemma_marker_skip(t: Seq<char>, a: int, b: int)
    requires
        0 <= a <= b,
        forall|j: int| a <= j < b ==> !#[trigger] marker_at(t, j),
    ensures
        next_marker(t, a) == next_marker(t, b),
    decreases b - a,
{
    if a < b && a + 8 <= t.len() {
        lemma_marker_skip(t, a + 1, b);
    }
}

proof fn lemma_quote_skip(t: Seq<char>, a: int, b: int)
    requires
        0 <= a <= b <= t.len(),
        forall|j: int| a <= j < b ==> #[trigger] t[j] != '"',
    ensures
        next_quote(t, a) == next_quote(t, b),
    decreases b - a,
{
    if a < b {
        lemma_quote_skip(t, a + 1, b);
    }
}

proof fn lemma_urls_skip(t: Seq<char>, a: int, b: int)
    requires
        0 <= a <= b,
        forall|j: int| a <= j < b ==> !#[trigger] marker_at(t, j),
    ensures
        urls_from(t, a) == urls_from(t, b),
{
    lemma_marker_skip(t, a, b);
}

/// No marker starts inside a piece of text whose every `x` is followed,
/// within the piece, by a character that the marker does not have there.
proof fn lemma_no_marker_in_piece(t: Seq<char>, a: int, piece: Seq<char>)
    requires
        0 <= a,
        a + piece.len() <= t.len(),
        t.subrange(a, a + piece.len()) == piece,
        forall|k: int|
            0 <= k < piece.len() && #[trigger] piece[k] == 'x' ==> (k + 1 < piece.len() && piece[k
                + 1] != 'm') || (k + 3 < piece.len() && piece[k + 3] != 'U'),
    ensures
        forall|j: int| a <= j < a + piece.len() ==> !#[trigger] marker_at(t, j),
{
    assert forall|j: int| a <= j < a + piece.len() implies !#[trigger] marker_at(t, j) by {
        if marker_at(t, j) {
            lemma_marker_chars(t, j);
            let k = j - a;
            assert(piece[k] == t[j]);
            if k + 1 < piece.len() {
                assert(piece[k + 1] == t[j + 1]);
            }
            if k + 3 < piece.len() {
                assert(piece[k + 3] == t[j + 3]);
            }
        }
    }
}

proof fn lemma_pieces()
    ensures
        "<outline text=\""@ == seq!['<', 'o', 'u', 't', 'l', 'i', 'n', 'e', ' ', 't', 'e', 'x', 't', '=', '"'],
        "\" title=\""@ == seq!['"', ' ', 't', 'i', 't', 'l', 'e', '=', '"'],
        "\" type=\"rss\" xmlUrl=\""@ == seq!['"', ' ', 't', 'y', 'p', 'e', '=', '"', 'r', 's', 's', '"', ' ', 'x', 'm', 'l', 'U', 'r', 'l', '=', '"'],
        "\" />\n"@ == seq!['"', ' ', '/', '>', '\n'],
{
    reveal_strlit("<outline text=\"");
    reveal_strlit("\" title=\"");
    reveal_strlit("\" type=\"rss\" xmlUrl=\"");
    reveal_strlit("\" />\n");
    assert("<outline text=\""@ =~= seq!['<', 'o', 'u', 't', 'l', 'i', 'n', 'e', ' ', 't', 'e', 'x', 't', '=', '"']);
    assert("\" title=\""@ =~= seq!['"', ' ', 't', 'i', 't', 'l', 'e', '=', '"']);
    assert("\" type=\"rss\" xmlUrl=\""@ =~= seq!['"', ' ', 't', 'y', 'p', 'e', '=', '"', 'r', 's', 's', '"', ' ', 'x', 'm', 'l', 'U', 'r', 'l', '=', '"']);
    assert("\" />\n"@ =~= seq!['"', ' ', '/', '>', '\n']);
}

/// No marker starts inside an escaped text that is followed by `"` and does
/// not end in `xmlUrl=`.
proof fn lemma_no_marker_in_escaped(t: Seq<char>, a: int, e: Seq<char>)
    requires
        0 <= a,
        a + e.len() < t.len(),
        t.subrange(a, a + e.len()) == e,
        forall|i: int| 0 <= i < e.len() ==> #[trigger] e[i] != '"',
        !url_attr_name().is_suffix_of(e),
        t[a + e.len()] == '"',
    ensures
        forall|j: int| a <= j < a + e.len() ==> !#[trigger] marker_at(t, j),
{
    assert forall|j: int| a <= j < a + e.len() implies !#[trigger] marker_at(t, j) by {
        if marker_at(t, j) {
            lemma_marker_chars(t, j);
            let end = a + e.len();
            if j + 7 < end {
                assert(e[j + 7 - a] == t[j + 7]);
            } else if j + 7 > end {
                let k = end - j;
                assert(1 <= k < 7);
                assert(t[j + k] == '"');
            } else {
                assert forall|d: int| 0 <= d < 7 implies #[trigger] url_attr_name()[d] == e.subrange(
                    e.len() - 7,
                    e.len() as int,
                )[d] by {
                    assert(e[e.len() - 7 + d] == t[j + d]);
                }
                assert(url_attr_name() =~= e.subrange(e.len() - 7, e.len() as int));
            }
        }
    }
}

proof fn lemma_split(t: Seq<char>, p: int, a: Seq<char>, b: Seq<char>)
    requires
        0 <= p,
        p + a.len() + b.len() <= t.len(),
        t.subrange(p, p + a.len() + b.len()) == a + b,
    ensures
        t.subrange(p, p + a.len()) == a,
        t.subrange(p + a.len(), p + a.len() + b.len()) == b,
{
    assert forall|k: int| 0 <= k < a.len() implies #[trigger] t.subrange(p, p + a.len())[k]
        == a[k] by {
        assert(t.subrange(p, p + a.len() + b.len())[k] == (a + b)[k]);
    }
    assert forall|k: int| 0 <= k < b.len() implies #[trigger] t.subrange(
        p + a.len(),
        p + a.len() + b.len(),
    )[k] == b[k] by {
        assert(t.subrange(p, p + a.len() + b.len())[a.len() + k] == (a + b)[a.len() + k]);
        assert(t.subrange(p, p + a.len() + b.len())[a.len() + k] == t[p + a.len() + k]);
        assert((a + b)[a.len() + k] == b[k]);
    }
    assert(t.subrange(p, p + a.len()) =~= a);
    assert(t.subrange(p + a.len(), p + a.len() + b.len()) =~= b);
}

/// Where the pieces of an `outline` line lie once it stands at `p` in `t`.
proof fn lemma_line_layout(t: Seq<char>, p: int, title: Seq<char>, url: Seq<char>)
    requires
        0 <= p,
        p + outline_line(title, url).len() <= t.len(),
        t.subrange(p, p + outline_line(title, url).len()) == outline_line(title, url),
    ensures
        ({
            let e = escape_spec(title);
            let v = escape_spec(url);
            let n = e.len() as int;
            &&& t.subrange(p, p + 15) == "<outline text=\""@
            &&& t.subrange(p + 15, p + 15 + n) == e
            &&& t.subrange(p + 15 + n, p + 24 + n) == "\" title=\""@
            &&& t.subrange(p + 24 + n, p + 24 + 2 * n) == e
            &&& t.subrange(p + 24 + 2 * n, p + 45 + 2 * n) == "\" type=\"rss\" xmlUrl=\""@
            &&& t.subrange(p + 45 + 2 * n, p + 45 + 2 * n + v.len()) == v
            &&& t.subrange(p + 45 + 2 * n + v.len(), p + 50 + 2 * n + v.len()) == "\" />\n"@
            &&& outline_line(title, url).len() == 50 + 2 * n + v.len()
        }),
{
    lemma_pieces();
    let e = escape_spec(title);
    let v = escape_spec(url);
    let p1 = "<outline text=\""@;
    let p2 = "\" title=\""@;
    let p3 = "\" type=\"rss\" xmlUrl=\""@;
    let p4 = "\" />\n"@;
    let x1 = p1;
    let x2 = x1 + e;
    let x3 = x2 + p2;
    let x4 = x3 + e;
    let x5 = x4 + p3;
    let x6 = x5 + v;
    let l = x6 + p4;
    assert(l == outline_line(title, url));
    lemma_split(t, p, x6, p4);
    lemma_split(t, p, x5, v);
    lemma_split(t, p, x4, p3);
    lemma_split(t, p, x3, e);
    lemma_split(t, p, x2, p2);
    lemma_split(t, p, x1, e);
}

proof fn lemma_line_prefix_unmarked(t: Seq<char>, p: int, e: Seq<char>)
    requires
        0 <= p,
        p + 45 + 2 * e.len() <= t.len(),
        t.subrange(p, p + 15) == "<outline text=\""@,
        t.subrange(p + 15, p + 15 + e.len()) == e,
        t.subrange(p + 15 + e.len(), p + 24 + e.len()) == "\" title=\""@,
        t.subrange(p + 24 + e.len(), p + 24 + 2 * e.len()) == e,
        t.subrange(p + 24 + 2 * e.len(), p + 45 + 2 * e.len()) == "\" type=\"rss\" xmlUrl=\""@,
        forall|i: int| 0 <= i < e.len() ==> #[trigger] e[i] != '"',
        !url_attr_name().is_suffix_of(e),
    ensures
        forall|j: int| p <= j < p + 37 + 2 * e.len() ==> !#[trigger] marker_at(t, j),
        marker_at(t, p + 37 + 2 * e.len()),
{
    lemma_pieces();
    let n = e.len() as int;
    let p1 = "<outline text=\""@;
    let p2 = "\" title=\""@;
    let p3 = "\" type=\"rss\" xmlUrl=\""@;
    assert(t[p + 15 + n] == t.subrange(p + 15 + n, p + 24 + n)[0]);
    assert(t[p + 24 + 2 * n] == t.subrange(p + 24 + 2 * n, p + 45 + 2 * n)[0]);
    lemma_no_marker_in_piece(t, p, p1);
    lemma_no_marker_in_escaped(t, p + 15, e);
    lemma_no_marker_in_piece(t, p + 15 + n, p2);
    lemma_no_marker_in_escaped(t, p + 24 + n, e);
    let head = p3.take(13);
    assert(t.subrange(p + 24 + 2 * n, p + 37 + 2 * n) =~= head) by {
        assert forall|k: int| 0 <= k < 13 implies #[trigger] t.subrange(
            p + 24 + 2 * n,
            p + 37 + 2 * n,
        )[k] == head[k] by {
            assert(t.subrange(p + 24 + 2 * n, p + 45 + 2 * n)[k] == p3[k]);
        }
    }
    lemma_no_marker_in_piece(t, p + 24 + 2 * n, head);
    assert(t.subrange(p + 37 + 2 * n, p + 45 + 2 * n) =~= url_marker()) by {
        assert forall|k: int| 0 <= k < 8 implies #[trigger] t.subrange(
            p + 37 + 2 * n,
            p + 45 + 2 * n,
        )[k] == url_marker()[k] by {
            assert(t.subrange(p + 24 + 2 * n, p + 45 + 2 * n)[13 + k] == p3[13 + k]);
        }
    }
    assert forall|j: int| p <= j < p + 37 + 2 * n implies !#[trigger] marker_at(t, j) by {
        if j < p + 15 {
        } else if j < p + 15 + n {
        } else if j < p + 24 + n {
        } else if j < p + 24 + 2 * n {
        } else {
        }
    }
}

/// Reading an `outline` line yields its address, then continues after the
/// line.
proof fn lemma_outline_line(t: Seq<char>, p: int, title: Seq<char>, url: Seq<char>)
    requires
        0 <= p,
        p + outline_line(title, url).len() <= t.len(),
        t.subrange(p, p + outline_line(title, url).len()) == outline_line(title, url),
        url.len() > 0,
        trim(url) == url,
        plain_text(url),
        !url_attr_name().is_suffix_of(title),
    ensures
        urls_from(t, p) == seq![url] + urls_from(t, p + outline_line(title, url).len()),
{
    lemma_pieces();
    lemma_escape_plain(url);
    lemma_escape_no_quote(title);
    let e = escape_spec(title);
    if url_attr_name().is_suffix_of(e) {
        lemma_escape_keeps_suffix(title, url_attr_name());
    }
    lemma_line_layout(t, p, title, url);
    let n = e.len() as int;
    let u = url.len() as int;
    let m = p + 37 + 2 * n;
    let q = p + 45 + 2 * n + u;
    let end = q + 5;
    lemma_line_prefix_unmarked(t, p, e);
    lemma_marker_skip(t, p, m);
    assert(next_marker(t, p) == m);
    assert forall|j: int| m + 8 <= j < q implies #[trigger] t[j] != '"' by {
        assert(t[j] == t.subrange(m + 8, q)[j - m - 8]);
    }
    assert(t[q] == t.subrange(q, end)[0]);
    lemma_quote_skip(t, m + 8, q);
    assert(next_quote(t, m + 8) == q);
    let tail = "\" />\n"@.skip(1);
    assert(t.subrange(q + 1, end) =~= tail) by {
        assert forall|k: int| 0 <= k < 4 implies #[trigger] t.subrange(q + 1, end)[k] == tail[k] by {
            assert(t.subrange(q, end)[k + 1] == "\" />\n"@[k + 1]);
        }
    }
    lemma_no_marker_in_piece(t, q + 1, tail);
    lemma_urls_skip(t, q + 1, end);
}

proof fn lemma_frame_lines()
    ensures
        "<?xml version=\"1.0\" encoding=\"UTF-8\"?>\n"@ == seq!['<', '?', 'x', 'm', 'l', ' ', 'v', 'e', 'r', 's', 'i', 'o', 'n', '=', '"', '1', '.', '0', '"', ' ', 'e', 'n', 'c', 'o', 'd', 'i', 'n', 'g', '=', '"', 'U', 'T', 'F', '-', '8', '"', '?', '>', '\n'],
        "<opml version=\"2.0\">\n"@ == seq!['<', 'o', 'p', 'm', 'l', ' ', 'v', 'e', 'r', 's', 'i', 'o', 'n', '=', '"', '2', '.', '0', '"', '>', '\n'],
        "<head>\n"@ == seq!['<', 'h', 'e', 'a', 'd', '>', '\n'],
        "<title>RuSStly Subscriptions</title>\n"@ == seq!['<', 't', 'i', 't', 'l', 'e', '>', 'R', 'u', 'S', 'S', 't', 'l', 'y', ' ', 'S', 'u', 'b', 's', 'c', 'r', 'i', 'p', 't', 'i', 'o', 'n', 's', '<', '/', 't', 'i', 't', 'l', 'e', '>', '\n'],
        "</head>\n"@ == seq!['<', '/', 'h', 'e', 'a', 'd', '>', '\n'],
        "<body>\n"@ == seq!['<', 'b', 'o', 'd', 'y', '>', '\n'],
        "</body>\n</opml>\n"@ == seq!['<', '/', 'b', 'o', 'd', 'y', '>', '\n', '<', '/', 'o', 'p', 'm', 'l', '>', '\n'],
{
    reveal_strlit("<?xml version=\"1.0\" encoding=\"UTF-8\"?>\n");
    assert("<?xml version=\"1.0\" encoding=\"UTF-8\"?>\n"@ =~= seq!['<', '?', 'x', 'm', 'l', ' ', 'v', 'e', 'r', 's', 'i', 'o', 'n', '=', '"', '1', '.', '0', '"', ' ', 'e', 'n', 'c', 'o', 'd', 'i', 'n', 'g', '=', '"', 'U', 'T', 'F', '-', '8', '"', '?', '>', '\n']);
    reveal_strlit("<opml version=\"2.0\">\n");
    assert("<opml version=\"2.0\">\n"@ =~= seq!['<', 'o', 'p', 'm', 'l', ' ', 'v', 'e', 'r', 's', 'i', 'o', 'n', '=', '"', '2', '.', '0', '"', '>', '\n']);
    reveal_strlit("<head>\n");
    assert("<head>\n"@ =~= seq!['<', 'h', 'e', 'a', 'd', '>', '\n']);
    reveal_strlit("<title>RuSStly Subscriptions</title>\n");
    assert("<title>RuSStly Subscriptions</title>\n"@ =~= seq!['<', 't', 'i', 't', 'l', 'e', '>', 'R', 'u', 'S', 'S', 't', 'l', 'y', ' ', 'S', 'u', 'b', 's', 'c', 'r', 'i', 'p', 't', 'i', 'o', 'n', 's', '<', '/', 't', 'i', 't', 'l', 'e', '>', '\n']);
    reveal_strlit("</head>\n");
    assert("</head>\n"@ =~= seq!['<', '/', 'h', 'e', 'a', 'd', '>', '\n']);
    reveal_strlit("<body>\n");
    assert("<body>\n"@ =~= seq!['<', 'b', 'o', 'd', 'y', '>', '\n']);
    reveal_strlit("</body>\n</opml>\n");
    assert("</body>\n</opml>\n"@ =~= seq!['<', '/', 'b', 'o', 'd', 'y', '>', '\n', '<', '/', 'o', 'p', 'm', 'l', '>', '\n']);
}

/// The header holds no marker.
proof fn lemma_header_unmarked(t: Seq<char>)
    requires
        opml_header().len() <= t.len(),
        t.subrange(0, opml_header().len() as int) == opml_header(),
    ensures
        forall|j: int| 0 <= j < opml_header().len() ==> !#[trigger] marker_at(t, j),
{
    lemma_frame_lines();
    let h1 = "<?xml version=\"1.0\" encoding=\"UTF-8\"?>\n"@;
    let h2 = "<opml version=\"2.0\">\n"@;
    let h3 = "<head>\n"@;
    let h4 = "<title>RuSStly Subscriptions</title>\n"@;
    let h5 = "</head>\n"@;
    let h6 = "<body>\n"@;
    let a1 = h1;
    let a2 = a1 + h2;
    let a3 = a2 + h3;
    let a4 = a3 + h4;
    let a5 = a4 + h5;
    let a6 = a5 + h6;
    assert(a6 == opml_header());
    lemma_split(t, 0, a5, h6);
    lemma_split(t, 0, a4, h5);
    lemma_split(t, 0, a3, h4);
    lemma_split(t, 0, a2, h3);
    lemma_split(t, 0, a1, h2);
    lemma_no_marker_in_piece(t, 0, h1);
    lemma_no_marker_in_piece(t, a1.len() as int, h2);
    lemma_no_marker_in_piece(t, a2.len() as int, h3);
    lemma_no_marker_in_piece(t, a3.len() as int, h4);
    lemma_no_marker_in_piece(t, a4.len() as int, h5);
    lemma_no_marker_in_piece(t, a5.len() as int, h6);
}

/// Nothing is read from the footer on.
proof fn lemma_footer_unmarked(t: Seq<char>, p: int)
    requires
        0 <= p,
        p + opml_footer().len() == t.len(),
        t.subrange(p, t.len() as int) == opml_footer(),
    ensures
        urls_from(t, p) == Seq::<Seq<char>>::empty(),
{
    lemma_frame_lines();
    lemma_no_marker_in_piece(t, p, opml_footer());
    lemma_marker_skip(t, p, t.len() as int);
}

/// Reading the `outline` lines of `fs` yields their addresses in order.
proof fn lemma_outline_lines(t: Seq<char>, p: int, fs: Seq<Feed>)
    requires
        0 <= p,
        p + outline_lines(fs).len() <= t.len(),
        t.subrange(p, p + outline_lines(fs).len()) == outline_lines(fs),
        forall|i: int| 0 <= i < fs.len() ==> round_trips(#[trigger] fs[i]),
    ensures
        urls_from(t, p) == feed_urls(fs) + urls_from(t, p + outline_lines(fs).len()),
    decreases fs.len(),
{
    if fs.len() == 0 {
        assert(feed_urls(fs) =~= Seq::<Seq<char>>::empty());
        assert(outline_lines(fs).len() == 0);
    } else {
        let front = fs.drop_last();
        let last = fs.last();
        let a = outline_lines(front);
        let b = outline_line(last.title@, last.url@);
        assert(outline_lines(fs) == a + b);
        lemma_split(t, p, a, b);
        assert forall|i: int| 0 <= i < front.len() implies round_trips(#[trigger] front[i]) by {
            assert(front[i] == fs[i]);
        }
        lemma_outline_lines(t, p, front);
        assert(round_trips(fs[fs.len() - 1]));
        lemma_outline_line(t, p + a.len(), last.title@, last.url@);
        assert(feed_urls(fs) =~= feed_urls(front).push(last.url@));
        let rest = urls_from(t, p + a.len() + b.len());
        assert(feed_urls(front) + (seq![last.url@] + rest) =~= feed_urls(fs) + rest);
    }
}

/// Exporting feeds and importing the document gives back their addresses,
/// in order, for feeds whose addresses are non-empty, carry no surrounding
/// white space and nothing that needs escaping, and whose titles do not end
/// in `xmlUrl=`.
pub proof fn lemma_opml_round_trip(feeds: Seq<Feed>)
    requires
        forall|i: int| 0 <= i < feeds.len() ==> round_trips(#[trigger] feeds[i]),
    ensures
        opml_urls(opml_document(feeds)) == feed_urls(feeds),
{
    let t = opml_document(feeds);
    let h = opml_header();
    let b = outline_lines(feeds);
    let f = opml_footer();
    assert(t == h + b + f);
    assert(t.subrange(0, t.len() as int) =~= t);
    lemma_split(t, 0, h + b, f);
    lemma_split(t, 0, h, b);
    assert(t.subrange(0, t.len() as int) == t);
    lemma_header_unmarked(t);
    lemma_urls_skip(t, 0, h.len() as int);
    lemma_outline_lines(t, h.len() as int, feeds);
    lemma_footer_unmarked(t, (h.len() + b.len()) as int);
    assert(feed_urls(feeds) + Seq::<Seq<char>>::empty() =~= feed_urls(feeds));
}

} // verus!
