//! Text and state helpers of the podcast client's window: HTML stripping,
//! duration and date display, file-name sanitising, episode filtering and
//! status texts.

use chrono::Datelike;
use vstd::prelude::*;

use crate::opml::{escape_char, escape_spec, lemma_entities};
use crate::paths::{joined, path_join};
use crate::playback::Span;
use crate::sync::{lemma_sanitized_shape, sanitize_filename, sanitized};
use crate::types::Feed;
use crate::text::{chars_of, decimal, padded, parse_usize, parse_usize_spec, push_char, push_decimal, push_padded};

verus! {

// ---------------------------------------------------------------------------
// HTML stripping
// ---------------------------------------------------------------------------

/// The state of the HTML stripper after a prefix of its input.
pub struct HtmlScan {
    pub in_tag: bool,
    pub in_entity: bool,
    pub entity: Seq<char>,
    pub out: Seq<char>,
}

/// The text an entity name decodes to: `amp`, `lt`, `gt`, `quot`, `apos`
/// and `nbsp` give one character, any other name gives nothing.
pub open spec fn entity_text(name: Seq<char>) -> Seq<char> {
    if name == seq!['a', 'm', 'p'] {
        seq!['&']
    } else if name == seq!['l', 't'] {
        seq!['<']
    } else if name == seq!['g', 't'] {
        seq!['>']
    } else if name == seq!['q', 'u', 'o', 't'] {
        seq!['"']
    } else if name == seq!['a', 'p', 'o', 's'] {
        seq!['\'']
    } else if name == seq!['n', 'b', 's', 'p'] {
        seq![' ']
    } else {
        Seq::empty()
    }
}

/// One step of the stripper on character `c`: `<` opens a tag and `>`
/// closes it; outside a tag `&` starts an entity, which `;` ends and
/// decodes; other characters go to the open entity's name, or to the output
/// when neither a tag nor an entity is open.
pub open spec fn html_step(st: HtmlScan, c: char) -> HtmlScan {
    if c == '<' {
        HtmlScan { in_tag: true, ..st }
    } else if c == '>' {
        HtmlScan { in_tag: false, ..st }
    } else if c == '&' && !st.in_tag {
        HtmlScan { in_entity: true, entity: Seq::empty(), ..st }
    } else if c == ';' && st.in_entity {
        HtmlScan { in_entity: false, out: st.out + entity_text(st.entity), ..st }
    } else if st.in_entity {
        HtmlScan { entity: st.entity.push(c), ..st }
    } else if !st.in_tag {
        HtmlScan { out: st.out.push(c), ..st }
    } else {
        st
    }
}

/// The stripper's state after reading all of `s`.
pub open spec fn html_scan(s: Seq<char>) -> HtmlScan
    decreases s.len(),
{
    if s.len() == 0 {
        HtmlScan { in_tag: false, in_entity: false, entity: Seq::empty(), out: Seq::empty() }
    } else {
        html_step(html_scan(s.drop_last()), s.last())
    }
}

/// The visible text of `s`: tags removed, known entities decoded.
pub open spec fn strip_html_spec(s: Seq<char>) -> Seq<char> {
    html_scan(s).out
}

fn decode_entity(name: &Vec<char>, out: &mut String)
    ensures
        final(out)@ == old(out)@ + entity_text(name@),
{
    let n = name.len();
    if n == 3 && name[0] == 'a' && name[1] == 'm' && name[2] == 'p' {
        assert(name@ == seq!['a', 'm', 'p']);
        push_char(out, '&');
    } else if n == 2 && name[0] == 'l' && name[1] == 't' {
        assert(name@ == seq!['l', 't']);
        push_char(out, '<');
    } else if n == 2 && name[0] == 'g' && name[1] == 't' {
        assert(name@ == seq!['g', 't']);
        push_char(out, '>');
    } else if n == 4 && name[0] == 'q' && name[1] == 'u' && name[2] == 'o' && name[3] == 't' {
        assert(name@ == seq!['q', 'u', 'o', 't']);
        push_char(out, '"');
    } else if n == 4 && name[0] == 'a' && name[1] == 'p' && name[2] == 'o' && name[3] == 's' {
        assert(name@ == seq!['a', 'p', 'o', 's']);
        push_char(out, '\'');
    } else if n == 4 && name[0] == 'n' && name[1] == 'b' && name[2] == 's' && name[3] == 'p' {
        assert(name@ == seq!['n', 'b', 's', 'p']);
        push_char(out, ' ');
    } else {
        assert(entity_text(name@) == Seq::<char>::empty());
        assert(out@ + Seq::<char>::empty() == out@);
    }
}

/// Removes HTML tags from `s` and decodes the entities `&amp;`, `&lt;`,
/// `&gt;`, `&quot;`, `&apos;` and `&nbsp;`; other entities are dropped.
pub fn strip_html(s: &str) -> (r: String)
    ensures
        r@ == strip_html_spec(s@),
{
    let cs = chars_of(s);
    let mut result = String::new();
    let mut in_tag = false;
    let mut in_entity = false;
    let mut entity_buf: Vec<char> = Vec::new();
    let mut i: usize = 0;
    while i < cs.len()
        invariant
            i <= cs.len(),
            cs@ == s@,
            html_scan(cs@.take(i as int)) == (HtmlScan {
                in_tag,
                in_entity,
                entity: entity_buf@,
                out: result@,
            }),
        decreases cs.len() - i,
    {
        let c = cs[i];
        assert(cs@.take(i + 1).drop_last() == cs@.take(i as int));
        if c == '<' {
            in_tag = true;
        } else if c == '>' {
            in_tag = false;
        } else if c == '&' && !in_tag {
            in_entity = true;
            entity_buf = Vec::new();
        } else if c == ';' && in_entity {
            in_entity = false;
            decode_entity(&entity_buf, &mut result);
        } else if in_entity {
            entity_buf.push(c);
        } else if !in_tag {
            push_char(&mut result, c);
        }
        i = i + 1;
    }
    assert(cs@.take(cs.len() as int) == cs@);
    result
}

/// Text without `<`, `>` and `&` passes through the stripper unchanged.
pub proof fn lemma_strip_html_plain_text(s: Seq<char>)
    requires
        forall|i: int| 0 <= i < s.len() ==> #[trigger] s[i] != '<' && s[i] != '>' && s[i] != '&',
    ensures
        strip_html_spec(s) == s,
    decreases s.len(),
{
    lemma_plain_scan(s);
}

proof fn lemma_plain_scan(s: Seq<char>)
    requires
        forall|i: int| 0 <= i < s.len() ==> #[trigger] s[i] != '<' && s[i] != '>' && s[i] != '&',
    ensures
        html_scan(s) == (HtmlScan {
            in_tag: false,
            in_entity: false,
            entity: Seq::empty(),
            out: s,
        }),
    decreases s.len(),
{
    if s.len() > 0 {
        let t = s.drop_last();
        assert forall|i: int| 0 <= i < t.len() implies #[trigger] t[i] != '<' && t[i] != '>'
            && t[i] != '&' by {
            assert(t[i] == s[i]);
        }
        lemma_plain_scan(t);
        assert(s.last() == s[s.len() - 1]);
        assert(s[s.len() - 1] != '<' && s[s.len() - 1] != '>' && s[s.len() - 1] != '&');
        assert(t.push(s.last()) == s);
    } else {
        assert(s == Seq::<char>::empty());
    }
}

/// The stripped text is never longer than its input.
pub proof fn lemma_strip_html_shrinks(s: Seq<char>)
    ensures
        strip_html_spec(s).len() <= s.len(),
{
    lemma_scan_len(s);
}

proof fn lemma_scan_len(s: Seq<char>)
    ensures
        html_scan(s).out.len() + (if html_scan(s).in_entity {
            1int
        } else {
            0int
        }) <= s.len(),
    decreases s.len(),
{
    if s.len() > 0 {
        lemma_scan_len(s.drop_last());
        let st = html_scan(s.drop_last());
        assert(entity_text(st.entity).len() <= 1);
    }
}

/// Whether, after reading `s`, a tag is open: the last `<` or `>` in `s` is
/// a `<`.
pub open spec fn tag_open_after(s: Seq<char>) -> bool
    decreases s.len(),
{
    if s.len() == 0 {
        false
    } else if s.last() == '<' {
        true
    } else if s.last() == '>' {
        false
    } else {
        tag_open_after(s.drop_last())
    }
}

/// `s` without its tags: every `<` and `>` removed, and every character
/// whose nearest preceding `<` or `>` is a `<`.
pub open spec fn without_tags(s: Seq<char>) -> Seq<char>
    decreases s.len(),
{
    if s.len() == 0 {
        Seq::empty()
    } else {
        let c = s.last();
        if c == '<' || c == '>' || tag_open_after(s.drop_last()) {
            without_tags(s.drop_last())
        } else {
            without_tags(s.drop_last()).push(c)
        }
    }
}

proof fn lemma_scan_no_amp(s: Seq<char>)
    requires
        !s.contains('&'),
    ensures
        html_scan(s) == (HtmlScan {
            in_tag: tag_open_after(s),
            in_entity: false,
            entity: Seq::empty(),
            out: without_tags(s),
        }),
    decreases s.len(),
{
    if s.len() > 0 {
        let t = s.drop_last();
        assert(!t.contains('&')) by {
            if t.contains('&') {
                let k = choose|k: int| 0 <= k < t.len() && t[k] == '&';
                assert(s[k] == '&');
            }
        }
        lemma_scan_no_amp(t);
        assert(s[s.len() - 1] != '&');
    }
}

proof fn lemma_without_tags_shape(s: Seq<char>)
    ensures
        forall|i: int|
            0 <= i < without_tags(s).len() ==> #[trigger] without_tags(s)[i] != '<'
                && without_tags(s)[i] != '>',
    decreases s.len(),
{
    if s.len() > 0 {
        let t = s.drop_last();
        lemma_without_tags_shape(t);
        let w = without_tags(t);
        assert forall|i: int| 0 <= i < without_tags(s).len() implies #[trigger] without_tags(s)[i]
            != '<' && without_tags(s)[i] != '>' by {
            if i < w.len() {
                assert(w[i] != '<' && w[i] != '>');
            }
        }
    }
}

/// Text without `&` loses its tags and nothing else: the stripper gives
/// `without_tags(s)`, which holds no `<` and no `>`.
pub proof fn lemma_strip_html_no_entities(s: Seq<char>)
    requires
        !s.contains('&'),
    ensures
        strip_html_spec(s) == without_tags(s),
        forall|i: int|
            0 <= i < strip_html_spec(s).len() ==> #[trigger] strip_html_spec(s)[i] != '<'
                && strip_html_spec(s)[i] != '>',
{
    lemma_scan_no_amp(s);
    lemma_without_tags_shape(s);
}

/// The stripper's state after reading `b`, starting from state `st`.
pub open spec fn html_scan_from(st: HtmlScan, b: Seq<char>) -> HtmlScan
    decreases b.len(),
{
    if b.len() == 0 {
        st
    } else {
        html_step(html_scan_from(st, b.drop_last()), b.last())
    }
}

proof fn lemma_scan_concat(a: Seq<char>, b: Seq<char>)
    ensures
        html_scan(a + b) == html_scan_from(html_scan(a), b),
    decreases b.len(),
{
    if b.len() == 0 {
        assert(a + b =~= a);
    } else {
        lemma_scan_concat(a, b.drop_last());
        assert((a + b).drop_last() =~= a + b.drop_last());
        assert((a + b).last() == b.last());
    }
}

/// Whether the stripper is outside any tag and entity and has written
/// `out`.
pub open spec fn idle_with(st: HtmlScan, out: Seq<char>) -> bool {
    !st.in_tag && !st.in_entity && st.out == out
}

proof fn lemma_scan_from_concat(st: HtmlScan, a: Seq<char>, b: Seq<char>)
    ensures
        html_scan_from(st, a + b) == html_scan_from(html_scan_from(st, a), b),
    decreases b.len(),
{
    if b.len() == 0 {
        assert(a + b =~= a);
    } else {
        lemma_scan_from_concat(st, a, b.drop_last());
        assert((a + b).drop_last() =~= a + b.drop_last());
        assert((a + b).last() == b.last());
    }
}

proof fn lemma_scan_entity_name(out: Seq<char>, name: Seq<char>)
    requires
        forall|i: int|
            0 <= i < name.len() ==> #[trigger] name[i] != '<' && name[i] != '>' && name[i] != '&'
                && name[i] != ';',
    ensures
        html_scan_from(
            HtmlScan { in_tag: false, in_entity: true, entity: Seq::empty(), out },
            name,
        ) == (HtmlScan { in_tag: false, in_entity: true, entity: name, out }),
    decreases name.len(),
{
    if name.len() > 0 {
        let t = name.drop_last();
        assert forall|i: int| 0 <= i < t.len() implies #[trigger] t[i] != '<' && t[i] != '>'
            && t[i] != '&' && t[i] != ';' by {
            assert(t[i] == name[i]);
        }
        lemma_scan_entity_name(out, t);
        assert(name[name.len() - 1] == name.last());
        assert(t.push(name.last()) =~= name);
    } else {
        assert(name =~= Seq::<char>::empty());
    }
}

proof fn lemma_scan_entity(st: HtmlScan, name: Seq<char>)
    requires
        !st.in_tag,
        !st.in_entity,
        forall|i: int|
            0 <= i < name.len() ==> #[trigger] name[i] != '<' && name[i] != '>' && name[i] != '&'
                && name[i] != ';',
    ensures
        idle_with(html_scan_from(st, seq!['&'] + name + seq![';']), st.out + entity_text(name)),
{
    let out = st.out;
    lemma_scan_from_concat(st, seq!['&'] + name, seq![';']);
    lemma_scan_from_concat(st, seq!['&'], name);
    let e = Seq::<char>::empty();
    assert(seq!['&'].drop_last() =~= e);
    assert(seq![';'].drop_last() =~= e);
    assert(seq!['&'].last() == '&');
    assert(seq![';'].last() == ';');
    assert(html_scan_from(st, e) == st);
    let mid = html_scan_from(st, seq!['&'] + name);
    assert(html_scan_from(mid, e) == mid);
    assert(html_scan_from(st, seq!['&']) == (HtmlScan {
        in_tag: false,
        in_entity: true,
        entity: Seq::empty(),
        out,
    }));
    lemma_scan_entity_name(out, name);
}

proof fn lemma_scan_escaped_char(st: HtmlScan, c: char)
    requires
        !st.in_tag,
        !st.in_entity,
    ensures
        idle_with(html_scan_from(st, escape_char(c)), st.out.push(c)),
{
    let out = st.out;
    lemma_entities();
    if c == '&' {
        let n = seq!['a', 'm', 'p'];
        assert(seq!['&'] + n + seq![';'] =~= seq!['&', 'a', 'm', 'p', ';']);
        lemma_scan_entity(st, n);
        assert(out + seq!['&'] =~= out.push(c));
    } else if c == '<' {
        let n = seq!['l', 't'];
        assert(seq!['&'] + n + seq![';'] =~= seq!['&', 'l', 't', ';']);
        lemma_scan_entity(st, n);
        assert(out + seq!['<'] =~= out.push(c));
    } else if c == '>' {
        let n = seq!['g', 't'];
        assert(seq!['&'] + n + seq![';'] =~= seq!['&', 'g', 't', ';']);
        lemma_scan_entity(st, n);
        assert(out + seq!['>'] =~= out.push(c));
    } else if c == '"' {
        let n = seq!['q', 'u', 'o', 't'];
        assert(seq!['&'] + n + seq![';'] =~= seq!['&', 'q', 'u', 'o', 't', ';']);
        lemma_scan_entity(st, n);
        assert(out + seq!['"'] =~= out.push(c));
    } else if c == '\'' {
        let n = seq!['a', 'p', 'o', 's'];
        assert(seq!['&'] + n + seq![';'] =~= seq!['&', 'a', 'p', 'o', 's', ';']);
        lemma_scan_entity(st, n);
        assert(out + seq!['\''] =~= out.push(c));
    } else {
        assert(seq![c].drop_last() =~= Seq::<char>::empty());
        assert(seq![c].last() == c);
        assert(html_scan_from(st, Seq::<char>::empty()) == st);
    }
}

proof fn lemma_scan_escaped(s: Seq<char>)
    ensures
        idle_with(html_scan(escape_spec(s)), s),
    decreases s.len(),
{
    if s.len() == 0 {
        assert(escape_spec(s) =~= Seq::<char>::empty());
        assert(s =~= Seq::<char>::empty());
    } else {
        let t = s.drop_last();
        lemma_scan_escaped(t);
        lemma_scan_concat(escape_spec(t), escape_char(s.last()));
        lemma_scan_escaped_char(html_scan(escape_spec(t)), s.last());
        assert(t.push(s.last()) =~= s);
    }
}

/// Stripping an escaped text gives the text back: escaped `<` and `>` open
/// and close no tag, and the entities escaping writes decode to the
/// characters they stand for.
pub proof fn lemma_strip_html_unescapes(s: Seq<char>)
    ensures
        strip_html_spec(escape_spec(s)) == s,
{
    lemma_scan_escaped(s);
}

// ---------------------------------------------------------------------------
// Durations
// ---------------------------------------------------------------------------

/// `h:mm:ss` for a positive hour count, else `mm:ss`, each field
/// zero-padded to two digits.
pub open spec fn clock_text(total: nat) -> Seq<char> {
    let h = total / 3600;
    let m = (total % 3600) / 60;
    let s = total % 60;
    if h > 0 {
        padded(h, 2) + seq![':'] + padded(m, 2) + seq![':'] + padded(s, 2)
    } else {
        padded(m, 2) + seq![':'] + padded(s, 2)
    }
}

/// The display of an episode length: `??:??` when unknown or negative.
pub open spec fn duration_text(secs: Option<i64>) -> Seq<char> {
    match secs {
        Some(s) => if s < 0 {
            "??:??"@
        } else {
            clock_text(s as nat)
        },
        None => "??:??"@,
    }
}

fn clock(total: u64) -> (r: String)
    ensures
        r@ == clock_text(total as nat),
{
    let h = total / 3600;
    let m = (total % 3600) / 60;
    let s = total % 60;
    let mut r = String::new();
    if h > 0 {
        push_padded(&mut r, h, 2);
        push_char(&mut r, ':');
    }
    push_padded(&mut r, m, 2);
    push_char(&mut r, ':');
    push_padded(&mut r, s, 2);
    r
}

/// Formats an episode length in seconds as `hh:mm:ss` (or `mm:ss` under an
/// hour); `??:??` when the length is unknown or negative.
pub fn format_duration(secs: Option<i64>) -> (r: String)
    ensures
        r@ == duration_text(secs),
{
    match secs {
        Some(s) => {
            if s < 0 {
                String::from_str("??:??")
            } else {
                clock(s as u64)
            }
        },
        None => String::from_str("??:??"),
    }
}

/// Formats the whole seconds of a span as `hh:mm:ss` (or `mm:ss` under an
/// hour).
pub fn format_duration_dur(d: Span) -> (r: String)
    ensures
        r@ == clock_text(d.whole_secs()),
{
    clock(d.as_secs())
}

// ---------------------------------------------------------------------------
// Publication dates
// ---------------------------------------------------------------------------

/// The calendar date `(year, month, day)`, in the date's own offset, of an
/// RFC 2822 date-time, or `None` where the text is not one.
pub uninterp spec fn rfc2822_date(s: Seq<char>) -> Option<(int, int, int)>;

/// Parses `s` with `chrono::DateTime::parse_from_rfc2822` and gives the
/// year, month and day of the result, read in its own offset (`Datelike`'s
/// `year`, `month`, `day`). The result is named `rfc2822_date`; chrono
/// documents months as `1..=12` and days as `1..=31`.
#[verifier::external_body]
fn parse_rfc2822_date(s: &str) -> (r: Option<(i32, u32, u32)>)
    ensures
        match r {
            Some((y, m, d)) => rfc2822_date(s@) == Some((y as int, m as int, d as int)) && 1 <= m
                <= 12 && 1 <= d <= 31,
            None => rfc2822_date(s@) is None,
        },
{
    match chrono::DateTime::parse_from_rfc2822(s) {
        Ok(dt) => Some((dt.year(), dt.month(), dt.day())),
        Err(_) => None,
    }
}

/// The English three-letter name of month `m` (`1..=12`).
pub open spec fn month_abbrev(m: int) -> Seq<char> {
    if m == 1 {
        "Jan"@
    } else if m == 2 {
        "Feb"@
    } else if m == 3 {
        "Mar"@
    } else if m == 4 {
        "Apr"@
    } else if m == 5 {
        "May"@
    } else if m == 6 {
        "Jun"@
    } else if m == 7 {
        "Jul"@
    } else if m == 8 {
        "Aug"@
    } else if m == 9 {
        "Sep"@
    } else if m == 10 {
        "Oct"@
    } else if m == 11 {
        "Nov"@
    } else {
        "Dec"@
    }
}

/// A year as chrono's `%Y` writes it: four digits, zero-padded, for
/// `0..=9999`; otherwise a sign followed by at least four digits.
pub open spec fn year_text(y: int) -> Seq<char> {
    if 0 <= y <= 9999 {
        padded(y as nat, 4)
    } else if y > 9999 {
        seq!['+'] + padded(y as nat, 4)
    } else {
        seq!['-'] + padded((-y) as nat, 4)
    }
}

/// A date as `%b %d, %Y`, e.g. `Mar 05, 2024`.
pub open spec fn calendar_text(y: int, m: int, d: int) -> Seq<char> {
    month_abbrev(m) + seq![' '] + padded(d as nat, 2) + seq![',', ' '] + year_text(y)
}

/// The text before the `n`-th space of `s`, or all of `s` when it has fewer
/// spaces: the first `n` space-separated fields, joined by spaces.
pub open spec fn leading_fields(s: Seq<char>, n: nat) -> Seq<char>
    decreases s.len(),
{
    if s.len() == 0 {
        Seq::empty()
    } else if s[0] == ' ' {
        if n <= 1 {
            Seq::empty()
        } else {
            seq![' '] + leading_fields(s.drop_first(), (n - 1) as nat)
        }
    } else {
        seq![s[0]] + leading_fields(s.drop_first(), n)
    }
}

/// The display of a publication date: empty for an empty date, the
/// calendar date for an RFC 2822 date, else its first four fields.
pub open spec fn date_text(s: Seq<char>) -> Seq<char> {
    if s.len() == 0 {
        Seq::empty()
    } else {
        match rfc2822_date(s) {
            Some((y, m, d)) => calendar_text(y, m, d),
            None => leading_fields(s, 4),
        }
    }
}

fn push_str_month(r: &mut String, m: u32)
    requires
        1 <= m <= 12,
    ensures
        final(r)@ == old(r)@ + month_abbrev(m as int),
{
    if m == 1 {
        r.append("Jan");
    } else if m == 2 {
        r.append("Feb");
    } else if m == 3 {
        r.append("Mar");
    } else if m == 4 {
        r.append("Apr");
    } else if m == 5 {
        r.append("May");
    } else if m == 6 {
        r.append("Jun");
    } else if m == 7 {
        r.append("Jul");
    } else if m == 8 {
        r.append("Aug");
    } else if m == 9 {
        r.append("Sep");
    } else if m == 10 {
        r.append("Oct");
    } else if m == 11 {
        r.append("Nov");
    } else {
        r.append("Dec");
    }
}

/// Formats a calendar date as `%b %d, %Y` (e.g. `Mar 05, 2024`).
pub fn format_calendar_date(year: i32, month: u32, day: u32) -> (r: String)
    requires
        1 <= month <= 12,
    ensures
        r@ == calendar_text(year as int, month as int, day as int),
{
    let mut r = String::new();
    push_str_month(&mut r, month);
    push_char(&mut r, ' ');
    push_padded(&mut r, day as u64, 2);
    push_char(&mut r, ',');
    push_char(&mut r, ' ');
    if year >= 0 && year <= 9999 {
        push_padded(&mut r, year as u64, 4);
    } else if year > 9999 {
        push_char(&mut r, '+');
        push_padded(&mut r, year as u64, 4);
    } else {
        push_char(&mut r, '-');
        let a: u64 = (-(year as i64)) as u64;
        push_padded(&mut r, a, 4);
    }
    assert(r@ == calendar_text(year as int, month as int, day as int));
    r
}

fn leading_fields_exec(cs: &Vec<char>, n: usize) -> (r: String)
    requires
        n >= 1,
    ensures
        r@ == leading_fields(cs@, n as nat),
{
    let mut r = String::new();
    let mut i: usize = 0;
    let mut left = n;
    assert(cs@.skip(0) == cs@);
    assert(Seq::<char>::empty() + leading_fields(cs@, n as nat) == leading_fields(cs@, n as nat));
    while i < cs.len()
        invariant
            i <= cs.len(),
            1 <= left <= n,
            r@ + leading_fields(cs@.skip(i as int), left as nat) == leading_fields(cs@, n as nat),
        decreases cs.len() - i,
    {
        let c = cs[i];
        let ghost rest = cs@.skip(i as int);
        assert(rest[0] == c);
        assert(rest.drop_first() == cs@.skip(i + 1));
        if c == ' ' {
            if left <= 1 {
                assert(leading_fields(rest, left as nat) == Seq::<char>::empty());
                assert(r@ + Seq::<char>::empty() == r@);
                return r;
            }
            push_char(&mut r, ' ');
            left = left - 1;
        } else {
            push_char(&mut r, c);
        }
        i = i + 1;
    }
    assert(cs@.skip(cs.len() as int) == Seq::<char>::empty());
    assert(r@ + Seq::<char>::empty() == r@);
    r
}

/// Formats a publication date for display: an RFC 2822 date becomes
/// `%b %d, %Y` (e.g. `Mar 05, 2024`); any other text is cut after its
/// fourth space-separated field; an empty date stays empty.
pub fn format_date(s: &str) -> (r: String)
    ensures
        r@ == date_text(s@),
{
    if s.is_empty() {
        return String::new();
    }
    match parse_rfc2822_date(s) {
        Some((y, m, d)) => format_calendar_date(y, m, d),
        None => {
            let cs = chars_of(s);
            leading_fields_exec(&cs, 4)
        },
    }
}

// ---------------------------------------------------------------------------
// File names and folders
// ---------------------------------------------------------------------------

/// Makes `name` safe as a file or folder name (see `sanitize_filename`).
pub fn sanitize_name(name: &str) -> (r: String)
    ensures
        r@ == sanitized(name@),
{
    sanitize_filename(name)
}

/// The value of an environment variable, when set to valid text.
pub open spec fn opt_text(v: Option<String>) -> Option<Seq<char>> {
    match v {
        Some(s) => Some(s@),
        None => None,
    }
}

/// The home folder: `$HOME`, else the current folder.
pub open spec fn home_dir_spec(home: Option<Seq<char>>) -> Seq<char> {
    match home {
        Some(h) => h,
        None => "."@,
    }
}

/// The folder of the client's data: `$XDG_DATA_HOME/russtly`, or
/// `<home>/.local/share/russtly` where that variable is not set.
pub open spec fn data_dir_spec(xdg_data_home: Option<Seq<char>>, home: Option<Seq<char>>) -> Seq<char> {
    let base = match xdg_data_home {
        Some(x) => x,
        None => joined(home_dir_spec(home), ".local/share"@),
    };
    joined(base, "russtly"@)
}

/// The home folder, given the value of `$HOME`: that value, else `.`.
pub fn home_dir(home: &Option<String>) -> (r: String)
    ensures
        r@ == home_dir_spec(opt_text(*home)),
{
    match home {
        Some(h) => h.clone(),
        None => String::from_str("."),
    }
}

/// The folder of the client's data, given the values of `$XDG_DATA_HOME`
/// and `$HOME`: `$XDG_DATA_HOME/russtly`, else `$HOME/.local/share/russtly`
/// (with `.` for an unset home).
pub fn data_dir(xdg_data_home: &Option<String>, home: &Option<String>) -> (r: String)
    ensures
        r@ == data_dir_spec(opt_text(*xdg_data_home), opt_text(*home)),
{
    let base = match xdg_data_home {
        Some(x) => x.clone(),
        None => {
            let h = home_dir(home);
            path_join(h.as_str(), ".local/share")
        },
    };
    path_join(base.as_str(), "russtly")
}

/// Where a downloaded episode is stored:
/// `<download dir>/<sanitized show title>/<sanitized episode title>.mp3`.
pub open spec fn download_path_spec(download_dir: Seq<char>, show_title: Seq<char>, episode_title: Seq<char>) -> Seq<char> {
    joined(joined(download_dir, sanitized(show_title)), sanitized(episode_title) + ".mp3"@)
}

/// The file an episode is downloaded to:
/// `<download dir>/<sanitized show title>/<sanitized episode title>.mp3`.
pub fn download_path(download_dir: &str, show_title: &str, episode_title: &str) -> (r: String)
    ensures
        r@ == download_path_spec(download_dir@, show_title@, episode_title@),
{
    let show = sanitize_name(show_title);
    let dir = path_join(download_dir, show.as_str());
    let mut file = sanitize_name(episode_title);
    file.append(".mp3");
    path_join(dir.as_str(), file.as_str())
}

// ---------------------------------------------------------------------------
// Episode list
// ---------------------------------------------------------------------------

/// Which episodes the list shows.
#[derive(Debug, Clone, Copy, PartialEq, Eq, Structural)]
pub enum EpisodeFilter {
    All,
    Unplayed,
    Downloaded,
}

/// Whether an episode passes the filter: all pass `All`, unplayed ones pass
/// `Unplayed`, downloaded ones pass `Downloaded`.
pub open spec fn shown_by(filter: EpisodeFilter, played: bool, downloaded: bool) -> bool {
    match filter {
        EpisodeFilter::All => true,
        EpisodeFilter::Unplayed => !played,
        EpisodeFilter::Downloaded => downloaded,
    }
}

/// Whether an episode with the given flags passes the filter.
pub fn episode_shown(filter: EpisodeFilter, played: bool, downloaded: bool) -> (r: bool)
    ensures
        r == shown_by(filter, played, downloaded),
{
    match filter {
        EpisodeFilter::All => true,
        EpisodeFilter::Unplayed => !played,
        EpisodeFilter::Downloaded => downloaded,
    }
}

/// How many of the flags are `false`.
pub open spec fn count_false(flags: Seq<bool>) -> nat
    decreases flags.len(),
{
    if flags.len() == 0 {
        0
    } else {
        count_false(flags.drop_last()) + if flags.last() {
            0nat
        } else {
            1nat
        }
    }
}

proof fn lemma_count_false_le(flags: Seq<bool>)
    ensures
        count_false(flags) <= flags.len(),
    decreases flags.len(),
{
    if flags.len() > 0 {
        lemma_count_false_le(flags.drop_last());
    }
}

/// How many of the flags are `false`: the unplayed episodes among `played`
/// flags, or the episodes not downloaded before among upsert results.
pub fn count_unset(flags: &[bool]) -> (r: usize)
    ensures
        r == count_false(flags@),
{
    let mut n: usize = 0;
    let mut i: usize = 0;
    while i < flags.len()
        invariant
            i <= flags.len(),
            n == count_false(flags@.take(i as int)),
            n <= i,
        decreases flags.len() - i,
    {
        assert(flags@.take(i + 1).drop_last() == flags@.take(i as int));
        if !flags[i] {
            n = n + 1;
        }
        i = i + 1;
    }
    assert(flags@.take(flags.len() as int) == flags@);
    n
}

// ---------------------------------------------------------------------------
// Subscribing
// ---------------------------------------------------------------------------

/// Whether some feed has the address `url`.
pub open spec fn subscribed(feeds: Seq<Feed>, url: Seq<char>) -> bool {
    exists|i: int| 0 <= i < feeds.len() && #[trigger] feeds[i].url@ == url
}

/// Whether a feed with address `url` is among `feeds`.
pub fn is_subscribed(feeds: &[Feed], url: &String) -> (r: bool)
    ensures
        r == subscribed(feeds@, url@),
{
    let mut i: usize = 0;
    while i < feeds.len()
        invariant
            i <= feeds.len(),
            forall|k: int| 0 <= k < i ==> #[trigger] feeds@[k].url@ != url@,
        decreases feeds.len() - i,
    {
        if feeds[i].url == *url {
            return true;
        }
        i = i + 1;
    }
    false
}

/// The outcome of asking to subscribe to the typed address `input`: the
/// trimmed address, or the message shown instead.
pub open spec fn new_feed_check(input: Seq<char>, feeds: Seq<Feed>) -> Result<Seq<char>, Seq<char>> {
    let url = crate::text::trim(input);
    if url.len() == 0 {
        Err("Enter a URL"@)
    } else if subscribed(feeds, url) {
        Err("Already subscribed"@)
    } else {
        Ok(url)
    }
}

/// Checks an address typed to subscribe to: it is trimmed; an empty one
/// asks for an address, one already subscribed to is refused.
pub fn check_new_feed(input: &str, feeds: &[Feed]) -> (r: Result<String, String>)
    ensures
        match r {
            Ok(u) => new_feed_check(input@, feeds@) == Ok::<Seq<char>, Seq<char>>(u@),
            Err(e) => new_feed_check(input@, feeds@) == Err::<Seq<char>, Seq<char>>(e@),
        },
{
    let cs = chars_of(input);
    let url = crate::text::trimmed(&cs);
    if url.as_str().is_empty() {
        return Err(String::from_str("Enter a URL"));
    }
    if is_subscribed(feeds, &url) {
        return Err(String::from_str("Already subscribed"));
    }
    Ok(url)
}

// ---------------------------------------------------------------------------
// Status texts
// ---------------------------------------------------------------------------

/// The status after a feed was refreshed with `total` episodes of which
/// `new_count` were not downloaded before.
pub open spec fn feed_update_text(total: nat, new_count: nat, auto_download: bool) -> Seq<char> {
    if auto_download && new_count > 0 {
        "Feed updated: "@ + decimal(total) + " episodes ("@ + decimal(new_count)
            + " new, auto-downloading)"@
    } else {
        "Feed updated: "@ + decimal(total) + " episodes"@
    }
}

/// The status shown after a feed refresh: `Feed updated: N episodes`, with
/// ` (M new, auto-downloading)` when downloads were started for new ones.
pub fn feed_update_status(total: usize, new_count: usize, auto_download: bool) -> (r: String)
    ensures
        r@ == feed_update_text(total as nat, new_count as nat, auto_download),
{
    let mut r = String::from_str("Feed updated: ");
    push_decimal(&mut r, total as u64);
    if auto_download && new_count > 0 {
        r.append(" episodes (");
        push_decimal(&mut r, new_count as u64);
        r.append(" new, auto-downloading)");
    } else {
        r.append(" episodes");
    }
    r
}

/// `prefix` followed by `detail`.
pub fn prefixed(prefix: &str, detail: &str) -> (r: String)
    ensures
        r@ == prefix@ + detail@,
{
    let mut r = String::from_str(prefix);
    r.append(detail);
    r
}

/// The status after copying an episode to a folder finished: `Synced: ...`
/// or `Sync failed: ...`.
pub fn sync_status(success: bool, message: &str) -> (r: String)
    ensures
        r@ == (if success {
            "Synced: "@
        } else {
            "Sync failed: "@
        }) + message@,
{
    if success {
        prefixed("Synced: ", message)
    } else {
        prefixed("Sync failed: ", message)
    }
}

/// The status when fetching the feed at `url` failed with `error`.
pub fn fetch_failed_status(url: &str, error: &str) -> (r: String)
    ensures
        r@ == "Failed to fetch "@ + url@ + ": "@ + error@,
{
    let mut r = String::from_str("Failed to fetch ");
    r.append(url);
    r.append(": ");
    r.append(error);
    r
}

/// How many outcomes succeeded.
pub open spec fn count_ok(outcomes: Seq<Result<String, String>>) -> nat
    decreases outcomes.len(),
{
    if outcomes.len() == 0 {
        0
    } else {
        count_ok(outcomes.drop_last()) + if outcomes.last() is Ok {
            1nat
        } else {
            0nat
        }
    }
}

/// The index of the first failed outcome, if any.
pub open spec fn first_failure(outcomes: Seq<Result<String, String>>) -> Option<int>
    decreases outcomes.len(),
{
    if outcomes.len() == 0 {
        None
    } else {
        match first_failure(outcomes.drop_last()) {
            Some(i) => Some(i),
            None => if outcomes.last() is Err {
                Some(outcomes.len() - 1)
            } else {
                None
            },
        }
    }
}

/// The summary of copying an episode to every sync folder: success with
/// `Copied to N destination(s)` when every copy worked, else failure with
/// the first error, labelled with its folder.
pub open spec fn copy_summary_spec(labels: Seq<Seq<char>>, outcomes: Seq<Result<String, String>>) -> (bool, Seq<char>) {
    if count_ok(outcomes) == outcomes.len() {
        (true, "Copied to "@ + decimal(count_ok(outcomes)) + " destination(s)"@)
    } else {
        match first_failure(outcomes) {
            Some(i) => (false, labels[i] + ": "@ + outcomes[i]->Err_0@),
            None => (false, Seq::empty()),
        }
    }
}

proof fn lemma_count_ok_le(outcomes: Seq<Result<String, String>>)
    ensures
        count_ok(outcomes) <= outcomes.len(),
        count_ok(outcomes) < outcomes.len() ==> first_failure(outcomes) is Some,
        first_failure(outcomes) matches Some(i) ==> 0 <= i < outcomes.len() && outcomes[i] is Err,
    decreases outcomes.len(),
{
    if outcomes.len() > 0 {
        lemma_count_ok_le(outcomes.drop_last());
    }
}

/// Summarizes copying an episode to the sync folders labelled `labels`,
/// whose copies ended in `outcomes` (the copied path, or an error).
pub fn copy_summary(labels: &[String], outcomes: &[Result<String, String>]) -> (r: (bool, String))
    requires
        labels.len() == outcomes.len(),
    ensures
        r.0 == copy_summary_spec(labels@.map_values(|s: String| s@), outcomes@).0,
        r.1@ == copy_summary_spec(labels@.map_values(|s: String| s@), outcomes@).1,
{
    let mut ok: usize = 0;
    let mut first_err: Option<usize> = None;
    let mut i: usize = 0;
    while i < outcomes.len()
        invariant
            i <= outcomes.len(),
            labels.len() == outcomes.len(),
            ok == count_ok(outcomes@.take(i as int)),
            ok <= i,
            match first_err {
                Some(k) => first_failure(outcomes@.take(i as int)) == Some(k as int) && k < i,
                None => first_failure(outcomes@.take(i as int)) is None,
            },
        decreases outcomes.len() - i,
    {
        assert(outcomes@.take(i + 1).drop_last() == outcomes@.take(i as int));
        match &outcomes[i] {
            Ok(_) => {
                ok = ok + 1;
            },
            Err(_) => {
                if first_err.is_none() {
                    first_err = Some(i);
                }
            },
        }
        i = i + 1;
    }
    assert(outcomes@.take(outcomes.len() as int) == outcomes@);
    proof {
        lemma_count_ok_le(outcomes@);
    }
    if ok == outcomes.len() {
        let mut r = String::from_str("Copied to ");
        push_decimal(&mut r, ok as u64);
        r.append(" destination(s)");
        (true, r)
    } else {
        match first_err {
            Some(k) => {
                let mut r = labels[k].clone();
                r.append(": ");
                match &outcomes[k] {
                    Err(e) => r.append(e.as_str()),
                    Ok(_) => {},
                }
                (false, r)
            },
            None => (false, String::new()),
        }
    }
}

/// A span and the same number of whole seconds as an episode length are
/// displayed alike.
pub proof fn lemma_duration_displays_agree(d: Span)
    requires
        d.whole_secs() <= i64::MAX,
    ensures
        duration_text(Some(d.whole_secs() as i64)) == clock_text(d.whole_secs()),
{
}

/// The fallback date display keeps the start of the text: it is a prefix of
/// it.
pub proof fn lemma_leading_fields_prefix(s: Seq<char>, n: nat)
    ensures
        leading_fields(s, n).is_prefix_of(s),
    decreases s.len(),
{
    if s.len() > 0 {
        let rest = s.drop_first();
        if s[0] == ' ' {
            if n > 1 {
                lemma_leading_fields_prefix(rest, (n - 1) as nat);
                assert(leading_fields(s, n) =~= s.subrange(0, leading_fields(s, n).len() as int));
            } else {
                assert(leading_fields(s, n) =~= s.subrange(0, 0));
            }
        } else {
            lemma_leading_fields_prefix(rest, n);
            assert(leading_fields(s, n) =~= s.subrange(0, leading_fields(s, n).len() as int));
        }
    } else {
        assert(leading_fields(s, n) =~= s.subrange(0, 0));
    }
}

// ---------------------------------------------------------------------------
// Settings and downloads
// ---------------------------------------------------------------------------

/// A yes/no setting: stored as `true` means yes, any other stored text no,
/// and an unset setting takes its default.
pub fn setting_flag(value: &Option<String>, default: bool) -> (r: bool)
    ensures
        r == match *value {
            Some(v) => v@ == "true"@,
            None => default,
        },
{
    match value {
        Some(v) => {
            let t = String::from_str("true");
            *v == t
        },
        None => default,
    }
}

/// A count setting: the stored text read as a `usize`, else the default.
pub fn setting_count(value: &Option<String>, default: usize) -> (r: usize)
    ensures
        r == match *value {
            Some(v) => match parse_usize_spec(v@) {
                Some(n) => n,
                None => default as int,
            },
            None => default as int,
        },
{
    match value {
        Some(v) => {
            let cs = chars_of(v.as_str());
            match parse_usize(&cs) {
                Some(n) => n,
                None => default,
            }
        },
        None => default,
    }
}

/// The positions of the `false` flags, in order.
pub open spec fn unset_positions(flags: Seq<bool>) -> Seq<int>
    decreases flags.len(),
{
    if flags.len() == 0 {
        Seq::empty()
    } else if !flags.last() {
        unset_positions(flags.drop_last()).push(flags.len() - 1)
    } else {
        unset_positions(flags.drop_last())
    }
}

/// The positions of the stored episodes that were not downloaded before,
/// given the `was downloaded` flag of each: the ones an automatic download
/// fetches.
pub fn pending_downloads(was_downloaded: &[bool]) -> (r: Vec<usize>)
    ensures
        r@.len() == unset_positions(was_downloaded@).len(),
        forall|k: int| 0 <= k < r@.len() ==> #[trigger] r@[k] as int == unset_positions(was_downloaded@)[k],
{
    let mut r: Vec<usize> = Vec::new();
    let mut i: usize = 0;
    while i < was_downloaded.len()
        invariant
            i <= was_downloaded@.len(),
            r@.len() == unset_positions(was_downloaded@.take(i as int)).len(),
            forall|k: int|
                0 <= k < r@.len() ==> #[trigger] r@[k] as int == unset_positions(
                    was_downloaded@.take(i as int),
                )[k],
        decreases was_downloaded@.len() - i,
    {
        assert(was_downloaded@.take(i + 1).drop_last() == was_downloaded@.take(i as int));
        if !was_downloaded[i] {
            r.push(i);
        }
        i = i + 1;
    }
    assert(was_downloaded@.take(was_downloaded@.len() as int) == was_downloaded@);
    r
}

/// A download path starts with the download folder: the sanitized show
/// and episode names hold no `/`, so neither replaces the folder.
pub proof fn lemma_download_path_in_folder(download_dir: Seq<char>, show_title: Seq<char>, episode_title: Seq<char>)
    ensures
        download_dir.is_prefix_of(download_path_spec(download_dir, show_title, episode_title)),
{
    lemma_sanitized_shape(show_title);
    lemma_sanitized_shape(episode_title);
    let show = sanitized(show_title);
    let dir = joined(download_dir, show);
    let file = sanitized(episode_title) + ".mp3"@;
    if show.len() > 0 {
        assert(show[0] != '/');
    }
    assert(download_dir.is_prefix_of(dir)) by {
        assert(dir.subrange(0, download_dir.len() as int) =~= download_dir);
    }
    if file.len() > 0 && sanitized(episode_title).len() > 0 {
        assert(file[0] == sanitized(episode_title)[0]);
        assert(file[0] != '/');
    }
    if sanitized(episode_title).len() == 0 {
        reveal_strlit(".mp3");
        assert(file[0] == '.');
    }
    let full = joined(dir, file);
    assert(dir.is_prefix_of(full)) by {
        assert(full.subrange(0, dir.len() as int) =~= dir);
    }
    assert(full.subrange(0, download_dir.len() as int) =~= download_dir) by {
        assert forall|k: int| 0 <= k < download_dir.len() implies #[trigger] full.subrange(
            0,
            download_dir.len() as int,
        )[k] == download_dir[k] by {
            assert(full[k] == dir[k]);
            assert(dir[k] == download_dir[k]);
        }
    }
}

/// The Unplayed filter looks at the played flag alone, the Downloaded
/// filter at the downloaded flag alone, and All shows everything.
pub proof fn lemma_filters(played: bool, downloaded: bool)
    ensures
        shown_by(EpisodeFilter::All, played, downloaded),
        shown_by(EpisodeFilter::Unplayed, played, downloaded) == !played,
        shown_by(EpisodeFilter::Downloaded, played, downloaded) == downloaded,
        shown_by(EpisodeFilter::Unplayed, played, true) == shown_by(
            EpisodeFilter::Unplayed,
            played,
            false,
        ),
{
}

/// The address of any feed in the list, at any position, counts as
/// subscribed, so typing it (with or without surrounding white space) is
/// refused as `Already subscribed`; an address that is accepted differs
/// from every subscribed one.
pub proof fn lemma_subscribed_refused(feeds: Seq<Feed>, i: int, input: Seq<char>)
    requires
        0 <= i < feeds.len(),
    ensures
        subscribed(feeds, feeds[i].url@),
        crate::text::trim(input) == feeds[i].url@ && feeds[i].url@.len() > 0 ==> new_feed_check(
            input,
            feeds,
        ) == Err::<Seq<char>, Seq<char>>("Already subscribed"@),
        new_feed_check(input, feeds) is Ok ==> feeds[i].url@ != new_feed_check(input, feeds)->Ok_0,
{
}

/// The month names are the twelve English abbreviations in calendar order,
/// three letters each, no two alike, and a calendar date starts with its
/// month's name.
pub proof fn lemma_month_names(y: int, m: int, d: int)
    ensures
        month_abbrev(1) == seq!['J', 'a', 'n'],
        month_abbrev(2) == seq!['F', 'e', 'b'],
        month_abbrev(3) == seq!['M', 'a', 'r'],
        month_abbrev(4) == seq!['A', 'p', 'r'],
        month_abbrev(5) == seq!['M', 'a', 'y'],
        month_abbrev(6) == seq!['J', 'u', 'n'],
        month_abbrev(7) == seq!['J', 'u', 'l'],
        month_abbrev(8) == seq!['A', 'u', 'g'],
        month_abbrev(9) == seq!['S', 'e', 'p'],
        month_abbrev(10) == seq!['O', 'c', 't'],
        month_abbrev(11) == seq!['N', 'o', 'v'],
        month_abbrev(12) == seq!['D', 'e', 'c'],
        forall|a: int, b: int|
            1 <= a < b <= 12 ==> #[trigger] month_abbrev(a) != #[trigger] month_abbrev(b),
        month_abbrev(m).is_prefix_of(calendar_text(y, m, d)),
{
    reveal_strlit("Jan");
    reveal_strlit("Feb");
    reveal_strlit("Mar");
    reveal_strlit("Apr");
    reveal_strlit("May");
    reveal_strlit("Jun");
    reveal_strlit("Jul");
    reveal_strlit("Aug");
    reveal_strlit("Sep");
    reveal_strlit("Oct");
    reveal_strlit("Nov");
    reveal_strlit("Dec");
    assert(month_abbrev(1) =~= seq!['J', 'a', 'n']);
    assert(month_abbrev(2) =~= seq!['F', 'e', 'b']);
    assert(month_abbrev(3) =~= seq!['M', 'a', 'r']);
    assert(month_abbrev(4) =~= seq!['A', 'p', 'r']);
    assert(month_abbrev(5) =~= seq!['M', 'a', 'y']);
    assert(month_abbrev(6) =~= seq!['J', 'u', 'n']);
    assert(month_abbrev(7) =~= seq!['J', 'u', 'l']);
    assert(month_abbrev(8) =~= seq!['A', 'u', 'g']);
    assert(month_abbrev(9) =~= seq!['S', 'e', 'p']);
    assert(month_abbrev(10) =~= seq!['O', 'c', 't']);
    assert(month_abbrev(11) =~= seq!['N', 'o', 'v']);
    assert(month_abbrev(12) =~= seq!['D', 'e', 'c']);
    assert forall|a: int, b: int| 1 <= a < b <= 12 implies #[trigger] month_abbrev(a)
        != #[trigger] month_abbrev(b) by {
        if month_abbrev(a) == month_abbrev(b) {
            assert(month_abbrev(a)[0] == month_abbrev(b)[0]);
            assert(month_abbrev(a)[1] == month_abbrev(b)[1]);
            assert(month_abbrev(a)[2] == month_abbrev(b)[2]);
        }
    }
    let c = calendar_text(y, m, d);
    let n = month_abbrev(m);
    assert(c.subrange(0, n.len() as int) =~= n);
}

} // verus!
