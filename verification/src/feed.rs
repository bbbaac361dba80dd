//! Reading a podcast feed: the channel's text fields, and the episodes that
//! its items with an audio enclosure describe.

use vstd::prelude::*;

use crate::text::{chars_of, lemma_split_on_nonempty, parse_i64, parse_i64_spec, split_on, trim, trimmed};
use crate::app::clock_text;
use crate::text::{all_digits, decimal, digit, digit_value, digits_value, is_digit, is_space, padded, trim_end, trim_start, zero_pad};
use crate::types::NewEpisode;
use crate::sync::opt_view;

verus! {

// ---------------------------------------------------------------------------
// Durations such as `1:02:03`
// ---------------------------------------------------------------------------

/// Whether an `i64` computation stays in range.
pub open spec fn in_i64(v: int) -> bool {
    i64::MIN <= v <= i64::MAX
}

/// Whether `h * 3600 + m * 60 + s`, evaluated in `i64` from left to right,
/// never leaves the `i64` range.
pub open spec fn hms_fits(h: int, m: int, s: int) -> bool {
    in_i64(h * 3600) && in_i64(m * 60) && in_i64(h * 3600 + m * 60) && in_i64(
        h * 3600 + m * 60 + s,
    )
}

/// Whether `m * 60 + s`, evaluated in `i64`, never leaves the `i64` range.
pub open spec fn ms_fits(m: int, s: int) -> bool {
    in_i64(m * 60) && in_i64(m * 60 + s)
}

/// A duration as feeds write it: a whole number of seconds, or `h:m:s`, or
/// `m:s`, around surrounding white space; `None` for anything else.
pub open spec fn duration_value(s: Seq<char>) -> Option<int> {
    let t = trim(s);
    match parse_i64_spec(t) {
        Some(v) => Some(v),
        None => {
            let parts = split_on(t, ':');
            if parts.len() == 3 {
                match (
                    parse_i64_spec(parts[0]),
                    parse_i64_spec(parts[1]),
                    parse_i64_spec(parts[2]),
                ) {
                    (Some(h), Some(m), Some(x)) => Some(h * 3600 + m * 60 + x),
                    _ => None,
                }
            } else if parts.len() == 2 {
                match (parse_i64_spec(parts[0]), parse_i64_spec(parts[1])) {
                    (Some(m), Some(x)) => Some(m * 60 + x),
                    _ => None,
                }
            } else {
                None
            }
        },
    }
}

/// Whether reading the duration `s` stays within `i64` arithmetic (where it
/// does not, the computation overflows).
pub open spec fn duration_fits(s: Seq<char>) -> bool {
    let t = trim(s);
    match parse_i64_spec(t) {
        Some(v) => true,
        None => {
            let parts = split_on(t, ':');
            if parts.len() == 3 {
                match (
                    parse_i64_spec(parts[0]),
                    parse_i64_spec(parts[1]),
                    parse_i64_spec(parts[2]),
                ) {
                    (Some(h), Some(m), Some(x)) => hms_fits(h, m, x),
                    _ => true,
                }
            } else if parts.len() == 2 {
                match (parse_i64_spec(parts[0]), parse_i64_spec(parts[1])) {
                    (Some(m), Some(x)) => ms_fits(m, x),
                    _ => true,
                }
            } else {
                true
            }
        },
    }
}

/// The `:`-separated fields of `t`, when there are at most three of them.
fn split_colons(t: &Vec<char>) -> (r: Option<Vec<Vec<char>>>)
    ensures
        match r {
            Some(parts) => parts@.len() <= 3 && parts@.len() == split_on(t@, ':').len() && forall|
                k: int,
            |
                0 <= k < parts@.len() ==> #[trigger] parts@[k]@ == split_on(t@, ':')[k],
            None => split_on(t@, ':').len() > 3,
        },
{
    let mut done: Vec<Vec<char>> = Vec::new();
    let mut cur: Vec<char> = Vec::new();
    let mut i: usize = 0;
    while i < t.len()
        invariant
            i <= t.len(),
            done@.len() <= 2,
            split_on(t@.take(i as int), ':').len() == done@.len() + 1,
            forall|k: int|
                0 <= k < done@.len() ==> #[trigger] done@[k]@ == split_on(t@.take(i as int), ':')[k],
            cur@ == split_on(t@.take(i as int), ':').last(),
        decreases t.len() - i,
    {
        let c = t[i];
        assert(t@.take(i + 1).drop_last() == t@.take(i as int));
        if c == ':' {
            if done.len() == 2 {
                proof {
                    lemma_split_grows(t@, i as int + 1);
                }
                return None;
            }
            done.push(cur);
            cur = Vec::new();
        } else {
            cur.push(c);
        }
        i = i + 1;
    }
    assert(t@.take(t.len() as int) == t@);
    done.push(cur);
    Some(done)
}

proof fn lemma_split_grows(t: Seq<char>, j: int)
    requires
        0 <= j <= t.len(),
        split_on(t.take(j), ':').len() > 3,
    ensures
        split_on(t, ':').len() > 3,
    decreases t.len() - j,
{
    if j < t.len() {
        let a = t.take(j + 1);
        assert(a.drop_last() == t.take(j));
        lemma_split_on_nonempty(t.take(j), ':');
        lemma_split_grows(t, j + 1);
    } else {
        assert(t.take(j) == t);
    }
}

/// Reads a feed's duration: a whole number of seconds, or `h:m:s`, or `m:s`
/// (each field a decimal `i64`), around surrounding white space.
pub fn parse_duration(s: &str) -> (r: Option<i64>)
    requires
        duration_fits(s@),
    ensures
        match r {
            Some(v) => duration_value(s@) == Some(v as int),
            None => duration_value(s@) is None,
        },
{
    let cs = chars_of(s);
    let t_str = trimmed(&cs);
    let t = chars_of(t_str.as_str());
    if let Some(secs) = parse_i64(&t) {
        return Some(secs);
    }
    let parts = match split_colons(&t) {
        Some(p) => p,
        None => return None,
    };
    if parts.len() == 3 {
        let h = match parse_i64(&parts[0]) {
            Some(v) => v,
            None => return None,
        };
        let m = match parse_i64(&parts[1]) {
            Some(v) => v,
            None => return None,
        };
        let x = match parse_i64(&parts[2]) {
            Some(v) => v,
            None => return None,
        };
        Some(h * 3600 + m * 60 + x)
    } else if parts.len() == 2 {
        let m = match parse_i64(&parts[0]) {
            Some(v) => v,
            None => return None,
        };
        let x = match parse_i64(&parts[1]) {
            Some(v) => v,
            None => return None,
        };
        Some(m * 60 + x)
    } else {
        None
    }
}

// ---------------------------------------------------------------------------
// Feed items
// ---------------------------------------------------------------------------

/// An item's enclosure: the attached media file and its MIME type.
#[derive(Debug, Clone)]
pub struct RssEnclosure {
    pub mime_type: String,
    pub url: String,
}

/// What the client reads of a feed item.
#[derive(Debug, Clone)]
pub struct RssItem {
    /// The value of the item's `guid`, when it has one.
    pub guid: Option<String>,
    pub link: Option<String>,
    pub title: Option<String>,
    pub description: Option<String>,
    pub pub_date: Option<String>,
    pub enclosure: Option<RssEnclosure>,
    /// The text of the first `itunes:duration` extension element filed
    /// under the `itunes` prefix, when it has text.
    pub itunes_duration: Option<String>,
}

/// What the client reads of a feed: the channel's title, description and
/// image address, and its items.
#[derive(Debug)]
pub struct FeedData {
    pub title: String,
    pub description: String,
    pub image_url: String,
    pub items: Vec<RssItem>,
}

/// The text of an optional string, empty when absent.
pub open spec fn or_empty(s: Option<String>) -> Seq<char> {
    match s {
        Some(x) => x@,
        None => Seq::empty(),
    }
}

/// An item's identifier: its guid, or its link where the guid is missing
/// or empty.
pub open spec fn item_guid(item: RssItem) -> Seq<char> {
    if or_empty(item.guid).len() == 0 {
        or_empty(item.link)
    } else {
        or_empty(item.guid)
    }
}

/// Whether an enclosure is audio: an `audio/` MIME type, or an address
/// ending in `.mp3`, `.m4a` or `.ogg`.
pub open spec fn is_audio(mime_type: Seq<char>, url: Seq<char>) -> bool {
    ||| "audio/"@.is_prefix_of(mime_type)
    ||| ".mp3"@.is_suffix_of(url)
    ||| ".m4a"@.is_suffix_of(url)
    ||| ".ogg"@.is_suffix_of(url)
}

/// The audio address of an item: its enclosure's address when that is
/// audio, else empty.
pub open spec fn item_audio_url(item: RssItem) -> Seq<char> {
    match item.enclosure {
        Some(e) => if is_audio(e.mime_type@, e.url@) {
            e.url@
        } else {
            Seq::empty()
        },
        None => Seq::empty(),
    }
}

/// An item's length in seconds, read from its `itunes:duration`.
pub open spec fn item_duration(item: RssItem) -> Option<int> {
    match item.itunes_duration {
        Some(d) => duration_value(d@),
        None => None,
    }
}

/// Whether reading the item's duration stays within `i64` arithmetic.
pub open spec fn item_duration_fits(item: RssItem) -> bool {
    match item.itunes_duration {
        Some(d) => duration_fits(d@),
        None => true,
    }
}

/// Whether `ep` is the episode that `item` describes (with feed id `0`).
pub open spec fn describes(item: RssItem, ep: NewEpisode) -> bool {
    &&& ep.feed_id == 0
    &&& ep.guid@ == item_guid(item)
    &&& ep.title@ == or_empty(item.title)
    &&& ep.description@ == or_empty(item.description)
    &&& ep.pub_date@ == or_empty(item.pub_date)
    &&& ep.audio_url@ == item_audio_url(item)
    &&& match ep.duration_secs {
        Some(v) => item_duration(item) == Some(v as int),
        None => item_duration(item) is None,
    }
}

fn text_or_empty(s: &Option<String>) -> (r: String)
    ensures
        r@ == or_empty(*s),
{
    match s {
        Some(x) => x.clone(),
        None => String::new(),
    }
}

fn starts_with_chars(s: &Vec<char>, p: &str) -> (r: bool)
    ensures
        r == p@.is_prefix_of(s@),
{
    let pc = chars_of(p);
    if pc.len() > s.len() {
        return false;
    }
    let mut i: usize = 0;
    while i < pc.len()
        invariant
            i <= pc.len() <= s.len(),
            pc@ == p@,
            forall|k: int| 0 <= k < i ==> #[trigger] pc@[k] == s@[k],
        decreases pc.len() - i,
    {
        if pc[i] != s[i] {
            assert(!(pc@ =~= s@.subrange(0, pc@.len() as int))) by {
                assert(s@.subrange(0, pc@.len() as int)[i as int] == s@[i as int]);
            }
            return false;
        }
        i = i + 1;
    }
    assert(pc@ =~= s@.subrange(0, pc@.len() as int));
    true
}

fn ends_with_chars(s: &Vec<char>, p: &str) -> (r: bool)
    ensures
        r == p@.is_suffix_of(s@),
{
    let pc = chars_of(p);
    if pc.len() > s.len() {
        return false;
    }
    let off = s.len() - pc.len();
    let mut i: usize = 0;
    while i < pc.len()
        invariant
            i <= pc.len() <= s.len(),
            off == s.len() - pc.len(),
            pc@ == p@,
            forall|k: int| 0 <= k < i ==> #[trigger] pc@[k] == s@[off + k],
        decreases pc.len() - i,
    {
        if pc[i] != s[off + i] {
            assert(!(pc@ =~= s@.subrange(off as int, s@.len() as int))) by {
                assert(s@.subrange(off as int, s@.len() as int)[i as int] == s@[off + i]);
            }
            return false;
        }
        i = i + 1;
    }
    assert(pc@ =~= s@.subrange(off as int, s@.len() as int));
    true
}

/// Whether an enclosure with this MIME type and address is audio.
pub fn enclosure_is_audio(mime_type: &str, url: &str) -> (r: bool)
    ensures
        r == is_audio(mime_type@, url@),
{
    let m = chars_of(mime_type);
    let u = chars_of(url);
    starts_with_chars(&m, "audio/") || ends_with_chars(&u, ".mp3") || ends_with_chars(&u, ".m4a")
        || ends_with_chars(&u, ".ogg")
}

/// Whether reading the item's duration stays within `i64` arithmetic, so
/// that `episode_from_item` may be called on it.
pub fn duration_in_range(item: &RssItem) -> (r: bool)
    ensures
        r == item_duration_fits(*item),
{
    match &item.itunes_duration {
        Some(d) => duration_fits_exec(d.as_str()),
        None => true,
    }
}

fn duration_fits_exec(s: &str) -> (r: bool)
    ensures
        r == duration_fits(s@),
{
    let cs = chars_of(s);
    let t_str = trimmed(&cs);
    let t = chars_of(t_str.as_str());
    if parse_i64(&t).is_some() {
        return true;
    }
    let parts = match split_colons(&t) {
        Some(p) => p,
        None => return true,
    };
    if parts.len() == 3 {
        match (parse_i64(&parts[0]), parse_i64(&parts[1]), parse_i64(&parts[2])) {
            (Some(h), Some(m), Some(x)) => {
                let h = h as i128;
                let m = m as i128;
                let x = x as i128;
                let lo = i64::MIN as i128;
                let hi = i64::MAX as i128;
                lo <= h * 3600 && h * 3600 <= hi && lo <= m * 60 && m * 60 <= hi && lo <= h * 3600
                    + m * 60 && h * 3600 + m * 60 <= hi && lo <= h * 3600 + m * 60 + x && h * 3600
                    + m * 60 + x <= hi
            },
            _ => true,
        }
    } else if parts.len() == 2 {
        match (parse_i64(&parts[0]), parse_i64(&parts[1])) {
            (Some(m), Some(x)) => {
                let m = m as i128;
                let x = x as i128;
                let lo = i64::MIN as i128;
                let hi = i64::MAX as i128;
                lo <= m * 60 && m * 60 <= hi && lo <= m * 60 + x && m * 60 + x <= hi
            },
            _ => true,
        }
    } else {
        true
    }
}

/// The episode an item describes, if it has an audio enclosure: guid (or
/// link), title, description, publication date, `itunes:duration` and audio
/// address, with feed id `0`.
pub fn episode_from_item(item: &RssItem) -> (r: Option<NewEpisode>)
    requires
        item_duration_fits(*item),
    ensures
        match r {
            Some(ep) => item_audio_url(*item).len() > 0 && describes(*item, ep),
            None => item_audio_url(*item).len() == 0,
        },
{
    let guid = text_or_empty(&item.guid);
    let guid = if guid.as_str().is_empty() {
        text_or_empty(&item.link)
    } else {
        guid
    };
    let title = text_or_empty(&item.title);
    let description = text_or_empty(&item.description);
    let pub_date = text_or_empty(&item.pub_date);
    let audio_url = match &item.enclosure {
        Some(e) => {
            if enclosure_is_audio(e.mime_type.as_str(), e.url.as_str()) {
                e.url.clone()
            } else {
                String::new()
            }
        },
        None => String::new(),
    };
    let duration_secs = match &item.itunes_duration {
        Some(d) => parse_duration(d.as_str()),
        None => None,
    };
    if audio_url.as_str().is_empty() {
        return None;
    }
    Some(NewEpisode { feed_id: 0, guid, title, description, pub_date, duration_secs, audio_url })
}

/// The indices of the items that describe an episode (those with an audio
/// enclosure), in order.
pub open spec fn episode_items(items: Seq<RssItem>) -> Seq<int>
    decreases items.len(),
{
    if items.len() == 0 {
        Seq::empty()
    } else if item_audio_url(items.last()).len() > 0 {
        episode_items(items.drop_last()).push(items.len() - 1)
    } else {
        episode_items(items.drop_last())
    }
}

/// The episodes of a feed's items, in order, one for each item with an
/// audio enclosure.
pub fn episodes_from_items(items: &Vec<RssItem>) -> (r: Vec<NewEpisode>)
    requires
        forall|i: int| 0 <= i < items@.len() ==> item_duration_fits(#[trigger] items@[i]),
    ensures
        r@.len() == episode_items(items@).len(),
        forall|k: int|
            0 <= k < r@.len() ==> describes(items@[episode_items(items@)[k]], #[trigger] r@[k]),
{
    let mut r: Vec<NewEpisode> = Vec::new();
    let mut i: usize = 0;
    while i < items.len()
        invariant
            i <= items.len(),
            forall|j: int| 0 <= j < items@.len() ==> item_duration_fits(#[trigger] items@[j]),
            r@.len() == episode_items(items@.take(i as int)).len(),
            forall|k: int|
                0 <= k < r@.len() ==> describes(
                    items@[episode_items(items@.take(i as int))[k]],
                    #[trigger] r@[k],
                ),
            forall|k: int|
                0 <= k < episode_items(items@.take(i as int)).len() ==> 0 <= #[trigger] episode_items(
                    items@.take(i as int),
                )[k] < i,
        decreases items.len() - i,
    {
        let ghost prev = items@.take(i as int);
        let ghost next = items@.take(i + 1);
        assert(next.drop_last() == prev);
        assert(next.last() == items@[i as int]);
        let ep = episode_from_item(&items[i]);
        match ep {
            Some(e) => {
                r.push(e);
            },
            None => {},
        }
        assert forall|k: int| 0 <= k < episode_items(prev).len() implies #[trigger] next[episode_items(
            prev,
        )[k]] == items@[episode_items(prev)[k]] by {
            let x = episode_items(prev)[k];
            assert(0 <= x < i);
        }
        i = i + 1;
    }
    assert(items@.take(items.len() as int) == items@);
    r
}

// ---------------------------------------------------------------------------
// Reading the feed document
// ---------------------------------------------------------------------------

#[verifier::external_type_specification]
#[verifier::external_body]
pub struct ExChannel(rss::Channel);

#[verifier::external_type_specification]
#[verifier::external_body]
pub struct ExItem(rss::Item);

#[verifier::external_type_specification]
#[verifier::external_body]
pub struct ExRssError(rss::Error);

/// A channel that the `rss` crate read; its view is the document it was
/// read from.
struct RssChannel {
    channel: rss::Channel,
    source: Ghost<Seq<u8>>,
}

impl View for RssChannel {
    type V = Seq<u8>;

    closed spec fn view(&self) -> Seq<u8> {
        self.source@
    }
}

/// Why the `rss` crate did not read a document; its view is that document.
struct RssReadError {
    error: rss::Error,
    source: Ghost<Seq<u8>>,
}

impl View for RssReadError {
    type V = Seq<u8>;

    closed spec fn view(&self) -> Seq<u8> {
        self.source@
    }
}

/// An item of a channel that the `rss` crate read; its view is the document
/// and the item's position among the channel's items.
struct RssItemRef<'a> {
    item: &'a rss::Item,
    source: Ghost<(Seq<u8>, int)>,
}

impl<'a> View for RssItemRef<'a> {
    type V = (Seq<u8>, int);

    closed spec fn view(&self) -> (Seq<u8>, int) {
        self.source@
    }
}

/// Whether `rss::Channel::read_from` reads the document as an RSS channel.
pub uninterp spec fn rss_accepts(doc: Seq<u8>) -> bool;

/// The `Display` text of the `rss::Error` that `rss::Channel::read_from`
/// gives for a document it does not read.
pub uninterp spec fn rss_error_message(doc: Seq<u8>) -> Seq<char>;

/// `rss::Channel::title` of the channel read from the document.
pub uninterp spec fn rss_title(doc: Seq<u8>) -> Seq<char>;

/// `rss::Channel::description` of the channel read from the document.
pub uninterp spec fn rss_description(doc: Seq<u8>) -> Seq<char>;

/// The address of `rss::Channel::image` of the channel read from the
/// document, when it has an image.
pub uninterp spec fn rss_image_url(doc: Seq<u8>) -> Option<Seq<char>>;

/// How many items `rss::Channel::items` holds for the channel read from the
/// document.
pub uninterp spec fn rss_item_count(doc: Seq<u8>) -> nat;

/// The value of `rss::Item::guid` of an item (document and position).
pub uninterp spec fn rss_item_guid(item: (Seq<u8>, int)) -> Option<Seq<char>>;

/// `rss::Item::link` of an item (document and position).
pub uninterp spec fn rss_item_link(item: (Seq<u8>, int)) -> Option<Seq<char>>;

/// `rss::Item::title` of an item (document and position).
pub uninterp spec fn rss_item_title(item: (Seq<u8>, int)) -> Option<Seq<char>>;

/// `rss::Item::description` of an item (document and position).
pub uninterp spec fn rss_item_description(item: (Seq<u8>, int)) -> Option<Seq<char>>;

/// `rss::Item::pub_date` of an item (document and position).
pub uninterp spec fn rss_item_pub_date(item: (Seq<u8>, int)) -> Option<Seq<char>>;

/// The MIME type and address of `rss::Item::enclosure` of an item (document
/// and position), when it has an enclosure.
pub uninterp spec fn rss_item_enclosure(item: (Seq<u8>, int)) -> Option<(Seq<char>, Seq<char>)>;

/// From `rss::Item::extensions` of an item (document and position), the
/// text of the first `duration` element filed under the `itunes` prefix.
pub uninterp spec fn rss_item_itunes_duration(item: (Seq<u8>, int)) -> Option<Seq<char>>;

/// `rss::Channel::read_from` on the document: the channel, or the reason it
/// is not one, each kept with the document it came from. Whether it
/// succeeds is named `rss_accepts`.
#[verifier::external_body]
fn read_channel(bytes: &[u8]) -> (r: Result<RssChannel, RssReadError>)
    ensures
        r is Ok == rss_accepts(bytes@),
        match r {
            Ok(c) => c@ == bytes@,
            Err(e) => e@ == bytes@,
        },
{
    match rss::Channel::read_from(std::io::BufReader::new(bytes)) {
        Ok(channel) => Ok(RssChannel { channel, source: Ghost(bytes@) }),
        Err(error) => Err(RssReadError { error, source: Ghost(bytes@) }),
    }
}

/// `rss::Error`'s `Display` text, named `rss_error_message` of the document.
#[verifier::external_body]
fn rss_error_text(e: &RssReadError) -> (r: String)
    ensures
        r@ == rss_error_message(e@),
{
    format!("{}", e.error)
}

/// `rss::Channel::title`, named `rss_title` of the document.
#[verifier::external_body]
fn channel_title(c: &RssChannel) -> (r: String)
    ensures
        r@ == rss_title(c@),
{
    c.channel.title().to_string()
}

/// `rss::Channel::description`, named `rss_description` of the document.
#[verifier::external_body]
fn channel_description(c: &RssChannel) -> (r: String)
    ensures
        r@ == rss_description(c@),
{
    c.channel.description().to_string()
}

/// `rss::Channel::image`'s address, named `rss_image_url` of the document.
#[verifier::external_body]
fn channel_image_url(c: &RssChannel) -> (r: Option<String>)
    ensures
        opt_view(r) == rss_image_url(c@),
{
    c.channel.image().map(|i| i.url().to_string())
}

/// `rss::Channel::items`, each item kept with its position; how many there
/// are is named `rss_item_count` of the document.
#[verifier::external_body]
fn channel_items<'a>(c: &'a RssChannel) -> (r: Vec<RssItemRef<'a>>)
    ensures
        r@.len() == rss_item_count(c@),
        forall|k: int| 0 <= k < r@.len() ==> #[trigger] r@[k]@ == (c@, k),
{
    c.channel.items().iter().enumerate().map(|(k, item)| RssItemRef { item, source: Ghost((c@, k as int)) }).collect()
}

/// `rss::Item::guid`'s value, named `rss_item_guid` of the item.
#[verifier::external_body]
fn item_guid_text(it: &RssItemRef) -> (r: Option<String>)
    ensures
        opt_view(r) == rss_item_guid(it@),
{
    it.item.guid().map(|g| g.value().to_string())
}

/// `rss::Item::link`, named `rss_item_link` of the item.
#[verifier::external_body]
fn item_link_text(it: &RssItemRef) -> (r: Option<String>)
    ensures
        opt_view(r) == rss_item_link(it@),
{
    it.item.link().map(|s| s.to_string())
}

/// `rss::Item::title`, named `rss_item_title` of the item.
#[verifier::external_body]
fn item_title_text(it: &RssItemRef) -> (r: Option<String>)
    ensures
        opt_view(r) == rss_item_title(it@),
{
    it.item.title().map(|s| s.to_string())
}

/// `rss::Item::description`, named `rss_item_description` of the item.
#[verifier::external_body]
fn item_description_text(it: &RssItemRef) -> (r: Option<String>)
    ensures
        opt_view(r) == rss_item_description(it@),
{
    it.item.description().map(|s| s.to_string())
}

/// `rss::Item::pub_date`, named `rss_item_pub_date` of the item.
#[verifier::external_body]
fn item_pub_date_text(it: &RssItemRef) -> (r: Option<String>)
    ensures
        opt_view(r) == rss_item_pub_date(it@),
{
    it.item.pub_date().map(|s| s.to_string())
}

/// `rss::Item::enclosure`'s MIME type and address, named
/// `rss_item_enclosure` of the item.
#[verifier::external_body]
fn item_enclosure(it: &RssItemRef) -> (r: Option<RssEnclosure>)
    ensures
        match r {
            Some(e) => rss_item_enclosure(it@) == Some((e.mime_type@, e.url@)),
            None => rss_item_enclosure(it@) is None,
        },
{
    it.item.enclosure().map(|e| RssEnclosure { mime_type: e.mime_type().to_string(), url: e.url().to_string() })
}

/// From `rss::Item::extensions`, the text of the first `duration` element
/// filed under the `itunes` prefix, named `rss_item_itunes_duration` of the
/// item.
#[verifier::external_body]
fn item_itunes_duration(it: &RssItemRef) -> (r: Option<String>)
    ensures
        opt_view(r) == rss_item_itunes_duration(it@),
{
    it.item.extensions().get("itunes").and_then(|m| m.get("duration")).and_then(|v| v.first()).and_then(
        |e| e.value.clone(),
    )
}

/// Whether `r` holds what the `rss` crate read as `item` (document and
/// position).
pub open spec fn item_read(item: (Seq<u8>, int), r: RssItem) -> bool {
    &&& opt_view(r.guid) == rss_item_guid(item)
    &&& opt_view(r.link) == rss_item_link(item)
    &&& opt_view(r.title) == rss_item_title(item)
    &&& opt_view(r.description) == rss_item_description(item)
    &&& opt_view(r.pub_date) == rss_item_pub_date(item)
    &&& match r.enclosure {
        Some(e) => rss_item_enclosure(item) == Some((e.mime_type@, e.url@)),
        None => rss_item_enclosure(item) is None,
    }
    &&& opt_view(r.itunes_duration) == rss_item_itunes_duration(item)
}

/// Whether `d` holds what the `rss` crate read from the document: the
/// channel's title, description and image address (empty without an
/// image), and each of its items in order.
pub open spec fn feed_read(doc: Seq<u8>, d: FeedData) -> bool {
    &&& d.title@ == rss_title(doc)
    &&& d.description@ == rss_description(doc)
    &&& d.image_url@ == match rss_image_url(doc) {
        Some(u) => u,
        None => Seq::empty(),
    }
    &&& d.items@.len() == rss_item_count(doc)
    &&& forall|i: int| 0 <= i < d.items@.len() ==> item_read((doc, i), #[trigger] d.items@[i])
}

fn item_of(it: &RssItemRef) -> (r: RssItem)
    ensures
        item_read(it@, r),
{
    RssItem {
        guid: item_guid_text(it),
        link: item_link_text(it),
        title: item_title_text(it),
        description: item_description_text(it),
        pub_date: item_pub_date_text(it),
        enclosure: item_enclosure(it),
        itunes_duration: item_itunes_duration(it),
    }
}

/// Reads an RSS document: the channel's title, description and image
/// address (empty without an image), and its items in order. A document the
/// `rss` crate does not read is an error `Failed to parse RSS: <reason>`.
pub fn read_feed(bytes: &[u8]) -> (r: Result<FeedData, String>)
    ensures
        r is Ok == rss_accepts(bytes@),
        match r {
            Ok(d) => feed_read(bytes@, d),
            Err(e) => e@ == "Failed to parse RSS: "@ + rss_error_message(bytes@),
        },
{
    let channel = match read_channel(bytes) {
        Ok(c) => c,
        Err(e) => {
            let reason = rss_error_text(&e);
            let mut msg = String::from_str("Failed to parse RSS: ");
            msg.append(reason.as_str());
            return Err(msg);
        },
    };
    let title = channel_title(&channel);
    let description = channel_description(&channel);
    let image = channel_image_url(&channel);
    let image_url = text_or_empty(&image);
    let raw = channel_items(&channel);
    let mut items: Vec<RssItem> = Vec::new();
    let mut i: usize = 0;
    while i < raw.len()
        invariant
            i <= raw@.len(),
            raw@.len() == rss_item_count(bytes@),
            forall|k: int| 0 <= k < raw@.len() ==> #[trigger] raw@[k]@ == (bytes@, k),
            items@.len() == i,
            forall|k: int| 0 <= k < i ==> item_read((bytes@, k), #[trigger] items@[k]),
        decreases raw@.len() - i,
    {
        let item = item_of(&raw[i]);
        items.push(item);
        i = i + 1;
    }
    Ok(FeedData { title, description, image_url, items })
}

/// Whether reading every item's duration stays within `i64` arithmetic.
pub fn durations_in_range(items: &Vec<RssItem>) -> (r: bool)
    ensures
        r == forall|i: int| 0 <= i < items@.len() ==> item_duration_fits(#[trigger] items@[i]),
{
    let mut i: usize = 0;
    while i < items.len()
        invariant
            i <= items@.len(),
            forall|j: int| 0 <= j < i ==> item_duration_fits(#[trigger] items@[j]),
        decreases items@.len() - i,
    {
        if !duration_in_range(&items[i]) {
            return false;
        }
        i = i + 1;
    }
    true
}

// ---------------------------------------------------------------------------
// Round trip: a displayed length reads back as the same number of seconds
// ---------------------------------------------------------------------------

proof fn lemma_decimal_digits(n: nat)
    ensures
        all_digits(decimal(n)),
        digits_value(decimal(n)) == n,
        decimal(n).len() >= 1,
    decreases n,
{
    if n >= 10 {
        lemma_decimal_digits(n / 10);
        let d = decimal(n / 10);
        let e = d.push(digit(n % 10));
        assert(e.drop_last() == d);
        assert(digit_value(digit((n % 10) as nat)) == n % 10);
        assert((n / 10) * 10 + n % 10 == n) by (nonlinear_arith);
        assert(decimal(n) == e);
        assert(e.last() == digit((n % 10) as nat));
        assert(digits_value(e) == digits_value(d) * 10 + digit_value(e.last()));
        assert forall|i: int| 0 <= i < e.len() implies is_digit(#[trigger] e[i]) by {
            if i < d.len() {
                assert(e[i] == d[i]);
            }
        }
    } else {
        assert(seq![digit(n)].drop_last() =~= Seq::<char>::empty());
        assert(digit_value(digit(n)) == n);
        let e = seq![digit(n)];
        assert(decimal(n) == e);
        assert(digits_value(e.drop_last()) == 0);
        assert(digits_value(e) == digits_value(e.drop_last()) * 10 + digit_value(e.last()));
    }
}

proof fn lemma_zeros_value(k: nat)
    ensures
        all_digits(Seq::new(k, |i: int| '0')),
        digits_value(Seq::new(k, |i: int| '0')) == 0,
    decreases k,
{
    if k > 0 {
        lemma_zeros_value((k - 1) as nat);
        assert(Seq::new(k, |i: int| '0').drop_last() =~= Seq::new((k - 1) as nat, |i: int| '0'));
    }
}

proof fn lemma_digits_value_concat(z: Seq<char>, d: Seq<char>)
    requires
        digits_value(z) == 0,
    ensures
        digits_value(z + d) == digits_value(d),
    decreases d.len(),
{
    if d.len() == 0 {
        assert(z + d =~= z);
    } else {
        lemma_digits_value_concat(z, d.drop_last());
        assert((z + d).drop_last() =~= z + d.drop_last());
        assert((z + d).last() == d.last());
    }
}

proof fn lemma_padded_parses(n: nat, w: nat)
    requires
        n <= i64::MAX,
    ensures
        parse_i64_spec(padded(n, w)) == Some(n as int),
        padded(n, w).len() >= 1,
        all_digits(padded(n, w)),
{
    lemma_decimal_digits(n);
    let d = decimal(n);
    let p = padded(n, w);
    if d.len() < w {
        let z = Seq::new((w - d.len()) as nat, |i: int| '0');
        lemma_zeros_value((w - d.len()) as nat);
        lemma_digits_value_concat(z, d);
        assert(p == z + d);
        assert forall|i: int| 0 <= i < p.len() implies is_digit(#[trigger] p[i]) by {
            if i < z.len() {
                assert(p[i] == z[i]);
            } else {
                assert(p[i] == d[i - z.len()]);
            }
        }
    }
    assert(is_digit(p[0]));
}

proof fn lemma_split_plain(a: Seq<char>)
    requires
        forall|i: int| 0 <= i < a.len() ==> #[trigger] a[i] != ':',
    ensures
        split_on(a, ':') == seq![a],
    decreases a.len(),
{
    if a.len() > 0 {
        let b = a.drop_last();
        assert forall|i: int| 0 <= i < b.len() implies #[trigger] b[i] != ':' by {
            assert(b[i] == a[i]);
        }
        lemma_split_plain(b);
        assert(a[a.len() - 1] != ':');
        assert(b.push(a.last()) == a);
        assert(seq![b].update(0, b.push(a.last())) =~= seq![a]);
    } else {
        assert(a == Seq::<char>::empty());
    }
}

proof fn lemma_split_then(a: Seq<char>, b: Seq<char>)
    requires
        forall|i: int| 0 <= i < b.len() ==> #[trigger] b[i] != ':',
    ensures
        split_on(a + seq![':'] + b, ':') == split_on(a, ':').push(b),
    decreases b.len(),
{
    if b.len() == 0 {
        assert(a + seq![':'] + b =~= a.push(':'));
        assert((a.push(':')).drop_last() =~= a);
        assert(b =~= Seq::<char>::empty());
    } else {
        let c = b.last();
        let b2 = b.drop_last();
        assert forall|i: int| 0 <= i < b2.len() implies #[trigger] b2[i] != ':' by {
            assert(b2[i] == b[i]);
        }
        lemma_split_then(a, b2);
        assert(b[b.len() - 1] != ':');
        let t = a + seq![':'] + b;
        assert(t.drop_last() =~= a + seq![':'] + b2);
        assert(t.last() == c);
        let s = split_on(a, ':').push(b2);
        assert(b2.push(c) =~= b);
        assert(s.update(s.len() - 1, b) =~= split_on(a, ':').push(b));
    }
}

proof fn lemma_no_colon_in_digits(d: Seq<char>)
    requires
        all_digits(d),
    ensures
        forall|i: int| 0 <= i < d.len() ==> #[trigger] d[i] != ':',
{
    assert forall|i: int| 0 <= i < d.len() implies #[trigger] d[i] != ':' by {
        assert(is_digit(d[i]));
    }
}

proof fn lemma_digit_edges_trimmed(t: Seq<char>)
    requires
        t.len() >= 1,
        is_digit(t[0]),
        is_digit(t.last()),
    ensures
        trim(t) == t,
{
    assert(!is_space(t[0]));
    assert(trim_start(t) == t);
    assert(!is_space(t.last()));
    assert(trim_end(t) == t);
}

/// A length displayed by `format_duration` reads back, with
/// `parse_duration`, as the same number of seconds, without leaving `i64`
/// arithmetic.
pub proof fn lemma_duration_round_trip(secs: int)
    requires
        0 <= secs <= i64::MAX,
    ensures
        duration_fits(clock_text(secs as nat)),
        duration_value(clock_text(secs as nat)) == Some(secs),
{
    let n = secs as nat;
    let h = n / 3600;
    let m = (n % 3600) / 60;
    let x = n % 60;
    assert(h * 3600 + m * 60 + x == n) by (nonlinear_arith)
        requires
            h == n / 3600,
            m == (n % 3600) / 60,
            x == n % 60,
    ;
    assert(h * 3600 <= n && m * 60 <= n && m < 60 && x < 60) by (nonlinear_arith)
        requires
            h == n / 3600,
            m == (n % 3600) / 60,
            x == n % 60,
    ;
    lemma_padded_parses(h, 2);
    lemma_padded_parses(m, 2);
    lemma_padded_parses(x, 2);
    let ph = padded(h, 2);
    let pm = padded(m, 2);
    let px = padded(x, 2);
    lemma_no_colon_in_digits(ph);
    lemma_no_colon_in_digits(pm);
    lemma_no_colon_in_digits(px);
    let t = clock_text(n);
    if h > 0 {
        assert(t == ph + seq![':'] + pm + seq![':'] + px);
        lemma_split_plain(ph);
        lemma_split_then(ph, pm);
        lemma_split_then(ph + seq![':'] + pm, px);
        assert(split_on(t, ':') =~= seq![ph, pm, px]);
        assert(t[0] == ph[0]);
        assert(t.last() == px.last());
        assert(is_digit(px[px.len() - 1]));
        lemma_digit_edges_trimmed(t);
        assert(t[ph.len() as int] == ':');
        assert(!all_digits(t));
        assert(parse_i64_spec(t) is None) by {
            assert(t[0] != '-' && t[0] != '+');
        }
    } else {
        assert(t == pm + seq![':'] + px);
        lemma_split_plain(pm);
        lemma_split_then(pm, px);
        assert(split_on(t, ':') =~= seq![pm, px]);
        assert(t[0] == pm[0]);
        assert(t.last() == px.last());
        assert(is_digit(px[px.len() - 1]));
        lemma_digit_edges_trimmed(t);
        assert(t[pm.len() as int] == ':');
        assert(!all_digits(t));
        assert(parse_i64_spec(t) is None) by {
            assert(t[0] != '-' && t[0] != '+');
        }
    }
}

/// The decimal text of `n` as `i64::to_string` writes it: the digits, with
/// a `-` before those of a negative number.
pub open spec fn signed_decimal(n: int) -> Seq<char> {
    if n < 0 {
        seq!['-'] + decimal((-n) as nat)
    } else {
        decimal(n as nat)
    }
}

/// The decimal text of an `i64` reads back, with `parse_duration`, as the
/// same number of seconds.
pub proof fn lemma_decimal_reads_back(n: int)
    requires
        i64::MIN <= n <= i64::MAX,
    ensures
        duration_fits(signed_decimal(n)),
        duration_value(signed_decimal(n)) == Some(n),
{
    let m: nat = if n < 0 {
        (-n) as nat
    } else {
        n as nat
    };
    lemma_decimal_digits(m);
    let d = decimal(m);
    let t = signed_decimal(n);
    assert(is_digit(d[0]));
    assert(is_digit(d[d.len() - 1]));
    if n < 0 {
        assert(t[0] == '-');
        assert(!is_space('-'));
        assert(trim_start(t) == t);
        assert(t.last() == d.last());
        assert(!is_space(t.last()));
        assert(trim_end(t) == t);
        assert(t.drop_first() =~= d);
        assert(parse_i64_spec(t) == Some(n));
    } else {
        lemma_digit_edges_trimmed(d);
        assert(d[0] != '-' && d[0] != '+');
        assert(parse_i64_spec(t) == Some(n));
    }
}

/// An enclosure is audio whenever its MIME type is any `audio/` type, or
/// its address ends in `.mp3`, `.m4a` or `.ogg`, whatever the other field
/// holds; and an item with such an enclosure has that address as its audio
/// address.
pub proof fn lemma_audio_enclosures(m: Seq<char>, u: Seq<char>, item: RssItem)
    ensures
        "audio/"@.is_prefix_of(m) ==> is_audio(m, u),
        ".mp3"@.is_suffix_of(u) ==> is_audio(m, u),
        ".m4a"@.is_suffix_of(u) ==> is_audio(m, u),
        ".ogg"@.is_suffix_of(u) ==> is_audio(m, u),
        match item.enclosure {
            Some(e) => is_audio(e.mime_type@, e.url@) ==> item_audio_url(item) == e.url@,
            None => item_audio_url(item).len() == 0,
        },
{
}

} // verus!
