//! Copying downloaded episodes to other folders: file names made safe for
//! any file system, and the destination paths built from them.

use vstd::prelude::*;

use crate::paths::{extension_of, joined, path_extension, path_join};
use crate::text::{push_chars, push_char, chars_of, is_space, lemma_trim_idempotent, lemma_trim_shape, trim, trimmed};

verus! {

/// Whether `c` is an ASCII letter or digit.
pub open spec fn is_ascii_alnum(c: char) -> bool {
    ('0' <= c && c <= '9') || ('a' <= c && c <= 'z') || ('A' <= c && c <= 'Z')
}

/// Whether `c` may stand in a file name as it is: ASCII letters and digits,
/// space, `-`, `_` and `.`.
pub open spec fn is_name_char(c: char) -> bool {
    is_ascii_alnum(c) || c == ' ' || c == '-' || c == '_' || c == '.'
}

/// `c` itself where it may stand in a file name, else `_`.
pub open spec fn name_char(c: char) -> char {
    if is_name_char(c) {
        c
    } else {
        '_'
    }
}

/// `s` with every character that may not stand in a file name replaced by
/// `_`, then trimmed.
pub open spec fn sanitized(s: Seq<char>) -> Seq<char> {
    trim(s.map_values(|c: char| name_char(c)))
}

/// Makes `name` safe as a file or folder name: every character other than
/// an ASCII letter or digit, space, `-`, `_` or `.` becomes `_`, and
/// surrounding white space is removed.
pub fn sanitize_filename(name: &str) -> (r: String)
    ensures
        r@ == sanitized(name@),
{
    let cs = chars_of(name);
    let mut mapped: Vec<char> = Vec::new();
    let mut i: usize = 0;
    while i < cs.len()
        invariant
            i <= cs.len(),
            cs@ == name@,
            mapped@ == cs@.take(i as int).map_values(|c: char| name_char(c)),
        decreases cs.len() - i,
    {
        let c = cs[i];
        let ok = ('0' <= c && c <= '9') || ('a' <= c && c <= 'z') || ('A' <= c && c <= 'Z') || c
            == ' ' || c == '-' || c == '_' || c == '.';
        if ok {
            mapped.push(c);
        } else {
            mapped.push('_');
        }
        assert(cs@.take(i + 1).map_values(|c: char| name_char(c)) == cs@.take(i as int).map_values(
            |c: char| name_char(c),
        ).push(name_char(c)));
        i = i + 1;
    }
    assert(cs@.take(cs.len() as int) == cs@);
    trimmed(&mapped)
}

/// A sanitized name consists of file-name characters only (so it holds no
/// path separator) and neither starts nor ends with white space.
pub proof fn lemma_sanitized_shape(s: Seq<char>)
    ensures
        forall|k: int| 0 <= k < sanitized(s).len() ==> is_name_char(#[trigger] sanitized(s)[k]),
        sanitized(s).len() > 0 ==> !is_space(sanitized(s)[0]) && !is_space(sanitized(s).last()),
{
    let m = s.map_values(|c: char| name_char(c));
    lemma_trim_shape(m);
    assert forall|k: int| 0 <= k < sanitized(s).len() implies is_name_char(
        #[trigger] sanitized(s)[k],
    ) by {
        let j = choose|j: int| 0 <= j < m.len() && trim(m)[k] == m[j];
        assert(m[j] == name_char(s[j]));
    }
}

/// Sanitizing a sanitized name changes nothing.
pub proof fn lemma_sanitize_idempotent(s: Seq<char>)
    ensures
        sanitized(sanitized(s)) == sanitized(s),
{
    lemma_sanitized_shape(s);
    let t = sanitized(s);
    assert(t.map_values(|c: char| name_char(c)) =~= t);
    lemma_trim_idempotent(s.map_values(|c: char| name_char(c)));
}

/// The extension a copied episode keeps: its own, or `mp3` where the file
/// name has none.
pub open spec fn kept_extension(ext: Option<Seq<char>>) -> Seq<char> {
    match ext {
        Some(e) => e,
        None => "mp3"@,
    }
}

/// The file name an episode is copied under: its sanitized title, a dot and
/// the extension.
pub open spec fn episode_file_name_spec(title: Seq<char>, ext: Option<Seq<char>>) -> Seq<char> {
    sanitized(title) + seq!['.'] + kept_extension(ext)
}

/// The views of an optional string.
pub open spec fn opt_view(s: Option<String>) -> Option<Seq<char>> {
    match s {
        Some(x) => Some(x@),
        None => None,
    }
}

/// The file name for an episode titled `episode_title` whose file has the
/// extension `extension`: `<sanitized title>.<extension>`, with `mp3` when
/// there is no extension.
pub fn episode_file_name(episode_title: &str, extension: &Option<String>) -> (r: String)
    ensures
        r@ == episode_file_name_spec(episode_title@, opt_view(*extension)),
{
    let mut r = sanitize_filename(episode_title);
    push_char(&mut r, '.');
    match extension {
        Some(e) => r.append(e.as_str()),
        None => r.append("mp3"),
    }
    r
}

/// The file name for an episode titled `episode_title` copied from
/// `source_path`: see `episode_file_name`, with the source file's
/// extension.
pub fn episode_file_name_for(source_path: &str, episode_title: &str) -> (r: String)
    ensures
        r@ == episode_file_name_spec(episode_title@, path_extension(source_path@)),
{
    let ext = extension_of(source_path);
    episode_file_name(episode_title, &ext)
}

/// Where an episode is copied to in a target folder: the show's folder
/// `<target>/<sanitized show title>` and, in it, the episode's file.
pub fn sync_destination(target_dir: &str, show_title: &str, source_path: &str, episode_title: &str) -> (r: (String, String))
    ensures
        r.0@ == joined(target_dir@, sanitized(show_title@)),
        r.1@ == joined(r.0@, episode_file_name_spec(episode_title@, path_extension(source_path@))),
{
    let show = sanitize_filename(show_title);
    let show_dir = path_join(target_dir, show.as_str());
    let file = episode_file_name_for(source_path, episode_title);
    let dest = path_join(show_dir.as_str(), file.as_str());
    (show_dir, dest)
}

} // verus!
