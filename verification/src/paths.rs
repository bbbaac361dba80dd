//! File-system paths as text: joining a path with a relative or absolute
//! part, and reading a file name's extension.

use vstd::prelude::*;

use crate::text::{chars_of, push_chars};

verus! {

/// `part` appended to `base` as `PathBuf::push` does on Unix: an absolute
/// `part` replaces `base`; otherwise a `/` separates the two unless `base`
/// is empty or already ends with one.
pub open spec fn joined(base: Seq<char>, part: Seq<char>) -> Seq<char> {
    if part.len() > 0 && part[0] == '/' {
        part
    } else if base.len() == 0 || base.last() == '/' {
        base + part
    } else {
        base + seq!['/'] + part
    }
}

/// `base` joined with `part` (`Path::join`).
pub fn path_join(base: &str, part: &str) -> (r: String)
    ensures
        r@ == joined(base@, part@),
{
    let b = chars_of(base);
    let p = chars_of(part);
    let mut r = String::new();
    if p.len() > 0 && p[0] == '/' {
        push_chars(&mut r, &p);
        return r;
    }
    push_chars(&mut r, &b);
    if b.len() > 0 && b[b.len() - 1] != '/' {
        r.append("/");
        proof {
            reveal_strlit("/");
        }
        assert("/"@ == seq!['/']);
    }
    push_chars(&mut r, &p);
    r
}

/// The extension of the file name of path `p`, as `Path::extension` gives
/// it.
pub uninterp spec fn path_extension(p: Seq<char>) -> Option<Seq<char>>;

/// The extension of the path's file name: `std::path::Path::extension`,
/// read back as text. The result is named `path_extension`.
#[verifier::external_body]
pub(crate) fn extension_of(path: &str) -> (r: Option<String>)
    ensures
        match r {
            Some(e) => path_extension(path@) == Some(e@),
            None => path_extension(path@) is None,
        },
{
    std::path::Path::new(path).extension().and_then(|e| e.to_str()).map(|e| e.to_string())
}

} // verus!
