//! Paths as text, joined as `PathBuf::push` joins them on Unix.
use vstd::prelude::*;
use vstd::string::*;

verus! {

/// `part` appended to `base`: an absolute `part` (one that starts with `/`)
/// replaces `base`; otherwise a `/` separates the two unless `base` is empty
/// or already ends with one.
pub open spec fn join_path(base: Seq<char>, part: Seq<char>) -> Seq<char> {
    if part.len() > 0 && part[0] == '/' {
        part
    } else if base.len() == 0 || base.last() == '/' {
        base + part
    } else {
        base + seq!['/'] + part
    }
}

/// `part` joined onto `base` (see `join_path`).
pub fn join(base: &str, part: &str) -> (r: String)
    ensures
        r@ == join_path(base@, part@),
{
    let absolute = !part.is_empty() && part.get_char(0) == '/';
    if absolute {
        return String::from_str(part);
    }
    let n = base.unicode_len();
    let mut r = String::from_str(base);
    if n > 0 && base.get_char(n - 1) != '/' {
        r.push('/');
    }
    r.append(part);
    r
}

} // verus!
