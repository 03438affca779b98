use vstd::prelude::*;
use crate::text::{to_chars, chars_eq, ends_with_chars, starts_with_at, starts_with, ends_with};

verus! {

/// The MIME type names HTML or an XML dialect.
pub open spec fn spec_is_sgml(m: Seq<char>) -> bool {
    m == "text/html"@ || ends_with(m, "+xml"@)
}

/// Position of the first `/`, if there is one.
pub open spec fn first_slash(m: Seq<char>, i: int) -> Option<int>
    decreases m.len() - i,
{
    if i < 0 || i >= m.len() {
        None
    } else if m[i] == '/' {
        Some(i)
    } else {
        first_slash(m, i + 1)
    }
}

/// The MIME type names JSON: `application/json`, a `+json` suffix, or a
/// subtype that starts with `json+`.
pub open spec fn spec_is_json(m: Seq<char>) -> bool {
    ||| m == "application/json"@
    ||| ends_with(m, "+json"@)
    ||| (first_slash(m, 0) matches Some(k) && starts_with(m.skip(k + 1), "json+"@))
}

pub fn is_sgml(mime_type: &str) -> (r: bool)
    ensures
        r == spec_is_sgml(mime_type@),
{
    let m = to_chars(mime_type);
    let html = to_chars("text/html");
    let xml = to_chars("+xml");
    chars_eq(m.as_slice(), html.as_slice()) || ends_with_chars(m.as_slice(), xml.as_slice())
}

pub fn is_json(mime_type: &str) -> (r: bool)
    ensures
        r == spec_is_json(mime_type@),
{
    let m = to_chars(mime_type);
    let app = to_chars("application/json");
    let suffix = to_chars("+json");
    if chars_eq(m.as_slice(), app.as_slice()) || ends_with_chars(m.as_slice(), suffix.as_slice()) {
        return true;
    }
    let mut i: usize = 0;
    while i < m.len()
        invariant
            i <= m@.len(),
            m@ == mime_type@,
            !(m@ == "application/json"@ || ends_with(m@, "+json"@)),
            first_slash(m@, 0) == first_slash(m@, i as int),
        decreases m.len() - i,
    {
        if m[i] == '/' {
            let prefix = to_chars("json+");
            assert(first_slash(m@, i as int) == Some(i as int));
            let r = starts_with_at(m.as_slice(), i + 1, prefix.as_slice());
            assert(r == starts_with(mime_type@.skip(i + 1), "json+"@));
            return r;
        }
        i += 1;
    }
    false
}

} // verus!
