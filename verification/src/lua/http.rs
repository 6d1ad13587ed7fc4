use vstd::prelude::*;
use crate::text::{str_chars, string_from_chars};
use crate::transform::csv::{eq_ignore_case, eq_word};

verus! {

/// The header name "content-type".
pub open spec fn content_type_name() -> Seq<char> {
    seq!['c', 'o', 'n', 't', 'e', 'n', 't', '-', 't', 'y', 'p', 'e']
}

/// The media type "application/octet-stream".
pub open spec fn octet_stream() -> Seq<char> {
    seq!['a', 'p', 'p', 'l', 'i', 'c', 'a', 't', 'i', 'o', 'n', '/', 'o', 'c', 't', 'e', 't', '-', 's', 't', 'r', 'e', 'a', 'm']
}

/// Whether one of the headers is named "content-type", in any ASCII case.
pub open spec fn names_content_type(headers: Seq<(String, String)>) -> bool {
    exists|i: int| 0 <= i < headers.len() && eq_ignore_case((#[trigger] headers[i]).0@, content_type_name())
}

/// The headers a script's HTTP POST is sent with: its own, after a `content-type` of
/// `application/octet-stream` when it names no content type itself.
pub fn post_headers(custom: Vec<(String, String)>) -> (r: Vec<(String, String)>)
    ensures
        names_content_type(custom@) ==> r@ == custom@,
        !names_content_type(custom@) ==> {
            &&& r@.len() == custom@.len() + 1
            &&& r@[0].0@ == content_type_name()
            &&& r@[0].1@ == octet_stream()
            &&& r@.skip(1) == custom@
        },
{
    let ct = vec!['c', 'o', 'n', 't', 'e', 'n', 't', '-', 't', 'y', 'p', 'e'];
    assert(ct@ =~= content_type_name());
    let mut i: usize = 0;
    while i < custom.len()
        invariant
            i <= custom@.len(),
            ct@ == content_type_name(),
            forall|j: int| 0 <= j < i ==> !eq_ignore_case((#[trigger] custom@[j]).0@, content_type_name()),
        decreases custom.len() - i,
    {
        let name = str_chars(custom[i].0.as_str());
        if eq_word(name.as_slice(), ct.as_slice()) {
            return custom;
        }
        i = i + 1;
    }
    let os = vec!['a', 'p', 'p', 'l', 'i', 'c', 'a', 't', 'i', 'o', 'n', '/', 'o', 'c', 't', 'e', 't', '-', 's', 't',
        'r', 'e', 'a', 'm'];
    assert(os@ =~= octet_stream());
    let mut r: Vec<(String, String)> = Vec::new();
    r.push((string_from_chars(ct.as_slice()), string_from_chars(os.as_slice())));
    let ghost c0 = custom@;
    let mut rest = custom;
    r.append(&mut rest);
    assert(r@.skip(1) =~= c0);
    r
}

} // verus!
