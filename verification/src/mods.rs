//! The small picture server that hands rendered layers to the mods web
//! application: which file a request asks for, and the reply header.
use vstd::prelude::*;
use vstd::string::StringExecFns;
use crate::text::{chars_of, contains_str, decimal, lines_of, push_decimal, seq_contains, split_lines, whitespace_words};

verus! {

broadcast use vstd::string::group_string_axioms;

/// Calls `str::split_whitespace` and keeps each word as an owned string;
/// as its documentation says, the words are the non-empty runs between
/// white space in the sense of `White_Space`.
#[verifier::external_body]
fn words_of(s: &str) -> (r: Vec<String>)
    ensures
        r@.map_values(|w: String| w@) == whitespace_words(s@),
{
    s.split_whitespace().map(|w| w.to_string()).collect()
}

/// Whether `char::is_alphanumeric` holds of a character: it is
/// alphabetic or numeric in the Unicode sense.
pub uninterp spec fn alphanumeric(c: char) -> bool;

/// Calls `char::is_alphanumeric`.
#[verifier::external_body]
fn is_alphanumeric_char(c: char) -> (r: bool)
    ensures
        r == alphanumeric(c),
{
    c.is_alphanumeric()
}

/// The target of an HTTP request: the second word of its first line, or
/// `/` when there is none.
pub open spec fn request_target(request: Seq<char>) -> Seq<char> {
    let lines = split_lines(request);
    if lines.len() > 0 && whitespace_words(lines[0]).len() > 1 {
        whitespace_words(lines[0])[1]
    } else {
        "/"@
    }
}

/// A path without its leading `/` characters.
pub open spec fn without_leading_slashes(p: Seq<char>) -> Seq<char>
    decreases p.len(),
{
    if p.len() > 0 && p[0] == '/' {
        without_leading_slashes(p.skip(1))
    } else {
        p
    }
}

/// A character that may stand in a served file name.
pub open spec fn name_char(c: char) -> bool {
    alphanumeric(c) || c == '_' || c == '-' || c == '.'
}

/// A name that may be served: not empty, no `..` in it, and only
/// alphanumeric characters, `_`, `-` and `.`.
pub open spec fn servable(name: Seq<char>) -> bool {
    &&& name.len() > 0
    &&& !seq_contains(name, ".."@)
    &&& forall|i: int| 0 <= i < name.len() ==> #[trigger] name_char(name[i])
}

/// The file a request asks for, when its name may be served.
pub open spec fn requested_name(request: Seq<char>) -> Option<Seq<char>> {
    let name = without_leading_slashes(request_target(request));
    if servable(name) {
        Some(name)
    } else {
        None
    }
}

fn strip_leading_slashes(p: &Vec<char>) -> (r: Vec<char>)
    ensures
        r@ == without_leading_slashes(p@),
{
    let mut i: usize = 0;
    assert(p@.skip(0) =~= p@);
    while i < p.len() && p[i] == '/'
        invariant
            i <= p@.len(),
            without_leading_slashes(p@) == without_leading_slashes(p@.skip(i as int)),
        decreases p.len() - i,
    {
        assert(p@.skip(i as int).skip(1) =~= p@.skip(i + 1));
        i += 1;
    }
    let mut r: Vec<char> = Vec::new();
    let mut j = i;
    while j < p.len()
        invariant
            i <= j <= p@.len(),
            r@ == p@.subrange(i as int, j as int),
        decreases p.len() - j,
    {
        r.push(p[j]);
        j += 1;
    }
    assert(r@ =~= p@.skip(i as int));
    r
}

/// The file name a request to the picture server asks for, or `None`
/// when the name may not be served (it would then be refused).
pub fn requested_file(request: &str) -> (r: Option<Vec<char>>)
    ensures
        match requested_name(request@) {
            Some(n) => r matches Some(s) && s@ == n,
            None => r is None,
        },
{
    let lines = lines_of(request);
    proof {
        assert(lines@.len() == split_lines(request@).len());
    }
    let mut target = chars_of("/");
    if lines.len() > 0 {
        let words = words_of(lines[0].as_str());
        proof {
            assert(lines@.map_values(|l: String| l@)[0] == lines@[0]@);
            assert(words@.len() == whitespace_words(split_lines(request@)[0]).len());
        }
        if words.len() > 1 {
            proof {
                assert(words@.map_values(|w: String| w@)[1] == words@[1]@);
            }
            target = chars_of(words[1].as_str());
        }
    }
    assert(target@ == request_target(request@));
    let name = strip_leading_slashes(&target);
    if name.len() == 0 || contains_str(&name, "..") {
        return None;
    }
    let mut i: usize = 0;
    while i < name.len()
        invariant
            i <= name@.len(),
            name@ == without_leading_slashes(request_target(request@)),
            name@.len() > 0,
            !seq_contains(name@, ".."@),
            forall|k: int| 0 <= k < i ==> #[trigger] name_char(name@[k]),
        decreases name.len() - i,
    {
        let c = name[i];
        if !(is_alphanumeric_char(c) || c == '_' || c == '-' || c == '.') {
            assert(!name_char(name@[i as int]));
            return None;
        }
        i += 1;
    }
    Some(name)
}

/// The header of the reply that carries a picture of `len` bytes.
pub open spec fn png_header(len: nat) -> Seq<char> {
    "HTTP/1.1 200 OK\r\nContent-Type: image/png\r\nContent-Length: "@ + decimal(len)
        + "\r\nAccess-Control-Allow-Origin: *\r\n\r\n"@
}

/// The header of the reply that carries a picture of `len` bytes.
pub fn png_response_header(len: usize) -> (r: String)
    ensures
        r@ == png_header(len as nat),
{
    let mut out = String::from_str("HTTP/1.1 200 OK\r\nContent-Type: image/png\r\nContent-Length: ");
    push_decimal(&mut out, len as u64);
    out.append("\r\nAccess-Control-Allow-Origin: *\r\n\r\n");
    out
}

} // verus!
