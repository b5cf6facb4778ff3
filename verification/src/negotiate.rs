//! Content negotiation: picks exactly one serialization for a found record
//! from the client's preference string and applies it. A preference naming
//! `application/yaml` wins, then `application/json`; anything else falls
//! back to the fixed HTML template.

use vstd::prelude::*;

use crate::protocol::Fault;
use crate::record::Record;
use crate::record::wire_safe;
use crate::render::html_of;
use crate::render::json_of;
use crate::render::render_html;
use crate::render::render_json;
use crate::render::render_yaml;
use crate::render::yaml_line;
use crate::render::yaml_lines;
use crate::render::yaml_of;

verus! {

/// The serialization a negotiated response was rendered with.
#[derive(Clone, Copy, Debug, PartialEq, Eq, Structural)]
pub enum ContentType {
    /// `application/json`.
    Json,
    /// `application/yaml`.
    Yaml,
    /// `text/html`.
    Html,
}

impl ContentType {
    /// The content-type tag attached to a negotiated body.
    pub open spec fn label_spec(self) -> Seq<char> {
        match self {
            ContentType::Json => "application/json"@,
            ContentType::Yaml => "application/yaml"@,
            ContentType::Html => "text/html"@,
        }
    }

    /// The content-type tag as a string.
    pub fn label(&self) -> (r: &'static str)
        ensures
            r@ == self.label_spec(),
    {
        match self {
            ContentType::Json => "application/json",
            ContentType::Yaml => "application/yaml",
            ContentType::Html => "text/html",
        }
    }
}

/// A rendered body with its content type.
#[derive(Debug, PartialEq, Eq)]
pub struct NegotiatedResponse {
    /// The serialized bytes.
    pub body: Vec<u8>,
    /// The serialization they were rendered with.
    pub content_type: ContentType,
}

/// The bytes of the preference token `application/yaml`.
pub open spec fn yaml_token() -> Seq<u8> {
    seq![97u8, 112u8, 112u8, 108u8, 105u8, 99u8, 97u8, 116u8, 105u8, 111u8, 110u8, 47u8, 121u8,
        97u8, 109u8, 108u8]
}

/// The bytes of the preference token `application/json`.
pub open spec fn json_token() -> Seq<u8> {
    seq![97u8, 112u8, 112u8, 108u8, 105u8, 99u8, 97u8, 116u8, 105u8, 111u8, 110u8, 47u8, 106u8,
        115u8, 111u8, 110u8]
}

/// `needle` occurs in `hay` starting at position `i`.
pub open spec fn contains_at(hay: Seq<u8>, needle: Seq<u8>, i: int) -> bool {
    &&& 0 <= i
    &&& i + needle.len() <= hay.len()
    &&& hay.subrange(i, i + needle.len() as int) == needle
}

/// `needle` occurs somewhere in `hay`.
pub open spec fn has_token(hay: Seq<u8>, needle: Seq<u8>) -> bool {
    exists|i: int| contains_at(hay, needle, i)
}

/// The format a preference string selects.
pub open spec fn chosen_format(pref: Seq<u8>) -> ContentType {
    if has_token(pref, yaml_token()) {
        ContentType::Yaml
    } else if has_token(pref, json_token()) {
        ContentType::Json
    } else {
        ContentType::Html
    }
}

/// The exact bytes a format renders a record to.
pub open spec fn rendered(ct: ContentType, fs: Seq<(Seq<u8>, Seq<u8>)>) -> Seq<u8> {
    match ct {
        ContentType::Json => json_of(fs),
        ContentType::Yaml => yaml_of(fs),
        ContentType::Html => html_of(fs),
    }
}

/// Whether `needle` occurs in `hay` starting exactly at `i`.
fn matches_at(hay: &[u8], needle: &[u8], i: usize) -> (r: bool)
    requires
        i + needle@.len() <= hay@.len(),
    ensures
        r == contains_at(hay@, needle@, i as int),
{
    let hn = hay.len();
    let nn = needle.len();
    let mut j: usize = 0;
    while j < nn
        invariant
            hn == hay@.len(),
            nn == needle@.len(),
            i + nn <= hn,
            j <= nn,
            forall|k: int| 0 <= k < j ==> hay@[i + k] == needle@[k],
        decreases nn - j,
    {
        if hay[i + j] != needle[j] {
            proof {
                assert(hay@.subrange(i as int, i + needle@.len() as int)[j as int] == hay@[i + j]);
            }
            return false;
        }
        j = j + 1;
    }
    proof {
        assert(hay@.subrange(i as int, i + needle@.len() as int) =~= needle@);
    }
    true
}

/// Whether `needle` occurs anywhere in `hay`.
pub fn find_token(hay: &[u8], needle: &[u8]) -> (r: bool)
    requires
        needle@.len() >= 1,
    ensures
        r == has_token(hay@, needle@),
{
    if needle.len() > hay.len() {
        return false;
    }
    let hn = hay.len();
    let last = hn - needle.len();
    let mut i: usize = 0;
    while i <= last
        invariant
            hn == hay@.len(),
            needle@.len() >= 1,
            needle@.len() <= hay@.len(),
            last == hay@.len() - needle@.len(),
            last < hn,
            i <= last + 1,
            forall|j: int| 0 <= j < i ==> !contains_at(hay@, needle@, j),
        decreases last - i + 1,
    {
        if matches_at(hay, needle, i) {
            return true;
        }
        i = i + 1;
    }
    proof {
        assert forall|j: int| !contains_at(hay@, needle@, j) by {
            if 0 <= j <= last as int {
                assert(!contains_at(hay@, needle@, j));
            }
        }
    }
    false
}

/// An executable copy of the `application/yaml` token.
fn yaml_token_vec() -> (v: Vec<u8>)
    ensures
        v@ == yaml_token(),
{
    let mut v: Vec<u8> = Vec::new();
    v.push(97);
    v.push(112);
    v.push(112);
    v.push(108);
    v.push(105);
    v.push(99);
    v.push(97);
    v.push(116);
    v.push(105);
    v.push(111);
    v.push(110);
    v.push(47);
    v.push(121);
    v.push(97);
    v.push(109);
    v.push(108);
    proof {
        assert(v@ =~= yaml_token());
    }
    v
}

/// An executable copy of the `application/json` token.
fn json_token_vec() -> (v: Vec<u8>)
    ensures
        v@ == json_token(),
{
    let mut v: Vec<u8> = Vec::new();
    v.push(97);
    v.push(112);
    v.push(112);
    v.push(108);
    v.push(105);
    v.push(99);
    v.push(97);
    v.push(116);
    v.push(105);
    v.push(111);
    v.push(110);
    v.push(47);
    v.push(106);
    v.push(115);
    v.push(111);
    v.push(110);
    proof {
        assert(v@ =~= json_token());
    }
    v
}

/// Renders `value` in the one format `preference` selects and tags it with
/// that content type. A value with unprintable bytes is not representable in
/// these formats: it fails with `SerializationFault` and never produces an
/// empty or truncated body.
pub fn negotiate(preference: &[u8], value: &Record) -> (r: Result<NegotiatedResponse, Fault>)
    ensures
        wire_safe(value@) ==> (r matches Ok(resp) && resp.content_type == chosen_format(
            preference@,
        ) && resp.body@ == rendered(chosen_format(preference@), value@) && resp.body@.len() > 0),
        !wire_safe(value@) ==> (r matches Err(f) && f == Fault::SerializationFault),
{
    if !value.is_wire_safe() {
        return Err(Fault::SerializationFault);
    }
    let yt = yaml_token_vec();
    if find_token(preference, yt.as_slice()) {
        let body = render_yaml(value);
        proof {
            if value@.len() > 0 {
                assert(yaml_of(value@) == yaml_lines(value@));
                assert(yaml_lines(value@) == yaml_line(value@[0]) + yaml_lines(value@.skip(1)));
            }
        }
        return Ok(NegotiatedResponse { body, content_type: ContentType::Yaml });
    }
    let jt = json_token_vec();
    if find_token(preference, jt.as_slice()) {
        let body = render_json(value);
        return Ok(NegotiatedResponse { body, content_type: ContentType::Json });
    }
    let body = render_html(value);
    Ok(NegotiatedResponse { body, content_type: ContentType::Html })
}

} // verus!
