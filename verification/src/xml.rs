//! What `quick-xml`'s writer writes for each event the feed uses, and the escaping it applies.
//!
//! Each writer below writes one event into a fresh `Vec<u8>` and reads the bytes back as a
//! `String`. `Writer::write_event` fails only with the I/O errors of the vector it writes into,
//! and writing to a `Vec<u8>` appends to it; every byte written comes from the `&str` pieces
//! passed in, escaped or not, so the bytes are UTF-8. The text is therefore always returned.
use vstd::prelude::*;
use quick_xml::Writer;
use quick_xml::events::{BytesDecl, BytesEnd, BytesStart, BytesText, Event};

verus! {

/// `quick_xml::escape::escape` of one character.
pub open spec fn escaped_char(c: char) -> Seq<char> {
    if c == '<' {
        "&lt;"@
    } else if c == '>' {
        "&gt;"@
    } else if c == '&' {
        "&amp;"@
    } else if c == '\'' {
        "&apos;"@
    } else if c == '"' {
        "&quot;"@
    } else if c == '\r' {
        "&#13;"@
    } else {
        seq![c]
    }
}

/// Escaping of an attribute value: as text, and also newlines and tabs.
pub open spec fn attr_escaped_char(c: char) -> Seq<char> {
    if c == '\n' {
        "&#10;"@
    } else if c == '\t' {
        "&#9;"@
    } else {
        escaped_char(c)
    }
}

/// Text content as the writer writes it.
pub open spec fn xml_escape(s: Seq<char>) -> Seq<char>
    decreases s.len(),
{
    if s.len() == 0 {
        seq![]
    } else {
        xml_escape(s.drop_last()) + escaped_char(s.last())
    }
}

/// An attribute value as the writer writes it.
pub open spec fn attr_escape(s: Seq<char>) -> Seq<char>
    decreases s.len(),
{
    if s.len() == 0 {
        seq![]
    } else {
        attr_escape(s.drop_last()) + attr_escaped_char(s.last())
    }
}

/// Attributes as written inside a tag: each as ` key="value"`.
pub open spec fn attrs_text(attrs: Seq<(Seq<char>, Seq<char>)>) -> Seq<char>
    decreases attrs.len(),
{
    if attrs.len() == 0 {
        seq![]
    } else {
        attrs_text(attrs.drop_last()) + " "@ + attrs.last().0 + "=\""@ + attr_escape(
            attrs.last().1,
        ) + "\""@
    }
}

pub open spec fn pair_views(v: Seq<(String, String)>) -> Seq<(Seq<char>, Seq<char>)> {
    Seq::new(v.len(), |i: int| (v[i].0@, v[i].1@))
}

pub open spec fn decl_text(version: Seq<char>, encoding: Seq<char>) -> Seq<char> {
    "<?xml version=\""@ + version + "\" encoding=\""@ + encoding + "\"?>"@
}

pub open spec fn start_tag(name: Seq<char>, attrs: Seq<(Seq<char>, Seq<char>)>) -> Seq<char> {
    "<"@ + name + attrs_text(attrs) + ">"@
}

pub open spec fn empty_tag(name: Seq<char>, attrs: Seq<(Seq<char>, Seq<char>)>) -> Seq<char> {
    "<"@ + name + attrs_text(attrs) + "/>"@
}

pub open spec fn end_tag(name: Seq<char>) -> Seq<char> {
    "</"@ + name + ">"@
}

/// Calls `Writer::write_event` with `Event::Decl(BytesDecl::new(version, Some(encoding),
/// None))` on a fresh writer over a vector. The text is
/// `<?xml version="…" encoding="…"?>`; it is always returned.
#[verifier::external_body]
pub(crate) fn write_decl(version: &str, encoding: &str) -> (r: Option<String>)
    ensures
        r is Some,
        r matches Some(s) ==> s@ == decl_text(version@, encoding@),
{
    let mut w = Writer::new(Vec::new());
    w.write_event(Event::Decl(BytesDecl::new(version, Some(encoding), None))).ok()?;
    String::from_utf8(w.into_inner()).ok()
}

/// Calls `Writer::write_event` with `Event::Start` of a tag with these attributes, pushed in
/// order, on a fresh writer. The text is `<name key="value"…>`, each value escaped;
/// it is always returned.
#[verifier::external_body]
pub(crate) fn write_start(name: &str, attrs: &Vec<(String, String)>) -> (r: Option<String>)
    ensures
        r is Some,
        r matches Some(s) ==> s@ == start_tag(name@, pair_views(attrs@)),
{
    let mut w = Writer::new(Vec::new());
    let mut tag = BytesStart::new(name);
    tag.extend_attributes(attrs.iter().map(|(k, v)| (k.as_str(), v.as_str())));
    w.write_event(Event::Start(tag)).ok()?;
    String::from_utf8(w.into_inner()).ok()
}

/// Calls `Writer::write_event` with `Event::Empty` of a tag with these attributes, pushed in
/// order, on a fresh writer. The text is `<name key="value"…/>`; it is always returned.
#[verifier::external_body]
pub(crate) fn write_empty(name: &str, attrs: &Vec<(String, String)>) -> (r: Option<String>)
    ensures
        r is Some,
        r matches Some(s) ==> s@ == empty_tag(name@, pair_views(attrs@)),
{
    let mut w = Writer::new(Vec::new());
    let mut tag = BytesStart::new(name);
    tag.extend_attributes(attrs.iter().map(|(k, v)| (k.as_str(), v.as_str())));
    w.write_event(Event::Empty(tag)).ok()?;
    String::from_utf8(w.into_inner()).ok()
}

/// Calls `Writer::write_event` with `Event::End(BytesEnd::new(name))` on a fresh writer. The
/// text is `</name>`; it is always returned.
#[verifier::external_body]
pub(crate) fn write_end(name: &str) -> (r: Option<String>)
    ensures
        r is Some,
        r matches Some(s) ==> s@ == end_tag(name@),
{
    let mut w = Writer::new(Vec::new());
    w.write_event(Event::End(BytesEnd::new(name))).ok()?;
    String::from_utf8(w.into_inner()).ok()
}

/// Calls `Writer::write_event` with `Event::Text(BytesText::new(text))` on a fresh writer. The
/// text is escaped as `quick_xml::escape::escape` does; it is always returned.
#[verifier::external_body]
pub(crate) fn write_text(text: &str) -> (r: Option<String>)
    ensures
        r is Some,
        r matches Some(s) ==> s@ == xml_escape(text@),
{
    let mut w = Writer::new(Vec::new());
    w.write_event(Event::Text(BytesText::new(text))).ok()?;
    String::from_utf8(w.into_inner()).ok()
}

} // verus!
