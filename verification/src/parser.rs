//! Reading SVG text into a document.
//!
//! `quick_xml` splits the text into events; the tree is built from them by a
//! small state machine whose every step is stated in `step_view`.

use vstd::prelude::*;
use vstd::string::StringSliceAdditionalSpecFns;
use quick_xml::Reader;
use quick_xml::events::Event;
use crate::ast::{
    Document, Element, ElementView, Node, NodeView, attr_entries, elem_view, empty_elem_view,
    entry_insert, lemma_nodes_view_push, node_view, nodes_view, ns_entries, ns_insert, pair_views,
};
use crate::strings::{char_index, chars_from, chars_until, find_char, has_prefix, owned, str_eq,
    str_starts_with, to_chars, trim, trim_chars};

verus! {

/// `quick_xml::Reader` reads XML events from a source.
#[verifier::external_type_specification]
#[verifier::external_body]
#[verifier::reject_recursive_types(R)]
pub struct ExReader<R>(Reader<R>);

/// `quick_xml::events::Event`: an event of the reader.
#[verifier::external_type_specification]
#[verifier::external_body]
pub struct ExEvent<'a>(Event<'a>);

/// Parser error types.
#[derive(Debug)]
pub enum ParseError {
    /// The XML reader refused the input.
    XmlError(String),
    /// An attribute could not be read.
    AttrError(String),
    /// A name or a text was not valid UTF-8.
    Utf8Error(String),
    /// The document has no usable structure.
    StructureError(String),
    /// The input ended before the document did.
    UnexpectedEnd,
}

/// The tag of an element as the reader gives it: its name and its
/// attributes in document order.
#[derive(Debug)]
pub struct StartTag {
    pub name: String,
    pub attrs: Vec<(String, String)>,
}

/// An event of the reader, with its contents decoded.
#[derive(Debug)]
pub enum XmlEvent {
    Start(StartTag),
    End,
    Empty(StartTag),
    Text(String),
    Comment(String),
    CData(String),
    /// The raw contents of a processing instruction: target, a space, data.
    Pi(String),
    /// The version and the encoding of an XML declaration.
    Decl(Option<String>, Option<String>),
    DocType(String),
    GeneralRef,
    Eof,
}

/// The kinds of event that the reader gives.
#[derive(Debug, Clone, Copy, PartialEq, Eq, Structural)]
pub enum EventKind {
    Start,
    End,
    Empty,
    Text,
    Comment,
    CData,
    Pi,
    Decl,
    DocType,
    GeneralRef,
    Eof,
}

/// What the `k`-th call (counting from 0) of `Reader::read_event` gives on
/// a reader that `xml_source` made over `input` with `trim`: the kind of the
/// event, or the text of the reader's error.
pub uninterp spec fn xml_read(input: Seq<char>, trim: bool, k: nat) -> Result<EventKind, Seq<char>>;

/// The name of the tag of the `k`-th event (`BytesStart::name`) as UTF-8
/// (`std::str::from_utf8`), or the text of the error.
pub uninterp spec fn xml_tag_name(input: Seq<char>, trim: bool, k: nat) -> Result<Seq<char>, Seq<char>>;

/// The attributes of the tag of the `k`-th event (`BytesStart::attributes`),
/// each name as UTF-8 and each value unescaped (`Attribute::unescape_value`),
/// in document order; or the first error, as `parse_error_code` writes it.
pub uninterp spec fn xml_tag_attrs(input: Seq<char>, trim: bool, k: nat) -> Result<Seq<(Seq<char>, Seq<char>)>, (nat, Seq<char>)>;

/// The contents of the `k`-th event, a text or a doctype, decoded
/// (`BytesText::decode`), or the text of the error.
pub uninterp spec fn xml_text(input: Seq<char>, trim: bool, k: nat) -> Result<Seq<char>, Seq<char>>;

/// The contents of the `k`-th event, a comment, a CDATA section or a
/// processing instruction, as UTF-8 (`std::str::from_utf8`), or the text of
/// the error.
pub uninterp spec fn xml_raw(input: Seq<char>, trim: bool, k: nat) -> Result<Seq<char>, Seq<char>>;

/// The version and the encoding of the `k`-th event, a declaration
/// (`BytesDecl::version`, `BytesDecl::encoding`), each decoded lossily;
/// `None` where the reader reports none or an error.
pub uninterp spec fn xml_decl(input: Seq<char>, trim: bool, k: nat) -> (Option<Seq<char>>, Option<Seq<char>>);

/// An error as a number for its kind (0: the reader, 1: an attribute,
/// 2: UTF-8, 3: structure, 4: early end) and its text.
pub open spec fn parse_error_code(e: ParseError) -> (nat, Seq<char>) {
    match e {
        ParseError::XmlError(m) => (0, m@),
        ParseError::AttrError(m) => (1, m@),
        ParseError::Utf8Error(m) => (2, m@),
        ParseError::StructureError(m) => (3, m@),
        ParseError::UnexpectedEnd => (4, Seq::empty()),
    }
}

/// A kind read without error.
pub open spec fn kind_ok(k: EventKind) -> Result<EventKind, Seq<char>> {
    Ok(k)
}

/// A read that failed with the text `m`.
pub open spec fn kind_err(m: Seq<char>) -> Result<EventKind, Seq<char>> {
    Err(m)
}

/// A text decoded without error.
pub open spec fn text_ok(t: Seq<char>) -> Result<Seq<char>, Seq<char>> {
    Ok(t)
}

/// A decoding that failed with the text `m`.
pub open spec fn text_err(m: Seq<char>) -> Result<Seq<char>, Seq<char>> {
    Err(m)
}

/// Attributes decoded without error.
pub open spec fn attrs_ok(a: Seq<(Seq<char>, Seq<char>)>) -> Result<Seq<(Seq<char>, Seq<char>)>, (nat, Seq<char>)> {
    Ok(a)
}

/// Attributes whose decoding failed with the error `e`.
pub open spec fn attrs_err(e: (nat, Seq<char>)) -> Result<Seq<(Seq<char>, Seq<char>)>, (nat, Seq<char>)> {
    Err(e)
}

/// A reader over a text, and how many events it has given.
struct XmlSource<'a> {
    reader: Reader<&'a [u8]>,
    input: Ghost<Seq<char>>,
    trim: Ghost<bool>,
    read: Ghost<nat>,
}

impl<'a> XmlSource<'a> {
    spec fn text(&self) -> Seq<char> {
        self.input@
    }

    spec fn trims(&self) -> bool {
        self.trim@
    }

    spec fn given(&self) -> nat {
        self.read@
    }
}

/// An event of the reader, and its place in the reader's events.
struct XmlPayload<'a> {
    event: Event<'a>,
    input: Ghost<Seq<char>>,
    trim: Ghost<bool>,
    at: Ghost<nat>,
}

impl<'a> XmlPayload<'a> {
    spec fn text(&self) -> Seq<char> {
        self.input@
    }

    spec fn trims(&self) -> bool {
        self.trim@
    }

    spec fn index(&self) -> nat {
        self.at@
    }

    spec fn kind(&self) -> Result<EventKind, Seq<char>> {
        xml_read(self.input@, self.trim@, self.at@)
    }
}

/// A reader over `input` (`Reader::from_str`) that expands empty elements
/// into a start and an end, and trims text at both ends when `trim` holds.
/// It has given no event yet.
#[verifier::external_body]
fn xml_source<'a>(input: &'a str, trim: bool) -> (r: XmlSource<'a>)
    ensures
        r.text() == input@,
        r.trims() == trim,
        r.given() == 0,
{
    let mut reader = Reader::from_str(input);
    reader.config_mut().expand_empty_elements = true;
    reader.config_mut().trim_text_start = trim;
    reader.config_mut().trim_text_end = trim;
    XmlSource { reader, input: Ghost(input@), trim: Ghost(trim), read: Ghost(0) }
}

/// The next event of the reader (`Reader::read_event`), numbered by the
/// events given before it, or the text of the reader's error.
#[verifier::external_body]
fn read_next<'a>(src: &mut XmlSource<'a>) -> (r: Result<XmlPayload<'a>, String>)
    ensures
        final(src).text() == old(src).text(),
        final(src).trims() == old(src).trims(),
        final(src).given() == old(src).given() + 1,
        match r {
            Ok(p) => p.text() == old(src).text() && p.trims() == old(src).trims() && p.index() == old(src).given()
                && xml_read(old(src).text(), old(src).trims(), old(src).given()) is Ok,
            Err(m) => xml_read(old(src).text(), old(src).trims(), old(src).given()) == kind_err(m@),
        },
{
    let at = Ghost(src.read@);
    src.read = Ghost(src.read@ + 1);
    match src.reader.read_event() {
        Ok(event) => Ok(XmlPayload { event, input: Ghost(src.input@), trim: Ghost(src.trim@), at }),
        Err(e) => Err(e.to_string()),
    }
}

/// The kind of an event: one arm for each variant of `Event`.
#[verifier::external_body]
fn payload_kind(p: &XmlPayload) -> (r: EventKind)
    ensures
        p.kind() == kind_ok(r),
{
    match &p.event {
        Event::Start(_) => EventKind::Start,
        Event::End(_) => EventKind::End,
        Event::Empty(_) => EventKind::Empty,
        Event::Text(_) => EventKind::Text,
        Event::Comment(_) => EventKind::Comment,
        Event::CData(_) => EventKind::CData,
        Event::PI(_) => EventKind::Pi,
        Event::Decl(_) => EventKind::Decl,
        Event::DocType(_) => EventKind::DocType,
        Event::GeneralRef(_) => EventKind::GeneralRef,
        Event::Eof => EventKind::Eof,
    }
}

/// The name of the tag of a start or empty event (`BytesStart::name`) as
/// UTF-8 (`std::str::from_utf8`), or the text of the error.
#[verifier::external_body]
fn payload_tag_name(p: &XmlPayload) -> (r: Result<String, String>)
    requires
        p.kind() == kind_ok(EventKind::Start) || p.kind() == kind_ok(EventKind::Empty),
    ensures
        match r {
            Ok(n) => xml_tag_name(p.text(), p.trims(), p.index()) == text_ok(n@),
            Err(m) => xml_tag_name(p.text(), p.trims(), p.index()) == text_err(m@),
        },
{
    match &p.event {
        Event::Start(e) | Event::Empty(e) => std::str::from_utf8(e.name().as_ref()).map(|n| n.to_string()).map_err(|e| e.to_string()),
        _ => Err(String::new()),
    }
}

/// The attributes of the tag of a start or empty event
/// (`BytesStart::attributes`), each name as UTF-8 and each value unescaped
/// (`Attribute::unescape_value`), in document order, or the first error.
#[verifier::external_body]
fn payload_tag_attrs(p: &XmlPayload) -> (r: Result<Vec<(String, String)>, ParseError>)
    requires
        p.kind() == kind_ok(EventKind::Start) || p.kind() == kind_ok(EventKind::Empty),
    ensures
        match r {
            Ok(a) => xml_tag_attrs(p.text(), p.trims(), p.index()) == attrs_ok(pair_views(a@)),
            Err(e) => xml_tag_attrs(p.text(), p.trims(), p.index()) == attrs_err(parse_error_code(e)),
        },
{
    let e = match &p.event { Event::Start(e) | Event::Empty(e) => e, _ => return Ok(Vec::new()) };
    let mut attrs = Vec::new();
    for attr in e.attributes() {
        let attr = attr.map_err(|e| ParseError::AttrError(e.to_string()))?;
        let key = std::str::from_utf8(attr.key.as_ref()).map_err(|e| ParseError::Utf8Error(e.to_string()))?;
        let value = attr.unescape_value().map_err(|e| ParseError::XmlError(e.to_string()))?;
        attrs.push((key.to_string(), value.to_string()));
    }
    Ok(attrs)
}

/// The decoded contents of a text or doctype event (`BytesText::decode`),
/// or the text of the error.
#[verifier::external_body]
fn payload_text(p: &XmlPayload) -> (r: Result<String, String>)
    requires
        p.kind() == kind_ok(EventKind::Text) || p.kind() == kind_ok(EventKind::DocType),
    ensures
        match r {
            Ok(t) => xml_text(p.text(), p.trims(), p.index()) == text_ok(t@),
            Err(m) => xml_text(p.text(), p.trims(), p.index()) == text_err(m@),
        },
{
    match &p.event {
        Event::Text(e) | Event::DocType(e) => e.decode().map(|t| t.into_owned()).map_err(|e| e.to_string()),
        _ => Err(String::new()),
    }
}

/// The contents of a comment, CDATA or processing-instruction event as
/// UTF-8 (`std::str::from_utf8`), or the text of the error.
#[verifier::external_body]
fn payload_raw(p: &XmlPayload) -> (r: Result<String, String>)
    requires
        p.kind() == kind_ok(EventKind::Comment) || p.kind() == kind_ok(EventKind::CData)
            || p.kind() == kind_ok(EventKind::Pi),
    ensures
        match r {
            Ok(t) => xml_raw(p.text(), p.trims(), p.index()) == text_ok(t@),
            Err(m) => xml_raw(p.text(), p.trims(), p.index()) == text_err(m@),
        },
{
    let bytes: &[u8] = match &p.event {
        Event::Comment(e) => e.as_ref(),
        Event::CData(e) => e.as_ref(),
        Event::PI(e) => e.as_ref(),
        _ => &[],
    };
    std::str::from_utf8(bytes).map(|t| t.to_string()).map_err(|e| e.to_string())
}

/// The version and the encoding of a declaration event
/// (`BytesDecl::version`, `BytesDecl::encoding`), each decoded lossily;
/// `None` where the reader reports none or an error.
#[verifier::external_body]
fn payload_decl(p: &XmlPayload) -> (r: (Option<String>, Option<String>))
    requires
        p.kind() == kind_ok(EventKind::Decl),
    ensures
        (opt_view(r.0), opt_view(r.1)) == xml_decl(p.text(), p.trims(), p.index()),
{
    match &p.event {
        Event::Decl(d) => (
            d.version().ok().map(|v| String::from_utf8_lossy(&v).to_string()),
            d.encoding().and_then(|e| e.ok()).map(|e| String::from_utf8_lossy(&e).to_string()),
        ),
        _ => (None, None),
    }
}

/// Whether `t` is the tag of the `k`-th event.
pub open spec fn tag_at(t: StartTag, input: Seq<char>, trim: bool, k: nat) -> bool {
    xml_tag_name(input, trim, k) == text_ok(t.name@)
        && xml_tag_attrs(input, trim, k) == attrs_ok(pair_views(t.attrs@))
}

/// Whether `ev` is the `k`-th event of the reader over `input`, decoded.
pub open spec fn event_at(ev: XmlEvent, input: Seq<char>, trim: bool, k: nat) -> bool {
    match xml_read(input, trim, k) {
        Ok(EventKind::Start) => ev matches XmlEvent::Start(t) && tag_at(t, input, trim, k),
        Ok(EventKind::End) => ev is End,
        Ok(EventKind::Empty) => ev matches XmlEvent::Empty(t) && tag_at(t, input, trim, k),
        Ok(EventKind::Text) => ev matches XmlEvent::Text(s) && xml_text(input, trim, k) == text_ok(s@),
        Ok(EventKind::Comment) => ev matches XmlEvent::Comment(s) && xml_raw(input, trim, k) == text_ok(s@),
        Ok(EventKind::CData) => ev matches XmlEvent::CData(s) && xml_raw(input, trim, k) == text_ok(s@),
        Ok(EventKind::Pi) => ev matches XmlEvent::Pi(s) && xml_raw(input, trim, k) == text_ok(s@),
        Ok(EventKind::Decl) => ev matches XmlEvent::Decl(v, e) && xml_decl(input, trim, k) == (opt_view(v), opt_view(e)),
        Ok(EventKind::DocType) => ev matches XmlEvent::DocType(s) && xml_text(input, trim, k) == text_ok(s@),
        Ok(EventKind::GeneralRef) => ev is GeneralRef,
        Ok(EventKind::Eof) => ev is Eof,
        Err(_) => false,
    }
}

/// The error that reading or decoding the `k`-th event gives, if any.
pub open spec fn event_error(input: Seq<char>, trim: bool, k: nat) -> Option<(nat, Seq<char>)> {
    match xml_read(input, trim, k) {
        Err(m) => Some((0nat, m)),
        Ok(EventKind::Start) | Ok(EventKind::Empty) => match xml_tag_name(input, trim, k) {
            Err(m) => Some((2nat, m)),
            Ok(_) => match xml_tag_attrs(input, trim, k) {
                Err(e) => Some(e),
                Ok(_) => None,
            },
        },
        Ok(EventKind::Text) | Ok(EventKind::DocType) => match xml_text(input, trim, k) {
            Err(m) => Some((0nat, m)),
            Ok(_) => None,
        },
        Ok(EventKind::Comment) | Ok(EventKind::CData) | Ok(EventKind::Pi) => match xml_raw(input, trim, k) {
            Err(m) => Some((2nat, m)),
            Ok(_) => None,
        },
        _ => None,
    }
}

/// Whether the first `n` events are read and decoded without error and
/// none of them is the end of the file.
pub open spec fn reads_prefix(input: Seq<char>, trim: bool, n: nat) -> bool {
    forall|j: nat| j < n ==> #[trigger] event_error(input, trim, j) is None
        && xml_read(input, trim, j) != kind_ok(EventKind::Eof)
}

/// Whether `evs` are the events of the reader over `input`, decoded, up to
/// and with the end of the file, within `limit` events.
pub open spec fn reads_events(input: Seq<char>, trim: bool, evs: Seq<XmlEvent>, limit: nat) -> bool {
    &&& 0 < evs.len() <= limit
    &&& reads_prefix(input, trim, (evs.len() - 1) as nat)
    &&& xml_read(input, trim, (evs.len() - 1) as nat) == kind_ok(EventKind::Eof)
    &&& forall|j: int| 0 <= j < evs.len() ==> event_at(#[trigger] evs[j], input, trim, j as nat)
}

/// Whether reading the events of `input` fails with `e`: an event within
/// `limit` is not read or decoded, or `limit` events are read and none is
/// the end of the file.
pub open spec fn read_fails(input: Seq<char>, trim: bool, limit: nat, e: ParseError) -> bool {
    ||| exists|n: nat| n < limit && reads_prefix(input, trim, n) && #[trigger] event_error(input, trim, n) == Some(parse_error_code(e))
    ||| reads_prefix(input, trim, limit) && e is UnexpectedEnd
}

/// The most events read from a text: two for each of its bytes, and two
/// more.
pub open spec fn event_limit(input: &str) -> nat {
    (input.spec_bytes().len() as usize) as nat * 2 + 2
}

// ---------------------------------------------------------------------------
// The state machine that builds the tree.

/// The mathematical state of the tree builder: the document so far, the open
/// elements (outermost first) and the element being filled.
pub struct BuildView {
    pub prologue: Seq<NodeView>,
    pub root: ElementView,
    pub epilogue: Seq<NodeView>,
    pub version: Option<Seq<char>>,
    pub encoding: Option<Seq<char>>,
    pub stack: Seq<ElementView>,
    pub current: Option<ElementView>,
    pub found_root: bool,
}

/// The attribute table made by storing the pairs one after the other.
pub open spec fn entries_from(p: Seq<(Seq<char>, Seq<char>)>) -> Seq<(Seq<char>, Seq<char>)>
    decreases p.len(),
{
    if p.len() == 0 {
        Seq::empty()
    } else {
        entry_insert(entries_from(p.drop_last()), p.last().0, p.last().1)
    }
}

/// The element that a tag opens: its name, its attributes, no children.
pub open spec fn tag_view(t: StartTag) -> ElementView {
    ElementView {
        name: t.name@,
        attrs: entries_from(pair_views(t.attrs@)),
        children: Seq::empty(),
        ns: declared_ns(pair_views(t.attrs@)),
    }
}

/// The namespaces that the attributes of a tag declare, in their order:
/// `xmlns` binds the default prefix `""` and `xmlns:p` binds `p`; a later
/// declaration of a prefix wins.
pub open spec fn declared_ns(a: Seq<(Seq<char>, Seq<char>)>) -> Map<Seq<char>, Seq<char>>
    decreases a.len(),
{
    if a.len() == 0 {
        Map::empty()
    } else {
        let m = declared_ns(a.drop_last());
        let k = a.last().0;
        if k == "xmlns"@ {
            m.insert(Seq::empty(), a.last().1)
        } else if has_prefix(k, "xmlns:"@) {
            m.insert(k.skip(6), a.last().1)
        } else {
            m
        }
    }
}

/// `e` with `n` appended to its children.
pub open spec fn push_child(e: ElementView, n: NodeView) -> ElementView {
    ElementView { children: e.children.push(n), ..e }
}

/// The target of a processing instruction: its text up to the first space.
pub open spec fn pi_target(raw: Seq<char>) -> Seq<char> {
    let i = char_index(raw, ' ');
    if i < 0 { raw } else { raw.take(i) }
}

/// The data of a processing instruction: its text after the first space.
pub open spec fn pi_data(raw: Seq<char>) -> Seq<char> {
    let i = char_index(raw, ' ');
    if i < 0 { Seq::empty() } else { raw.skip(i + 1) }
}

/// `n` put into the element being filled, or else before or after the root.
pub open spec fn place_node(s: BuildView, n: NodeView) -> BuildView {
    match s.current {
        Some(c) => BuildView { current: Some(push_child(c, n)), ..s },
        None => if !s.found_root {
            BuildView { prologue: s.prologue.push(n), ..s }
        } else {
            BuildView { epilogue: s.epilogue.push(n), ..s }
        },
    }
}

/// `n` put into the element being filled, and dropped when there is none.
pub open spec fn add_to_current(s: BuildView, n: NodeView) -> BuildView {
    match s.current {
        Some(c) => BuildView { current: Some(push_child(c, n)), ..s },
        None => s,
    }
}

/// One step of the builder.
pub open spec fn step_view(s: BuildView, ev: XmlEvent, keep_ws: bool, keep_comments: bool) -> BuildView {
    match ev {
        XmlEvent::Start(t) => match s.current {
            None => BuildView { current: Some(tag_view(t)), ..s },
            Some(c) => BuildView { stack: s.stack.push(c), current: Some(tag_view(t)), ..s },
        },
        XmlEvent::End => match s.current {
            None => s,
            Some(f) => if s.stack.len() > 0 {
                BuildView {
                    stack: s.stack.drop_last(),
                    current: Some(push_child(s.stack.last(), NodeView::Element(f))),
                    ..s
                }
            } else {
                BuildView { root: f, found_root: true, current: None, ..s }
            },
        },
        XmlEvent::Empty(t) => match s.current {
            Some(c) => BuildView { current: Some(push_child(c, NodeView::Element(tag_view(t)))), ..s },
            None => BuildView { root: tag_view(t), found_root: true, ..s },
        },
        XmlEvent::Text(t) => if keep_ws || trim(t@).len() > 0 {
            add_to_current(s, NodeView::Text(t@))
        } else {
            s
        },
        XmlEvent::Comment(c) => if keep_comments { place_node(s, NodeView::Comment(c@)) } else { s },
        XmlEvent::CData(c) => add_to_current(s, NodeView::CData(c@)),
        XmlEvent::Pi(raw) => place_node(s, NodeView::ProcessingInstruction {
            target: pi_target(raw@),
            data: pi_data(raw@),
        }),
        XmlEvent::Decl(v, e) => BuildView {
            version: match v { Some(x) => Some(x@), None => s.version },
            encoding: match e { Some(x) => Some(x@), None => s.encoding },
            ..s
        },
        XmlEvent::DocType(d) => if !s.found_root {
            BuildView { prologue: s.prologue.push(NodeView::DocType(d@)), ..s }
        } else {
            s
        },
        XmlEvent::GeneralRef => s,
        XmlEvent::Eof => s,
    }
}

/// The state after the events, up to the first end-of-file event.
pub open spec fn run_view(s: BuildView, evs: Seq<XmlEvent>, keep_ws: bool, keep_comments: bool) -> BuildView
    decreases evs.len(),
{
    if evs.len() == 0 {
        s
    } else if evs[0] is Eof {
        s
    } else {
        run_view(step_view(s, evs[0], keep_ws, keep_comments), evs.drop_first(), keep_ws, keep_comments)
    }
}

/// The state before any event: an empty document whose root is `<svg>`.
pub open spec fn initial_view() -> BuildView {
    BuildView {
        prologue: Seq::empty(),
        root: empty_elem_view("svg"@),
        epilogue: Seq::empty(),
        version: None,
        encoding: None,
        stack: Seq::empty(),
        current: None,
        found_root: false,
    }
}

/// The state that the events leave.
pub open spec fn built(evs: Seq<XmlEvent>, keep_ws: bool, keep_comments: bool) -> BuildView {
    run_view(initial_view(), evs, keep_ws, keep_comments)
}

/// Whether the builder leaves a node out: a comment when comments are not
/// kept, white-space text when white space is not kept.
pub open spec fn left_out(n: NodeView, keep_ws: bool, keep_comments: bool) -> bool {
    match n {
        NodeView::Comment(_) => !keep_comments,
        NodeView::Text(t) => !keep_ws && trim(t).len() == 0,
        _ => false,
    }
}

/// Whether no node of the element's tree is one that the builder leaves
/// out.
pub open spec fn elem_clean(e: ElementView, keep_ws: bool, keep_comments: bool) -> bool
    decreases e,
{
    nodes_clean(e.children, keep_ws, keep_comments)
}

/// Whether no node of the list, nor of the trees below it, is one that the
/// builder leaves out.
pub open spec fn nodes_clean(s: Seq<NodeView>, keep_ws: bool, keep_comments: bool) -> bool
    decreases s,
{
    if s.len() == 0 {
        true
    } else {
        &&& nodes_clean(s.drop_last(), keep_ws, keep_comments)
        &&& !left_out(s.last(), keep_ws, keep_comments)
        &&& match s.last() {
            NodeView::Element(c) => elem_clean(c, keep_ws, keep_comments),
            _ => true,
        }
    }
}

/// Whether no part of a builder state holds a node that the builder leaves
/// out.
pub open spec fn state_clean(b: BuildView, keep_ws: bool, keep_comments: bool) -> bool {
    &&& nodes_clean(b.prologue, keep_ws, keep_comments)
    &&& elem_clean(b.root, keep_ws, keep_comments)
    &&& nodes_clean(b.epilogue, keep_ws, keep_comments)
    &&& forall|i: int| 0 <= i < b.stack.len() ==> elem_clean(#[trigger] b.stack[i], keep_ws, keep_comments)
    &&& match b.current {
        Some(c) => elem_clean(c, keep_ws, keep_comments),
        None => true,
    }
}

/// Whether the events leave no root element at all.
pub open spec fn lacks_root(b: BuildView) -> bool {
    b.current is None && b.root.name.len() == 0
}

pub open spec fn opt_view(o: Option<String>) -> Option<Seq<char>> {
    match o {
        Some(s) => Some(s@),
        None => None,
    }
}

/// Whether `d` is the document of the state `b`.
pub open spec fn document_of(d: Document, b: BuildView) -> bool {
    &&& nodes_view(d.prologue@) == b.prologue
    &&& elem_view(d.root) == b.root
    &&& nodes_view(d.epilogue@) == b.epilogue
    &&& opt_view(d.metadata.version) == b.version
    &&& opt_view(d.metadata.encoding) == b.encoding
    &&& d.metadata.path is None
}

struct Builder {
    doc: Document,
    stack: Vec<Element>,
    current: Option<Element>,
    found_root: bool,
}

spec fn opt_elem_view(o: Option<Element>) -> Option<ElementView> {
    match o {
        Some(e) => Some(elem_view(e)),
        None => None,
    }
}

spec fn builder_view(b: Builder) -> BuildView {
    BuildView {
        prologue: nodes_view(b.doc.prologue@),
        root: elem_view(b.doc.root),
        epilogue: nodes_view(b.doc.epilogue@),
        version: opt_view(b.doc.metadata.version),
        encoding: opt_view(b.doc.metadata.encoding),
        stack: b.stack@.map_values(|e: Element| elem_view(e)),
        current: opt_elem_view(b.current),
        found_root: b.found_root,
    }
}

/// The element that a tag opens.  Declarations of namespaces (`xmlns` and
/// `xmlns:prefix`) are recorded in `namespaces` too.
pub fn element_of_tag(tag: StartTag) -> (e: Element)
    ensures
        elem_view(e) == tag_view(tag),
{
    let ghost pv = pair_views(tag.attrs@);
    let mut e = Element::new(tag.name.as_str());
    let mut i: usize = 0;
    while i < tag.attrs.len()
        invariant
            i <= tag.attrs@.len(),
            pv == pair_views(tag.attrs@),
            e.name@ == tag.name@,
            elem_view(e).children == Seq::<NodeView>::empty(),
            attr_entries(e.attributes) == entries_from(pv.take(i as int)),
            ns_entries(e.namespaces) == declared_ns(pv.take(i as int)),
        decreases tag.attrs.len() - i,
    {
        let key = tag.attrs[i].0.clone();
        let value = tag.attrs[i].1.clone();
        proof {
            reveal_strlit("xmlns");
            reveal_strlit("xmlns:");
            reveal_strlit("");
        }
        if str_starts_with(key.as_str(), "xmlns") {
            if str_eq(key.as_str(), "xmlns") {
                ns_insert(&mut e.namespaces, owned(""), value.clone());
            } else {
                let cs = to_chars(key.as_str());
                if str_starts_with(key.as_str(), "xmlns:") {
                    let prefix = chars_from(cs.as_slice(), 6);
                    ns_insert(&mut e.namespaces, prefix, value.clone());
                }
            }
        } else {
            assert(!has_prefix(key@, "xmlns:"@)) by {
                if has_prefix(key@, "xmlns:"@) {
                    assert(key@.subrange(0, 5) =~= key@.subrange(0, 6).subrange(0, 5));
                    assert("xmlns:"@.subrange(0, 5) =~= "xmlns"@);
                }
            }
            assert(key@ != "xmlns"@) by {
                if key@ == "xmlns"@ {
                    assert(key@.subrange(0, 5) =~= key@);
                }
            }
        }
        assert(pv.take(i + 1).drop_last() =~= pv.take(i as int));
        assert(pv.take(i + 1).last() == (key@, value@));
        assert(""@ =~= Seq::<char>::empty());
        assert(ns_entries(e.namespaces) == declared_ns(pv.take(i + 1)));
        assert(pv[i as int] == (key@, value@));
        e.set_attr(key, value);
        i = i + 1;
    }
    assert(pv.take(tag.attrs@.len() as int) =~= pv);
    e
}

proof fn lemma_push_child(e: Element, n: Node, e2: Element)
    requires
        e2.name == e.name,
        e2.attributes == e.attributes,
        e2.namespaces == e.namespaces,
        e2.children@ == e.children@.push(n),
    ensures
        elem_view(e2) == push_child(elem_view(e), node_view(n)),
{
    lemma_nodes_view_push(e.children@, n);
}

/// Puts `n` into the element being filled, or before or after the root.
fn place(b: &mut Builder, n: Node)
    requires
        old(b).doc.metadata.path is None,
    ensures
        builder_view(*final(b)) == place_node(builder_view(*old(b)), node_view(n)),
        final(b).doc.metadata.path is None,
{
    let mut cur: Option<Element> = None;
    std::mem::swap(&mut cur, &mut b.current);
    match cur {
        Some(mut c) => {
            let ghost c0 = c;
            c.add_child(n);
            proof { lemma_push_child(c0, n, c); }
            b.current = Some(c);
        },
        None => {
            if !b.found_root {
                let ghost p0 = b.doc.prologue@;
                b.doc.prologue.push(n);
                proof { lemma_nodes_view_push(p0, n); }
            } else {
                let ghost p0 = b.doc.epilogue@;
                b.doc.epilogue.push(n);
                proof { lemma_nodes_view_push(p0, n); }
            }
        },
    }
}

/// Puts `n` into the element being filled; drops it when there is none.
fn add_to_open(b: &mut Builder, n: Node)
    requires
        old(b).doc.metadata.path is None,
    ensures
        builder_view(*final(b)) == add_to_current(builder_view(*old(b)), node_view(n)),
        final(b).doc.metadata.path is None,
{
    let mut cur: Option<Element> = None;
    std::mem::swap(&mut cur, &mut b.current);
    match cur {
        Some(mut c) => {
            let ghost c0 = c;
            c.add_child(n);
            proof { lemma_push_child(c0, n, c); }
            b.current = Some(c);
        },
        None => {},
    }
}

/// Splits a processing instruction at its first space.
pub fn split_pi(raw: &str) -> (r: (String, String))
    ensures
        r.0@ == pi_target(raw@),
        r.1@ == pi_data(raw@),
{
    let cs = to_chars(raw);
    let n = cs.len();
    match find_char(cs.as_slice(), ' ') {
        Some(i) => (chars_until(cs.as_slice(), i), chars_from(cs.as_slice(), i + 1)),
        None => {
            let t = chars_until(cs.as_slice(), n);
            assert(cs@.take(cs@.len() as int) =~= cs@);
            (t, String::new())
        },
    }
}

/// Whether a text is kept: always when white space is kept, and otherwise
/// when it is not all white space.
fn keeps_text(t: &str, keep_ws: bool) -> (r: bool)
    ensures
        r == (keep_ws || trim(t@).len() > 0),
{
    if keep_ws {
        true
    } else {
        let cs = to_chars(t);
        trim_chars(cs.as_slice()).len() > 0
    }
}

fn step(b: &mut Builder, ev: XmlEvent, keep_ws: bool, keep_comments: bool)
    requires
        old(b).doc.metadata.path is None,
    ensures
        builder_view(*final(b)) == step_view(builder_view(*old(b)), ev, keep_ws, keep_comments),
        final(b).doc.metadata.path is None,
{
    let ghost s0 = builder_view(*b);
    let ghost ev0 = ev;
    match ev {
        XmlEvent::Start(t) => {
            let el = element_of_tag(t);
            let mut cur: Option<Element> = Some(el);
            std::mem::swap(&mut cur, &mut b.current);
            match cur {
                Some(c) => {
                    let ghost st = b.stack@;
                    b.stack.push(c);
                    assert(b.stack@.map_values(|e: Element| elem_view(e))
                        =~= st.map_values(|e: Element| elem_view(e)).push(elem_view(c)));
                },
                None => {},
            }
        },
        XmlEvent::End => {
            let mut cur: Option<Element> = None;
            std::mem::swap(&mut cur, &mut b.current);
            match cur {
                Some(f) => {
                    if b.stack.len() > 0 {
                        let ghost st = b.stack@;
                        let mut parent = b.stack.pop().unwrap();
                        assert(b.stack@.map_values(|e: Element| elem_view(e))
                            =~= st.map_values(|e: Element| elem_view(e)).drop_last());
                        let ghost p0 = parent;
                        let ghost fnode = Node::Element(f);
                        parent.add_child(Node::Element(f));
                        proof { lemma_push_child(p0, fnode, parent); }
                        b.current = Some(parent);
                    } else {
                        b.doc.root = f;
                        b.found_root = true;
                    }
                },
                None => {},
            }
        },
        XmlEvent::Empty(t) => {
            let el = element_of_tag(t);
            let mut cur: Option<Element> = None;
            std::mem::swap(&mut cur, &mut b.current);
            match cur {
                Some(mut c) => {
                    let ghost c0 = c;
                    let ghost enode = Node::Element(el);
                    c.add_child(Node::Element(el));
                    proof { lemma_push_child(c0, enode, c); }
                    b.current = Some(c);
                },
                None => {
                    b.doc.root = el;
                    b.found_root = true;
                },
            }
        },
        XmlEvent::Text(t) => {
            if keeps_text(t.as_str(), keep_ws) {
                add_to_open(b, Node::Text(t));
            }
        },
        XmlEvent::Comment(c) => {
            if keep_comments {
                place(b, Node::Comment(c));
            }
        },
        XmlEvent::CData(c) => {
            add_to_open(b, Node::CData(c));
        },
        XmlEvent::Pi(raw) => {
            let (target, data) = split_pi(raw.as_str());
            place(b, Node::ProcessingInstruction { target, data });
        },
        XmlEvent::Decl(v, e) => {
            match v {
                Some(x) => { b.doc.metadata.version = Some(x); },
                None => {},
            }
            match e {
                Some(x) => { b.doc.metadata.encoding = Some(x); },
                None => {},
            }
        },
        XmlEvent::DocType(d) => {
            if !b.found_root {
                let ghost p0 = b.doc.prologue@;
                let ghost dnode = Node::DocType(d);
                b.doc.prologue.push(Node::DocType(d));
                proof { lemma_nodes_view_push(p0, dnode); }
            }
        },
        XmlEvent::GeneralRef => {},
        XmlEvent::Eof => {},
    }
}

/// Builds the document from a sequence of reader events, up to the first
/// end-of-file event.  It fails only when no root element was found.
pub fn build_document(events: Vec<XmlEvent>, keep_ws: bool, keep_comments: bool) -> (r: Result<Document, ParseError>)
    ensures
        match r {
            Ok(d) => !lacks_root(built(events@, keep_ws, keep_comments))
                && document_of(d, built(events@, keep_ws, keep_comments)),
            Err(e) => lacks_root(built(events@, keep_ws, keep_comments))
                && (e matches ParseError::StructureError(m) && m@ == "No root element found"@),
        },
{
    let ghost all = events@;
    let mut b = Builder { doc: Document::new(), stack: Vec::new(), current: None, found_root: false };
    assert(b.stack@.map_values(|e: Element| elem_view(e)) =~= Seq::<ElementView>::empty());
    assert(nodes_view(b.doc.prologue@) =~= Seq::<NodeView>::empty());
    assert(nodes_view(b.doc.epilogue@) =~= Seq::<NodeView>::empty());
    assert(builder_view(b) == initial_view());
    let mut rest = events;
    assert(all.skip(0) =~= all);
    let n = rest.len();
    let mut i: usize = 0;
    while i < n
        invariant_except_break
            rest@ == all.skip(i as int),
        invariant
            n == all.len(), i <= n,
            b.doc.metadata.path is None,
            run_view(builder_view(b), all.skip(i as int), keep_ws, keep_comments) == built(all, keep_ws, keep_comments),
        ensures
            builder_view(b) == built(all, keep_ws, keep_comments),
        decreases n - i,
    {
        let ev = rest.remove(0);
        assert(ev == all.skip(i as int)[0]);
        if let XmlEvent::Eof = ev {
            break;
        }
        assert(all.skip(i as int).drop_first() =~= all.skip(i + 1));
        step(&mut b, ev, keep_ws, keep_comments);
        i = i + 1;
    }
    if b.current.is_none() && b.doc.root.name.as_str().is_empty() {
        assert(b.doc.root.name@.len() == 0);
        return Err(ParseError::StructureError(owned("No root element found")));
    }
    Ok(b.doc)
}

/// SVG parser.
pub struct Parser {
    preserve_whitespace: bool,
    preserve_comments: bool,
}

impl Parser {
    /// Whether text that is all white space is kept.
    pub closed spec fn keeps_whitespace(&self) -> bool {
        self.preserve_whitespace
    }

    /// Whether comments are kept.
    pub closed spec fn keeps_comments(&self) -> bool {
        self.preserve_comments
    }

    /// A parser that drops white-space text and comments.
    pub fn new() -> (p: Parser)
        ensures
            !p.keeps_whitespace(),
            !p.keeps_comments(),
    {
        Parser { preserve_whitespace: false, preserve_comments: false }
    }

    /// Sets whether white-space text is kept.
    pub fn preserve_whitespace(self, preserve: bool) -> (p: Parser)
        ensures
            p.keeps_whitespace() == preserve,
            p.keeps_comments() == self.keeps_comments(),
    {
        Parser { preserve_whitespace: preserve, ..self }
    }

    /// Sets whether comments are kept.
    pub fn preserve_comments(self, preserve: bool) -> (p: Parser)
        ensures
            p.keeps_comments() == preserve,
            p.keeps_whitespace() == self.keeps_whitespace(),
    {
        Parser { preserve_comments: preserve, ..self }
    }

    /// Reads and decodes the events of `input` up to the end of the file;
    /// text is trimmed at both ends unless white space is kept.  The reader
    /// gives at most two events for each byte of input (a start
    /// and the end that an empty element expands to); past that bound the
    /// input is reported as ending unexpectedly.
    fn read_events(&self, input: &str) -> (r: Result<Vec<XmlEvent>, ParseError>)
        ensures
            match r {
                Ok(evs) => reads_events(input@, !self.keeps_whitespace(), evs@, event_limit(input)),
                Err(e) => read_fails(input@, !self.keeps_whitespace(), event_limit(input), e),
            },
    {
        let ghost txt = input@;
        let ghost trim = !self.keeps_whitespace();
        let mut src = xml_source(input, !self.preserve_whitespace);
        let mut events: Vec<XmlEvent> = Vec::new();
        let limit: u128 = (input.len() as u128) * 2 + 2;
        let mut count: u128 = 0;
        while count < limit
            invariant
                count <= limit,
                limit == event_limit(input),
                txt == input@, trim == !self.keeps_whitespace(),
                src.text() == txt, src.trims() == trim, src.given() == count,
                events@.len() == count,
                reads_prefix(txt, trim, count as nat),
                forall|j: int| 0 <= j < count ==> event_at(#[trigger] events@[j], txt, trim, j as nat),
            decreases limit - count,
        {
            let ghost k = count as nat;
            let p = match read_next(&mut src) {
                Ok(p) => p,
                Err(m) => {
                    let e = ParseError::XmlError(m);
                    assert(event_error(txt, trim, k) == Some(parse_error_code(e)));
                    return Err(e);
                },
            };
            let kind = payload_kind(&p);
            let ev = match kind {
                EventKind::Start | EventKind::Empty => {
                    let name = match payload_tag_name(&p) {
                        Ok(n) => n,
                        Err(m) => {
                            let e = ParseError::Utf8Error(m);
                            assert(event_error(txt, trim, k) == Some(parse_error_code(e)));
                            return Err(e);
                        },
                    };
                    let attrs = match payload_tag_attrs(&p) {
                        Ok(a) => a,
                        Err(e) => {
                            assert(event_error(txt, trim, k) == Some(parse_error_code(e)));
                            return Err(e);
                        },
                    };
                    let t = StartTag { name, attrs };
                    if kind == EventKind::Start { XmlEvent::Start(t) } else { XmlEvent::Empty(t) }
                },
                EventKind::End => XmlEvent::End,
                EventKind::Text | EventKind::DocType => {
                    let t = match payload_text(&p) {
                        Ok(t) => t,
                        Err(m) => {
                            let e = ParseError::XmlError(m);
                            assert(event_error(txt, trim, k) == Some(parse_error_code(e)));
                            return Err(e);
                        },
                    };
                    if kind == EventKind::Text { XmlEvent::Text(t) } else { XmlEvent::DocType(t) }
                },
                EventKind::Comment | EventKind::CData | EventKind::Pi => {
                    let t = match payload_raw(&p) {
                        Ok(t) => t,
                        Err(m) => {
                            let e = ParseError::Utf8Error(m);
                            assert(event_error(txt, trim, k) == Some(parse_error_code(e)));
                            return Err(e);
                        },
                    };
                    if kind == EventKind::Comment {
                        XmlEvent::Comment(t)
                    } else if kind == EventKind::CData {
                        XmlEvent::CData(t)
                    } else {
                        XmlEvent::Pi(t)
                    }
                },
                EventKind::Decl => {
                    let (v, enc) = payload_decl(&p);
                    XmlEvent::Decl(v, enc)
                },
                EventKind::GeneralRef => XmlEvent::GeneralRef,
                EventKind::Eof => XmlEvent::Eof,
            };
            assert(event_at(ev, txt, trim, k));
            assert(event_error(txt, trim, k) is None);
            let ghost before = events@;
            events.push(ev);
            assert(events@[count as int] == ev);
            assert forall|j: int| 0 <= j < count + 1 implies event_at(#[trigger] events@[j], txt, trim, j as nat) by {
                if j < count { assert(events@[j] == before[j]); }
            }
            if kind == EventKind::Eof {
                return Ok(events);
            }
            count = count + 1;
        }
        Err(ParseError::UnexpectedEnd)
    }

    /// Parses an SVG string into a document: the one that `build_document`
    /// makes of the reader's events for `input`.  It fails when an event
    /// cannot be read or decoded, when the input gives more events than its
    /// bound, or when no root element is found.
    pub fn parse(&self, input: &str) -> (r: Result<Document, ParseError>)
        ensures
            match r {
                Ok(d) => exists|evs: Seq<XmlEvent>|
                    reads_events(input@, !self.keeps_whitespace(), evs, event_limit(input))
                    && !lacks_root(built(evs, self.keeps_whitespace(), self.keeps_comments()))
                    && document_of(d, #[trigger] built(evs, self.keeps_whitespace(), self.keeps_comments())),
                Err(e) => read_fails(input@, !self.keeps_whitespace(), event_limit(input), e)
                    || exists|evs: Seq<XmlEvent>|
                        reads_events(input@, !self.keeps_whitespace(), evs, event_limit(input))
                        && lacks_root(#[trigger] built(evs, self.keeps_whitespace(), self.keeps_comments()))
                        && (e matches ParseError::StructureError(m) && m@ == "No root element found"@),
            },
    {
        let events = self.read_events(input)?;
        let ghost evs = events@;
        let r = build_document(events, self.preserve_whitespace, self.preserve_comments);
        proof {
            let b = built(evs, self.keeps_whitespace(), self.keeps_comments());
            if r is Ok {
                assert(!lacks_root(b));
            } else {
                assert(lacks_root(b));
            }
        }
        r
    }
}

impl Default for Parser {
    fn default() -> (p: Parser)
        ensures
            !p.keeps_whitespace(),
            !p.keeps_comments(),
    {
        Parser::new()
    }
}

/// Parses an SVG string with a parser that drops white-space text and
/// comments.
pub fn parse_svg(input: &str) -> (r: Result<Document, ParseError>)
    ensures
        match r {
            Ok(d) => exists|evs: Seq<XmlEvent>|
                reads_events(input@, true, evs, event_limit(input))
                && !lacks_root(built(evs, false, false)) && document_of(d, #[trigger] built(evs, false, false)),
            Err(e) => read_fails(input@, true, event_limit(input), e)
                || exists|evs: Seq<XmlEvent>|
                    reads_events(input@, true, evs, event_limit(input))
                    && lacks_root(#[trigger] built(evs, false, false))
                    && (e matches ParseError::StructureError(m) && m@ == "No root element found"@),
        },
{
    Parser::new().parse(input)
}

} // verus!
