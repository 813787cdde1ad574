//! PFX XML: the interchange format, as a sequence of XML events.
//!
//! The element and attribute names are a published schema that other tools
//! consume, so they are written out here by hand rather than derived. This
//! module decides which elements and attributes a show becomes and how a
//! document is read back; quick_xml tokenises the text.

use vstd::prelude::*;

use quick_xml::events::attributes::{AttrError, Attribute, Attributes};
use vstd::utf8::encode_utf8;
use quick_xml::events::{BytesDecl, BytesEnd, BytesStart, BytesText, Event};
use quick_xml::Reader;

use crate::lex::is_float_chars;
use crate::lex::is_float_text;
use crate::model::show::{
    opt_text, DeviceView, DiagnosticView, HeadAmpView, InputPatchView, OutputPatchView, SceneView,
    ShowMetaView, ShowView, StripView,
};
use crate::model::signal::{
    severity_from_text, severity_text, signal_from_text, signal_text, strip_id_from_text,
    strip_id_text, tap_from_text, tap_text, SignalView,
};
use crate::model::{
    socket_from_text, socket_text, transport_from_text, transport_text, Device, Diagnostic,
    HeadAmp, InputPatch, OutputPatch, Scene, Severity, Show, ShowMeta, SignalRef, SocketRef,
    SocketView, Strip, StripId, Tap, Transport,
};
use crate::text::{
    first_match, lemma_first_match, lemma_first_match_at, lemma_first_match_none, lossy_utf8,
    slice_prefix, utf8_decode, utf8_strict, utf8_lossy, chars_of, dec, dec_string, eq_str, is_digit, is_ws, lead_ws, lemma_dec_digits,
    lemma_parse_dec, parse_u16, parse_u16_spec, push_str, string_of, trail_ws, trim, trim_vec,
};

verus! {

pub const NAMESPACE: &'static str = "https://patchferret.stoatworks.dev/schema/1";

pub const SCHEMA_VERSION: &'static str = "1";

/// One XML event of a PFX document.
#[derive(Debug, Clone, PartialEq)]
pub enum XmlEvent {
    /// An element with content, and its attributes.
    Start(String, Vec<(String, Option<String>)>),
    /// An element without content.
    Empty(String, Vec<(String, Option<String>)>),
    /// Character data, unescaped.
    Text(String),
    /// The end of an element.
    End(String),
}

/// An attribute: its name, and its value unless the value could not be read.
pub type AttrView = (Seq<char>, Option<Seq<char>>);

pub enum XmlEventView {
    Start(Seq<char>, Seq<AttrView>),
    Empty(Seq<char>, Seq<AttrView>),
    Text(Seq<char>),
    End(Seq<char>),
}

pub open spec fn attrs_view(v: Seq<(String, Option<String>)>) -> Seq<AttrView> {
    v.map_values(|p: (String, Option<String>)| (p.0@, opt_text(p.1)))
}

impl View for XmlEvent {
    type V = XmlEventView;

    open spec fn view(&self) -> XmlEventView {
        match self {
            XmlEvent::Start(n, a) => XmlEventView::Start(n@, attrs_view(a@)),
            XmlEvent::Empty(n, a) => XmlEventView::Empty(n@, attrs_view(a@)),
            XmlEvent::Text(t) => XmlEventView::Text(t@),
            XmlEvent::End(n) => XmlEventView::End(n@),
        }
    }
}

pub open spec fn events_view(v: Seq<XmlEvent>) -> Seq<XmlEventView> {
    v.map_values(|e: XmlEvent| e@)
}

/// Why a document is not a PFX show.
#[derive(Debug, Clone, PartialEq, Eq)]
pub enum PfxError {
    Malformed(String),
    Version(String),
}

pub enum PfxErrorView {
    Malformed(Seq<char>),
    Version(Seq<char>),
}

impl View for PfxError {
    type V = PfxErrorView;

    open spec fn view(&self) -> PfxErrorView {
        match self {
            PfxError::Malformed(m) => PfxErrorView::Malformed(m@),
            PfxError::Version(v) => PfxErrorView::Version(v@),
        }
    }
}

pub open spec fn pfx_error_text(e: PfxErrorView) -> Seq<char> {
    match e {
        PfxErrorView::Malformed(m) => "malformed PFX: "@ + m,
        PfxErrorView::Version(v) => "unsupported PFX schema version "@ + v
            + ", this build understands 1"@,
    }
}

impl PfxError {
    /// The error as a sentence.
    pub fn message(&self) -> (r: String)
        ensures
            r@ == pfx_error_text(self@),
    {
        let mut s = String::new();
        match self {
            PfxError::Malformed(m) => {
                push_str(&mut s, "malformed PFX: ");
                push_str(&mut s, m.as_str());
            },
            PfxError::Version(v) => {
                push_str(&mut s, "unsupported PFX schema version ");
                push_str(&mut s, v.as_str());
                push_str(&mut s, ", this build understands 1");
            },
        }
        proof {
            assert(s@ =~= pfx_error_text(self@));
        }
        s
    }
}

// ---------------------------------------------------------------------------
// Reading attributes
// ---------------------------------------------------------------------------

/// The value of the first attribute with this name.
pub open spec fn lookup(a: Seq<AttrView>, k: Seq<char>) -> Option<Seq<char>>
    decreases a.len(),
{
    if a.len() == 0 {
        None
    } else if a[0].0 == k {
        a[0].1
    } else {
        lookup(a.drop_first(), k)
    }
}

pub open spec fn attr_or(a: Seq<AttrView>, k: Seq<char>, d: Seq<char>) -> Seq<char> {
    match lookup(a, k) {
        Some(v) => v,
        None => d,
    }
}

pub open spec fn attr_bool(a: Seq<AttrView>, k: Seq<char>) -> bool {
    lookup(a, k) == Some("true"@) || lookup(a, k) == Some("1"@)
}

pub open spec fn attr_u16(a: Seq<AttrView>, k: Seq<char>) -> Option<u16> {
    match lookup(a, k) {
        Some(v) => parse_u16_spec(trim(v)),
        None => None,
    }
}

pub open spec fn unwrap_u16(o: Option<u16>) -> u16 {
    match o {
        Some(v) => v,
        None => 0,
    }
}

/// A level: the trimmed text, when it reads as a number.
pub open spec fn attr_level(a: Seq<AttrView>, k: Seq<char>) -> Option<Seq<char>> {
    match lookup(a, k) {
        Some(v) => if is_float_text(trim(v)) {
            Some(trim(v))
        } else {
            None
        },
        None => None,
    }
}

pub open spec fn attr_socket(a: Seq<AttrView>, k: Seq<char>) -> Option<SocketView> {
    match lookup(a, k) {
        Some(v) => socket_from_text(v),
        None => None,
    }
}

pub open spec fn attr_strip_id(a: Seq<AttrView>, k: Seq<char>) -> Option<StripId> {
    match lookup(a, k) {
        Some(v) => strip_id_from_text(v),
        None => None,
    }
}

fn lookup_exec(a: &Vec<(String, Option<String>)>, k: &str) -> (r: Option<String>)
    ensures
        opt_text(r) == lookup(attrs_view(a@), k@),
{
    let ghost av = attrs_view(a@);
    let mut i: usize = 0;
    proof {
        assert(av.skip(0) =~= av);
    }
    while i < a.len()
        invariant
            i <= a@.len(),
            av == attrs_view(a@),
            lookup(av.skip(i as int), k@) == lookup(av, k@),
        decreases a@.len() - i,
    {
        proof {
            assert(av.skip(i as int)[0] == av[i as int]);
            assert(av.skip(i as int).drop_first() =~= av.skip(i + 1));
            assert(av[i as int] == (a@[i as int].0@, opt_text(a@[i as int].1)));
        }
        if eq_str(chars_of(a[i].0.as_str()).as_slice(), k) {
            return match &a[i].1 {
                Some(v) => Some(v.clone()),
                None => None,
            };
        }
        i = i + 1;
    }
    None
}

fn attr_or_exec(a: &Vec<(String, Option<String>)>, k: &str, d: &str) -> (r: String)
    ensures
        r@ == attr_or(attrs_view(a@), k@, d@),
{
    match lookup_exec(a, k) {
        Some(v) => v,
        None => String::from_str(d),
    }
}

fn attr_bool_exec(a: &Vec<(String, Option<String>)>, k: &str) -> (r: bool)
    ensures
        r == attr_bool(attrs_view(a@), k@),
{
    match lookup_exec(a, k) {
        Some(v) => {
            let cs = chars_of(v.as_str());
            eq_str(cs.as_slice(), "true") || eq_str(cs.as_slice(), "1")
        },
        None => false,
    }
}

fn attr_u16_exec(a: &Vec<(String, Option<String>)>, k: &str) -> (r: Option<u16>)
    ensures
        r == attr_u16(attrs_view(a@), k@),
{
    match lookup_exec(a, k) {
        Some(v) => {
            let t = trim_vec(chars_of(v.as_str()).as_slice());
            parse_u16(t.as_slice())
        },
        None => None,
    }
}

fn attr_level_exec(a: &Vec<(String, Option<String>)>, k: &str) -> (r: Option<String>)
    ensures
        opt_text(r) == attr_level(attrs_view(a@), k@),
{
    match lookup_exec(a, k) {
        Some(v) => {
            let t = trim_vec(chars_of(v.as_str()).as_slice());
            if is_float_chars(t.as_slice()) {
                Some(string_of(t.as_slice()))
            } else {
                None
            }
        },
        None => None,
    }
}

fn attr_socket_exec(a: &Vec<(String, Option<String>)>, k: &str) -> (r: Option<SocketRef>)
    ensures
        match r {
            Some(s) => attr_socket(attrs_view(a@), k@) == Some(s@),
            None => attr_socket(attrs_view(a@), k@) is None,
        },
{
    match lookup_exec(a, k) {
        Some(v) => SocketRef::parse(v.as_str()),
        None => None,
    }
}

fn attr_strip_id_exec(a: &Vec<(String, Option<String>)>, k: &str) -> (r: Option<StripId>)
    ensures
        r == attr_strip_id(attrs_view(a@), k@),
{
    match lookup_exec(a, k) {
        Some(v) => StripId::parse(v.as_str()),
        None => None,
    }
}

// ---------------------------------------------------------------------------
// Reading a document
// ---------------------------------------------------------------------------

pub open spec fn meta_from(a: Seq<AttrView>) -> ShowMetaView {
    ShowMetaView {
        name: attr_or(a, "name"@, ""@),
        note: lookup(a, "note"@),
        source_format: attr_or(a, "source-format"@, ""@),
        console: attr_or(a, "console"@, ""@),
        format_version: lookup(a, "format-version"@),
    }
}

pub open spec fn device_from(a: Seq<AttrView>) -> DeviceView {
    DeviceView {
        id: attr_or(a, "id"@, ""@),
        label: attr_or(a, "label"@, ""@),
        model: lookup(a, "model"@),
        transport: transport_from_text(attr_or(a, "transport"@, "other"@)),
        inputs: unwrap_u16(attr_u16(a, "inputs"@)),
        outputs: unwrap_u16(attr_u16(a, "outputs"@)),
    }
}

pub open spec fn headamp_from(a: Seq<AttrView>, socket: SocketView) -> HeadAmpView {
    HeadAmpView {
        socket,
        gain_db: attr_level(a, "gain-db"@),
        phantom: attr_bool(a, "phantom"@),
        pad: attr_bool(a, "pad"@),
        polarity_invert: attr_bool(a, "polarity-invert"@),
    }
}

pub open spec fn strip_from(a: Seq<AttrView>, id: StripId) -> StripView {
    StripView {
        id,
        name: attr_or(a, "name"@, ""@),
        colour: lookup(a, "colour"@),
        icon: lookup(a, "icon"@),
        source: signal_from_text(attr_or(a, "source"@, "off"@)),
        muted: attr_bool(a, "muted"@),
        fader_db: attr_level(a, "fader-db"@),
        linked_to: attr_strip_id(a, "linked-to"@),
    }
}

pub open spec fn input_from(a: Seq<AttrView>) -> InputPatchView {
    InputPatchView {
        slot: unwrap_u16(attr_u16(a, "slot"@)),
        block_label: attr_or(a, "block"@, ""@),
        socket: attr_socket(a, "socket"@),
        strip: attr_strip_id(a, "strip"@),
    }
}

pub open spec fn output_from(a: Seq<AttrView>, socket: SocketView) -> OutputPatchView {
    OutputPatchView {
        socket,
        source: signal_from_text(attr_or(a, "source"@, "off"@)),
        tap: tap_from_text(attr_or(a, "tap"@, "unknown"@)),
        source_label: attr_or(a, "source-label"@, ""@),
    }
}

pub open spec fn scene_from(a: Seq<AttrView>) -> SceneView {
    SceneView {
        index: unwrap_u16(attr_u16(a, "index"@)),
        name: attr_or(a, "name"@, ""@),
        note: lookup(a, "note"@),
    }
}

pub open spec fn diagnostic_from(a: Seq<AttrView>) -> DiagnosticView {
    DiagnosticView {
        severity: severity_from_text(attr_or(a, "severity"@, "unknown"@)),
        locus: attr_or(a, "locus"@, ""@),
        message: Seq::empty(),
    }
}

/// Where a reader is: the show so far, a diagnostic whose message has not
/// been read yet, and whether the root element was seen.
pub struct ReadState {
    pub show: ShowView,
    pub pending: Option<DiagnosticView>,
    pub saw_root: bool,
}

/// What an element does to the show being read.
pub open spec fn element_step(st: ReadState, name: Seq<char>, a: Seq<AttrView>) -> Result<
    ReadState,
    PfxErrorView,
> {
    let s = st.show;
    if name == "pfx"@ {
        let v = attr_or(a, "version"@, "1"@);
        if v != "1"@ {
            Err(PfxErrorView::Version(v))
        } else {
            Ok(ReadState { saw_root: true, ..st })
        }
    } else if name == "show"@ {
        Ok(ReadState { show: ShowView { meta: meta_from(a), ..s }, ..st })
    } else if name == "device"@ {
        Ok(ReadState { show: ShowView { devices: s.devices.push(device_from(a)), ..s }, ..st })
    } else if name == "headamp"@ {
        match attr_socket(a, "socket"@) {
            None => Err(PfxErrorView::Malformed("headamp without valid socket"@)),
            Some(k) => Ok(
                ReadState {
                    show: ShowView { head_amps: s.head_amps.push(headamp_from(a, k)), ..s },
                    ..st
                },
            ),
        }
    } else if name == "strip"@ {
        match attr_strip_id(a, "id"@) {
            None => Err(PfxErrorView::Malformed("strip without valid id"@)),
            Some(id) => Ok(
                ReadState { show: ShowView { strips: s.strips.push(strip_from(a, id)), ..s }, ..st },
            ),
        }
    } else if name == "in"@ {
        Ok(ReadState { show: ShowView { inputs: s.inputs.push(input_from(a)), ..s }, ..st })
    } else if name == "out"@ {
        match attr_socket(a, "socket"@) {
            None => Err(PfxErrorView::Malformed("output without valid socket"@)),
            Some(k) => Ok(
                ReadState {
                    show: ShowView { outputs: s.outputs.push(output_from(a, k)), ..s },
                    ..st
                },
            ),
        }
    } else if name == "scene"@ {
        Ok(ReadState { show: ShowView { scenes: s.scenes.push(scene_from(a)), ..s }, ..st })
    } else if name == "diagnostic"@ {
        Ok(ReadState { pending: Some(diagnostic_from(a)), ..st })
    } else {
        Ok(st)
    }
}

/// What one event does.
pub open spec fn event_step(st: ReadState, e: XmlEventView) -> Result<ReadState, PfxErrorView> {
    match e {
        XmlEventView::Start(n, a) => element_step(st, n, a),
        XmlEventView::Empty(n, a) => element_step(st, n, a),
        XmlEventView::Text(t) => match st.pending {
            Some(d) => Ok(ReadState { pending: Some(DiagnosticView { message: t, ..d }), ..st }),
            None => Ok(st),
        },
        XmlEventView::End(n) => if n == "diagnostic"@ {
            match st.pending {
                Some(d) => Ok(
                    ReadState { show: st.show.push_diagnostic(d), pending: None, ..st },
                ),
                None => Ok(st),
            }
        } else {
            Ok(st)
        },
    }
}

/// The events read in order from `st`; the first error stops the reading.
pub open spec fn read_events(st: ReadState, evs: Seq<XmlEventView>) -> Result<ReadState, PfxErrorView>
    decreases evs.len(),
{
    if evs.len() == 0 {
        Ok(st)
    } else {
        match event_step(st, evs[0]) {
            Err(e) => Err(e),
            Ok(s2) => read_events(s2, evs.drop_first()),
        }
    }
}

pub open spec fn empty_show() -> ShowView {
    ShowView {
        meta: ShowMetaView {
            name: Seq::empty(),
            note: None,
            source_format: Seq::empty(),
            console: Seq::empty(),
            format_version: None,
        },
        devices: Seq::empty(),
        head_amps: Seq::empty(),
        strips: Seq::empty(),
        inputs: Seq::empty(),
        outputs: Seq::empty(),
        scenes: Seq::empty(),
        diagnostics: Seq::empty(),
    }
}

pub open spec fn read_start() -> ReadState {
    ReadState { show: empty_show(), pending: None, saw_root: false }
}

/// What a PFX document reads as.
pub open spec fn from_events_spec(evs: Seq<XmlEventView>) -> Result<ShowView, PfxErrorView> {
    match read_events(read_start(), evs) {
        Err(e) => Err(e),
        Ok(st) => if st.saw_root {
            Ok(st.show)
        } else {
            Err(PfxErrorView::Malformed("no <pfx> root element"@))
        },
    }
}

pub open spec fn opt_diag(d: Option<Diagnostic>) -> Option<DiagnosticView> {
    match d {
        Some(x) => Some(x@),
        None => None,
    }
}

pub open spec fn state_of(show: Show, pending: Option<Diagnostic>, saw_root: bool) -> ReadState {
    ReadState { show: show@, pending: opt_diag(pending), saw_root }
}

fn element(
    show: &mut Show,
    pending: &mut Option<Diagnostic>,
    saw_root: &mut bool,
    name: &String,
    a: &Vec<(String, Option<String>)>,
) -> (r: Result<(), PfxError>)
    ensures
        match r {
            Ok(()) => element_step(state_of(*old(show), *old(pending), *old(saw_root)), name@, attrs_view(a@))
                == Ok::<ReadState, PfxErrorView>(state_of(*final(show), *final(pending), *final(saw_root))),
            Err(e) => element_step(state_of(*old(show), *old(pending), *old(saw_root)), name@, attrs_view(a@))
                == Err::<ReadState, PfxErrorView>(e@),
        },
{
    let n = chars_of(name.as_str());
    let av = Ghost(attrs_view(a@));
    if eq_str(n.as_slice(), "pfx") {
        let v = attr_or_exec(a, "version", "1");
        if !eq_str(chars_of(v.as_str()).as_slice(), "1") {
            return Err(PfxError::Version(v));
        }
        *saw_root = true;
    } else if eq_str(n.as_slice(), "show") {
        show.meta = ShowMeta {
            name: attr_or_exec(a, "name", ""),
            note: lookup_exec(a, "note"),
            source_format: attr_or_exec(a, "source-format", ""),
            console: attr_or_exec(a, "console", ""),
            format_version: lookup_exec(a, "format-version"),
        };
    } else if eq_str(n.as_slice(), "device") {
        let d = Device {
            id: attr_or_exec(a, "id", ""),
            label: attr_or_exec(a, "label", ""),
            model: lookup_exec(a, "model"),
            transport: Transport::parse(attr_or_exec(a, "transport", "other").as_str()),
            inputs: match attr_u16_exec(a, "inputs") {
                Some(v) => v,
                None => 0,
            },
            outputs: match attr_u16_exec(a, "outputs") {
                Some(v) => v,
                None => 0,
            },
        };
        let ghost before = show@;
        show.devices.push(d);
        proof {
            assert(show@.devices =~= before.devices.push(d@));
            assert(show@ =~= (ShowView { devices: before.devices.push(d@), ..before }));
        }
    } else if eq_str(n.as_slice(), "headamp") {
        let socket = match attr_socket_exec(a, "socket") {
            Some(k) => k,
            None => return Err(PfxError::Malformed(String::from_str("headamp without valid socket"))),
        };
        let h = HeadAmp {
            socket,
            gain_db: attr_level_exec(a, "gain-db"),
            phantom: attr_bool_exec(a, "phantom"),
            pad: attr_bool_exec(a, "pad"),
            polarity_invert: attr_bool_exec(a, "polarity-invert"),
        };
        show.push_head_amp(h);
    } else if eq_str(n.as_slice(), "strip") {
        let id = match attr_strip_id_exec(a, "id") {
            Some(i) => i,
            None => return Err(PfxError::Malformed(String::from_str("strip without valid id"))),
        };
        let st = Strip {
            id,
            name: attr_or_exec(a, "name", ""),
            colour: lookup_exec(a, "colour"),
            icon: lookup_exec(a, "icon"),
            source: SignalRef::parse(attr_or_exec(a, "source", "off").as_str()),
            muted: attr_bool_exec(a, "muted"),
            fader_db: attr_level_exec(a, "fader-db"),
            linked_to: attr_strip_id_exec(a, "linked-to"),
        };
        show.push_strip(st);
    } else if eq_str(n.as_slice(), "in") {
        let p = InputPatch {
            slot: match attr_u16_exec(a, "slot") {
                Some(v) => v,
                None => 0,
            },
            block_label: attr_or_exec(a, "block", ""),
            socket: attr_socket_exec(a, "socket"),
            strip: attr_strip_id_exec(a, "strip"),
        };
        show.push_input(p);
    } else if eq_str(n.as_slice(), "out") {
        let socket = match attr_socket_exec(a, "socket") {
            Some(k) => k,
            None => return Err(PfxError::Malformed(String::from_str("output without valid socket"))),
        };
        let o = OutputPatch {
            socket,
            source: SignalRef::parse(attr_or_exec(a, "source", "off").as_str()),
            tap: Tap::parse(attr_or_exec(a, "tap", "unknown").as_str()),
            source_label: attr_or_exec(a, "source-label", ""),
        };
        show.push_output(o);
    } else if eq_str(n.as_slice(), "scene") {
        let sc = Scene {
            index: match attr_u16_exec(a, "index") {
                Some(v) => v,
                None => 0,
            },
            name: attr_or_exec(a, "name", ""),
            note: lookup_exec(a, "note"),
        };
        let ghost before = show@;
        show.scenes.push(sc);
        proof {
            assert(show@.scenes =~= before.scenes.push(sc@));
            assert(show@ =~= (ShowView { scenes: before.scenes.push(sc@), ..before }));
        }
    } else if eq_str(n.as_slice(), "diagnostic") {
        *pending = Some(
            Diagnostic {
                severity: Severity::parse(attr_or_exec(a, "severity", "unknown").as_str()),
                locus: attr_or_exec(a, "locus", ""),
                message: String::new(),
            },
        );
    }
    Ok(())
}

fn event(
    show: &mut Show,
    pending: &mut Option<Diagnostic>,
    saw_root: &mut bool,
    e: &XmlEvent,
) -> (r: Result<(), PfxError>)
    ensures
        match r {
            Ok(()) => event_step(state_of(*old(show), *old(pending), *old(saw_root)), e@)
                == Ok::<ReadState, PfxErrorView>(state_of(*final(show), *final(pending), *final(saw_root))),
            Err(x) => event_step(state_of(*old(show), *old(pending), *old(saw_root)), e@)
                == Err::<ReadState, PfxErrorView>(x@),
        },
{
    match e {
        XmlEvent::Start(n, a) => element(show, pending, saw_root, n, a),
        XmlEvent::Empty(n, a) => element(show, pending, saw_root, n, a),
        XmlEvent::Text(t) => {
            match pending {
                Some(d) => {
                    d.message = t.clone();
                },
                None => {},
            }
            Ok(())
        },
        XmlEvent::End(n) => {
            if eq_str(chars_of(n.as_str()).as_slice(), "diagnostic") {
                let mut p: Option<Diagnostic> = None;
                std::mem::swap(&mut p, pending);
                match p {
                    Some(d) => show.push_diagnostic(d),
                    None => {},
                }
            }
            Ok(())
        },
    }
}

fn empty_show_exec() -> (r: Show)
    ensures
        r@ == empty_show(),
{
    let r = Show::default();
    proof {
        assert(r@.devices =~= Seq::<DeviceView>::empty());
        assert(r@.head_amps =~= Seq::<HeadAmpView>::empty());
        assert(r@.strips =~= Seq::<StripView>::empty());
        assert(r@.inputs =~= Seq::<InputPatchView>::empty());
        assert(r@.outputs =~= Seq::<OutputPatchView>::empty());
        assert(r@.scenes =~= Seq::<SceneView>::empty());
        assert(r@.diagnostics =~= Seq::<DiagnosticView>::empty());
    }
    r
}

/// Read a show back from the events of a PFX document.
pub fn from_events(events: &[XmlEvent]) -> (r: Result<Show, PfxError>)
    ensures
        match r {
            Ok(s) => from_events_spec(events_view(events@)) == Ok::<ShowView, PfxErrorView>(s@),
            Err(e) => from_events_spec(events_view(events@)) == Err::<ShowView, PfxErrorView>(e@),
        },
{
    let ghost evs = events_view(events@);
    let mut show = empty_show_exec();
    let mut pending: Option<Diagnostic> = None;
    let mut saw_root = false;
    let mut i: usize = 0;
    proof {
        assert(evs.skip(0) =~= evs);
        assert(state_of(show, pending, saw_root) == read_start());
    }
    while i < events.len()
        invariant
            i <= events@.len(),
            evs == events_view(events@),
            read_events(state_of(show, pending, saw_root), evs.skip(i as int)) == read_events(
                read_start(),
                evs,
            ),
        decreases events@.len() - i,
    {
        let ghost st = state_of(show, pending, saw_root);
        proof {
            assert(evs.skip(i as int)[0] == events@[i as int]@);
            assert(evs.skip(i as int).drop_first() =~= evs.skip(i + 1));
        }
        match event(&mut show, &mut pending, &mut saw_root, &events[i]) {
            Ok(()) => {},
            Err(e) => return Err(e),
        }
        i = i + 1;
    }
    proof {
        assert(evs.skip(i as int) =~= Seq::<XmlEventView>::empty());
    }
    if !saw_root {
        return Err(PfxError::Malformed(String::from_str("no <pfx> root element")));
    }
    Ok(show)
}

// ---------------------------------------------------------------------------
// Writing a document
// ---------------------------------------------------------------------------

pub open spec fn kv(k: Seq<char>, v: Seq<char>) -> AttrView {
    (k, Some(v))
}

pub open spec fn opt_kv(k: Seq<char>, o: Option<Seq<char>>) -> Seq<AttrView> {
    match o {
        Some(v) => seq![kv(k, v)],
        None => Seq::empty(),
    }
}

pub open spec fn flag_kv(k: Seq<char>, b: bool) -> Seq<AttrView> {
    if b {
        seq![kv(k, "true"@)]
    } else {
        Seq::empty()
    }
}

pub open spec fn opt_socket_text(o: Option<SocketView>) -> Option<Seq<char>> {
    match o {
        Some(s) => Some(socket_text(s)),
        None => None,
    }
}

pub open spec fn opt_strip_id_text(o: Option<StripId>) -> Option<Seq<char>> {
    match o {
        Some(i) => Some(strip_id_text(i)),
        None => None,
    }
}

pub open spec fn meta_attrs(m: ShowMetaView) -> Seq<AttrView> {
    seq![kv("name"@, m.name), kv("console"@, m.console), kv("source-format"@, m.source_format)]
        + opt_kv("format-version"@, m.format_version) + opt_kv("note"@, m.note)
}

pub open spec fn device_attrs(d: DeviceView) -> Seq<AttrView> {
    seq![
        kv("id"@, d.id),
        kv("label"@, d.label),
        kv("transport"@, transport_text(d.transport)),
        kv("inputs"@, dec(d.inputs as nat)),
        kv("outputs"@, dec(d.outputs as nat)),
    ] + opt_kv("model"@, d.model)
}

pub open spec fn headamp_attrs(h: HeadAmpView) -> Seq<AttrView> {
    seq![kv("socket"@, socket_text(h.socket))] + opt_kv("gain-db"@, h.gain_db) + seq![
        kv("phantom"@, if h.phantom { "true"@ } else { "false"@ }),
    ] + flag_kv("pad"@, h.pad) + flag_kv("polarity-invert"@, h.polarity_invert)
}

pub open spec fn strip_attrs(s: StripView) -> Seq<AttrView> {
    seq![kv("id"@, strip_id_text(s.id)), kv("name"@, s.name), kv("source"@, signal_text(s.source))]
        + flag_kv("muted"@, s.muted) + opt_kv("fader-db"@, s.fader_db) + opt_kv("colour"@, s.colour)
        + opt_kv("icon"@, s.icon) + opt_kv("linked-to"@, opt_strip_id_text(s.linked_to))
}

pub open spec fn input_attrs(p: InputPatchView) -> Seq<AttrView> {
    seq![kv("slot"@, dec(p.slot as nat)), kv("block"@, p.block_label)] + opt_kv(
        "socket"@,
        opt_socket_text(p.socket),
    ) + opt_kv("strip"@, opt_strip_id_text(p.strip))
}

pub open spec fn output_attrs(p: OutputPatchView) -> Seq<AttrView> {
    seq![
        kv("socket"@, socket_text(p.socket)),
        kv("source"@, signal_text(p.source)),
        kv("tap"@, tap_text(p.tap)),
    ] + if p.source_label.len() > 0 {
        seq![kv("source-label"@, p.source_label)]
    } else {
        Seq::empty()
    }
}

pub open spec fn scene_attrs(s: SceneView) -> Seq<AttrView> {
    seq![kv("index"@, dec(s.index as nat)), kv("name"@, s.name)] + opt_kv("note"@, s.note)
}

pub open spec fn diagnostic_attrs(d: DiagnosticView) -> Seq<AttrView> {
    seq![kv("severity"@, severity_text(d.severity)), kv("locus"@, d.locus)]
}

pub open spec fn diagnostic_events(ds: Seq<DiagnosticView>) -> Seq<XmlEventView>
    decreases ds.len(),
{
    if ds.len() == 0 {
        Seq::empty()
    } else {
        let d = ds.last();
        diagnostic_events(ds.drop_last()) + seq![
            XmlEventView::Start("diagnostic"@, diagnostic_attrs(d)),
            XmlEventView::Text(d.message),
            XmlEventView::End("diagnostic"@),
        ]
    }
}

/// A list element around its items.
pub open spec fn section(name: Seq<char>, items: Seq<XmlEventView>) -> Seq<XmlEventView> {
    seq![XmlEventView::Start(name, Seq::empty())] + items + seq![XmlEventView::End(name)]
}

pub open spec fn root_attrs() -> Seq<AttrView> {
    seq![kv("xmlns"@, "https://patchferret.stoatworks.dev/schema/1"@), kv("version"@, "1"@)]
}

/// The events of a show's PFX document.
pub open spec fn to_events_spec(s: ShowView) -> Seq<XmlEventView> {
    seq![
        XmlEventView::Start("pfx"@, root_attrs()),
        XmlEventView::Empty("show"@, meta_attrs(s.meta)),
    ] + section(
        "devices"@,
        s.devices.map_values(|d: DeviceView| XmlEventView::Empty("device"@, device_attrs(d))),
    ) + section(
        "headamps"@,
        s.head_amps.map_values(|h: HeadAmpView| XmlEventView::Empty("headamp"@, headamp_attrs(h))),
    ) + section(
        "strips"@,
        s.strips.map_values(|x: StripView| XmlEventView::Empty("strip"@, strip_attrs(x))),
    ) + seq![XmlEventView::Start("patch"@, Seq::empty())] + section(
        "inputs"@,
        s.inputs.map_values(|p: InputPatchView| XmlEventView::Empty("in"@, input_attrs(p))),
    ) + section(
        "outputs"@,
        s.outputs.map_values(|p: OutputPatchView| XmlEventView::Empty("out"@, output_attrs(p))),
    ) + seq![XmlEventView::End("patch"@)] + section(
        "scenes"@,
        s.scenes.map_values(|x: SceneView| XmlEventView::Empty("scene"@, scene_attrs(x))),
    ) + section("diagnostics"@, diagnostic_events(s.diagnostics)) + seq![
        XmlEventView::End("pfx"@),
    ]
}

struct Attrs {
    v: Vec<(String, Option<String>)>,
}

impl Attrs {
    fn new() -> (r: Attrs)
        ensures
            attrs_view(r.v@) == Seq::<AttrView>::empty(),
    {
        let r = Attrs { v: Vec::new() };
        proof {
            assert(attrs_view(r.v@) =~= Seq::<AttrView>::empty());
        }
        r
    }

    fn put(&mut self, k: &str, v: String)
        ensures
            attrs_view(final(self).v@) == attrs_view(old(self).v@).push(kv(k@, v@)),
    {
        let ghost before = self.v@;
        self.v.push((String::from_str(k), Some(v)));
        proof {
            assert(attrs_view(self.v@) =~= attrs_view(before).push(kv(k@, v@)));
        }
    }

    fn put_opt(&mut self, k: &str, o: &Option<String>)
        ensures
            attrs_view(final(self).v@) == attrs_view(old(self).v@) + opt_kv(k@, opt_text(*o)),
    {
        let ghost before = self.v@;
        match o {
            Some(v) => self.put(k, v.clone()),
            None => {},
        }
        proof {
            assert(attrs_view(self.v@) =~= attrs_view(before) + opt_kv(k@, opt_text(*o)));
        }
    }

    fn put_flag(&mut self, k: &str, b: bool)
        ensures
            attrs_view(final(self).v@) == attrs_view(old(self).v@) + flag_kv(k@, b),
    {
        let ghost before = self.v@;
        if b {
            self.put(k, String::from_str("true"));
        }
        proof {
            assert(attrs_view(self.v@) =~= attrs_view(before) + flag_kv(k@, b));
        }
    }
}

fn meta_attrs_exec(m: &ShowMeta) -> (r: Vec<(String, Option<String>)>)
    ensures
        attrs_view(r@) == meta_attrs(m@),
{
    let mut a = Attrs::new();
    a.put("name", m.name.clone());
    a.put("console", m.console.clone());
    a.put("source-format", m.source_format.clone());
    a.put_opt("format-version", &m.format_version);
    a.put_opt("note", &m.note);
    proof {
        assert(attrs_view(a.v@) =~= meta_attrs(m@));
    }
    a.v
}

fn device_attrs_exec(d: &Device) -> (r: Vec<(String, Option<String>)>)
    ensures
        attrs_view(r@) == device_attrs(d@),
{
    let mut a = Attrs::new();
    a.put("id", d.id.clone());
    a.put("label", d.label.clone());
    a.put("transport", d.transport.as_str());
    a.put("inputs", dec_string(d.inputs as u64));
    a.put("outputs", dec_string(d.outputs as u64));
    a.put_opt("model", &d.model);
    proof {
        assert(attrs_view(a.v@) =~= device_attrs(d@));
    }
    a.v
}

fn headamp_attrs_exec(h: &HeadAmp) -> (r: Vec<(String, Option<String>)>)
    ensures
        attrs_view(r@) == headamp_attrs(h@),
{
    let mut a = Attrs::new();
    a.put("socket", h.socket.to_string());
    a.put_opt("gain-db", &h.gain_db);
    a.put("phantom", String::from_str(if h.phantom { "true" } else { "false" }));
    a.put_flag("pad", h.pad);
    a.put_flag("polarity-invert", h.polarity_invert);
    proof {
        assert(attrs_view(a.v@) =~= headamp_attrs(h@));
    }
    a.v
}

fn strip_attrs_exec(s: &Strip) -> (r: Vec<(String, Option<String>)>)
    ensures
        attrs_view(r@) == strip_attrs(s@),
{
    let mut a = Attrs::new();
    a.put("id", s.id.to_string());
    a.put("name", s.name.clone());
    a.put("source", s.source.as_str());
    a.put_flag("muted", s.muted);
    a.put_opt("fader-db", &s.fader_db);
    a.put_opt("colour", &s.colour);
    a.put_opt("icon", &s.icon);
    let linked = match s.linked_to {
        Some(l) => Some(l.to_string()),
        None => None,
    };
    a.put_opt("linked-to", &linked);
    proof {
        assert(attrs_view(a.v@) =~= strip_attrs(s@));
    }
    a.v
}

fn input_attrs_exec(p: &InputPatch) -> (r: Vec<(String, Option<String>)>)
    ensures
        attrs_view(r@) == input_attrs(p@),
{
    let mut a = Attrs::new();
    a.put("slot", dec_string(p.slot as u64));
    a.put("block", p.block_label.clone());
    let socket = match &p.socket {
        Some(k) => Some(k.to_string()),
        None => None,
    };
    a.put_opt("socket", &socket);
    let strip = match p.strip {
        Some(i) => Some(i.to_string()),
        None => None,
    };
    a.put_opt("strip", &strip);
    proof {
        assert(attrs_view(a.v@) =~= input_attrs(p@));
    }
    a.v
}

fn output_attrs_exec(p: &OutputPatch) -> (r: Vec<(String, Option<String>)>)
    ensures
        attrs_view(r@) == output_attrs(p@),
{
    let mut a = Attrs::new();
    a.put("socket", p.socket.to_string());
    a.put("source", p.source.as_str());
    a.put("tap", String::from_str(p.tap.as_str()));
    let ghost before = attrs_view(a.v@);
    if chars_of(p.source_label.as_str()).len() > 0 {
        a.put("source-label", p.source_label.clone());
    }
    proof {
        assert(attrs_view(a.v@) =~= output_attrs(p@));
    }
    a.v
}

fn scene_attrs_exec(s: &Scene) -> (r: Vec<(String, Option<String>)>)
    ensures
        attrs_view(r@) == scene_attrs(s@),
{
    let mut a = Attrs::new();
    a.put("index", dec_string(s.index as u64));
    a.put("name", s.name.clone());
    a.put_opt("note", &s.note);
    proof {
        assert(attrs_view(a.v@) =~= scene_attrs(s@));
    }
    a.v
}

fn diagnostic_attrs_exec(d: &Diagnostic) -> (r: Vec<(String, Option<String>)>)
    ensures
        attrs_view(r@) == diagnostic_attrs(d@),
{
    let mut a = Attrs::new();
    a.put("severity", String::from_str(d.severity.as_str()));
    a.put("locus", d.locus.clone());
    proof {
        assert(attrs_view(a.v@) =~= diagnostic_attrs(d@));
    }
    a.v
}

fn push_event(out: &mut Vec<XmlEvent>, e: XmlEvent)
    ensures
        events_view(final(out)@) == events_view(old(out)@).push(e@),
{
    let ghost before = out@;
    out.push(e);
    proof {
        assert(events_view(out@) =~= events_view(before).push(e@));
    }
}

fn start(name: &str) -> (r: XmlEvent)
    ensures
        r@ == XmlEventView::Start(name@, Seq::empty()),
{
    let v: Vec<(String, Option<String>)> = Vec::new();
    proof {
        assert(attrs_view(v@) =~= Seq::<AttrView>::empty());
    }
    XmlEvent::Start(String::from_str(name), v)
}

fn end(name: &str) -> (r: XmlEvent)
    ensures
        r@ == XmlEventView::End(name@),
{
    XmlEvent::End(String::from_str(name))
}

/// The events of a show's PFX document.
#[verifier::rlimit(40)]
pub fn to_events(show: &Show) -> (r: Vec<XmlEvent>)
    ensures
        events_view(r@) == to_events_spec(show@),
{
    let ghost sv = show@;
    let mut out: Vec<XmlEvent> = Vec::new();
    let mut root = Attrs::new();
    root.put("xmlns", String::from_str("https://patchferret.stoatworks.dev/schema/1"));
    root.put("version", String::from_str("1"));
    proof {
        assert(attrs_view(root.v@) =~= root_attrs());
    }
    push_event(&mut out, XmlEvent::Start(String::from_str("pfx"), root.v));
    push_event(&mut out, XmlEvent::Empty(String::from_str("show"), meta_attrs_exec(&show.meta)));
    let ghost p0 = events_view(out@);
    proof {
        assert(p0 =~= seq![
            XmlEventView::Start("pfx"@, root_attrs()),
            XmlEventView::Empty("show"@, meta_attrs(sv.meta)),
        ]);
    }

    push_event(&mut out, start("devices"));
    let ghost b = events_view(out@);
    let ghost f = |d: DeviceView| XmlEventView::Empty("device"@, device_attrs(d));
    let mut i: usize = 0;
    while i < show.devices.len()
        invariant
            i <= show.devices@.len(),
            sv == show@,
            f == (|d: DeviceView| XmlEventView::Empty("device"@, device_attrs(d))),
            events_view(out@) == b + sv.devices.take(i as int).map_values(f),
        decreases show.devices@.len() - i,
    {
        let d = &show.devices[i];
        proof {
            assert(sv.devices[i as int] == d@);
        }
        push_event(&mut out, XmlEvent::Empty(String::from_str("device"), device_attrs_exec(d)));
        i = i + 1;
        proof {
            assert(sv.devices.take(i as int).map_values(f) =~= sv.devices.take(i - 1).map_values(f).push(f(d@)));
        }
    }
    push_event(&mut out, end("devices"));
    let ghost p1 = events_view(out@);
    proof {
        assert(sv.devices.take(i as int) =~= sv.devices);
        assert(p1 =~= p0 + section("devices"@, sv.devices.map_values(f)));
    }

    push_event(&mut out, start("headamps"));
    let ghost b = events_view(out@);
    let ghost f = |h: HeadAmpView| XmlEventView::Empty("headamp"@, headamp_attrs(h));
    let mut i: usize = 0;
    while i < show.head_amps.len()
        invariant
            i <= show.head_amps@.len(),
            sv == show@,
            f == (|h: HeadAmpView| XmlEventView::Empty("headamp"@, headamp_attrs(h))),
            events_view(out@) == b + sv.head_amps.take(i as int).map_values(f),
        decreases show.head_amps@.len() - i,
    {
        let h = &show.head_amps[i];
        proof {
            assert(sv.head_amps[i as int] == h@);
        }
        push_event(&mut out, XmlEvent::Empty(String::from_str("headamp"), headamp_attrs_exec(h)));
        i = i + 1;
        proof {
            assert(sv.head_amps.take(i as int).map_values(f) =~= sv.head_amps.take(i - 1).map_values(f).push(f(h@)));
        }
    }
    push_event(&mut out, end("headamps"));
    let ghost p2 = events_view(out@);
    proof {
        assert(sv.head_amps.take(i as int) =~= sv.head_amps);
        assert(p2 =~= p1 + section("headamps"@, sv.head_amps.map_values(f)));
    }

    push_event(&mut out, start("strips"));
    let ghost b = events_view(out@);
    let ghost f = |x: StripView| XmlEventView::Empty("strip"@, strip_attrs(x));
    let mut i: usize = 0;
    while i < show.strips.len()
        invariant
            i <= show.strips@.len(),
            sv == show@,
            f == (|x: StripView| XmlEventView::Empty("strip"@, strip_attrs(x))),
            events_view(out@) == b + sv.strips.take(i as int).map_values(f),
        decreases show.strips@.len() - i,
    {
        let x = &show.strips[i];
        proof {
            assert(sv.strips[i as int] == x@);
        }
        push_event(&mut out, XmlEvent::Empty(String::from_str("strip"), strip_attrs_exec(x)));
        i = i + 1;
        proof {
            assert(sv.strips.take(i as int).map_values(f) =~= sv.strips.take(i - 1).map_values(f).push(f(x@)));
        }
    }
    push_event(&mut out, end("strips"));
    push_event(&mut out, start("patch"));
    let ghost p3 = events_view(out@);
    proof {
        assert(sv.strips.take(i as int) =~= sv.strips);
        assert(p3 =~= p2 + section("strips"@, sv.strips.map_values(f)) + seq![XmlEventView::Start("patch"@, Seq::empty())]);
    }

    push_event(&mut out, start("inputs"));
    let ghost b = events_view(out@);
    let ghost f = |p: InputPatchView| XmlEventView::Empty("in"@, input_attrs(p));
    let mut i: usize = 0;
    while i < show.patch.inputs.len()
        invariant
            i <= show.patch.inputs@.len(),
            sv == show@,
            f == (|p: InputPatchView| XmlEventView::Empty("in"@, input_attrs(p))),
            events_view(out@) == b + sv.inputs.take(i as int).map_values(f),
        decreases show.patch.inputs@.len() - i,
    {
        let x = &show.patch.inputs[i];
        proof {
            assert(sv.inputs[i as int] == x@);
        }
        push_event(&mut out, XmlEvent::Empty(String::from_str("in"), input_attrs_exec(x)));
        i = i + 1;
        proof {
            assert(sv.inputs.take(i as int).map_values(f) =~= sv.inputs.take(i - 1).map_values(f).push(f(x@)));
        }
    }
    push_event(&mut out, end("inputs"));
    let ghost p4 = events_view(out@);
    proof {
        assert(sv.inputs.take(i as int) =~= sv.inputs);
        assert(p4 =~= p3 + section("inputs"@, sv.inputs.map_values(f)));
    }

    push_event(&mut out, start("outputs"));
    let ghost b = events_view(out@);
    let ghost f = |p: OutputPatchView| XmlEventView::Empty("out"@, output_attrs(p));
    let mut i: usize = 0;
    while i < show.patch.outputs.len()
        invariant
            i <= show.patch.outputs@.len(),
            sv == show@,
            f == (|p: OutputPatchView| XmlEventView::Empty("out"@, output_attrs(p))),
            events_view(out@) == b + sv.outputs.take(i as int).map_values(f),
        decreases show.patch.outputs@.len() - i,
    {
        let x = &show.patch.outputs[i];
        proof {
            assert(sv.outputs[i as int] == x@);
        }
        push_event(&mut out, XmlEvent::Empty(String::from_str("out"), output_attrs_exec(x)));
        i = i + 1;
        proof {
            assert(sv.outputs.take(i as int).map_values(f) =~= sv.outputs.take(i - 1).map_values(f).push(f(x@)));
        }
    }
    push_event(&mut out, end("outputs"));
    push_event(&mut out, end("patch"));
    let ghost p5 = events_view(out@);
    proof {
        assert(sv.outputs.take(i as int) =~= sv.outputs);
        assert(p5 =~= p4 + section("outputs"@, sv.outputs.map_values(f)) + seq![XmlEventView::End("patch"@)]);
    }

    push_event(&mut out, start("scenes"));
    let ghost b = events_view(out@);
    let ghost f = |x: SceneView| XmlEventView::Empty("scene"@, scene_attrs(x));
    let mut i: usize = 0;
    while i < show.scenes.len()
        invariant
            i <= show.scenes@.len(),
            sv == show@,
            f == (|x: SceneView| XmlEventView::Empty("scene"@, scene_attrs(x))),
            events_view(out@) == b + sv.scenes.take(i as int).map_values(f),
        decreases show.scenes@.len() - i,
    {
        let x = &show.scenes[i];
        proof {
            assert(sv.scenes[i as int] == x@);
        }
        push_event(&mut out, XmlEvent::Empty(String::from_str("scene"), scene_attrs_exec(x)));
        i = i + 1;
        proof {
            assert(sv.scenes.take(i as int).map_values(f) =~= sv.scenes.take(i - 1).map_values(f).push(f(x@)));
        }
    }
    push_event(&mut out, end("scenes"));
    let ghost p6 = events_view(out@);
    proof {
        assert(sv.scenes.take(i as int) =~= sv.scenes);
        assert(p6 =~= p5 + section("scenes"@, sv.scenes.map_values(f)));
    }

    push_event(&mut out, start("diagnostics"));
    let ghost b = events_view(out@);
    let mut i: usize = 0;
    while i < show.diagnostics.len()
        invariant
            i <= show.diagnostics@.len(),
            sv == show@,
            events_view(out@) == b + diagnostic_events(sv.diagnostics.take(i as int)),
        decreases show.diagnostics@.len() - i,
    {
        let x = &show.diagnostics[i];
        proof {
            assert(sv.diagnostics[i as int] == x@);
            assert(sv.diagnostics.take(i + 1).drop_last() =~= sv.diagnostics.take(i as int));
        }
        push_event(&mut out, XmlEvent::Start(String::from_str("diagnostic"), diagnostic_attrs_exec(x)));
        push_event(&mut out, XmlEvent::Text(x.message.clone()));
        push_event(&mut out, end("diagnostic"));
        i = i + 1;
        proof {
            assert(events_view(out@) =~= b + diagnostic_events(sv.diagnostics.take(i as int)));
        }
    }
    push_event(&mut out, end("diagnostics"));
    push_event(&mut out, end("pfx"));
    proof {
        assert(sv.diagnostics.take(i as int) =~= sv.diagnostics);
        assert(events_view(out@) =~= p6 + section("diagnostics"@, diagnostic_events(sv.diagnostics))
            + seq![XmlEventView::End("pfx"@)]);
        assert(events_view(out@) =~= to_events_spec(sv));
    }
    out
}

// ---------------------------------------------------------------------------
// Round trip
// ---------------------------------------------------------------------------

/// A level held as text round-trips when it is already trimmed and reads as
/// a number, which is how every adapter stores one.
pub open spec fn level_ok(o: Option<Seq<char>>) -> bool {
    match o {
        Some(t) => trim(t) == t && is_float_text(t),
        None => true,
    }
}

/// A show whose levels are stored as the adapters store them.
pub open spec fn exportable(s: ShowView) -> bool {
    &&& forall|i: int| 0 <= i < s.head_amps.len() ==> level_ok(#[trigger] s.head_amps[i].gain_db)
    &&& forall|i: int| 0 <= i < s.strips.len() ==> level_ok(#[trigger] s.strips[i].fader_db)
}

proof fn lemma_lookup_at(a: Seq<AttrView>, k: Seq<char>, j: int)
    requires
        0 <= j < a.len(),
        a[j].0 == k,
        forall|i: int| 0 <= i < j ==> (#[trigger] a[i]).0 != k,
    ensures
        lookup(a, k) == a[j].1,
    decreases j,
{
    if j > 0 {
        assert(a[0].0 != k);
        let d = a.drop_first();
        assert forall|i: int| 0 <= i < j - 1 implies (#[trigger] d[i]).0 != k by {
            assert(d[i] == a[i + 1]);
        }
        lemma_lookup_at(d, k, j - 1);
    }
}

proof fn lemma_lookup_none(a: Seq<AttrView>, k: Seq<char>)
    requires
        forall|i: int| 0 <= i < a.len() ==> (#[trigger] a[i]).0 != k,
    ensures
        lookup(a, k) is None,
    decreases a.len(),
{
    if a.len() > 0 {
        assert(a[0].0 != k);
        let d = a.drop_first();
        assert forall|i: int| 0 <= i < d.len() implies (#[trigger] d[i]).0 != k by {
            assert(d[i] == a[i + 1]);
        }
        lemma_lookup_none(d, k);
    }
}

/// The attribute and element names, as far as telling them apart needs.
proof fn lemma_names()
    ensures
        "name"@ != "note"@,
        "label"@ != "model"@,
        "gain-db"@ != "phantom"@,
        "colour"@ != "source"@,
        "icon"@ != "name"@,
        "strip"@ != "block"@,
        "source"@ != "socket"@,
        "out"@ != "pfx"@,
        "scene"@ != "strip"@,
        "devices"@ != "headamp"@,
        "outputs"@ != "headamp"@,
        "strips"@ != "device"@,
        "inputs"@ != "device"@,
        "scenes"@ != "device"@,
        "patch"@ != "strip"@,
        "patch"@ != "scene"@,
        "false"@ != "true"@,
        "false"@ != "1"@,
        "true"@ != "1"@,
        ""@.len() == 0,
{
    reveal_strlit("name");
    reveal_strlit("note");
    reveal_strlit("label");
    reveal_strlit("model");
    reveal_strlit("gain-db");
    reveal_strlit("phantom");
    reveal_strlit("colour");
    reveal_strlit("source");
    reveal_strlit("icon");
    reveal_strlit("strip");
    reveal_strlit("block");
    reveal_strlit("socket");
    reveal_strlit("out");
    reveal_strlit("pfx");
    reveal_strlit("scene");
    reveal_strlit("devices");
    reveal_strlit("headamp");
    reveal_strlit("outputs");
    reveal_strlit("strips");
    reveal_strlit("device");
    reveal_strlit("inputs");
    reveal_strlit("scenes");
    reveal_strlit("patch");
    reveal_strlit("false");
    reveal_strlit("true");
    reveal_strlit("1");
    reveal_strlit("");
    assert("false"@.len() == 5 && "true"@.len() == 4 && "1"@.len() == 1);
    assert("name"@[1] != "note"@[1]);
    assert("label"@[0] != "model"@[0]);
    assert("gain-db"@[0] != "phantom"@[0]);
    assert("colour"@[0] != "source"@[0]);
    assert("icon"@[0] != "name"@[0]);
    assert("strip"@[0] != "block"@[0]);
    assert("source"@[2] != "socket"@[2]);
    assert("out"@[0] != "pfx"@[0]);
    assert("scene"@[1] != "strip"@[1]);
    assert("devices"@[0] != "headamp"@[0]);
    assert("outputs"@[0] != "headamp"@[0]);
    assert("strips"@[0] != "device"@[0]);
    assert("inputs"@[0] != "device"@[0]);
    assert("scenes"@[0] != "device"@[0]);
    assert("patch"@[0] != "strip"@[0]);
    assert("patch"@[0] != "scene"@[0]);
}

/// The lengths of the names, which tell most of them apart.
proof fn lemma_name_lengths()
    ensures
        "pfx"@.len() == 3,
        "show"@.len() == 4,
        "device"@.len() == 6,
        "headamp"@.len() == 7,
        "strip"@.len() == 5,
        "in"@.len() == 2,
        "out"@.len() == 3,
        "scene"@.len() == 5,
        "diagnostic"@.len() == 10,
        "devices"@.len() == 7,
        "headamps"@.len() == 8,
        "strips"@.len() == 6,
        "patch"@.len() == 5,
        "inputs"@.len() == 6,
        "outputs"@.len() == 7,
        "scenes"@.len() == 6,
        "diagnostics"@.len() == 11,
        "xmlns"@.len() == 5,
        "version"@.len() == 7,
        "name"@.len() == 4,
        "console"@.len() == 7,
        "source-format"@.len() == 13,
        "format-version"@.len() == 14,
        "note"@.len() == 4,
        "id"@.len() == 2,
        "label"@.len() == 5,
        "transport"@.len() == 9,
        "model"@.len() == 5,
        "socket"@.len() == 6,
        "gain-db"@.len() == 7,
        "phantom"@.len() == 7,
        "pad"@.len() == 3,
        "polarity-invert"@.len() == 15,
        "source"@.len() == 6,
        "muted"@.len() == 5,
        "fader-db"@.len() == 8,
        "colour"@.len() == 6,
        "icon"@.len() == 4,
        "linked-to"@.len() == 9,
        "slot"@.len() == 4,
        "block"@.len() == 5,
        "tap"@.len() == 3,
        "source-label"@.len() == 12,
        "index"@.len() == 5,
        "severity"@.len() == 8,
        "locus"@.len() == 5,
{
    reveal_strlit("pfx");
    reveal_strlit("show");
    reveal_strlit("device");
    reveal_strlit("headamp");
    reveal_strlit("strip");
    reveal_strlit("in");
    reveal_strlit("out");
    reveal_strlit("scene");
    reveal_strlit("diagnostic");
    reveal_strlit("devices");
    reveal_strlit("headamps");
    reveal_strlit("strips");
    reveal_strlit("patch");
    reveal_strlit("inputs");
    reveal_strlit("outputs");
    reveal_strlit("scenes");
    reveal_strlit("diagnostics");
    reveal_strlit("xmlns");
    reveal_strlit("version");
    reveal_strlit("name");
    reveal_strlit("console");
    reveal_strlit("source-format");
    reveal_strlit("format-version");
    reveal_strlit("note");
    reveal_strlit("id");
    reveal_strlit("label");
    reveal_strlit("transport");
    reveal_strlit("model");
    reveal_strlit("socket");
    reveal_strlit("gain-db");
    reveal_strlit("phantom");
    reveal_strlit("pad");
    reveal_strlit("polarity-invert");
    reveal_strlit("source");
    reveal_strlit("muted");
    reveal_strlit("fader-db");
    reveal_strlit("colour");
    reveal_strlit("icon");
    reveal_strlit("linked-to");
    reveal_strlit("slot");
    reveal_strlit("block");
    reveal_strlit("tap");
    reveal_strlit("source-label");
    reveal_strlit("index");
    reveal_strlit("severity");
    reveal_strlit("locus");
}

proof fn lemma_trim_plain(s: Seq<char>)
    requires
        forall|i: int| 0 <= i < s.len() ==> !is_ws(#[trigger] s[i]),
    ensures
        trim(s) == s,
{
    assert(lead_ws(s) == 0);
    assert(s.skip(0) =~= s);
    assert(trail_ws(s) == 0);
    assert(s.take(s.len() as int) =~= s);
}

/// Decimal text reads back as the number it was written from.
proof fn lemma_dec_reads_back(n: u16)
    ensures
        parse_u16_spec(trim(dec(n as nat))) == Some(n),
{
    lemma_dec_digits(n as nat);
    assert forall|i: int| 0 <= i < dec(n as nat).len() implies !is_ws(#[trigger] dec(n as nat)[i]) by {
        assert(is_digit(dec(n as nat)[i]));
    }
    lemma_trim_plain(dec(n as nat));
    lemma_parse_dec(n as nat, 0xFFFF);
}

proof fn lemma_meta(m: ShowMetaView)
    ensures
        meta_from(meta_attrs(m)) == m,
{
    lemma_names();
    lemma_name_lengths();
    let a = meta_attrs(m);
    lemma_lookup_at(a, "name"@, 0);
    lemma_lookup_at(a, "console"@, 1);
    lemma_lookup_at(a, "source-format"@, 2);
    match m.format_version {
        Some(v) => {
            lemma_lookup_at(a, "format-version"@, 3);
            match m.note {
                Some(n) => lemma_lookup_at(a, "note"@, 4),
                None => lemma_lookup_none(a, "note"@),
            }
        },
        None => {
            lemma_lookup_none(a, "format-version"@);
            match m.note {
                Some(n) => lemma_lookup_at(a, "note"@, 3),
                None => lemma_lookup_none(a, "note"@),
            }
        },
    }
}

proof fn lemma_device(d: DeviceView)
    ensures
        device_from(device_attrs(d)) == d,
{
    lemma_names();
    lemma_name_lengths();
    let a = device_attrs(d);
    lemma_lookup_at(a, "id"@, 0);
    lemma_lookup_at(a, "label"@, 1);
    lemma_lookup_at(a, "transport"@, 2);
    lemma_lookup_at(a, "inputs"@, 3);
    lemma_lookup_at(a, "outputs"@, 4);
    match d.model {
        Some(v) => lemma_lookup_at(a, "model"@, 5),
        None => lemma_lookup_none(a, "model"@),
    }
    crate::model::law_transport_round_trip(d.transport);
    lemma_dec_reads_back(d.inputs);
    lemma_dec_reads_back(d.outputs);
}

proof fn lemma_flag(a: Seq<AttrView>, k: Seq<char>, j: int, b: bool)
    requires
        b ==> 0 <= j < a.len() && a[j] == kv(k, "true"@) && forall|i: int| 0 <= i < j ==> (#[trigger] a[i]).0 != k,
        !b ==> forall|i: int| 0 <= i < a.len() ==> (#[trigger] a[i]).0 != k,
    ensures
        attr_bool(a, k) == b,
{
    if b {
        lemma_lookup_at(a, k, j);
    } else {
        lemma_lookup_none(a, k);
    }
}

proof fn lemma_level(a: Seq<AttrView>, k: Seq<char>, j: int, o: Option<Seq<char>>)
    requires
        level_ok(o),
        o is Some ==> 0 <= j < a.len() && a[j] == kv(k, o->0) && forall|i: int| 0 <= i < j ==> (#[trigger] a[i]).0 != k,
        o is None ==> forall|i: int| 0 <= i < a.len() ==> (#[trigger] a[i]).0 != k,
    ensures
        attr_level(a, k) == o,
{
    match o {
        Some(t) => lemma_lookup_at(a, k, j),
        None => lemma_lookup_none(a, k),
    }
}

#[verifier::rlimit(40)]
proof fn lemma_headamp(h: HeadAmpView)
    requires
        level_ok(h.gain_db),
    ensures
        headamp_from(headamp_attrs(h), h.socket) == h,
        attr_socket(headamp_attrs(h), "socket"@) == Some(h.socket),
{
    lemma_names();
    lemma_name_lengths();
    let a = headamp_attrs(h);
    lemma_lookup_at(a, "socket"@, 0);
    crate::model::law_socket_round_trip(h.socket);
    let g: int = if h.gain_db is Some { 1 } else { 0 };
    lemma_level(a, "gain-db"@, 1, h.gain_db);
    lemma_lookup_at(a, "phantom"@, 1 + g);
    lemma_flag(a, "pad"@, 2 + g, h.pad);
    let p: int = if h.pad { 1 } else { 0 };
    lemma_flag(a, "polarity-invert"@, 2 + g + p, h.polarity_invert);
}

#[verifier::rlimit(60)]
proof fn lemma_strip(x: StripView)
    requires
        level_ok(x.fader_db),
    ensures
        strip_from(strip_attrs(x), x.id) == x,
        attr_strip_id(strip_attrs(x), "id"@) == Some(x.id),
{
    lemma_names();
    lemma_name_lengths();
    let a = strip_attrs(x);
    lemma_lookup_at(a, "id"@, 0);
    crate::model::signal::law_strip_id_round_trip(x.id);
    lemma_lookup_at(a, "name"@, 1);
    lemma_lookup_at(a, "source"@, 2);
    crate::model::signal::law_signal_round_trip(x.source);
    lemma_flag(a, "muted"@, 3, x.muted);
    let m: int = if x.muted { 1 } else { 0 };
    lemma_level(a, "fader-db"@, 3 + m, x.fader_db);
    let f: int = if x.fader_db is Some { 1 } else { 0 };
    match x.colour {
        Some(c) => lemma_lookup_at(a, "colour"@, 3 + m + f),
        None => lemma_lookup_none(a, "colour"@),
    }
    let c: int = if x.colour is Some { 1 } else { 0 };
    match x.icon {
        Some(i) => lemma_lookup_at(a, "icon"@, 3 + m + f + c),
        None => lemma_lookup_none(a, "icon"@),
    }
    let n: int = if x.icon is Some { 1 } else { 0 };
    match x.linked_to {
        Some(l) => {
            lemma_lookup_at(a, "linked-to"@, 3 + m + f + c + n);
            crate::model::signal::law_strip_id_round_trip(l);
        },
        None => lemma_lookup_none(a, "linked-to"@),
    }
}

proof fn lemma_input(p: InputPatchView)
    ensures
        input_from(input_attrs(p)) == p,
{
    lemma_names();
    lemma_name_lengths();
    let a = input_attrs(p);
    lemma_lookup_at(a, "slot"@, 0);
    lemma_dec_reads_back(p.slot);
    lemma_lookup_at(a, "block"@, 1);
    match p.socket {
        Some(k) => {
            lemma_lookup_at(a, "socket"@, 2);
            crate::model::law_socket_round_trip(k);
        },
        None => lemma_lookup_none(a, "socket"@),
    }
    let k: int = if p.socket is Some { 1 } else { 0 };
    match p.strip {
        Some(i) => {
            lemma_lookup_at(a, "strip"@, 2 + k);
            crate::model::signal::law_strip_id_round_trip(i);
        },
        None => lemma_lookup_none(a, "strip"@),
    }
}

proof fn lemma_output(p: OutputPatchView)
    ensures
        output_from(output_attrs(p), p.socket) == p,
        attr_socket(output_attrs(p), "socket"@) == Some(p.socket),
{
    lemma_names();
    lemma_name_lengths();
    let a = output_attrs(p);
    lemma_lookup_at(a, "socket"@, 0);
    crate::model::law_socket_round_trip(p.socket);
    lemma_lookup_at(a, "source"@, 1);
    crate::model::signal::law_signal_round_trip(p.source);
    lemma_lookup_at(a, "tap"@, 2);
    crate::model::signal::law_tap_round_trip(p.tap);
    if p.source_label.len() > 0 {
        lemma_lookup_at(a, "source-label"@, 3);
    } else {
        lemma_lookup_none(a, "source-label"@);
        assert(p.source_label =~= ""@);
    }
}

proof fn lemma_scene(x: SceneView)
    ensures
        scene_from(scene_attrs(x)) == x,
{
    lemma_names();
    lemma_name_lengths();
    let a = scene_attrs(x);
    lemma_lookup_at(a, "index"@, 0);
    lemma_dec_reads_back(x.index);
    lemma_lookup_at(a, "name"@, 1);
    match x.note {
        Some(n) => lemma_lookup_at(a, "note"@, 2),
        None => lemma_lookup_none(a, "note"@),
    }
}

proof fn lemma_diagnostic(d: DiagnosticView)
    ensures
        diagnostic_from(diagnostic_attrs(d)) == (DiagnosticView { message: Seq::empty(), ..d }),
{
    lemma_name_lengths();
    let a = diagnostic_attrs(d);
    lemma_lookup_at(a, "severity"@, 0);
    crate::model::signal::law_severity_round_trip(d.severity);
    lemma_lookup_at(a, "locus"@, 1);
}

proof fn lemma_read_concat(st: ReadState, a: Seq<XmlEventView>, b: Seq<XmlEventView>)
    ensures
        read_events(st, a + b) == match read_events(st, a) {
            Ok(s1) => read_events(s1, b),
            Err(e) => Err(e),
        },
    decreases a.len(),
{
    if a.len() == 0 {
        assert(a + b =~= b);
    } else {
        assert((a + b)[0] == a[0]);
        assert((a + b).drop_first() =~= a.drop_first() + b);
        match event_step(st, a[0]) {
            Ok(s2) => lemma_read_concat(s2, a.drop_first(), b),
            Err(e) => {},
        }
    }
}

proof fn lemma_read_one(st: ReadState, e: XmlEventView)
    ensures
        read_events(st, seq![e]) == event_step(st, e),
{
    assert(seq![e].drop_first() =~= Seq::<XmlEventView>::empty());
    match event_step(st, e) {
        Ok(s2) => assert(read_events(s2, Seq::<XmlEventView>::empty()) == Ok::<ReadState, PfxErrorView>(s2)),
        Err(x) => {},
    }
}

/// A list element's start and end leave the state alone.
proof fn lemma_section(st: ReadState, name: Seq<char>, items: Seq<XmlEventView>)
    requires
        name.len() == 7 || name.len() == 8 || name.len() == 6 || name.len() == 11,
        name != "headamp"@,
        name != "device"@,
    ensures
        read_events(st, section(name, items)) == read_events(st, items),
{
    lemma_name_lengths();
    let s1 = seq![XmlEventView::Start(name, Seq::<AttrView>::empty())];
    let s3 = seq![XmlEventView::End(name)];
    assert(section(name, items) =~= s1 + (items + s3));
    lemma_read_concat(st, s1, items + s3);
    lemma_read_one(st, s1[0]);
    lemma_read_concat(st, items, s3);
    match read_events(st, items) {
        Ok(s2) => lemma_read_one(s2, s3[0]),
        Err(e) => {},
    }
}

proof fn lemma_read_devices(st: ReadState, ds: Seq<DeviceView>)
    ensures
        read_events(st, ds.map_values(|d: DeviceView| XmlEventView::Empty("device"@, device_attrs(d))))
            == Ok::<ReadState, PfxErrorView>(
            ReadState { show: ShowView { devices: st.show.devices + ds, ..st.show }, ..st },
        ),
    decreases ds.len(),
{
    let f = |d: DeviceView| XmlEventView::Empty("device"@, device_attrs(d));
    if ds.len() == 0 {
        assert(st.show.devices + ds =~= st.show.devices);
        assert(ds.map_values(f) =~= Seq::<XmlEventView>::empty());
    } else {
        lemma_name_lengths();
        let d = ds.last();
        assert(ds.map_values(f) =~= ds.drop_last().map_values(f) + seq![f(d)]);
        lemma_read_devices(st, ds.drop_last());
        lemma_read_concat(st, ds.drop_last().map_values(f), seq![f(d)]);
        let s1 = ReadState { show: ShowView { devices: st.show.devices + ds.drop_last(), ..st.show }, ..st };
        lemma_read_one(s1, f(d));
        lemma_device(d);
        assert(st.show.devices + ds.drop_last() + seq![d] =~= st.show.devices + ds);
        assert((st.show.devices + ds.drop_last()).push(d) =~= st.show.devices + ds);
    }
}

proof fn lemma_read_headamps(st: ReadState, hs: Seq<HeadAmpView>)
    requires
        forall|i: int| 0 <= i < hs.len() ==> level_ok(#[trigger] hs[i].gain_db),
    ensures
        read_events(st, hs.map_values(|h: HeadAmpView| XmlEventView::Empty("headamp"@, headamp_attrs(h))))
            == Ok::<ReadState, PfxErrorView>(
            ReadState { show: ShowView { head_amps: st.show.head_amps + hs, ..st.show }, ..st },
        ),
    decreases hs.len(),
{
    let f = |h: HeadAmpView| XmlEventView::Empty("headamp"@, headamp_attrs(h));
    if hs.len() == 0 {
        assert(st.show.head_amps + hs =~= st.show.head_amps);
        assert(hs.map_values(f) =~= Seq::<XmlEventView>::empty());
    } else {
        lemma_name_lengths();
        let h = hs.last();
        assert(level_ok(hs[hs.len() - 1].gain_db));
        assert(hs.map_values(f) =~= hs.drop_last().map_values(f) + seq![f(h)]);
        lemma_read_headamps(st, hs.drop_last());
        lemma_read_concat(st, hs.drop_last().map_values(f), seq![f(h)]);
        let s1 = ReadState { show: ShowView { head_amps: st.show.head_amps + hs.drop_last(), ..st.show }, ..st };
        lemma_read_one(s1, f(h));
        lemma_headamp(h);
        assert(st.show.head_amps + hs.drop_last() + seq![h] =~= st.show.head_amps + hs);
        assert((st.show.head_amps + hs.drop_last()).push(h) =~= st.show.head_amps + hs);
    }
}

proof fn lemma_read_strips(st: ReadState, xs: Seq<StripView>)
    requires
        forall|i: int| 0 <= i < xs.len() ==> level_ok(#[trigger] xs[i].fader_db),
    ensures
        read_events(st, xs.map_values(|x: StripView| XmlEventView::Empty("strip"@, strip_attrs(x))))
            == Ok::<ReadState, PfxErrorView>(
            ReadState { show: ShowView { strips: st.show.strips + xs, ..st.show }, ..st },
        ),
    decreases xs.len(),
{
    let f = |x: StripView| XmlEventView::Empty("strip"@, strip_attrs(x));
    if xs.len() == 0 {
        assert(st.show.strips + xs =~= st.show.strips);
        assert(xs.map_values(f) =~= Seq::<XmlEventView>::empty());
    } else {
        lemma_name_lengths();
        let x = xs.last();
        assert(level_ok(xs[xs.len() - 1].fader_db));
        assert(xs.map_values(f) =~= xs.drop_last().map_values(f) + seq![f(x)]);
        lemma_read_strips(st, xs.drop_last());
        lemma_read_concat(st, xs.drop_last().map_values(f), seq![f(x)]);
        let s1 = ReadState { show: ShowView { strips: st.show.strips + xs.drop_last(), ..st.show }, ..st };
        lemma_read_one(s1, f(x));
        lemma_strip(x);
        assert(st.show.strips + xs.drop_last() + seq![x] =~= st.show.strips + xs);
        assert((st.show.strips + xs.drop_last()).push(x) =~= st.show.strips + xs);
    }
}

proof fn lemma_read_inputs(st: ReadState, ps: Seq<InputPatchView>)
    ensures
        read_events(st, ps.map_values(|p: InputPatchView| XmlEventView::Empty("in"@, input_attrs(p))))
            == Ok::<ReadState, PfxErrorView>(
            ReadState { show: ShowView { inputs: st.show.inputs + ps, ..st.show }, ..st },
        ),
    decreases ps.len(),
{
    let f = |p: InputPatchView| XmlEventView::Empty("in"@, input_attrs(p));
    if ps.len() == 0 {
        assert(st.show.inputs + ps =~= st.show.inputs);
        assert(ps.map_values(f) =~= Seq::<XmlEventView>::empty());
    } else {
        lemma_name_lengths();
        let p = ps.last();
        assert(ps.map_values(f) =~= ps.drop_last().map_values(f) + seq![f(p)]);
        lemma_read_inputs(st, ps.drop_last());
        lemma_read_concat(st, ps.drop_last().map_values(f), seq![f(p)]);
        let s1 = ReadState { show: ShowView { inputs: st.show.inputs + ps.drop_last(), ..st.show }, ..st };
        lemma_read_one(s1, f(p));
        lemma_input(p);
        assert(st.show.inputs + ps.drop_last() + seq![p] =~= st.show.inputs + ps);
        assert((st.show.inputs + ps.drop_last()).push(p) =~= st.show.inputs + ps);
    }
}

proof fn lemma_read_outputs(st: ReadState, ps: Seq<OutputPatchView>)
    ensures
        read_events(st, ps.map_values(|p: OutputPatchView| XmlEventView::Empty("out"@, output_attrs(p))))
            == Ok::<ReadState, PfxErrorView>(
            ReadState { show: ShowView { outputs: st.show.outputs + ps, ..st.show }, ..st },
        ),
    decreases ps.len(),
{
    let f = |p: OutputPatchView| XmlEventView::Empty("out"@, output_attrs(p));
    if ps.len() == 0 {
        assert(st.show.outputs + ps =~= st.show.outputs);
        assert(ps.map_values(f) =~= Seq::<XmlEventView>::empty());
    } else {
        lemma_name_lengths();
        lemma_names();
        let p = ps.last();
        assert(ps.map_values(f) =~= ps.drop_last().map_values(f) + seq![f(p)]);
        lemma_read_outputs(st, ps.drop_last());
        lemma_read_concat(st, ps.drop_last().map_values(f), seq![f(p)]);
        let s1 = ReadState { show: ShowView { outputs: st.show.outputs + ps.drop_last(), ..st.show }, ..st };
        lemma_read_one(s1, f(p));
        lemma_output(p);
        assert(st.show.outputs + ps.drop_last() + seq![p] =~= st.show.outputs + ps);
        assert((st.show.outputs + ps.drop_last()).push(p) =~= st.show.outputs + ps);
    }
}

proof fn lemma_read_scenes(st: ReadState, xs: Seq<SceneView>)
    ensures
        read_events(st, xs.map_values(|x: SceneView| XmlEventView::Empty("scene"@, scene_attrs(x))))
            == Ok::<ReadState, PfxErrorView>(
            ReadState { show: ShowView { scenes: st.show.scenes + xs, ..st.show }, ..st },
        ),
    decreases xs.len(),
{
    let f = |x: SceneView| XmlEventView::Empty("scene"@, scene_attrs(x));
    if xs.len() == 0 {
        assert(st.show.scenes + xs =~= st.show.scenes);
        assert(xs.map_values(f) =~= Seq::<XmlEventView>::empty());
    } else {
        lemma_name_lengths();
        lemma_names();
        let x = xs.last();
        assert(xs.map_values(f) =~= xs.drop_last().map_values(f) + seq![f(x)]);
        lemma_read_scenes(st, xs.drop_last());
        lemma_read_concat(st, xs.drop_last().map_values(f), seq![f(x)]);
        let s1 = ReadState { show: ShowView { scenes: st.show.scenes + xs.drop_last(), ..st.show }, ..st };
        lemma_read_one(s1, f(x));
        lemma_scene(x);
        assert(st.show.scenes + xs.drop_last() + seq![x] =~= st.show.scenes + xs);
        assert((st.show.scenes + xs.drop_last()).push(x) =~= st.show.scenes + xs);
    }
}

proof fn lemma_read_diagnostics(st: ReadState, ds: Seq<DiagnosticView>)
    requires
        st.pending is None,
    ensures
        read_events(st, diagnostic_events(ds)) == Ok::<ReadState, PfxErrorView>(
            ReadState { show: ShowView { diagnostics: st.show.diagnostics + ds, ..st.show }, ..st },
        ),
    decreases ds.len(),
{
    if ds.len() == 0 {
        assert(st.show.diagnostics + ds =~= st.show.diagnostics);
        assert(diagnostic_events(ds) =~= Seq::<XmlEventView>::empty());
    } else {
        lemma_name_lengths();
        let d = ds.last();
        let e1 = XmlEventView::Start("diagnostic"@, diagnostic_attrs(d));
        let e2 = XmlEventView::Text(d.message);
        let e3 = XmlEventView::End("diagnostic"@);
        lemma_read_diagnostics(st, ds.drop_last());
        let s1 = ReadState {
            show: ShowView { diagnostics: st.show.diagnostics + ds.drop_last(), ..st.show },
            ..st
        };
        lemma_read_concat(st, diagnostic_events(ds.drop_last()), seq![e1, e2, e3]);
        assert(seq![e1, e2, e3] =~= seq![e1] + (seq![e2] + seq![e3]));
        lemma_read_concat(s1, seq![e1], seq![e2] + seq![e3]);
        lemma_read_one(s1, e1);
        lemma_diagnostic(d);
        let s2 = ReadState { pending: Some(DiagnosticView { message: Seq::empty(), ..d }), ..s1 };
        lemma_read_concat(s2, seq![e2], seq![e3]);
        lemma_read_one(s2, e2);
        let s3 = ReadState { pending: Some(d), ..s1 };
        lemma_read_one(s3, e3);
        assert(st.show.diagnostics + ds.drop_last() + seq![d] =~= st.show.diagnostics + ds);
        assert((st.show.diagnostics + ds.drop_last()).push(d) =~= st.show.diagnostics + ds);
    }
}

/// Reading the PFX events of a show gives the show back: no field is lost or
/// altered on the way through the interchange format, provided its levels
/// are held as the adapters hold them (trimmed number text).
#[verifier::rlimit(60)]
pub proof fn law_pfx_round_trip(s: ShowView)
    requires
        exportable(s),
    ensures
        from_events_spec(to_events_spec(s)) == Ok::<ShowView, PfxErrorView>(s),
{
    lemma_names();
    lemma_name_lengths();
    let st0 = read_start();
    let e_root = XmlEventView::Start("pfx"@, root_attrs());
    let e_show = XmlEventView::Empty("show"@, meta_attrs(s.meta));
    lemma_lookup_at(root_attrs(), "version"@, 1);
    let st_a = ReadState { saw_root: true, ..st0 };
    lemma_meta(s.meta);
    let st1 = ReadState { show: ShowView { meta: s.meta, ..st0.show }, ..st_a };
    let p1 = seq![e_root, e_show];
    assert(p1 =~= seq![e_root] + seq![e_show]);
    lemma_read_concat(st0, seq![e_root], seq![e_show]);
    lemma_read_one(st0, e_root);
    lemma_read_one(st_a, e_show);
    assert(read_events(st0, p1) == Ok::<ReadState, PfxErrorView>(st1));

    let dev = s.devices.map_values(|d: DeviceView| XmlEventView::Empty("device"@, device_attrs(d)));
    let p2 = p1 + section("devices"@, dev);
    lemma_read_concat(st0, p1, section("devices"@, dev));
    lemma_section(st1, "devices"@, dev);
    lemma_read_devices(st1, s.devices);
    let st2 = ReadState { show: ShowView { devices: st1.show.devices + s.devices, ..st1.show }, ..st1 };
    assert(read_events(st0, p2) == Ok::<ReadState, PfxErrorView>(st2));

    let ha = s.head_amps.map_values(|h: HeadAmpView| XmlEventView::Empty("headamp"@, headamp_attrs(h)));
    let p3 = p2 + section("headamps"@, ha);
    lemma_read_concat(st0, p2, section("headamps"@, ha));
    lemma_section(st2, "headamps"@, ha);
    lemma_read_headamps(st2, s.head_amps);
    let st3 = ReadState { show: ShowView { head_amps: st2.show.head_amps + s.head_amps, ..st2.show }, ..st2 };
    assert(read_events(st0, p3) == Ok::<ReadState, PfxErrorView>(st3));

    let sx = s.strips.map_values(|x: StripView| XmlEventView::Empty("strip"@, strip_attrs(x)));
    let e_patch = XmlEventView::Start("patch"@, Seq::<AttrView>::empty());
    let p4 = p3 + section("strips"@, sx) + seq![e_patch];
    lemma_read_concat(st0, p3, section("strips"@, sx));
    lemma_section(st3, "strips"@, sx);
    lemma_read_strips(st3, s.strips);
    let st4 = ReadState { show: ShowView { strips: st3.show.strips + s.strips, ..st3.show }, ..st3 };
    lemma_read_concat(st0, p3 + section("strips"@, sx), seq![e_patch]);
    lemma_read_one(st4, e_patch);
    assert(read_events(st0, p4) == Ok::<ReadState, PfxErrorView>(st4));

    let ins = s.inputs.map_values(|p: InputPatchView| XmlEventView::Empty("in"@, input_attrs(p)));
    let p5 = p4 + section("inputs"@, ins);
    lemma_read_concat(st0, p4, section("inputs"@, ins));
    lemma_section(st4, "inputs"@, ins);
    lemma_read_inputs(st4, s.inputs);
    let st5 = ReadState { show: ShowView { inputs: st4.show.inputs + s.inputs, ..st4.show }, ..st4 };
    assert(read_events(st0, p5) == Ok::<ReadState, PfxErrorView>(st5));

    let outs = s.outputs.map_values(|p: OutputPatchView| XmlEventView::Empty("out"@, output_attrs(p)));
    let e_patch_end = XmlEventView::End("patch"@);
    let p6 = p5 + section("outputs"@, outs) + seq![e_patch_end];
    lemma_read_concat(st0, p5, section("outputs"@, outs));
    lemma_section(st5, "outputs"@, outs);
    lemma_read_outputs(st5, s.outputs);
    let st6 = ReadState { show: ShowView { outputs: st5.show.outputs + s.outputs, ..st5.show }, ..st5 };
    lemma_read_concat(st0, p5 + section("outputs"@, outs), seq![e_patch_end]);
    lemma_read_one(st6, e_patch_end);
    assert(read_events(st0, p6) == Ok::<ReadState, PfxErrorView>(st6));

    let sc = s.scenes.map_values(|x: SceneView| XmlEventView::Empty("scene"@, scene_attrs(x)));
    let p7 = p6 + section("scenes"@, sc);
    lemma_read_concat(st0, p6, section("scenes"@, sc));
    lemma_section(st6, "scenes"@, sc);
    lemma_read_scenes(st6, s.scenes);
    let st7 = ReadState { show: ShowView { scenes: st6.show.scenes + s.scenes, ..st6.show }, ..st6 };
    assert(read_events(st0, p7) == Ok::<ReadState, PfxErrorView>(st7));

    let dg = diagnostic_events(s.diagnostics);
    let e_end = XmlEventView::End("pfx"@);
    let p8 = p7 + section("diagnostics"@, dg) + seq![e_end];
    lemma_read_concat(st0, p7, section("diagnostics"@, dg));
    lemma_section(st7, "diagnostics"@, dg);
    lemma_read_diagnostics(st7, s.diagnostics);
    let st8 = ReadState {
        show: ShowView { diagnostics: st7.show.diagnostics + s.diagnostics, ..st7.show },
        ..st7
    };
    lemma_read_concat(st0, p7 + section("diagnostics"@, dg), seq![e_end]);
    lemma_read_one(st8, e_end);
    assert(read_events(st0, p8) == Ok::<ReadState, PfxErrorView>(st8));

    assert(p8 =~= to_events_spec(s));
    assert(st8.show.devices =~= s.devices);
    assert(st8.show.head_amps =~= s.head_amps);
    assert(st8.show.strips =~= s.strips);
    assert(st8.show.inputs =~= s.inputs);
    assert(st8.show.outputs =~= s.outputs);
    assert(st8.show.scenes =~= s.scenes);
    assert(st8.show.diagnostics =~= s.diagnostics);
    assert(st8.show == s);
}

/// A PFX document being read one event at a time.
pub struct PfxReader {
    show: Show,
    pending: Option<Diagnostic>,
    saw_root: bool,
}

impl View for PfxReader {
    type V = ReadState;

    closed spec fn view(&self) -> ReadState {
        state_of(self.show, self.pending, self.saw_root)
    }
}

impl PfxReader {
    /// A reader that has seen nothing yet.
    pub fn new() -> (r: PfxReader)
        ensures
            r@ == read_start(),
    {
        let r = PfxReader { show: empty_show_exec(), pending: None, saw_root: false };
        proof {
            assert(state_of(r.show, r.pending, r.saw_root) == read_start());
        }
        r
    }

    /// Take in the next event.
    pub fn feed(&mut self, e: &XmlEvent) -> (r: Result<(), PfxError>)
        ensures
            match r {
                Ok(()) => event_step(old(self)@, e@) == Ok::<ReadState, PfxErrorView>(final(self)@),
                Err(x) => event_step(old(self)@, e@) == Err::<ReadState, PfxErrorView>(x@),
            },
    {
        event(&mut self.show, &mut self.pending, &mut self.saw_root, e)
    }

    /// The show, once the document has ended.
    pub fn finish(self) -> (r: Result<Show, PfxError>)
        ensures
            match r {
                Ok(s) => self@.saw_root && s@ == self@.show,
                Err(e) => !self@.saw_root && e@ == PfxErrorView::Malformed("no <pfx> root element"@),
            },
    {
        if !self.saw_root {
            return Err(PfxError::Malformed(String::from_str("no <pfx> root element")));
        }
        Ok(self.show)
    }
}

// ---------------------------------------------------------------------------
// Reading the text
// ---------------------------------------------------------------------------

#[verifier::external_type_specification]
#[verifier::external_body]
#[verifier::reject_recursive_types(R)]
pub struct ExXmlReader<R>(Reader<R>);

#[verifier::external_type_specification]
#[verifier::external_body]
pub struct ExXmlSyntaxError(quick_xml::Error);

#[verifier::external_type_specification]
#[verifier::external_body]
pub struct ExAttributes<'a>(Attributes<'a>);

#[verifier::external_type_specification]
#[verifier::external_body]
pub struct ExAttribute<'a>(Attribute<'a>);

#[verifier::external_type_specification]
#[verifier::external_body]
pub struct ExAttrError(AttrError);

/// One thing quick_xml's reader reports, as the bytes it reports it with.
pub enum XmlToken {
    /// A start tag: the bytes between `<` and `>` (the name, then the
    /// attributes) and how many of them are the name.
    Start(Seq<u8>, nat),
    /// The same for a tag that closes itself.
    Empty(Seq<u8>, nat),
    /// Character data, still escaped.
    Text(Seq<u8>),
    /// An end tag's name.
    End(Seq<u8>),
    /// A declaration, comment, CDATA section, processing instruction or
    /// doctype: nothing a PFX document is read from.
    Other,
    /// An error; nothing after it is read.
    Failed,
}

/// What quick_xml's reader reports for `text`, in order, up to the end of
/// the text or its first error (reported as `Failed`). With `trim`, text
/// comes without its surrounding whitespace, and whitespace alone is not
/// reported.
pub uninterp spec fn xml_tokens(text: Seq<char>, trim: bool) -> Seq<XmlToken>;

/// What a reader has still to report.
pub uninterp spec fn reader_rest(r: Reader<&[u8]>) -> Seq<XmlToken>;

/// The text a reader was made over.
pub uninterp spec fn reader_source(r: Reader<&[u8]>) -> Seq<char>;

/// One event as the reader hands it over: the bytes of its payload.
pub enum RawEvent {
    Start(Vec<u8>, usize),
    Empty(Vec<u8>, usize),
    Text(Vec<u8>),
    End(Vec<u8>),
    Other,
    Eof,
}

pub open spec fn raw_token(e: RawEvent) -> XmlToken {
    match e {
        RawEvent::Start(c, n) => XmlToken::Start(c@, n as nat),
        RawEvent::Empty(c, n) => XmlToken::Empty(c@, n as nat),
        RawEvent::Text(b) => XmlToken::Text(b@),
        RawEvent::End(b) => XmlToken::End(b@),
        RawEvent::Other => XmlToken::Other,
        RawEvent::Eof => XmlToken::Other,
    }
}

/// `quick_xml::Reader::from_str`: a reader over the text, with everything
/// quick_xml reads from it still to report.
#[verifier::external_body]
fn open_reader<'a>(text: &'a str) -> (r: Reader<&'a [u8]>)
    ensures
        reader_source(r) == text@,
        reader_rest(r) == xml_tokens(text@, false),
{
    Reader::from_str(text)
}

/// `Config::trim_text(true)` on the reader's configuration, before anything
/// is read: from then on it reports what quick_xml reads from its text with
/// text trimmed.
#[verifier::external_body]
fn trim_text(reader: &mut Reader<&[u8]>)
    requires
        reader_rest(*old(reader)) == xml_tokens(reader_source(*old(reader)), false),
    ensures
        reader_source(*final(reader)) == reader_source(*old(reader)),
        reader_rest(*final(reader)) == xml_tokens(reader_source(*old(reader)), true),
{
    reader.config_mut().trim_text(true);
}

/// `Reader::read_event`: the next thing the reader has to report, its kind
/// told apart and its payload's bytes (`Deref`) taken out, with a start
/// tag's name length (`BytesStart::name`); the end of the text once
/// nothing is left; the reader's error where one comes.
#[verifier::external_body]
fn read_event(reader: &mut Reader<&[u8]>) -> (r: Result<RawEvent, quick_xml::Error>)
    ensures
        reader_source(*final(reader)) == reader_source(*old(reader)),
        match r {
            Ok(RawEvent::Eof) => reader_rest(*old(reader)).len() == 0,
            Ok(e) => {
                &&& reader_rest(*old(reader)).len() > 0
                &&& reader_rest(*old(reader))[0] == raw_token(e)
                &&& reader_rest(*final(reader)) == reader_rest(*old(reader)).drop_first()
            },
            Err(_) => reader_rest(*old(reader)).len() > 0 && reader_rest(*old(reader))[0] == XmlToken::Failed,
        },
        match r {
            Ok(RawEvent::Start(c, n)) => n <= c@.len(),
            Ok(RawEvent::Empty(c, n)) => n <= c@.len(),
            _ => true,
        },
{
    match reader.read_event() {
        Ok(Event::Start(e)) => Ok(RawEvent::Start(e.to_vec(), e.name().0.len())),
        Ok(Event::Empty(e)) => Ok(RawEvent::Empty(e.to_vec(), e.name().0.len())),
        Ok(Event::Text(t)) => Ok(RawEvent::Text(t.to_vec())),
        Ok(Event::End(e)) => Ok(RawEvent::End(e.to_vec())),
        Ok(Event::Eof) => Ok(RawEvent::Eof),
        Ok(_) => Ok(RawEvent::Other),
        Err(e) => Err(e),
    }
}

/// One attribute as quick_xml's attribute iterator reports it: its key and
/// its value's bytes (still escaped), or an attribute it cannot make out.
pub enum AttrToken {
    Read(Seq<u8>, Seq<u8>),
    Failed,
}

/// What `Attributes::new(buf, pos)` iterates over: the attributes of the
/// tag text `buf` from byte `pos` on, with duplicate keys reported as
/// failures.
pub uninterp spec fn attr_tokens(buf: Seq<char>, pos: nat) -> Seq<AttrToken>;

/// What an attribute iterator has still to report.
pub uninterp spec fn attrs_rest(it: Attributes) -> Seq<AttrToken>;

/// `Attributes::new`: an iterator over the attributes of a tag's text from
/// byte `pos` on.
#[verifier::external_body]
fn attributes_of<'a>(buf: &'a str, pos: usize) -> (r: Attributes<'a>)
    requires
        pos <= encode_utf8(buf@).len(),
    ensures
        attrs_rest(r) == attr_tokens(buf@, pos as nat),
{
    Attributes::new(buf, pos)
}

/// `Attributes::next`: the next attribute's key and value bytes (the `key`
/// and `value` fields), or that it could not be made out, or `None` once
/// nothing is left.
#[verifier::external_body]
fn next_attribute(it: &mut Attributes) -> (r: Option<Result<(Vec<u8>, Vec<u8>), ()>>)
    ensures
        match r {
            None => attrs_rest(*old(it)).len() == 0,
            Some(x) => {
                &&& attrs_rest(*old(it)).len() > 0
                &&& attrs_rest(*old(it))[0] == match x {
                    Ok(kv) => AttrToken::Read(kv.0@, kv.1@),
                    Err(_) => AttrToken::Failed,
                }
                &&& attrs_rest(*final(it)) == attrs_rest(*old(it)).drop_first()
            },
        },
{
    match it.next() {
        None => None,
        Some(Ok(a)) => Some(Ok((a.key.as_ref().to_vec(), a.value.to_vec()))),
        Some(Err(_)) => Some(Err(())),
    }
}

/// What `quick_xml::escape::unescape` makes of a text: the text with its
/// predefined entities and character references resolved, or nothing when
/// an escape is malformed.
pub uninterp spec fn xml_unescape(s: Seq<char>) -> Option<Seq<char>>;

/// `quick_xml::escape::unescape`, owned, its error reduced to `None`.
#[verifier::external_body]
fn unescape(s: &str) -> (r: Option<String>)
    ensures
        match r {
            Some(t) => xml_unescape(s@) == Some(t@),
            None => xml_unescape(s@) is None,
        },
{
    match quick_xml::escape::unescape(s) {
        Ok(t) => Some(t.into_owned()),
        Err(_) => None,
    }
}

/// Escaped bytes as text: decoded as UTF-8, then unescaped, as quick_xml
/// does for the values of a document read from text.
pub open spec fn unescaped(b: Seq<u8>) -> Option<Seq<char>> {
    match utf8_decode(b) {
        Some(s) => xml_unescape(s),
        None => None,
    }
}

/// The attributes read, in order, each with its value unless the value
/// could not be unescaped; those quick_xml cannot make out are passed over.
pub open spec fn attr_views(ts: Seq<AttrToken>) -> Seq<AttrView>
    decreases ts.len(),
{
    if ts.len() == 0 {
        Seq::empty()
    } else {
        let p = attr_views(ts.drop_last());
        match ts.last() {
            AttrToken::Read(k, v) => p.push((lossy_utf8(k), unescaped(v))),
            AttrToken::Failed => p,
        }
    }
}

/// The attributes of a tag with this text and name length.
pub open spec fn tag_attrs(content: Seq<u8>, name_len: nat) -> Seq<AttrView> {
    match utf8_decode(content) {
        Some(s) => attr_views(attr_tokens(s, name_len)),
        None => Seq::empty(),
    }
}

/// The PFX event a token is read as, if any.
pub open spec fn token_event(t: XmlToken) -> Option<XmlEventView> {
    match t {
        XmlToken::Start(c, n) => Some(XmlEventView::Start(lossy_utf8(c.take(n as int)), tag_attrs(c, n))),
        XmlToken::Empty(c, n) => Some(XmlEventView::Empty(lossy_utf8(c.take(n as int)), tag_attrs(c, n))),
        XmlToken::Text(b) => Some(
            XmlEventView::Text(
                match unescaped(b) {
                    Some(t) => t,
                    None => Seq::empty(),
                },
            ),
        ),
        XmlToken::End(b) => Some(XmlEventView::End(lossy_utf8(b))),
        XmlToken::Other => None,
        XmlToken::Failed => None,
    }
}

pub open spec fn opt_event(o: Option<XmlEventView>) -> Seq<XmlEventView> {
    match o {
        Some(e) => seq![e],
        None => Seq::empty(),
    }
}

/// The PFX events a run of tokens is read as.
pub open spec fn token_events(ts: Seq<XmlToken>) -> Seq<XmlEventView>
    decreases ts.len(),
{
    if ts.len() == 0 {
        Seq::empty()
    } else {
        token_events(ts.drop_last()) + opt_event(token_event(ts.last()))
    }
}

/// What a PFX document read from these tokens gives: the show, the PFX
/// error, or `None` for an XML error. Events are read in order up to the
/// first failure; a PFX error before it is what is reported.
pub open spec fn from_tokens_spec(ts: Seq<XmlToken>) -> Result<ShowView, Option<PfxErrorView>> {
    let k = match first_match(ts, |t: XmlToken| t == XmlToken::Failed) {
        Some(k) => k,
        None => ts.len() as int,
    };
    match read_events(read_start(), token_events(ts.take(k))) {
        Err(e) => Err(Some(e)),
        Ok(st) => if k < ts.len() {
            Err(None)
        } else if st.saw_root {
            Ok(st.show)
        } else {
            Err(Some(PfxErrorView::Malformed("no <pfx> root element"@)))
        },
    }
}

/// What a PFX document read from `text` gives.
pub open spec fn from_xml_spec(text: Seq<char>) -> Result<ShowView, Option<PfxErrorView>> {
    from_tokens_spec(xml_tokens(text, true))
}

proof fn lemma_token_events_concat(a: Seq<XmlToken>, b: Seq<XmlToken>)
    ensures
        token_events(a + b) == token_events(a) + token_events(b),
    decreases b.len(),
{
    if b.len() == 0 {
        assert(a + b =~= a);
        assert(token_events(a) + token_events(b) =~= token_events(a));
    } else {
        assert((a + b).drop_last() =~= a + b.drop_last());
        assert((a + b).last() == b.last());
        lemma_token_events_concat(a, b.drop_last());
        assert(token_events(a + b) =~= token_events(a) + token_events(b));
    }
}

proof fn lemma_attr_views_concat(a: Seq<AttrToken>, b: Seq<AttrToken>)
    ensures
        attr_views(a + b) == attr_views(a) + attr_views(b),
    decreases b.len(),
{
    if b.len() == 0 {
        assert(a + b =~= a);
        assert(attr_views(a) + attr_views(b) =~= attr_views(a));
    } else {
        assert((a + b).drop_last() =~= a + b.drop_last());
        assert((a + b).last() == b.last());
        lemma_attr_views_concat(a, b.drop_last());
        match b.last() {
            AttrToken::Read(k, v) => {
                assert(attr_views(a + b) =~= attr_views(a) + attr_views(b));
            },
            AttrToken::Failed => {},
        }
    }
}

/// The attributes of a start tag with this text and name length.
fn read_attributes(content: &[u8], name_len: usize) -> (r: Vec<(String, Option<String>)>)
    requires
        name_len <= content@.len(),
    ensures
        attrs_view(r@) == tag_attrs(content@, name_len as nat),
{
    let mut out: Vec<(String, Option<String>)> = Vec::new();
    let s = match utf8_strict(content) {
        Some(s) => s,
        None => {
            proof {
                assert(attrs_view(out@) =~= Seq::<AttrView>::empty());
            }
            return out;
        },
    };
    let mut it = attributes_of(s.as_str(), name_len);
    let ghost items = attr_tokens(s@, name_len as nat);
    let ghost mut j: int = 0;
    proof {
        assert(items.skip(0) =~= items);
        assert(items.take(0) =~= Seq::<AttrToken>::empty());
        assert(attrs_view(out@) =~= Seq::<AttrView>::empty());
    }
    loop
        invariant_except_break
            utf8_decode(content@) == Some(s@),
            0 <= j <= items.len(),
            attrs_rest(it) == items.skip(j),
            attrs_view(out@) == attr_views(items.take(j)),
        ensures
            attrs_view(out@) == attr_views(items),
        decreases attrs_rest(it).len(),
    {
        let ghost before = out@;
        match next_attribute(&mut it) {
            None => {
                proof {
                    assert(items.take(j) =~= items);
                }
                break;
            },
            Some(x) => {
                proof {
                    assert(items.skip(j)[0] == items[j]);
                    assert(items.skip(j).drop_first() =~= items.skip(j + 1));
                    assert(items.take(j + 1).drop_last() =~= items.take(j));
                    assert(items.take(j + 1).last() == items[j]);
                }
                match x {
                    Err(_) => {},
                    Ok(kv) => {
                        let key = utf8_lossy(kv.0.as_slice());
                        let value = match utf8_strict(kv.1.as_slice()) {
                            Some(v) => unescape(v.as_str()),
                            None => None,
                        };
                        out.push((key, value));
                        proof {
                            assert(attrs_view(out@) =~= attrs_view(before).push((lossy_utf8(kv.0@), unescaped(kv.1@))));
                        }
                    },
                }
                proof {
                    j = j + 1;
                }
            },
        }
    }
    out
}

/// The PFX event of a raw event other than the end of the text, if any.
fn event_of(raw: RawEvent) -> (r: Option<XmlEvent>)
    requires
        !(raw is Eof),
        match raw {
            RawEvent::Start(c, n) => n <= c@.len(),
            RawEvent::Empty(c, n) => n <= c@.len(),
            _ => true,
        },
    ensures
        match r {
            Some(e) => token_event(raw_token(raw)) == Some(e@),
            None => token_event(raw_token(raw)) is None,
        },
{
    match raw {
        RawEvent::Start(c, n) => {
            let name = utf8_lossy(slice_prefix(c.as_slice(), n));
            Some(XmlEvent::Start(name, read_attributes(c.as_slice(), n)))
        },
        RawEvent::Empty(c, n) => {
            let name = utf8_lossy(slice_prefix(c.as_slice(), n));
            Some(XmlEvent::Empty(name, read_attributes(c.as_slice(), n)))
        },
        RawEvent::Text(b) => {
            let t = match utf8_strict(b.as_slice()) {
                Some(s) => unescape(s.as_str()),
                None => None,
            };
            Some(
                XmlEvent::Text(
                    match t {
                        Some(t) => t,
                        None => String::new(),
                    },
                ),
            )
        },
        RawEvent::End(b) => Some(XmlEvent::End(utf8_lossy(b.as_slice()))),
        _ => None,
    }
}

/// Why PFX XML could not be read.
#[derive(Debug)]
pub enum XmlError {
    /// The text is not well-formed XML.
    Xml(quick_xml::Error),
    /// The XML is not a PFX document.
    Malformed(String),
    /// The document is of a schema version this build does not read.
    Version(String),
}

/// The PFX error an `XmlError` carries, or `None` for an XML error.
pub open spec fn xml_error_view(e: XmlError) -> Option<PfxErrorView> {
    match e {
        XmlError::Xml(_) => None,
        XmlError::Malformed(m) => Some(PfxErrorView::Malformed(m@)),
        XmlError::Version(v) => Some(PfxErrorView::Version(v@)),
    }
}

fn pfx_to_xml_error(e: PfxError) -> (r: XmlError)
    ensures
        xml_error_view(r) == Some(e@),
{
    match e {
        PfxError::Malformed(m) => XmlError::Malformed(m),
        PfxError::Version(v) => XmlError::Version(v),
    }
}

/// Parse PFX XML back into a show.
///
/// quick_xml reads the text, trimming text; the events it reports are read
/// as a PFX document exactly as [`from_events`] reads them, up to the first
/// error quick_xml reports.
pub fn from_xml(text: &str) -> (r: Result<Show, XmlError>)
    ensures
        match from_xml_spec(text@) {
            Ok(s) => r matches Ok(x) && x@ == s,
            Err(None) => r matches Err(XmlError::Xml(_)),
            Err(Some(e)) => r matches Err(x) && xml_error_view(x) == Some(e),
        },
{
    let mut reader = open_reader(text);
    trim_text(&mut reader);
    let ghost ts = xml_tokens(text@, true);
    let ghost p = |t: XmlToken| t == XmlToken::Failed;
    let mut pfx = PfxReader::new();
    let ghost mut i: int = 0;
    proof {
        assert(ts.skip(0) =~= ts);
        assert(ts.take(0) =~= Seq::<XmlToken>::empty());
        assert(read_events(read_start(), token_events(ts.take(0))) == Ok::<ReadState, PfxErrorView>(pfx@));
    }
    loop
        invariant_except_break
            ts == xml_tokens(text@, true),
            p == (|t: XmlToken| t == XmlToken::Failed),
            0 <= i <= ts.len(),
            reader_rest(reader) == ts.skip(i),
            forall|j: int| 0 <= j < i ==> !p(#[trigger] ts[j]),
            read_events(read_start(), token_events(ts.take(i))) == Ok::<ReadState, PfxErrorView>(pfx@),
        ensures
            i == ts.len(),
            forall|j: int| 0 <= j < ts.len() ==> !p(#[trigger] ts[j]),
            read_events(read_start(), token_events(ts)) == Ok::<ReadState, PfxErrorView>(pfx@),
        decreases reader_rest(reader).len(),
    {
        let raw = match read_event(&mut reader) {
            Ok(raw) => raw,
            Err(x) => {
                proof {
                    assert(ts.skip(i)[0] == ts[i]);
                    lemma_first_match_at(ts, p, i);
                }
                return Err(XmlError::Xml(x));
            },
        };
        if let RawEvent::Eof = raw {
            proof {
                assert(ts.take(i) =~= ts);
            }
            break;
        }
        proof {
            assert(ts.skip(i)[0] == ts[i]);
            assert(ts.skip(i).drop_first() =~= ts.skip(i + 1));
            assert(ts.take(i + 1).drop_last() =~= ts.take(i));
            assert(ts.take(i + 1).last() == ts[i]);
        }
        let ghost seen = token_events(ts.take(i));
        let ghost before = pfx@;
        match event_of(raw) {
            Some(ev) => {
                proof {
                    assert(token_events(ts.take(i + 1)) == seen + seq![ev@]);
                    lemma_read_concat(read_start(), seen, seq![ev@]);
                    lemma_read_one(before, ev@);
                }
                match pfx.feed(&ev) {
                    Ok(()) => {},
                    Err(x) => {
                        proof {
                            let k = match first_match(ts, p) {
                                Some(k) => k,
                                None => ts.len() as int,
                            };
                            lemma_first_match(ts, p);
                            assert(k >= i + 1);
                            assert(ts.take(k) =~= ts.take(i + 1) + ts.take(k).skip(i + 1));
                            lemma_token_events_concat(ts.take(i + 1), ts.take(k).skip(i + 1));
                            lemma_read_concat(read_start(), token_events(ts.take(i + 1)), token_events(ts.take(k).skip(i + 1)));
                        }
                        return Err(pfx_to_xml_error(x));
                    },
                }
            },
            None => {
                proof {
                    assert(token_events(ts.take(i + 1)) =~= seen);
                }
            },
        }
        proof {
            i = i + 1;
        }
    }
    proof {
        lemma_first_match_none(ts, p);
    }
    match pfx.finish() {
        Ok(s) => Ok(s),
        Err(x) => Err(pfx_to_xml_error(x)),
    }
}

// ---------------------------------------------------------------------------
// Writing the text
// ---------------------------------------------------------------------------

#[verifier::external_type_specification]
#[verifier::external_body]
#[verifier::reject_recursive_types(W)]
pub struct ExXmlWriter<W>(quick_xml::Writer<W>);

/// One event for quick_xml to write: a declaration (version, encoding), a
/// tag with its attributes, text, or an end tag.
pub enum OutEvent<'a> {
    Decl(&'a str, &'a str),
    Start(&'a str, Vec<(&'a str, &'a str)>),
    Empty(&'a str, Vec<(&'a str, &'a str)>),
    Text(&'a str),
    End(&'a str),
}

pub enum OutView {
    Decl(Seq<char>, Seq<char>),
    Start(Seq<char>, Seq<(Seq<char>, Seq<char>)>),
    Empty(Seq<char>, Seq<(Seq<char>, Seq<char>)>),
    Text(Seq<char>),
    End(Seq<char>),
}

pub open spec fn pairs_view(v: Seq<(&str, &str)>) -> Seq<(Seq<char>, Seq<char>)> {
    v.map_values(|p: (&str, &str)| (p.0@, p.1@))
}

impl<'a> View for OutEvent<'a> {
    type V = OutView;

    open spec fn view(&self) -> OutView {
        match self {
            OutEvent::Decl(v, e) => OutView::Decl(v@, e@),
            OutEvent::Start(n, a) => OutView::Start(n@, pairs_view(a@)),
            OutEvent::Empty(n, a) => OutView::Empty(n@, pairs_view(a@)),
            OutEvent::Text(t) => OutView::Text(t@),
            OutEvent::End(n) => OutView::End(n@),
        }
    }
}

/// The bytes quick_xml's `Writer::new_with_indent` over an empty buffer,
/// indenting by `size` copies of `ch`, holds after writing these events in
/// order (tags with their attributes escaped, text escaped).
pub uninterp spec fn xml_bytes(ch: u8, size: nat, evs: Seq<OutView>) -> Seq<u8>;

/// The events a writer has written so far.
pub uninterp spec fn writer_log(w: quick_xml::Writer<Vec<u8>>) -> Seq<OutView>;

/// The indentation a writer was made with.
pub uninterp spec fn writer_indent(w: quick_xml::Writer<Vec<u8>>) -> (u8, nat);

/// `quick_xml::Writer::new_with_indent` over an empty in-memory buffer,
/// indenting nested elements by `size` copies of `ch`: nothing written yet.
#[verifier::external_body]
fn open_writer(ch: u8, size: usize) -> (r: quick_xml::Writer<Vec<u8>>)
    ensures
        writer_log(r) == Seq::<OutView>::empty(),
        writer_indent(r) == (ch, size as nat),
{
    quick_xml::Writer::new_with_indent(Vec::new(), ch, size)
}

/// `Writer::write_event`, the event built as quick_xml's (`BytesDecl::new`,
/// `BytesStart::new` with `with_attributes`, `BytesText::new`,
/// `BytesEnd::new`). Writing into a `Vec` does not fail, so the event is
/// always written.
#[verifier::external_body]
fn write_event(w: &mut quick_xml::Writer<Vec<u8>>, e: &OutEvent)
    ensures
        writer_log(*final(w)) == writer_log(*old(w)).push(e@),
        writer_indent(*final(w)) == writer_indent(*old(w)),
{
    let event = match e {
        OutEvent::Decl(v, c) => Event::Decl(BytesDecl::new(v, Some(c), None)),
        OutEvent::Start(n, a) => Event::Start(BytesStart::new(*n).with_attributes(a.iter().copied())),
        OutEvent::Empty(n, a) => Event::Empty(BytesStart::new(*n).with_attributes(a.iter().copied())),
        OutEvent::Text(t) => Event::Text(BytesText::new(t)),
        OutEvent::End(n) => Event::End(BytesEnd::new(*n)),
    };
    let _ = w.write_event(event);
}

/// `Writer::into_inner`: the bytes written, which are what quick_xml writes
/// for the events logged, with the writer's indentation.
#[verifier::external_body]
fn written(w: quick_xml::Writer<Vec<u8>>) -> (r: Vec<u8>)
    ensures
        r@ == xml_bytes(writer_indent(w).0, writer_indent(w).1, writer_log(w)),
{
    w.into_inner()
}

/// The attributes that have a value, in order.
pub open spec fn present_attrs(a: Seq<AttrView>) -> Seq<(Seq<char>, Seq<char>)>
    decreases a.len(),
{
    if a.len() == 0 {
        Seq::empty()
    } else {
        let p = present_attrs(a.drop_last());
        match a.last().1 {
            Some(v) => p.push((a.last().0, v)),
            None => p,
        }
    }
}

/// What quick_xml is asked to write for a PFX event.
pub open spec fn out_of(e: XmlEventView) -> OutView {
    match e {
        XmlEventView::Start(n, a) => OutView::Start(n, present_attrs(a)),
        XmlEventView::Empty(n, a) => OutView::Empty(n, present_attrs(a)),
        XmlEventView::Text(t) => OutView::Text(t),
        XmlEventView::End(n) => OutView::End(n),
    }
}

/// What quick_xml is asked to write for a PFX document: an XML declaration,
/// then its events.
pub open spec fn pfx_out(evs: Seq<XmlEventView>) -> Seq<OutView> {
    seq![OutView::Decl("1.0"@, "UTF-8"@)] + evs.map_values(|e: XmlEventView| out_of(e))
}

/// The XML text of a PFX document's events: what quick_xml writes for them,
/// nested elements indented by two spaces, read as UTF-8.
pub open spec fn xml_text_spec(evs: Seq<XmlEventView>) -> Option<Seq<char>> {
    utf8_decode(xml_bytes(32, 2, pfx_out(evs)))
}

/// What `write_events` says if quick_xml's bytes were not UTF-8, which they
/// are not expected to be.
pub open spec fn not_utf8_text() -> Seq<char> {
    "the XML writer produced text that is not UTF-8"@
}

/// The attributes that have a value, in order.
fn present<'a>(attrs: &'a Vec<(String, Option<String>)>) -> (r: Vec<(&'a str, &'a str)>)
    ensures
        pairs_view(r@) == present_attrs(attrs_view(attrs@)),
{
    let ghost a = attrs_view(attrs@);
    let mut out: Vec<(&'a str, &'a str)> = Vec::new();
    let mut i: usize = 0;
    proof {
        assert(pairs_view(out@) =~= present_attrs(a.take(0)));
    }
    while i < attrs.len()
        invariant
            i <= attrs@.len(),
            a == attrs_view(attrs@),
            pairs_view(out@) == present_attrs(a.take(i as int)),
        decreases attrs@.len() - i,
    {
        let ghost before = out@;
        proof {
            assert(a.take(i + 1).drop_last() =~= a.take(i as int));
            assert(a.take(i + 1).last() == a[i as int]);
        }
        match &attrs[i].1 {
            Some(v) => {
                out.push((attrs[i].0.as_str(), v.as_str()));
                proof {
                    assert(pairs_view(out@) =~= pairs_view(before).push((a[i as int].0, a[i as int].1.unwrap())));
                }
            },
            None => {},
        }
        i = i + 1;
    }
    proof {
        assert(a.take(i as int) =~= a);
    }
    out
}

/// The event quick_xml is asked to write for a PFX event.
fn out_event<'a>(e: &'a XmlEvent) -> (r: OutEvent<'a>)
    ensures
        r@ == out_of(e@),
{
    match e {
        XmlEvent::Start(n, a) => OutEvent::Start(n.as_str(), present(a)),
        XmlEvent::Empty(n, a) => OutEvent::Empty(n.as_str(), present(a)),
        XmlEvent::Text(t) => OutEvent::Text(t.as_str()),
        XmlEvent::End(n) => OutEvent::End(n.as_str()),
    }
}

/// Write the events of a PFX document out as XML text, after an XML
/// declaration, nested elements indented by two spaces: the text is what
/// quick_xml writes for them.
pub fn write_events(events: &[XmlEvent]) -> (r: Result<String, XmlError>)
    ensures
        match r {
            Ok(t) => xml_text_spec(events_view(events@)) == Some(t@),
            Err(e) => xml_text_spec(events_view(events@)) is None
                && xml_error_view(e) == Some(PfxErrorView::Malformed(not_utf8_text())),
        },
{
    let ghost evs = events_view(events@);
    let mut w = open_writer(32, 2);
    write_event(&mut w, &OutEvent::Decl("1.0", "UTF-8"));
    let mut i: usize = 0;
    proof {
        assert(writer_log(w) =~= pfx_out(evs.take(0)));
    }
    while i < events.len()
        invariant
            i <= events@.len(),
            evs == events_view(events@),
            writer_indent(w) == (32u8, 2nat),
            writer_log(w) == pfx_out(evs.take(i as int)),
        decreases events@.len() - i,
    {
        let o = out_event(&events[i]);
        write_event(&mut w, &o);
        proof {
            assert(evs[i as int] == events@[i as int]@);
            assert(pfx_out(evs.take(i + 1)) =~= pfx_out(evs.take(i as int)).push(out_of(evs[i as int])));
        }
        i = i + 1;
    }
    proof {
        assert(evs.take(i as int) =~= evs);
    }
    let bytes = written(w);
    match utf8_strict(bytes.as_slice()) {
        Some(t) => Ok(t),
        None => Err(XmlError::Malformed(String::from_str("the XML writer produced text that is not UTF-8"))),
    }
}

} // verus!
