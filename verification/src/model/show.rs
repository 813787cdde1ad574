//! The show: devices, head amps, strips, the patch, scenes and diagnostics.

use vstd::prelude::*;

use super::signal::{kind_text, SignalRef, SignalView, StripId, StripKind, Tap};
use super::{SocketRef, SocketView, Transport, TransportView};
use crate::text::{
    chars_of, dec, first_match, lemma_first_match_at, lemma_first_match_none, push_char,
    push_dec, sorted_spec, stable_sort, trim, trim_vec, Keyed,
};

verus! {

pub open spec fn opt_text(o: Option<String>) -> Option<Seq<char>> {
    match o {
        Some(s) => Some(s@),
        None => None,
    }
}

pub open spec fn opt_socket(o: Option<SocketRef>) -> Option<SocketView> {
    match o {
        Some(s) => Some(s@),
        None => None,
    }
}

/// Copy an optional string.
pub fn clone_opt(o: &Option<String>) -> (r: Option<String>)
    ensures
        opt_text(r) == opt_text(*o),
{
    match o {
        Some(s) => Some(s.clone()),
        None => None,
    }
}

/// Copy an optional connector.
pub fn clone_opt_socket(o: &Option<SocketRef>) -> (r: Option<SocketRef>)
    ensures
        opt_socket(r) == opt_socket(*o),
{
    match o {
        Some(s) => Some(s.clone()),
        None => None,
    }
}

// ---------------------------------------------------------------------------
// Devices
// ---------------------------------------------------------------------------

/// A physical I/O device: the console's local connectors, a stagebox, a card.
#[derive(Debug, Clone, PartialEq)]
pub struct Device {
    /// Stable slug used by [`SocketRef`] — e.g. `local`, `aes50a-sb1`.
    pub id: String,
    /// Human label for the patch list — e.g. "Stage Left S16".
    pub label: String,
    /// Model, where the show file names one.
    pub model: Option<String>,
    pub transport: Transport,
    pub inputs: u16,
    pub outputs: u16,
}

pub struct DeviceView {
    pub id: Seq<char>,
    pub label: Seq<char>,
    pub model: Option<Seq<char>>,
    pub transport: TransportView,
    pub inputs: u16,
    pub outputs: u16,
}

impl View for Device {
    type V = DeviceView;

    open spec fn view(&self) -> DeviceView {
        DeviceView {
            id: self.id@,
            label: self.label@,
            model: opt_text(self.model),
            transport: self.transport@,
            inputs: self.inputs,
            outputs: self.outputs,
        }
    }
}

impl Device {
    /// A device with no model name.
    pub fn new(id: &str, label: &str, transport: Transport, inputs: u16, outputs: u16) -> (r:
        Device)
        ensures
            r@ == (DeviceView {
                id: id@,
                label: label@,
                model: None,
                transport: transport@,
                inputs,
                outputs,
            }),
    {
        Device {
            id: id.to_owned(),
            label: label.to_owned(),
            model: None,
            transport,
            inputs,
            outputs,
        }
    }
}

// ---------------------------------------------------------------------------
// Head amps and strips
// ---------------------------------------------------------------------------

/// Preamp state.
///
/// Deliberately attached to the *socket*, not the channel. On a shared
/// stagebox the gain belongs to the connector and is shared by every console
/// listening to it — modelling it per-channel is the classic way to produce a
/// patch list that lies about gain sharing.
#[derive(Debug, Clone, PartialEq)]
pub struct HeadAmp {
    pub socket: SocketRef,
    /// Gain in dB, as the decimal text the show file holds.
    pub gain_db: Option<String>,
    pub phantom: bool,
    pub pad: bool,
    pub polarity_invert: bool,
}

pub struct HeadAmpView {
    pub socket: SocketView,
    pub gain_db: Option<Seq<char>>,
    pub phantom: bool,
    pub pad: bool,
    pub polarity_invert: bool,
}

impl View for HeadAmp {
    type V = HeadAmpView;

    open spec fn view(&self) -> HeadAmpView {
        HeadAmpView {
            socket: self.socket@,
            gain_db: opt_text(self.gain_db),
            phantom: self.phantom,
            pad: self.pad,
            polarity_invert: self.polarity_invert,
        }
    }
}

/// A logical mix strip.
#[derive(Debug, Clone, PartialEq)]
pub struct Strip {
    pub id: StripId,
    pub name: String,
    /// Vendor colour name/index, verbatim.
    pub colour: Option<String>,
    /// Vendor icon identifier, verbatim.
    pub icon: Option<String>,
    /// What feeds this strip.
    pub source: SignalRef,
    pub muted: bool,
    /// Fader position in dB, as the decimal text the show file holds.
    pub fader_db: Option<String>,
    /// Index of the strip this one is stereo-linked to, if any.
    pub linked_to: Option<StripId>,
}

pub struct StripView {
    pub id: StripId,
    pub name: Seq<char>,
    pub colour: Option<Seq<char>>,
    pub icon: Option<Seq<char>>,
    pub source: SignalView,
    pub muted: bool,
    pub fader_db: Option<Seq<char>>,
    pub linked_to: Option<StripId>,
}

impl View for Strip {
    type V = StripView;

    open spec fn view(&self) -> StripView {
        StripView {
            id: self.id,
            name: self.name@,
            colour: opt_text(self.colour),
            icon: opt_text(self.icon),
            source: self.source@,
            muted: self.muted,
            fader_db: opt_text(self.fader_db),
            linked_to: self.linked_to,
        }
    }
}

/// A fresh, unnamed, unpatched strip.
pub open spec fn blank_strip(id: StripId) -> StripView {
    StripView {
        id,
        name: Seq::empty(),
        colour: None,
        icon: None,
        source: SignalView::Off,
        muted: false,
        fader_db: None,
        linked_to: None,
    }
}

/// The name a strip is shown under.
pub open spec fn display_name_spec(s: StripView) -> Seq<char> {
    if trim(s.name).len() == 0 {
        kind_text(s.id.kind) + seq![' '] + dec(s.id.index as nat)
    } else {
        s.name
    }
}

impl Strip {
    pub fn new(id: StripId) -> (r: Strip)
        ensures
            r@ == blank_strip(id),
    {
        Strip {
            id,
            name: String::new(),
            colour: None,
            icon: None,
            source: SignalRef::Off,
            muted: false,
            fader_db: None,
            linked_to: None,
        }
    }

    /// Name for display, falling back to the strip's number when unnamed.
    pub fn display_name(&self) -> (r: String)
        ensures
            r@ == display_name_spec(self@),
    {
        let cs = chars_of(self.name.as_str());
        let t = trim_vec(cs.as_slice());
        if t.len() == 0 {
            let mut s = String::from_str(self.id.kind.as_str());
            push_char(&mut s, ' ');
            push_dec(&mut s, self.id.index as u64);
            proof {
                assert(s@ =~= display_name_spec(self@));
            }
            s
        } else {
            self.name.clone()
        }
    }
}

impl Keyed for Strip {
    open spec fn key_le(&self, other: &Self) -> bool {
        super::signal::strip_id_le(self.id, other.id)
    }

    fn le(&self, other: &Self) -> (r: bool) {
        self.id.le(&other.id)
    }
}

// ---------------------------------------------------------------------------
// The patch
// ---------------------------------------------------------------------------

/// One entry in the input patch: connector → slot → strip.
#[derive(Debug, Clone, PartialEq)]
pub struct InputPatch {
    /// 1-based console input slot.
    pub slot: u16,
    /// The vendor's own label for the routing block, kept for traceability.
    pub block_label: String,
    /// The physical connector currently feeding this slot.
    pub socket: Option<SocketRef>,
    /// The strip currently taking this slot, if any.
    pub strip: Option<StripId>,
}

pub struct InputPatchView {
    pub slot: u16,
    pub block_label: Seq<char>,
    pub socket: Option<SocketView>,
    pub strip: Option<StripId>,
}

impl View for InputPatch {
    type V = InputPatchView;

    open spec fn view(&self) -> InputPatchView {
        InputPatchView {
            slot: self.slot,
            block_label: self.block_label@,
            socket: opt_socket(self.socket),
            strip: self.strip,
        }
    }
}

/// One entry in the output patch: strip/signal → connector.
#[derive(Debug, Clone, PartialEq)]
pub struct OutputPatch {
    pub socket: SocketRef,
    pub source: SignalRef,
    pub tap: Tap,
    /// Vendor's own name for the source, kept verbatim where we could not
    /// resolve it to a `SignalRef`.
    pub source_label: String,
}

pub struct OutputPatchView {
    pub socket: SocketView,
    pub source: SignalView,
    pub tap: Tap,
    pub source_label: Seq<char>,
}

impl View for OutputPatch {
    type V = OutputPatchView;

    open spec fn view(&self) -> OutputPatchView {
        OutputPatchView {
            socket: self.socket@,
            source: self.source@,
            tap: self.tap,
            source_label: self.source_label@,
        }
    }
}

#[derive(Debug, Clone, PartialEq)]
pub struct Patch {
    pub inputs: Vec<InputPatch>,
    pub outputs: Vec<OutputPatch>,
}

/// A stored scene/snapshot within the show.
#[derive(Debug, Clone, PartialEq)]
pub struct Scene {
    pub index: u16,
    pub name: String,
    pub note: Option<String>,
}

pub struct SceneView {
    pub index: u16,
    pub name: Seq<char>,
    pub note: Option<Seq<char>>,
}

impl View for Scene {
    type V = SceneView;

    open spec fn view(&self) -> SceneView {
        SceneView { index: self.index, name: self.name@, note: opt_text(self.note) }
    }
}

/// Something the adapter could not fully carry into the model.
///
/// These are a first-class output, not a debug aid: the fidelity section of
/// every report is built from them, so a user can see exactly what would be
/// lost before they trust a conversion.
#[derive(Debug, Clone, PartialEq)]
pub struct Diagnostic {
    pub severity: super::signal::Severity,
    /// Where in the source file — a path, line number, or token.
    pub locus: String,
    pub message: String,
}

pub struct DiagnosticView {
    pub severity: super::signal::Severity,
    pub locus: Seq<char>,
    pub message: Seq<char>,
}

impl View for Diagnostic {
    type V = DiagnosticView;

    open spec fn view(&self) -> DiagnosticView {
        DiagnosticView { severity: self.severity, locus: self.locus@, message: self.message@ }
    }
}

impl Diagnostic {
    pub fn new(severity: super::signal::Severity, locus: String, message: String) -> (r:
        Diagnostic)
        ensures
            r@ == (DiagnosticView { severity, locus: locus@, message: message@ }),
    {
        Diagnostic { severity, locus, message }
    }
}

#[derive(Debug, Clone, PartialEq)]
pub struct ShowMeta {
    pub name: String,
    pub note: Option<String>,
    /// Adapter id that produced this model, e.g. `x32`.
    pub source_format: String,
    /// Vendor/model as identified from the file.
    pub console: String,
    /// Show file format version string, verbatim.
    pub format_version: Option<String>,
}

pub struct ShowMetaView {
    pub name: Seq<char>,
    pub note: Option<Seq<char>>,
    pub source_format: Seq<char>,
    pub console: Seq<char>,
    pub format_version: Option<Seq<char>>,
}

impl View for ShowMeta {
    type V = ShowMetaView;

    open spec fn view(&self) -> ShowMetaView {
        ShowMetaView {
            name: self.name@,
            note: opt_text(self.note),
            source_format: self.source_format@,
            console: self.console@,
            format_version: opt_text(self.format_version),
        }
    }
}

impl Default for ShowMeta {
    fn default() -> (r: ShowMeta)
        ensures
            r@ == (ShowMetaView {
                name: Seq::empty(),
                note: None,
                source_format: Seq::empty(),
                console: Seq::empty(),
                format_version: None,
            }),
    {
        ShowMeta {
            name: String::new(),
            note: None,
            source_format: String::new(),
            console: String::new(),
            format_version: None,
        }
    }
}

// ---------------------------------------------------------------------------
// The show
// ---------------------------------------------------------------------------

/// A whole show, console-neutral.
#[derive(Debug, Clone, PartialEq)]
pub struct Show {
    pub meta: ShowMeta,
    pub devices: Vec<Device>,
    pub head_amps: Vec<HeadAmp>,
    pub strips: Vec<Strip>,
    pub patch: Patch,
    pub scenes: Vec<Scene>,
    pub diagnostics: Vec<Diagnostic>,
}

pub struct ShowView {
    pub meta: ShowMetaView,
    pub devices: Seq<DeviceView>,
    pub head_amps: Seq<HeadAmpView>,
    pub strips: Seq<StripView>,
    pub inputs: Seq<InputPatchView>,
    pub outputs: Seq<OutputPatchView>,
    pub scenes: Seq<SceneView>,
    pub diagnostics: Seq<DiagnosticView>,
}

pub open spec fn devices_view(v: Seq<Device>) -> Seq<DeviceView> {
    v.map_values(|d: Device| d@)
}

pub open spec fn head_amps_view(v: Seq<HeadAmp>) -> Seq<HeadAmpView> {
    v.map_values(|h: HeadAmp| h@)
}

pub open spec fn strips_view(v: Seq<Strip>) -> Seq<StripView> {
    v.map_values(|s: Strip| s@)
}

pub open spec fn inputs_view(v: Seq<InputPatch>) -> Seq<InputPatchView> {
    v.map_values(|p: InputPatch| p@)
}

pub open spec fn outputs_view(v: Seq<OutputPatch>) -> Seq<OutputPatchView> {
    v.map_values(|p: OutputPatch| p@)
}

pub open spec fn diagnostics_view(v: Seq<Diagnostic>) -> Seq<DiagnosticView> {
    v.map_values(|d: Diagnostic| d@)
}

impl View for Show {
    type V = ShowView;

    open spec fn view(&self) -> ShowView {
        ShowView {
            meta: self.meta@,
            devices: devices_view(self.devices@),
            head_amps: head_amps_view(self.head_amps@),
            strips: strips_view(self.strips@),
            inputs: inputs_view(self.patch.inputs@),
            outputs: outputs_view(self.patch.outputs@),
            scenes: self.scenes@.map_values(|s: Scene| s@),
            diagnostics: diagnostics_view(self.diagnostics@),
        }
    }
}

impl ShowView {
    pub open spec fn with_meta(self, meta: ShowMetaView) -> ShowView {
        ShowView {
            meta,
            devices: self.devices,
            head_amps: self.head_amps,
            strips: self.strips,
            inputs: self.inputs,
            outputs: self.outputs,
            scenes: self.scenes,
            diagnostics: self.diagnostics,
        }
    }

    pub open spec fn with_strips(self, strips: Seq<StripView>) -> ShowView {
        ShowView {
            meta: self.meta,
            devices: self.devices,
            head_amps: self.head_amps,
            strips,
            inputs: self.inputs,
            outputs: self.outputs,
            scenes: self.scenes,
            diagnostics: self.diagnostics,
        }
    }

    pub open spec fn with_head_amps(self, head_amps: Seq<HeadAmpView>) -> ShowView {
        ShowView {
            meta: self.meta,
            devices: self.devices,
            head_amps,
            strips: self.strips,
            inputs: self.inputs,
            outputs: self.outputs,
            scenes: self.scenes,
            diagnostics: self.diagnostics,
        }
    }

    pub open spec fn with_inputs(self, inputs: Seq<InputPatchView>) -> ShowView {
        ShowView {
            meta: self.meta,
            devices: self.devices,
            head_amps: self.head_amps,
            strips: self.strips,
            inputs,
            outputs: self.outputs,
            scenes: self.scenes,
            diagnostics: self.diagnostics,
        }
    }

    pub open spec fn with_outputs(self, outputs: Seq<OutputPatchView>) -> ShowView {
        ShowView {
            meta: self.meta,
            devices: self.devices,
            head_amps: self.head_amps,
            strips: self.strips,
            inputs: self.inputs,
            outputs,
            scenes: self.scenes,
            diagnostics: self.diagnostics,
        }
    }

    pub open spec fn with_diagnostics(self, diagnostics: Seq<DiagnosticView>) -> ShowView {
        ShowView {
            meta: self.meta,
            devices: self.devices,
            head_amps: self.head_amps,
            strips: self.strips,
            inputs: self.inputs,
            outputs: self.outputs,
            scenes: self.scenes,
            diagnostics,
        }
    }

    pub open spec fn push_diagnostic(self, d: DiagnosticView) -> ShowView {
        self.with_diagnostics(self.diagnostics.push(d))
    }
}

pub open spec fn diagnostic(severity: super::signal::Severity, locus: Seq<char>, message: Seq<char>) -> DiagnosticView {
    DiagnosticView { severity, locus, message }
}

impl Default for Show {
    fn default() -> (r: Show)
        ensures
            r@.meta == (ShowMetaView {
                name: Seq::empty(),
                note: None,
                source_format: Seq::empty(),
                console: Seq::empty(),
                format_version: None,
            }),
            r.devices@.len() == 0,
            r.head_amps@.len() == 0,
            r.strips@.len() == 0,
            r.patch.inputs@.len() == 0,
            r.patch.outputs@.len() == 0,
            r.scenes@.len() == 0,
            r.diagnostics@.len() == 0,
    {
        Show {
            meta: ShowMeta::default(),
            devices: Vec::new(),
            head_amps: Vec::new(),
            strips: Vec::new(),
            patch: Patch { inputs: Vec::new(), outputs: Vec::new() },
            scenes: Vec::new(),
            diagnostics: Vec::new(),
        }
    }
}

impl Keyed for OutputPatch {
    open spec fn key_le(&self, other: &Self) -> bool {
        super::socket_le(self.socket@, other.socket@)
    }

    fn le(&self, other: &Self) -> (r: bool) {
        self.socket.le(&other.socket)
    }
}

impl Keyed for HeadAmp {
    open spec fn key_le(&self, other: &Self) -> bool {
        super::socket_le(self.socket@, other.socket@)
    }

    fn le(&self, other: &Self) -> (r: bool) {
        self.socket.le(&other.socket)
    }
}

impl Show {
    pub(crate) fn push_diagnostic(&mut self, d: Diagnostic)
        ensures
            final(self)@ == old(self)@.push_diagnostic(d@),
    {
        self.diagnostics.push(d);
        proof {
            assert(final(self)@.diagnostics =~= old(self)@.diagnostics.push(d@));
        }
    }

    pub(crate) fn push_strip(&mut self, s: Strip)
        ensures
            final(self)@ == old(self)@.with_strips(old(self)@.strips.push(s@)),
    {
        self.strips.push(s);
        proof {
            assert(final(self)@.strips =~= old(self)@.strips.push(s@));
        }
    }

    pub(crate) fn push_head_amp(&mut self, h: HeadAmp)
        ensures
            final(self)@ == old(self)@.with_head_amps(old(self)@.head_amps.push(h@)),
    {
        self.head_amps.push(h);
        proof {
            assert(final(self)@.head_amps =~= old(self)@.head_amps.push(h@));
        }
    }

    pub(crate) fn push_output(&mut self, o: OutputPatch)
        ensures
            final(self)@ == old(self)@.with_outputs(old(self)@.outputs.push(o@)),
    {
        self.patch.outputs.push(o);
        proof {
            assert(final(self)@.outputs =~= old(self)@.outputs.push(o@));
        }
    }

    pub(crate) fn push_input(&mut self, p: InputPatch)
        ensures
            final(self)@ == old(self)@.with_inputs(old(self)@.inputs.push(p@)),
    {
        self.patch.inputs.push(p);
        proof {
            assert(final(self)@.inputs =~= old(self)@.inputs.push(p@));
        }
    }

    /// Replace the strip at `i`.
    pub(crate) fn set_strip(&mut self, i: usize, s: Strip)
        requires
            i < old(self).strips@.len(),
        ensures
            final(self)@ == old(self)@.with_strips(old(self)@.strips.update(i as int, s@)),
    {
        let _old = self.strips.remove(i);
        self.strips.insert(i, s);
        proof {
            assert(final(self)@.strips =~= old(self)@.strips.update(i as int, s@));
        }
    }
}

/// Each input slot with the strip it reaches: the first strip with the id
/// the slot names, if any.
pub open spec fn joined_inputs<'a>(show: &'a Show) -> Seq<(&'a InputPatch, Option<&'a Strip>)> {
    show.patch.inputs@.map(
        |k: int, p: InputPatch|
            (
                &show.patch.inputs@[k],
                match p.strip {
                    Some(id) => match first_match(show.strips@, |s: Strip| s.id == id) {
                        Some(j) => Some(&show.strips@[j]),
                        None => None,
                    },
                    None => None,
                },
            ),
    )
}

impl<'a> Keyed for (&'a InputPatch, Option<&'a Strip>) {
    open spec fn key_le(&self, other: &Self) -> bool {
        self.0.slot <= other.0.slot
    }

    fn le(&self, other: &Self) -> (r: bool) {
        self.0.slot <= other.0.slot
    }
}

impl Show {
    /// The first strip with this id.
    pub fn strip(&self, id: StripId) -> (r: Option<&Strip>)
        ensures
            match first_match(self.strips@, |s: Strip| s.id == id) {
                Some(i) => r == Some(&self.strips@[i]),
                None => r is None,
            },
    {
        let mut i: usize = 0;
        while i < self.strips.len()
            invariant
                i <= self.strips@.len(),
                forall|j: int| 0 <= j < i ==> self.strips@[j].id != id,
            decreases self.strips@.len() - i,
        {
            if self.strips[i].id == id {
                proof {
                    lemma_first_match_at(self.strips@, |s: Strip| s.id == id, i as int);
                }
                return Some(&self.strips[i]);
            }
            i = i + 1;
        }
        proof {
            lemma_first_match_none(self.strips@, |s: Strip| s.id == id);
        }
        None
    }

    /// The first device with this id.
    pub fn device(&self, id: &str) -> (r: Option<&Device>)
        ensures
            match first_match(self.devices@, |d: Device| d.id@ == id@) {
                Some(i) => r == Some(&self.devices@[i]),
                None => r is None,
            },
    {
        let mut i: usize = 0;
        while i < self.devices.len()
            invariant
                i <= self.devices@.len(),
                forall|j: int| 0 <= j < i ==> self.devices@[j].id@ != id@,
            decreases self.devices@.len() - i,
        {
            if crate::text::eq_str(chars_of(self.devices[i].id.as_str()).as_slice(), id) {
                proof {
                    lemma_first_match_at(self.devices@, |d: Device| d.id@ == id@, i as int);
                }
                return Some(&self.devices[i]);
            }
            i = i + 1;
        }
        proof {
            lemma_first_match_none(self.devices@, |d: Device| d.id@ == id@);
        }
        None
    }

    /// The head amp on this connector.
    pub fn head_amp(&self, socket: &SocketRef) -> (r: Option<&HeadAmp>)
        ensures
            match first_match(self.head_amps@, |h: HeadAmp| h.socket@ == socket@) {
                Some(i) => r == Some(&self.head_amps@[i]),
                None => r is None,
            },
    {
        let mut i: usize = 0;
        while i < self.head_amps.len()
            invariant
                i <= self.head_amps@.len(),
                forall|j: int| 0 <= j < i ==> self.head_amps@[j].socket@ != socket@,
            decreases self.head_amps@.len() - i,
        {
            if self.head_amps[i].socket.same(socket) {
                proof {
                    lemma_first_match_at(self.head_amps@, |h: HeadAmp| h.socket@ == socket@, i as int);
                }
                return Some(&self.head_amps[i]);
            }
            i = i + 1;
        }
        proof {
            lemma_first_match_none(self.head_amps@, |h: HeadAmp| h.socket@ == socket@);
        }
        None
    }

    /// The strips of one kind, in order.
    pub fn strips_of(&self, kind: StripKind) -> (r: Vec<&Strip>)
        ensures
            r@.map_values(|s: &Strip| *s) == self.strips@.filter(|s: Strip| s.id.kind == kind),
    {
        let mut out: Vec<&Strip> = Vec::new();
        let mut i: usize = 0;
        while i < self.strips.len()
            invariant
                i <= self.strips@.len(),
                out@.map_values(|s: &Strip| *s) == self.strips@.take(i as int).filter(
                    |s: Strip| s.id.kind == kind,
                ),
            decreases self.strips@.len() - i,
        {
            proof {
                let t = self.strips@.take(i + 1);
                assert(t.drop_last() =~= self.strips@.take(i as int));
                reveal_with_fuel(Seq::filter, 1);
            }
            if self.strips[i].id.kind == kind {
                out.push(&self.strips[i]);
            }
            proof {
                assert(out@.map_values(|s: &Strip| *s) =~= self.strips@.take(i + 1).filter(
                    |s: Strip| s.id.kind == kind,
                ));
            }
            i = i + 1;
        }
        proof {
            assert(self.strips@.take(i as int) =~= self.strips@);
        }
        out
    }

    /// Input patch rows, each with the strip it reaches, in slot order.
    ///
    /// This is the join the patch-list report is built from, and the reason the
    /// slot indirection is kept in the model rather than resolved at parse time.
    pub fn patched_inputs(&self) -> (r: Vec<(&InputPatch, Option<&Strip>)>)
        ensures
            r@ == sorted_spec(joined_inputs(self)),
    {
        let ghost joined = joined_inputs(self);
        let mut rows: Vec<(&InputPatch, Option<&Strip>)> = Vec::new();
        let mut i: usize = 0;
        while i < self.patch.inputs.len()
            invariant
                i <= self.patch.inputs@.len(),
                joined.len() == self.patch.inputs@.len(),
                joined == joined_inputs(self),
                rows@ == joined.take(i as int),
            decreases self.patch.inputs@.len() - i,
        {
            let p = &self.patch.inputs[i];
            let s = match p.strip {
                Some(id) => self.strip(id),
                None => None,
            };
            rows.push((p, s));
            proof {
                assert(rows@ =~= joined.take(i + 1));
            }
            i = i + 1;
        }
        proof {
            assert(joined.take(i as int) =~= joined);
        }
        stable_sort(rows)
    }
}

} // verus!
