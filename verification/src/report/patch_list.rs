//! What the patch list prints: one row per input slot tracing connector,
//! device, preamp, slot and strip, then one row per output connector.

use vstd::prelude::*;

use crate::model::show::{
    devices_view, display_name_spec, joined_inputs, DeviceView, HeadAmpView, InputPatchView, OutputPatchView,
    ShowView, StripView,
};
use crate::model::signal::{tap_text, SignalView};
use crate::model::{
    Device, Direction, HeadAmp, InputPatch, OutputPatch, Show, SignalRef, SocketRef, Strip,
    Tap, Transport, TransportView,
};
use crate::model::SocketView;
use crate::text::{
    chars_of, dec, eq_chars, first_match, lemma_first_match_at,
    lemma_first_match_none, lemma_first_match_same, lemma_sort_by_multiset, lemma_sort_by_sorted,
    lemma_sorted_map, push_dec, push_str, sort_by, sorted_spec, trim, trim_vec, Keyed,
};

verus! {

pub open spec fn direction_word(dir: Direction) -> Seq<char> {
    match dir {
        Direction::In => "In"@,
        Direction::Out => "Out"@,
    }
}

/// What the connector is physically called on its device: ports on a
/// personal-monitor bus, tracks on a recorder, channels on a card or a
/// network, and inputs or outputs otherwise.
pub open spec fn kind_word(t: TransportView, dir: Direction) -> Seq<char> {
    match t {
        TransportView::Ultranet => "Port"@,
        TransportView::Recorder => "Track"@,
        TransportView::Card(_) | TransportView::Dante | TransportView::Madi => "Ch"@,
        _ => direction_word(dir),
    }
}

pub open spec fn connector_kind_spec(devices: Seq<DeviceView>, socket: SocketView) -> Seq<char> {
    match first_match(devices, |d: DeviceView| d.id == socket.device) {
        Some(i) => kind_word(devices[i].transport, socket.dir),
        None => direction_word(socket.dir),
    }
}

fn dir_word(dir: Direction) -> (r: &'static str)
    ensures
        r@ == direction_word(dir),
{
    match dir {
        Direction::In => "In",
        Direction::Out => "Out",
    }
}

fn kind_of(t: &Transport, dir: Direction) -> (r: &'static str)
    ensures
        r@ == kind_word(t@, dir),
{
    match t {
        Transport::Ultranet => "Port",
        Transport::Recorder => "Track",
        Transport::Card(_) | Transport::Dante | Transport::Madi => "Ch",
        _ => dir_word(dir),
    }
}

/// What the connector is physically called on that device.
pub fn connector_kind(show: &Show, socket: &SocketRef) -> (r: &'static str)
    ensures
        r@ == connector_kind_spec(devices_view(show.devices@), socket@),
{
    let ghost dv = devices_view(show.devices@);
    let ghost p = |d: DeviceView| d.id == socket.device@;
    let want = chars_of(socket.device.as_str());
    let mut i: usize = 0;
    while i < show.devices.len()
        invariant
            i <= show.devices@.len(),
            dv == devices_view(show.devices@),
            p == (|d: DeviceView| d.id == socket.device@),
            want@ == socket.device@,
            forall|j: int| 0 <= j < i ==> !p(#[trigger] dv[j]),
        decreases show.devices@.len() - i,
    {
        let d = &show.devices[i];
        proof {
            assert(dv[i as int] == d@);
        }
        if eq_chars(chars_of(d.id.as_str()).as_slice(), want.as_slice()) {
            proof {
                lemma_first_match_at(dv, p, i as int);
            }
            return kind_of(&d.transport, socket.dir);
        }
        i = i + 1;
    }
    proof {
        lemma_first_match_none(dv, p);
    }
    dir_word(socket.dir)
}

/// A connector as the patch list names it: its kind word and its number.
pub open spec fn connector_label(devices: Seq<DeviceView>, s: SocketView) -> Seq<char> {
    connector_kind_spec(devices, s) + " "@ + dec(s.index as nat)
}

/// A device's label, or its id when the show lists no such device.
pub open spec fn device_label_spec(devices: Seq<DeviceView>, id: Seq<char>) -> Seq<char> {
    match first_match(devices, |d: DeviceView| d.id == id) {
        Some(i) => devices[i].label,
        None => id,
    }
}

/// The head amp on a connector, if the show has one.
pub open spec fn head_amp_at(head_amps: Seq<HeadAmpView>, s: SocketView) -> Option<HeadAmpView> {
    match first_match(head_amps, |h: HeadAmpView| h.socket == s) {
        Some(i) => Some(head_amps[i]),
        None => None,
    }
}

/// One input row of the patch list, as text. The two levels are carried as
/// the show stores them, for the document to print signed with one decimal;
/// a missing gain prints as a dash, a missing fader level as nothing.
pub struct InputRow {
    pub slot: String,
    pub connector: String,
    pub device: String,
    pub gain: Option<String>,
    pub phantom: String,
    pub channel: String,
    pub name: String,
    pub mute: String,
    pub fader: Option<String>,
    pub block: String,
}

#[verifier::ext_equal]
pub struct InputRowView {
    pub slot: Seq<char>,
    pub connector: Seq<char>,
    pub device: Seq<char>,
    pub gain: Option<Seq<char>>,
    pub phantom: Seq<char>,
    pub channel: Seq<char>,
    pub name: Seq<char>,
    pub mute: Seq<char>,
    pub fader: Option<Seq<char>>,
    pub block: Seq<char>,
}

impl View for InputRow {
    type V = InputRowView;

    open spec fn view(&self) -> InputRowView {
        InputRowView {
            slot: self.slot@,
            connector: self.connector@,
            device: self.device@,
            gain: crate::model::show::opt_text(self.gain),
            phantom: self.phantom@,
            channel: self.channel@,
            name: self.name@,
            mute: self.mute@,
            fader: crate::model::show::opt_text(self.fader),
            block: self.block@,
        }
    }
}

/// The row for an input slot and the strip it reaches. A slot fed by no
/// connector reads "unrouted", one reaching no strip "not patched"; neither
/// is left out.
pub open spec fn input_row_spec(sv: ShowView, p: InputPatchView, strip: Option<StripView>) -> InputRowView {
    let ha = match p.socket {
        Some(s) => head_amp_at(sv.head_amps, s),
        None => None,
    };
    InputRowView {
        slot: dec(p.slot as nat),
        connector: match p.socket {
            Some(s) => connector_label(sv.devices, s),
            None => "unrouted"@,
        },
        device: match p.socket {
            Some(s) => device_label_spec(sv.devices, s.device),
            None => "\u{2014}"@,
        },
        gain: match ha {
            Some(h) => h.gain_db,
            None => None,
        },
        phantom: match ha {
            Some(h) => if h.phantom {
                "ON"@
            } else {
                ""@
            },
            None => "\u{2014}"@,
        },
        channel: match strip {
            Some(s) => dec(s.id.index as nat),
            None => "\u{2014}"@,
        },
        name: match strip {
            Some(s) => display_name_spec(s),
            None => "not patched"@,
        },
        mute: match strip {
            Some(s) => if s.muted {
                "MUTE"@
            } else {
                ""@
            },
            None => ""@,
        },
        fader: match strip {
            Some(s) => s.fader_db,
            None => None,
        },
        block: p.block_label,
    }
}

/// What an output connector carries, as the patch list names it: the
/// source's own label, with the strip's name after it where the source is a
/// named strip, and a dash when nothing is patched.
pub open spec fn output_source_spec(sv: ShowView, o: OutputPatchView) -> Seq<char> {
    match o.source {
        SignalView::Off => "\u{2014}"@,
        SignalView::Strip(id) => match first_match(sv.strips, |s: StripView| s.id == id) {
            Some(i) => if trim(sv.strips[i].name).len() == 0 {
                o.source_label
            } else {
                o.source_label + " ("@ + sv.strips[i].name + ")"@
            },
            None => o.source_label,
        },
        _ => o.source_label,
    }
}

/// One output row of the patch list.
pub struct OutputRow {
    pub connector: String,
    pub device: String,
    pub source: String,
    pub tap: String,
}

#[verifier::ext_equal]
pub struct OutputRowView {
    pub connector: Seq<char>,
    pub device: Seq<char>,
    pub source: Seq<char>,
    pub tap: Seq<char>,
}

impl View for OutputRow {
    type V = OutputRowView;

    open spec fn view(&self) -> OutputRowView {
        OutputRowView {
            connector: self.connector@,
            device: self.device@,
            source: self.source@,
            tap: self.tap@,
        }
    }
}

pub open spec fn output_row_spec(sv: ShowView, o: OutputPatchView) -> OutputRowView {
    OutputRowView {
        connector: connector_label(sv.devices, o.socket),
        device: device_label_spec(sv.devices, o.socket.device),
        source: output_source_spec(sv, o),
        tap: if o.tap == Tap::Unknown {
            ""@
        } else {
            tap_text(o.tap)
        },
    }
}

fn connector_text(show: &Show, socket: &SocketRef) -> (r: String)
    ensures
        r@ == connector_label(show@.devices, socket@),
{
    let mut t = String::from_str(connector_kind(show, socket));
    push_str(&mut t, " ");
    push_dec(&mut t, socket.index as u64);
    proof {
        reveal_strlit(" ");
    }
    t
}

/// A device's label for the patch list, or its id when the show lists no
/// such device.
pub fn device_label(show: &Show, id: &str) -> (r: String)
    ensures
        r@ == device_label_spec(show@.devices, id@),
{
    proof {
        let dv = show@.devices;
        assert forall|i: int| 0 <= i < show.devices@.len() implies
            (|d: Device| d.id@ == id@)(show.devices@[i]) == (|d: DeviceView| d.id == id@)(dv[i]) by {
            assert(dv[i] == show.devices@[i]@);
        }
        lemma_first_match_same(show.devices@, |d: Device| d.id@ == id@, dv, |d: DeviceView| d.id == id@);
    }
    match show.device(id) {
        Some(d) => d.label.clone(),
        None => String::from_str(id),
    }
}

fn head_amp_of<'a>(show: &'a Show, socket: &SocketRef) -> (r: Option<&'a HeadAmp>)
    ensures
        match r {
            Some(h) => head_amp_at(show@.head_amps, socket@) == Some(h@),
            None => head_amp_at(show@.head_amps, socket@) is None,
        },
{
    proof {
        let hv = show@.head_amps;
        assert forall|i: int| 0 <= i < show.head_amps@.len() implies
            (|h: HeadAmp| h.socket@ == socket@)(show.head_amps@[i]) == (|h: HeadAmpView| h.socket == socket@)(hv[i]) by {
            assert(hv[i] == show.head_amps@[i]@);
        }
        lemma_first_match_same(show.head_amps@, |h: HeadAmp| h.socket@ == socket@, hv, |h: HeadAmpView| h.socket == socket@);
    }
    show.head_amp(socket)
}

/// The patch list's row for an input slot and the strip it reaches.
pub fn input_row(show: &Show, patch: &InputPatch, strip: Option<&Strip>) -> (r: InputRow)
    ensures
        r@ == input_row_spec(
            show@,
            patch@,
            match strip {
                Some(s) => Some(s@),
                None => None,
            },
        ),
{
    let (connector, device, ha) = match &patch.socket {
        Some(s) => (connector_text(show, s), device_label(show, s.device.as_str()), head_amp_of(show, s)),
        None => (String::from_str("unrouted"), String::from_str("\u{2014}"), None),
    };
    let gain = match ha {
        Some(h) => crate::model::show::clone_opt(&h.gain_db),
        None => None,
    };
    let phantom = match ha {
        Some(h) => if h.phantom {
            String::from_str("ON")
        } else {
            String::new()
        },
        None => String::from_str("\u{2014}"),
    };
    let (channel, name, mute, fader) = match strip {
        Some(s) => {
            let mut c = String::new();
            push_dec(&mut c, s.id.index as u64);
            let m = if s.muted {
                String::from_str("MUTE")
            } else {
                String::new()
            };
            (c, s.display_name(), m, crate::model::show::clone_opt(&s.fader_db))
        },
        None => (String::from_str("\u{2014}"), String::from_str("not patched"), String::new(), None),
    };
    let mut slot = String::new();
    push_dec(&mut slot, patch.slot as u64);
    proof {
        reveal_strlit("");
    }
    let r = InputRow {
        slot,
        connector,
        device,
        gain,
        phantom,
        channel,
        name,
        mute,
        fader,
        block: patch.block_label.clone(),
    };
    let ghost want = input_row_spec(
        show@,
        patch@,
        match strip {
            Some(s) => Some(s@),
            None => None,
        },
    );
    assert(r@ =~= want);
    r
}

/// What an output connector carries, as the patch list names it.
pub fn output_source(show: &Show, out: &OutputPatch) -> (r: String)
    ensures
        r@ == output_source_spec(show@, out@),
{
    match &out.source {
        SignalRef::Off => String::from_str("\u{2014}"),
        SignalRef::Strip(id) => {
            proof {
                let sv = show@.strips;
                let want = *id;
                assert forall|i: int| 0 <= i < show.strips@.len() implies
                    (|s: Strip| s.id == want)(show.strips@[i]) == (|s: StripView| s.id == want)(sv[i]) by {
                    assert(sv[i] == show.strips@[i]@);
                }
                lemma_first_match_same(show.strips@, |s: Strip| s.id == want, sv, |s: StripView| s.id == want);
            }
            match show.strip(*id) {
                Some(s) => {
                    let cs = chars_of(s.name.as_str());
                    let t = trim_vec(cs.as_slice());
                    if t.len() == 0 {
                        out.source_label.clone()
                    } else {
                        let mut r = out.source_label.clone();
                        push_str(&mut r, " (");
                        push_str(&mut r, s.name.as_str());
                        push_str(&mut r, ")");
                        r
                    }
                },
                None => out.source_label.clone(),
            }
        },
        _ => out.source_label.clone(),
    }
}

/// The patch list's row for an output connector.
pub fn output_row(show: &Show, out: &OutputPatch) -> (r: OutputRow)
    ensures
        r@ == output_row_spec(show@, out@),
{
    let tap = if out.tap == Tap::Unknown {
        String::new()
    } else {
        String::from_str(out.tap.as_str())
    };
    proof {
        reveal_strlit("");
    }
    let r = OutputRow {
        connector: connector_text(show, &out.socket),
        device: device_label(show, out.socket.device.as_str()),
        source: output_source(show, out),
        tap,
    };
    assert(r@ =~= output_row_spec(show@, out@));
    r
}

/// Every input slot the show has is listed exactly once, patched or not, and
/// the rows come in slot order (slots sharing a number in the show's order).
/// Together with [`input_row_spec`], this is what keeps a dead slot on the
/// patch list as a row that says so rather than leaving it out.
pub proof fn law_every_slot_is_listed_once_in_slot_order(show: &Show)
    ensures
        ({
            let rows = sorted_spec(joined_inputs(show)).map_values(
                |r: (&InputPatch, Option<&Strip>)| (*r.0)@,
            );
            &&& rows == sort_by(show@.inputs, |a: InputPatchView, b: InputPatchView| a.slot <= b.slot)
            &&& rows.to_multiset() == show@.inputs.to_multiset()
            &&& forall|i: int, j: int| 0 <= i < j < rows.len() ==> #[trigger] rows[i].slot <= #[trigger] rows[j].slot
        }),
{
    let f = |r: (&InputPatch, Option<&Strip>)| (*r.0)@;
    let le = |a: InputPatchView, b: InputPatchView| a.slot <= b.slot;
    let joined = joined_inputs(show);
    assert forall|x: (&InputPatch, Option<&Strip>), y: (&InputPatch, Option<&Strip>)|
        #[trigger] x.key_le(&y) == le(f(x), f(y)) by {
    }
    lemma_sorted_map(joined, f, le);
    assert(joined.map_values(f) =~= show@.inputs);
    lemma_sort_by_multiset(show@.inputs, le);
    lemma_sort_by_sorted(show@.inputs, le);
    let rows = sorted_spec(joined).map_values(f);
    assert forall|i: int, j: int| 0 <= i < j < rows.len() implies #[trigger] rows[i].slot <= #[trigger] rows[j].slot by {
        assert(le(sort_by(show@.inputs, le)[i], sort_by(show@.inputs, le)[j]));
    }
}

} // verus!
