//! Console capability profiles.
//!
//! A [`ConsoleProfile`] describes what a desk can do, independent of any
//! particular show, so that conforming a show from one console to another is a
//! data problem: the conform pass reads the source show and the target
//! profile, and reports what does not fit.

use vstd::prelude::*;

use crate::model::{StripKind, Transport, TransportView};
use crate::text::{chars_of, eq_str, first_match, lemma_first_match_at, lemma_first_match_none};

verus! {

/// A physical I/O box or card a console can have attached.
#[derive(Debug, Clone, PartialEq)]
pub struct DeviceSpec {
    pub id: String,
    pub label: String,
    pub transport: Transport,
    pub inputs: u16,
    pub outputs: u16,
    /// Whether the preamps on this device are remotely controllable.
    pub remote_gain: bool,
}

pub struct DeviceSpecView {
    pub id: Seq<char>,
    pub label: Seq<char>,
    pub transport: TransportView,
    pub inputs: u16,
    pub outputs: u16,
    pub remote_gain: bool,
}

impl View for DeviceSpec {
    type V = DeviceSpecView;

    open spec fn view(&self) -> DeviceSpecView {
        DeviceSpecView {
            id: self.id@,
            label: self.label@,
            transport: self.transport@,
            inputs: self.inputs,
            outputs: self.outputs,
            remote_gain: self.remote_gain,
        }
    }
}

/// What a console offers.
#[derive(Debug, Clone, PartialEq)]
pub struct ConsoleProfile {
    /// Slug matching the adapter id where one exists, e.g. `x32`.
    pub id: String,
    pub vendor: String,
    pub model: String,
    pub input_channels: u16,
    pub aux_ins: u16,
    pub fx_returns: u16,
    pub buses: u16,
    pub matrices: u16,
    pub mains: u16,
    pub dcas: u16,
    pub mute_groups: u16,
    /// Parametric EQ bands on an input channel.
    pub eq_bands_input: u8,
    /// Parametric EQ bands on a bus/matrix.
    pub eq_bands_bus: u8,
    pub has_gate: bool,
    pub has_compressor: bool,
    /// Total remotely-controllable preamps.
    pub head_amps: u16,
    pub devices: Vec<DeviceSpec>,
}

pub struct ConsoleProfileView {
    pub id: Seq<char>,
    pub vendor: Seq<char>,
    pub model: Seq<char>,
    pub input_channels: u16,
    pub aux_ins: u16,
    pub fx_returns: u16,
    pub buses: u16,
    pub matrices: u16,
    pub mains: u16,
    pub dcas: u16,
    pub mute_groups: u16,
    pub eq_bands_input: u8,
    pub eq_bands_bus: u8,
    pub has_gate: bool,
    pub has_compressor: bool,
    pub head_amps: u16,
    pub devices: Seq<DeviceSpecView>,
}

impl View for ConsoleProfile {
    type V = ConsoleProfileView;

    open spec fn view(&self) -> ConsoleProfileView {
        ConsoleProfileView {
            id: self.id@,
            vendor: self.vendor@,
            model: self.model@,
            input_channels: self.input_channels,
            aux_ins: self.aux_ins,
            fx_returns: self.fx_returns,
            buses: self.buses,
            matrices: self.matrices,
            mains: self.mains,
            dcas: self.dcas,
            mute_groups: self.mute_groups,
            eq_bands_input: self.eq_bands_input,
            eq_bands_bus: self.eq_bands_bus,
            has_gate: self.has_gate,
            has_compressor: self.has_compressor,
            head_amps: self.head_amps,
            devices: self.devices@.map_values(|d: DeviceSpec| d@),
        }
    }
}

/// Highest strip number a profile offers for a kind of strip.
pub open spec fn capacity_spec(p: ConsoleProfileView, kind: StripKind) -> u16 {
    match kind {
        StripKind::Input => p.input_channels,
        StripKind::AuxIn => p.aux_ins,
        StripKind::FxReturn => p.fx_returns,
        StripKind::Bus => p.buses,
        StripKind::Matrix => p.matrices,
        StripKind::Main => p.mains,
        StripKind::Mono => 1,
        StripKind::Dca => p.dcas,
        StripKind::MuteGroup => p.mute_groups,
    }
}

impl ConsoleProfile {
    /// Highest strip number available for a given kind.
    pub fn capacity(&self, kind: StripKind) -> (r: u16)
        ensures
            r == capacity_spec(self@, kind),
    {
        match kind {
            StripKind::Input => self.input_channels,
            StripKind::AuxIn => self.aux_ins,
            StripKind::FxReturn => self.fx_returns,
            StripKind::Bus => self.buses,
            StripKind::Matrix => self.matrices,
            StripKind::Main => self.mains,
            StripKind::Mono => 1,
            StripKind::Dca => self.dcas,
            StripKind::MuteGroup => self.mute_groups,
        }
    }
}

pub open spec fn device_spec(
    id: Seq<char>,
    label: Seq<char>,
    transport: TransportView,
    inputs: u16,
    outputs: u16,
    remote_gain: bool,
) -> DeviceSpecView {
    DeviceSpecView { id, label, transport, inputs, outputs, remote_gain }
}

/// The Behringer X32 / Midas M32, from the published specifications.
pub open spec fn x32_spec() -> ConsoleProfileView {
    ConsoleProfileView {
        id: "x32"@,
        vendor: "Behringer"@,
        model: "X32"@,
        input_channels: 32,
        aux_ins: 8,
        fx_returns: 8,
        buses: 16,
        matrices: 6,
        mains: 1,
        dcas: 8,
        mute_groups: 6,
        eq_bands_input: 4,
        eq_bands_bus: 6,
        has_gate: true,
        has_compressor: true,
        head_amps: 128,
        devices: seq![
            device_spec("local"@, "Console local I/O"@, TransportView::Local, 32, 16, true),
            device_spec("aes50a"@, "AES50 A"@, TransportView::Aes50A, 48, 48, true),
            device_spec("aes50b"@, "AES50 B"@, TransportView::Aes50B, 48, 48, true),
            device_spec("card"@, "Expansion card"@, TransportView::Card("X-UF"@), 32, 32, false),
        ],
    }
}

fn device(
    id: &str,
    label: &str,
    transport: Transport,
    inputs: u16,
    outputs: u16,
    remote_gain: bool,
) -> (r: DeviceSpec)
    ensures
        r@ == device_spec(id@, label@, transport@, inputs, outputs, remote_gain),
{
    DeviceSpec {
        id: String::from_str(id),
        label: String::from_str(label),
        transport,
        inputs,
        outputs,
        remote_gain,
    }
}

/// The Behringer X32 / Midas M32 full-size console.
pub fn x32() -> (r: ConsoleProfile)
    ensures
        r@ == x32_spec(),
{
    let mut devices: Vec<DeviceSpec> = Vec::new();
    devices.push(device("local", "Console local I/O", Transport::Local, 32, 16, true));
    devices.push(device("aes50a", "AES50 A", Transport::Aes50A, 48, 48, true));
    devices.push(device("aes50b", "AES50 B", Transport::Aes50B, 48, 48, true));
    devices.push(
        device("card", "Expansion card", Transport::Card(String::from_str("X-UF")), 32, 32, false),
    );
    let r = ConsoleProfile {
        id: String::from_str("x32"),
        vendor: String::from_str("Behringer"),
        model: String::from_str("X32"),
        input_channels: 32,
        aux_ins: 8,
        fx_returns: 8,
        buses: 16,
        matrices: 6,
        mains: 1,
        dcas: 8,
        mute_groups: 6,
        eq_bands_input: 4,
        eq_bands_bus: 6,
        has_gate: true,
        has_compressor: true,
        head_amps: 128,
        devices,
    };
    proof {
        assert(r@.devices =~= x32_spec().devices);
    }
    r
}

pub open spec fn profiles_view(v: Seq<ConsoleProfile>) -> Seq<ConsoleProfileView> {
    v.map_values(|p: ConsoleProfile| p@)
}

/// Every profile known.
pub open spec fn all_spec() -> Seq<ConsoleProfileView> {
    seq![x32_spec()]
}

/// Every profile PatchFerret currently knows.
pub fn all() -> (r: Vec<ConsoleProfile>)
    ensures
        profiles_view(r@) == all_spec(),
{
    let mut v: Vec<ConsoleProfile> = Vec::new();
    v.push(x32());
    proof {
        assert(profiles_view(v@) =~= all_spec());
    }
    v
}

/// The first known profile with the id.
pub open spec fn by_id_spec(id: Seq<char>) -> Option<ConsoleProfileView> {
    match first_match(all_spec(), |p: ConsoleProfileView| p.id == id) {
        Some(i) => Some(all_spec()[i]),
        None => None,
    }
}

/// Look a profile up by id.
pub fn by_id(id: &str) -> (r: Option<ConsoleProfile>)
    ensures
        match r {
            Some(p) => by_id_spec(id@) == Some(p@),
            None => by_id_spec(id@) is None,
        },
{
    let mut v = all();
    let ghost ps = profiles_view(v@);
    let ghost pred = |p: ConsoleProfileView| p.id == id@;
    let mut i: usize = 0;
    while i < v.len()
        invariant
            i <= v@.len(),
            ps == profiles_view(v@),
            ps == all_spec(),
            pred == (|p: ConsoleProfileView| p.id == id@),
            forall|j: int| 0 <= j < i ==> !pred(#[trigger] ps[j]),
        decreases v@.len() - i,
    {
        let k = chars_of(v[i].id.as_str());
        if eq_str(k.as_slice(), id) {
            proof {
                assert(ps[i as int] == v@[i as int]@);
                lemma_first_match_at(ps, pred, i as int);
            }
            let p = v.remove(i);
            return Some(p);
        }
        proof {
            assert(ps[i as int] == v@[i as int]@);
        }
        i = i + 1;
    }
    proof {
        lemma_first_match_none(ps, pred);
    }
    None
}

} // verus!
