//! What the specification sheet counts: the strips by kind, the I/O devices
//! a show uses, and the patch in numbers.

use vstd::prelude::*;

use crate::model::show::{DeviceView, HeadAmpView, InputPatchView, OutputPatchView, ShowView, StripView};
use crate::model::{transport_text, Severity, Show, StripKind};
use crate::text::{chars_of, trim, trim_vec};
use crate::web::{counts, reaching_count, routed_count};

verus! {

// ---------------------------------------------------------------------------
// Strip inventory
// ---------------------------------------------------------------------------

/// The strip kinds the inventory lists, each with its heading, in order.
pub open spec fn inventory_kinds() -> Seq<(Seq<char>, StripKind)> {
    seq![
        ("Input channels"@, StripKind::Input),
        ("Aux inputs"@, StripKind::AuxIn),
        ("FX returns"@, StripKind::FxReturn),
        ("Mix buses"@, StripKind::Bus),
        ("Matrices"@, StripKind::Matrix),
        ("DCA groups"@, StripKind::Dca),
    ]
}

/// How many strips of a kind the show has.
pub open spec fn kind_count(strips: Seq<StripView>, kind: StripKind) -> nat {
    strips.filter(|s: StripView| s.id.kind == kind).len()
}

/// How many of them carry a name.
pub open spec fn named_count(strips: Seq<StripView>, kind: StripKind) -> nat {
    strips.filter(|s: StripView| s.id.kind == kind && trim(s.name).len() > 0).len()
}

/// One line of the strip inventory.
pub struct InventoryRow {
    pub label: String,
    pub present: usize,
    pub named: usize,
}

pub struct InventoryRowView {
    pub label: Seq<char>,
    pub present: nat,
    pub named: nat,
}

impl View for InventoryRow {
    type V = InventoryRowView;

    open spec fn view(&self) -> InventoryRowView {
        InventoryRowView { label: self.label@, present: self.present as nat, named: self.named as nat }
    }
}

pub open spec fn inventory_row_spec(strips: Seq<StripView>, e: (Seq<char>, StripKind)) -> InventoryRowView {
    InventoryRowView { label: e.0, present: kind_count(strips, e.1), named: named_count(strips, e.1) }
}

/// The inventory: a line per listed kind the show has any strips of.
pub open spec fn inventory_spec(sv: ShowView) -> Seq<InventoryRowView> {
    inventory_kinds().filter(|e: (Seq<char>, StripKind)| kind_count(sv.strips, e.1) > 0).map_values(
        |e: (Seq<char>, StripKind)| inventory_row_spec(sv.strips, e),
    )
}

pub open spec fn inventory_rows_view(v: Seq<InventoryRow>) -> Seq<InventoryRowView> {
    v.map_values(|r: InventoryRow| r@)
}

/// How many strips of `kind` the show has, and how many of those are named.
fn count_kind(show: &Show, kind: StripKind) -> (r: (usize, usize))
    ensures
        r.0 == kind_count(show@.strips, kind),
        r.1 == named_count(show@.strips, kind),
{
    let ghost sv = show@.strips;
    let ghost p = |s: StripView| s.id.kind == kind;
    let ghost q = |s: StripView| s.id.kind == kind && trim(s.name).len() > 0;
    let mut present: usize = 0;
    let mut named: usize = 0;
    let mut i: usize = 0;
    while i < show.strips.len()
        invariant
            i <= show.strips@.len(),
            sv == show@.strips,
            p == (|s: StripView| s.id.kind == kind),
            q == (|s: StripView| s.id.kind == kind && trim(s.name).len() > 0),
            present == sv.take(i as int).filter(p).len(),
            named == sv.take(i as int).filter(q).len(),
            present <= i,
            named <= i,
        decreases show.strips@.len() - i,
    {
        proof {
            assert(sv.take(i + 1).drop_last() =~= sv.take(i as int));
            assert(sv[i as int] == show.strips@[i as int]@);
            reveal_with_fuel(Seq::filter, 1);
        }
        let s = &show.strips[i];
        if s.id.kind == kind {
            present = present + 1;
            let cs = chars_of(s.name.as_str());
            let t = trim_vec(cs.as_slice());
            if t.len() > 0 {
                named = named + 1;
            }
        }
        i = i + 1;
    }
    proof {
        assert(sv.take(i as int) =~= sv);
    }
    (present, named)
}

/// The strip inventory of the specification sheet: for each listed kind the
/// show has strips of, how many there are and how many are named.
pub fn strip_inventory(show: &Show) -> (r: Vec<InventoryRow>)
    ensures
        inventory_rows_view(r@) == inventory_spec(show@),
{
    let kinds: [(&str, StripKind); 6] = [
        ("Input channels", StripKind::Input),
        ("Aux inputs", StripKind::AuxIn),
        ("FX returns", StripKind::FxReturn),
        ("Mix buses", StripKind::Bus),
        ("Matrices", StripKind::Matrix),
        ("DCA groups", StripKind::Dca),
    ];
    let ghost ks = inventory_kinds();
    let ghost p = |e: (Seq<char>, StripKind)| kind_count(show@.strips, e.1) > 0;
    let ghost f = |e: (Seq<char>, StripKind)| inventory_row_spec(show@.strips, e);
    proof {
        reveal_strlit("Input channels");
        reveal_strlit("Aux inputs");
        reveal_strlit("FX returns");
        reveal_strlit("Mix buses");
        reveal_strlit("Matrices");
        reveal_strlit("DCA groups");
        assert forall|j: int| 0 <= j < 6 implies (#[trigger] kinds@[j]).0@ == ks[j].0 && kinds@[j].1 == ks[j].1 by {
        }
    }
    let mut rows: Vec<InventoryRow> = Vec::new();
    let mut i: usize = 0;
    while i < 6
        invariant
            i <= 6,
            ks == inventory_kinds(),
            ks.len() == 6,
            forall|j: int| 0 <= j < 6 ==> (#[trigger] kinds@[j]).0@ == ks[j].0 && kinds@[j].1 == ks[j].1,
            p == (|e: (Seq<char>, StripKind)| kind_count(show@.strips, e.1) > 0),
            f == (|e: (Seq<char>, StripKind)| inventory_row_spec(show@.strips, e)),
            inventory_rows_view(rows@) == ks.take(i as int).filter(p).map_values(f),
        decreases 6 - i,
    {
        proof {
            assert(ks.take(i + 1).drop_last() =~= ks.take(i as int));
            reveal_with_fuel(Seq::filter, 1);
        }
        let (label, kind) = kinds[i];
        let (present, named) = count_kind(show, kind);
        let ghost before = rows@;
        let ghost prev = ks.take(i as int).filter(p);
        proof {
            assert(ks.take(i + 1).last() == ks[i as int]);
        }
        if present > 0 {
            let row = InventoryRow { label: String::from_str(label), present, named };
            proof {
                assert(row@ == f(ks[i as int]));
                assert(ks.take(i + 1).filter(p) == prev.push(ks[i as int]));
                assert(prev.push(ks[i as int]).map_values(f) =~= prev.map_values(f).push(f(ks[i as int])));
            }
            rows.push(row);
            proof {
                assert(inventory_rows_view(rows@) =~= inventory_rows_view(before).push(row@));
            }
        } else {
            proof {
                assert(ks.take(i + 1).filter(p) == prev);
            }
        }
        i = i + 1;
    }
    proof {
        assert(ks.take(6) =~= ks);
    }
    rows
}

/// Each inventory line counts exactly the strips of the kind its heading names:
/// "Input channels" the input strips, "Aux inputs" the aux-input strips, "FX returns"
/// the effects-return strips, "Mix buses" the buses, "Matrices" the matrices and
/// "DCA groups" the DCAs.
pub proof fn law_each_heading_counts_its_own_kind(sv: ShowView, i: int)
    requires
        0 <= i < inventory_spec(sv).len(),
    ensures
        inventory_spec(sv)[i].label == "Input channels"@ ==> inventory_spec(sv)[i].present
            == sv.strips.filter(|s: StripView| s.id.kind == StripKind::Input).len(),
        inventory_spec(sv)[i].label == "Aux inputs"@ ==> inventory_spec(sv)[i].present
            == sv.strips.filter(|s: StripView| s.id.kind == StripKind::AuxIn).len(),
        inventory_spec(sv)[i].label == "FX returns"@ ==> inventory_spec(sv)[i].present
            == sv.strips.filter(|s: StripView| s.id.kind == StripKind::FxReturn).len(),
        inventory_spec(sv)[i].label == "Mix buses"@ ==> inventory_spec(sv)[i].present
            == sv.strips.filter(|s: StripView| s.id.kind == StripKind::Bus).len(),
        inventory_spec(sv)[i].label == "Matrices"@ ==> inventory_spec(sv)[i].present
            == sv.strips.filter(|s: StripView| s.id.kind == StripKind::Matrix).len(),
        inventory_spec(sv)[i].label == "DCA groups"@ ==> inventory_spec(sv)[i].present
            == sv.strips.filter(|s: StripView| s.id.kind == StripKind::Dca).len(),
{
    reveal_strlit("Input channels");
    reveal_strlit("Aux inputs");
    reveal_strlit("FX returns");
    reveal_strlit("Mix buses");
    reveal_strlit("Matrices");
    reveal_strlit("DCA groups");
    let ks = inventory_kinds();
    let p = |e: (Seq<char>, StripKind)| kind_count(sv.strips, e.1) > 0;
    let f = |e: (Seq<char>, StripKind)| inventory_row_spec(sv.strips, e);
    let fl = ks.filter(p);
    assert(inventory_spec(sv) == fl.map_values(f));
    let e = fl[i];
    assert(fl.contains(e));
    ks.lemma_filter_contains_rev(p, e);
    let k = choose|k: int| 0 <= k < ks.len() && ks[k] == e;
    assert(0 <= k < 6);
    assert(inventory_spec(sv)[i] == inventory_row_spec(sv.strips, e));
    assert(e.0.len() == 14 || e.0.len() == 10 || e.0.len() == 9 || e.0.len() == 8);
    assert("Aux inputs"@[0] != "FX returns"@[0] && "Aux inputs"@[0] != "DCA groups"@[0]
        && "FX returns"@[0] != "DCA groups"@[0]);
    if k == 0 {
        assert((|s: StripView| s.id.kind == e.1) =~= (|s: StripView| s.id.kind == StripKind::Input));
    } else if k == 1 {
        assert((|s: StripView| s.id.kind == e.1) =~= (|s: StripView| s.id.kind == StripKind::AuxIn));
    } else if k == 2 {
        assert((|s: StripView| s.id.kind == e.1) =~= (|s: StripView| s.id.kind == StripKind::FxReturn));
    } else if k == 3 {
        assert((|s: StripView| s.id.kind == e.1) =~= (|s: StripView| s.id.kind == StripKind::Bus));
    } else if k == 4 {
        assert((|s: StripView| s.id.kind == e.1) =~= (|s: StripView| s.id.kind == StripKind::Matrix));
    } else {
        assert((|s: StripView| s.id.kind == e.1) =~= (|s: StripView| s.id.kind == StripKind::Dca));
    }
}

// ---------------------------------------------------------------------------
// I/O devices
// ---------------------------------------------------------------------------

/// Input slots fed from a connector on this device.
pub open spec fn patched_in(inputs: Seq<InputPatchView>, id: Seq<char>) -> nat {
    inputs.filter(
        |p: InputPatchView|
            match p.socket {
                Some(s) => s.device == id,
                None => false,
            },
    ).len()
}

/// Output assignments to a connector on this device.
pub open spec fn patched_out(outputs: Seq<OutputPatchView>, id: Seq<char>) -> nat {
    outputs.filter(|o: OutputPatchView| o.socket.device == id).len()
}

/// One line of the device table.
pub struct DeviceRow {
    pub label: String,
    pub transport: String,
    pub inputs: u16,
    pub outputs: u16,
    pub patched_in: usize,
}

pub struct DeviceRowView {
    pub label: Seq<char>,
    pub transport: Seq<char>,
    pub inputs: u16,
    pub outputs: u16,
    pub patched_in: nat,
}

impl View for DeviceRow {
    type V = DeviceRowView;

    open spec fn view(&self) -> DeviceRowView {
        DeviceRowView {
            label: self.label@,
            transport: self.transport@,
            inputs: self.inputs,
            outputs: self.outputs,
            patched_in: self.patched_in as nat,
        }
    }
}

pub open spec fn device_in_use(sv: ShowView, d: DeviceView) -> bool {
    patched_in(sv.inputs, d.id) > 0 || patched_out(sv.outputs, d.id) > 0
}

pub open spec fn device_row_spec(sv: ShowView, d: DeviceView) -> DeviceRowView {
    DeviceRowView {
        label: d.label,
        transport: transport_text(d.transport),
        inputs: d.inputs,
        outputs: d.outputs,
        patched_in: patched_in(sv.inputs, d.id),
    }
}

/// The device table: the devices, in the show's order, that anything is
/// patched from or to.
pub open spec fn device_rows_spec(sv: ShowView) -> Seq<DeviceRowView> {
    sv.devices.filter(|d: DeviceView| device_in_use(sv, d)).map_values(
        |d: DeviceView| device_row_spec(sv, d),
    )
}

pub open spec fn device_rows_view(v: Seq<DeviceRow>) -> Seq<DeviceRowView> {
    v.map_values(|r: DeviceRow| r@)
}

/// How much of the patch uses the device `id`: input slots, then outputs.
fn device_use(show: &Show, id: &str) -> (r: (usize, usize))
    ensures
        r.0 == patched_in(show@.inputs, id@),
        r.1 == patched_out(show@.outputs, id@),
{
    let ghost ins = show@.inputs;
    let ghost outs = show@.outputs;
    let ghost p = |p: InputPatchView|
        match p.socket {
            Some(s) => s.device == id@,
            None => false,
        };
    let ghost q = |o: OutputPatchView| o.socket.device == id@;
    let want = chars_of(id);
    let mut n_in: usize = 0;
    let mut i: usize = 0;
    while i < show.patch.inputs.len()
        invariant
            i <= show.patch.inputs@.len(),
            ins == show@.inputs,
            want@ == id@,
            p == (|p: InputPatchView|
                match p.socket {
                    Some(s) => s.device == id@,
                    None => false,
                }),
            n_in == ins.take(i as int).filter(p).len(),
            n_in <= i,
        decreases show.patch.inputs@.len() - i,
    {
        proof {
            assert(ins.take(i + 1).drop_last() =~= ins.take(i as int));
            assert(ins[i as int] == show.patch.inputs@[i as int]@);
            reveal_with_fuel(Seq::filter, 1);
        }
        match &show.patch.inputs[i].socket {
            Some(s) => {
                if crate::text::eq_chars(chars_of(s.device.as_str()).as_slice(), want.as_slice()) {
                    n_in = n_in + 1;
                }
            },
            None => {},
        }
        i = i + 1;
    }
    let mut n_out: usize = 0;
    let mut k: usize = 0;
    while k < show.patch.outputs.len()
        invariant
            k <= show.patch.outputs@.len(),
            outs == show@.outputs,
            want@ == id@,
            q == (|o: OutputPatchView| o.socket.device == id@),
            n_out == outs.take(k as int).filter(q).len(),
            n_out <= k,
        decreases show.patch.outputs@.len() - k,
    {
        proof {
            assert(outs.take(k + 1).drop_last() =~= outs.take(k as int));
            assert(outs[k as int] == show.patch.outputs@[k as int]@);
            reveal_with_fuel(Seq::filter, 1);
        }
        if crate::text::eq_chars(
            chars_of(show.patch.outputs[k].socket.device.as_str()).as_slice(),
            want.as_slice(),
        ) {
            n_out = n_out + 1;
        }
        k = k + 1;
    }
    proof {
        assert(ins.take(i as int) =~= ins);
        assert(outs.take(k as int) =~= outs);
    }
    (n_in, n_out)
}

/// The device table of the specification sheet: each device something is
/// patched from or to, with how many input slots it feeds.
pub fn device_rows(show: &Show) -> (r: Vec<DeviceRow>)
    ensures
        device_rows_view(r@) == device_rows_spec(show@),
{
    let ghost sv = show@;
    let ghost ds = show@.devices;
    let ghost p = |d: DeviceView| device_in_use(sv, d);
    let ghost f = |d: DeviceView| device_row_spec(sv, d);
    let mut rows: Vec<DeviceRow> = Vec::new();
    let mut i: usize = 0;
    while i < show.devices.len()
        invariant
            i <= show.devices@.len(),
            sv == show@,
            ds == show@.devices,
            p == (|d: DeviceView| device_in_use(sv, d)),
            f == (|d: DeviceView| device_row_spec(sv, d)),
            device_rows_view(rows@) == ds.take(i as int).filter(p).map_values(f),
        decreases show.devices@.len() - i,
    {
        proof {
            assert(ds.take(i + 1).drop_last() =~= ds.take(i as int));
            assert(ds[i as int] == show.devices@[i as int]@);
            reveal_with_fuel(Seq::filter, 1);
        }
        let d = &show.devices[i];
        let (n_in, n_out) = device_use(show, d.id.as_str());
        let ghost before = rows@;
        let ghost prev = ds.take(i as int).filter(p);
        proof {
            assert(ds.take(i + 1).last() == ds[i as int]);
        }
        if n_in > 0 || n_out > 0 {
            let row = DeviceRow {
                label: d.label.clone(),
                transport: d.transport.as_str(),
                inputs: d.inputs,
                outputs: d.outputs,
                patched_in: n_in,
            };
            proof {
                assert(row@ == f(ds[i as int]));
                assert(ds.take(i + 1).filter(p) == prev.push(ds[i as int]));
                assert(prev.push(ds[i as int]).map_values(f) =~= prev.map_values(f).push(f(ds[i as int])));
            }
            rows.push(row);
            proof {
                assert(device_rows_view(rows@) =~= device_rows_view(before).push(row@));
            }
        } else {
            proof {
                assert(ds.take(i + 1).filter(p) == prev);
            }
        }
        i = i + 1;
    }
    proof {
        assert(ds.take(i as int) =~= ds);
    }
    rows
}

// ---------------------------------------------------------------------------
// Patch summary and fidelity
// ---------------------------------------------------------------------------

/// Preamps with phantom power on.
pub open spec fn phantom_count(head_amps: Seq<HeadAmpView>) -> nat {
    head_amps.filter(|h: HeadAmpView| h.phantom).len()
}

/// How many head amps have phantom power on.
fn phantom_on(show: &Show) -> (r: usize)
    ensures
        r == phantom_count(show@.head_amps),
{
    let ghost hs = show@.head_amps;
    let mut n: usize = 0;
    let mut i: usize = 0;
    while i < show.head_amps.len()
        invariant
            i <= show.head_amps@.len(),
            hs == show@.head_amps,
            n == hs.take(i as int).filter(|h: HeadAmpView| h.phantom).len(),
            n <= i,
        decreases show.head_amps@.len() - i,
    {
        proof {
            assert(hs.take(i + 1).drop_last() =~= hs.take(i as int));
            assert(hs[i as int] == show.head_amps@[i as int]@);
            reveal_with_fuel(Seq::filter, 1);
        }
        if show.head_amps[i].phantom {
            n = n + 1;
        }
        i = i + 1;
    }
    proof {
        assert(hs.take(i as int) =~= hs);
    }
    n
}

/// The patch in numbers, as the specification sheet lists it.
pub struct PatchSummary {
    pub slots: usize,
    pub routed: usize,
    pub reaching: usize,
    pub outputs: usize,
    pub phantom: usize,
}

/// Input slots, those fed by a connector, those reaching a channel, output
/// assignments, and preamps with phantom power on.
pub fn patch_summary(show: &Show) -> (r: PatchSummary)
    ensures
        r.slots == show@.inputs.len(),
        r.routed == routed_count(show@.inputs),
        r.reaching == reaching_count(show@.inputs),
        r.outputs == show@.outputs.len(),
        r.phantom == phantom_count(show@.head_amps),
{
    let (routed, reaching) = counts(show);
    PatchSummary {
        slots: show.patch.inputs.len(),
        routed,
        reaching,
        outputs: show.patch.outputs.len(),
        phantom: phantom_on(show),
    }
}

/// The tag a diagnostic is listed under in the fidelity section.
pub open spec fn fidelity_tag_spec(s: Severity) -> Seq<char> {
    match s {
        Severity::Unmodelled => "UNMODELLED"@,
        Severity::Suspect => "SUSPECT"@,
        Severity::Unknown => "UNKNOWN"@,
    }
}

/// The tag a diagnostic is listed under in the fidelity section: its
/// severity, in capitals.
pub fn fidelity_tag(s: Severity) -> (r: &'static str)
    ensures
        r@ == fidelity_tag_spec(s),
{
    match s {
        Severity::Unmodelled => "UNMODELLED",
        Severity::Suspect => "SUSPECT",
        Severity::Unknown => "UNKNOWN",
    }
}

} // verus!
