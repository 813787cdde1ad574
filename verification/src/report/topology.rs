//! What the wiring topology diagram says about each device: how many of its
//! connectors the show uses, and which, as compact ranges ("1-24, 33").

use vstd::prelude::*;

use crate::lex::{join_spec, push_joined, string_views};
use crate::model::show::{DeviceView, InputPatchView, OutputPatchView, ShowView};
use crate::model::signal::SignalView;
use crate::model::{transport_text, Show, SignalRef};
use crate::text::{chars_of, dec, eq_chars, push_dec, push_str, sort_by, Keyed};

verus! {

/// The values below `n` that occur in `idx`, in increasing order.
pub open spec fn present_below(idx: Seq<u16>, n: nat) -> Seq<u16>
    decreases n,
{
    if n == 0 {
        Seq::empty()
    } else {
        let v = (n - 1) as u16;
        let prev = present_below(idx, (n - 1) as nat);
        if idx.contains(v) {
            prev.push(v)
        } else {
            prev
        }
    }
}

/// The connector indices sorted, each once.
pub open spec fn sorted_distinct(idx: Seq<u16>) -> Seq<u16> {
    present_below(idx, 0x10000)
}

/// Maximal runs of consecutive values among the first `n` of `sd`, as
/// (first, last) pairs.
pub open spec fn runs_upto(sd: Seq<u16>, n: nat) -> Seq<(u16, u16)>
    decreases n,
{
    if n == 0 || n > sd.len() {
        Seq::empty()
    } else {
        let r = runs_upto(sd, (n - 1) as nat);
        let x = sd[n - 1];
        if r.len() > 0 && x == r.last().1 + 1 {
            r.update(r.len() - 1, (r.last().0, x))
        } else {
            r.push((x, x))
        }
    }
}

pub open spec fn run_text(r: (u16, u16)) -> Seq<char> {
    if r.0 == r.1 {
        dec(r.0 as nat)
    } else {
        dec(r.0 as nat) + "-"@ + dec(r.1 as nat)
    }
}

/// The runs of a set of connector indices, each as text.
pub open spec fn run_texts(idx: Seq<u16>) -> Seq<Seq<char>> {
    let sd = sorted_distinct(idx);
    runs_upto(sd, sd.len()).map_values(|r: (u16, u16)| run_text(r))
}

/// The label: every run, or the first two and a count of the rest when
/// there are more than three.
pub open spec fn ranges_spec(idx: Seq<u16>) -> Seq<char> {
    let parts = run_texts(idx);
    if parts.len() > 3 {
        join_spec(parts.take(2), ", "@) + ", +"@ + dec((parts.len() - 2) as nat) + " more"@
    } else {
        join_spec(parts, ", "@)
    }
}

/// The indices sorted, duplicates dropped.
pub fn sorted_distinct_exec(idx: &Vec<u16>) -> (r: Vec<u16>)
    ensures
        r@ == sorted_distinct(idx@),
{
    let mut seen: Vec<bool> = Vec::new();
    let mut k: usize = 0;
    while k < 0x10000
        invariant
            k <= 0x10000,
            seen@.len() == k,
            forall|j: int| 0 <= j < k ==> !(#[trigger] seen@[j]),
        decreases 0x10000 - k,
    {
        seen.push(false);
        k = k + 1;
    }
    let mut i: usize = 0;
    while i < idx.len()
        invariant
            i <= idx@.len(),
            seen@.len() == 0x10000,
            forall|j: int| 0 <= j < 0x10000 ==> #[trigger] seen@[j] == idx@.take(i as int).contains(j as u16),
        decreases idx@.len() - i,
    {
        let v = idx[i];
        seen.set(v as usize, true);
        proof {
            let t = idx@.take(i + 1);
            assert(t =~= idx@.take(i as int).push(v));
            assert forall|j: int| 0 <= j < 0x10000 implies #[trigger] seen@[j] == t.contains(j as u16) by {
                if j == v as int {
                    assert(t[i as int] == v);
                } else {
                    if t.contains(j as u16) {
                        let w = choose|w: int| 0 <= w < t.len() && t[w] == j as u16;
                        if w < i {
                            assert(idx@.take(i as int)[w] == j as u16);
                        }
                    }
                    if idx@.take(i as int).contains(j as u16) {
                        let w = choose|w: int| 0 <= w < i && idx@.take(i as int)[w] == j as u16;
                        assert(t[w] == j as u16);
                    }
                }
            }
        }
        i = i + 1;
    }
    proof {
        assert(idx@.take(i as int) =~= idx@);
    }
    let mut out: Vec<u16> = Vec::new();
    let mut n: usize = 0;
    while n < 0x10000
        invariant
            n <= 0x10000,
            seen@.len() == 0x10000,
            forall|j: int| 0 <= j < 0x10000 ==> #[trigger] seen@[j] == idx@.contains(j as u16),
            out@ == present_below(idx@, n as nat),
        decreases 0x10000 - n,
    {
        if seen[n] {
            out.push(n as u16);
        }
        n = n + 1;
    }
    out
}

/// Group sorted, distinct indices into runs of consecutive values.
fn runs_exec(sd: &Vec<u16>) -> (r: Vec<(u16, u16)>)
    ensures
        r@ == runs_upto(sd@, sd@.len()),
{
    let mut r: Vec<(u16, u16)> = Vec::new();
    let mut i: usize = 0;
    while i < sd.len()
        invariant
            i <= sd@.len(),
            r@ == runs_upto(sd@, i as nat),
        decreases sd@.len() - i,
    {
        let x = sd[i];
        let n = r.len();
        if n > 0 && x as u32 == r[n - 1].1 as u32 + 1 {
            let first = r[n - 1].0;
            r.set(n - 1, (first, x));
        } else {
            r.push((x, x));
        }
        i = i + 1;
    }
    r
}

fn run_text_exec(r: (u16, u16)) -> (s: String)
    ensures
        s@ == run_text(r),
{
    let mut s = String::new();
    push_dec(&mut s, r.0 as u64);
    if r.0 != r.1 {
        push_str(&mut s, "-");
        push_dec(&mut s, r.1 as u64);
    }
    proof {
        assert(s@ =~= run_text(r));
    }
    s
}

/// Collapse connector indices into a compact range label: sorted, each once,
/// consecutive values joined ("1-4, 7"), and only the first two runs named
/// when there are more than three.
pub fn ranges(idx: Vec<u16>) -> (r: String)
    ensures
        r@ == ranges_spec(idx@),
{
    let sd = sorted_distinct_exec(&idx);
    let runs = runs_exec(&sd);
    let ghost rs = runs@;
    let mut parts: Vec<String> = Vec::new();
    let mut i: usize = 0;
    while i < runs.len()
        invariant
            i <= runs@.len(),
            rs == runs@,
            string_views(parts@) == rs.take(i as int).map_values(|r: (u16, u16)| run_text(r)),
        decreases runs@.len() - i,
    {
        let ghost before = parts@;
        let t = run_text_exec(runs[i]);
        parts.push(t);
        proof {
            assert(string_views(parts@) =~= string_views(before).push(t@));
            assert(rs.take(i + 1) =~= rs.take(i as int).push(rs[i as int]));
        }
        i = i + 1;
        proof {
            assert(string_views(parts@) =~= rs.take(i as int).map_values(|r: (u16, u16)| run_text(r)));
        }
    }
    proof {
        assert(rs.take(i as int) =~= rs);
        assert(string_views(parts@) == run_texts(idx@));
    }
    let mut out = String::new();
    if parts.len() > 3 {
        let mut first: Vec<String> = Vec::new();
        first.push(parts[0].clone());
        first.push(parts[1].clone());
        proof {
            assert(string_views(first@) =~= run_texts(idx@).take(2));
        }
        push_joined(&mut out, first.as_slice(), ", ");
        push_str(&mut out, ", +");
        push_dec(&mut out, (parts.len() - 2) as u64);
        push_str(&mut out, " more");
        proof {
            assert(out@ =~= ranges_spec(idx@));
        }
    } else {
        push_joined(&mut out, parts.as_slice(), ", ");
        proof {
            assert(out@ =~= ranges_spec(idx@));
        }
    }
    out
}


// ---------------------------------------------------------------------------
// Nodes of the diagram
// ---------------------------------------------------------------------------

/// One device's contribution to the patch, ready to draw.
pub struct Node {
    pub label: String,
    pub transport: String,
    /// Connectors of this device that the show actually uses.
    pub used: usize,
    /// Connectors the device has in that direction.
    pub capacity: u16,
    /// The connectors in use, as compact ranges.
    pub ranges: String,
}

pub struct NodeView {
    pub label: Seq<char>,
    pub transport: Seq<char>,
    pub used: nat,
    pub capacity: u16,
    pub ranges: Seq<char>,
}

impl View for Node {
    type V = NodeView;

    open spec fn view(&self) -> NodeView {
        NodeView {
            label: self.label@,
            transport: self.transport@,
            used: self.used as nat,
            capacity: self.capacity,
            ranges: self.ranges@,
        }
    }
}

/// Busier devices first; equally busy ones keep the console's order.
impl Keyed for Node {
    open spec fn key_le(&self, other: &Self) -> bool {
        self.used >= other.used
    }

    fn le(&self, other: &Self) -> (r: bool) {
        self.used >= other.used
    }
}

pub open spec fn node_le(a: NodeView, b: NodeView) -> bool {
    a.used >= b.used
}

/// The connectors of device `dev` that feed the input patch.
pub open spec fn input_indices(ins: Seq<InputPatchView>, dev: Seq<char>) -> Seq<u16>
    decreases ins.len(),
{
    if ins.len() == 0 {
        Seq::empty()
    } else {
        let p = input_indices(ins.drop_last(), dev);
        match ins.last().socket {
            Some(s) => if s.device == dev {
                p.push(s.index)
            } else {
                p
            },
            None => p,
        }
    }
}

/// The connectors of device `dev` that the output patch drives.
pub open spec fn output_indices(outs: Seq<OutputPatchView>, dev: Seq<char>) -> Seq<u16>
    decreases outs.len(),
{
    if outs.len() == 0 {
        Seq::empty()
    } else {
        let p = output_indices(outs.drop_last(), dev);
        let o = outs.last();
        if o.socket.device == dev && o.source != SignalView::Off {
            p.push(o.socket.index)
        } else {
            p
        }
    }
}

pub open spec fn node_spec(d: DeviceView, idx: Seq<u16>, capacity: u16) -> NodeView {
    NodeView {
        label: d.label,
        transport: transport_text(d.transport),
        used: sorted_distinct(idx).len(),
        capacity,
        ranges: ranges_spec(idx),
    }
}

/// The nodes of the first `n` devices that the show uses, in device order.
pub open spec fn nodes_upto(s: ShowView, n: nat, inputs: bool) -> Seq<NodeView>
    decreases n,
{
    if n == 0 || n > s.devices.len() {
        Seq::empty()
    } else {
        let p = nodes_upto(s, (n - 1) as nat, inputs);
        let d = s.devices[n - 1];
        let idx = if inputs {
            input_indices(s.inputs, d.id)
        } else {
            output_indices(s.outputs, d.id)
        };
        if idx.len() == 0 {
            p
        } else {
            p.push(node_spec(d, idx, if inputs { d.inputs } else { d.outputs }))
        }
    }
}

/// The diagram's nodes on one side: every device the show uses, busiest
/// first.
pub open spec fn nodes_spec(s: ShowView, inputs: bool) -> Seq<NodeView> {
    sort_by(nodes_upto(s, s.devices.len(), inputs), |a: NodeView, b: NodeView| node_le(a, b))
}

fn connector_indices(show: &Show, dev: &[char], inputs: bool) -> (r: Vec<u16>)
    ensures
        r@ == if inputs {
            input_indices(show@.inputs, dev@)
        } else {
            output_indices(show@.outputs, dev@)
        },
{
    let mut r: Vec<u16> = Vec::new();
    if inputs {
        let ghost ins = show@.inputs;
        let mut i: usize = 0;
        while i < show.patch.inputs.len()
            invariant
                i <= show.patch.inputs@.len(),
                ins == show@.inputs,
                inputs,
                r@ == input_indices(ins.take(i as int), dev@),
            decreases show.patch.inputs@.len() - i,
        {
            proof {
                assert(ins.take(i + 1).drop_last() =~= ins.take(i as int));
                assert(ins[i as int] == show.patch.inputs@[i as int]@);
            }
            if let Some(sock) = &show.patch.inputs[i].socket {
                let k = chars_of(sock.device.as_str());
                if eq_chars(k.as_slice(), dev) {
                    r.push(sock.index);
                }
            }
            i = i + 1;
        }
        proof {
            assert(ins.take(i as int) =~= ins);
        }
    } else {
        let ghost outs = show@.outputs;
        let mut i: usize = 0;
        while i < show.patch.outputs.len()
            invariant
                i <= show.patch.outputs@.len(),
                outs == show@.outputs,
                !inputs,
                r@ == output_indices(outs.take(i as int), dev@),
            decreases show.patch.outputs@.len() - i,
        {
            proof {
                assert(outs.take(i + 1).drop_last() =~= outs.take(i as int));
                assert(outs[i as int] == show.patch.outputs@[i as int]@);
            }
            let o = &show.patch.outputs[i];
            let k = chars_of(o.socket.device.as_str());
            let off = match o.source {
                SignalRef::Off => true,
                _ => false,
            };
            if eq_chars(k.as_slice(), dev) && !off {
                r.push(o.socket.index);
            }
            i = i + 1;
        }
        proof {
            assert(outs.take(i as int) =~= outs);
        }
    }
    r
}

fn nodes(show: &Show, inputs: bool) -> (r: Vec<Node>)
    ensures
        r@.map_values(|n: Node| n@) == nodes_spec(show@, inputs),
{
    let ghost sv = show@;
    let mut out: Vec<Node> = Vec::new();
    let mut i: usize = 0;
    while i < show.devices.len()
        invariant
            i <= show.devices@.len(),
            sv == show@,
            out@.map_values(|n: Node| n@) == nodes_upto(sv, i as nat, inputs),
        decreases show.devices@.len() - i,
    {
        let d = &show.devices[i];
        proof {
            assert(sv.devices[i as int] == d@);
        }
        let id = chars_of(d.id.as_str());
        let idx = connector_indices(show, id.as_slice(), inputs);
        if idx.len() > 0 {
            let used = sorted_distinct_exec(&idx).len();
            let node = Node {
                label: d.label.clone(),
                transport: d.transport.as_str(),
                used,
                capacity: if inputs { d.inputs } else { d.outputs },
                ranges: ranges(idx),
            };
            let ghost before = out@;
            out.push(node);
            proof {
                assert(out@.map_values(|n: Node| n@) =~= before.map_values(|n: Node| n@).push(node@));
            }
        }
        i = i + 1;
    }
    let ghost unsorted = out@;
    let sorted = crate::text::stable_sort(out);
    proof {
        crate::text::lemma_sorted_map(
            unsorted,
            |n: Node| n@,
            |a: NodeView, b: NodeView| node_le(a, b),
        );
    }
    sorted
}

/// The devices feeding the input patch, busiest first.
pub fn input_nodes(show: &Show) -> (r: Vec<Node>)
    ensures
        r@.map_values(|n: Node| n@) == nodes_spec(show@, true),
{
    nodes(show, true)
}

/// The devices the output patch drives, busiest first.
pub fn output_nodes(show: &Show) -> (r: Vec<Node>)
    ensures
        r@.map_values(|n: Node| n@) == nodes_spec(show@, false),
{
    nodes(show, false)
}

proof fn lemma_present_below_same(a: Seq<u16>, b: Seq<u16>, n: nat)
    requires
        forall|v: u16| a.contains(v) == b.contains(v),
    ensures
        present_below(a, n) == present_below(b, n),
    decreases n,
{
    if n > 0 {
        lemma_present_below_same(a, b, (n - 1) as nat);
    }
}

/// The label depends only on which connectors are used: the order they
/// come in and any repeats make no difference.
pub proof fn law_ranges_ignore_order_and_repeats(a: Seq<u16>, b: Seq<u16>)
    requires
        forall|v: u16| a.contains(v) == b.contains(v),
    ensures
        ranges_spec(a) == ranges_spec(b),
        sorted_distinct(a) == sorted_distinct(b),
{
    lemma_present_below_same(a, b, 0x10000);
}

} // verus!
