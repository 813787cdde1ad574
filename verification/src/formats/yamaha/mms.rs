//! MMSXLIT — Yamaha's self-describing parameter payload.
//!
//! Each payload carries its own schema inline, then the packed values that
//! schema describes:
//!
//! ```text
//! "MMSXLIT\0" <function name>
//! schema:  COL record, 48 bytes   collection
//!          PR  record, 32 bytes   parameter
//! values:  packed structs laid out per the schema
//! ```
//!
//! Because the schema travels inside the file, one decoder serves every model
//! without a lookup table, and a console released tomorrow parses without a
//! code change.
//!
//! # Record layout
//!
//! ```text
//! COL, 48 bytes            PR, 32 bytes
//!  0  "COL"                 0  "PR "
//!  3  level byte            3  type code   0x00 string, 0x02 unsigned
//!  4  name, NUL-padded      4  u16le size (of one element)
//! 32  u32le (unused)        6  u16le arraysize
//! 36  u32le offset          8  name, NUL-padded
//! 40  u32le datasize
//! 44  u32le arraysize
//! ```
//!
//! Schema metadata is little-endian, and so are the packed values. The schema
//! is a pre-order run: a collection's children follow it until their spans sum
//! to its `datasize`.

use vstd::prelude::*;

use super::mbdf::{cstr_spec, ContainerView};
use super::{YamahaError, YamahaErrorView};
use crate::text::{
    bytes_eq_str, bytes_match, chars_of, cstr, eq_chars, find_bytes, first_match,
    first_occurrence, lemma_first_match_at, lemma_first_match_none, slice_range,
};

verus! {

pub const TYPE_STRING: u8 = 0x00;

/// Little-endian 32-bit word at `at`.
pub open spec fn le_u32_spec(d: Seq<u8>, at: int) -> u32 {
    (d[at] + d[at + 1] * 0x100 + d[at + 2] * 0x10000 + d[at + 3] * 0x1000000) as u32
}

/// Little-endian 16-bit word at `at`.
pub open spec fn le_u16_spec(d: Seq<u8>, at: int) -> u16 {
    (d[at] + d[at + 1] * 0x100) as u16
}

/// The little-endian word at `at`, if four bytes are there.
pub fn u32le(b: &[u8], at: usize) -> (r: Option<u32>)
    ensures
        match r {
            Some(v) => at + 4 <= b@.len() && v == le_u32_spec(b@, at as int),
            None => at + 4 > b@.len(),
        },
{
    if at > b.len() || b.len() - at < 4 {
        return None;
    }
    let v: u32 = b[at] as u32 + (b[at + 1] as u32) * 0x100 + (b[at + 2] as u32) * 0x10000 + (b[at
        + 3] as u32) * 0x1000000;
    Some(v)
}

/// The little-endian word `k` bytes after `at`.
fn u32le_off(b: &[u8], at: usize, k: usize) -> (r: Option<u32>)
    requires
        at <= b@.len(),
        k <= 64,
    ensures
        match r {
            Some(v) => at + k + 4 <= b@.len() && v == le_u32_spec(b@, at + k),
            None => at + k + 4 > b@.len(),
        },
{
    if b.len() - at < k + 4 {
        return None;
    }
    u32le(b, at + k)
}

/// The little-endian half-word `k` bytes after `at`.
fn u16le_off(b: &[u8], at: usize, k: usize) -> (r: Option<u16>)
    requires
        at <= b@.len(),
        k <= 64,
    ensures
        match r {
            Some(v) => at + k + 2 <= b@.len() && v == le_u16_spec(b@, at + k),
            None => at + k + 2 > b@.len(),
        },
{
    if b.len() - at < k + 2 {
        return None;
    }
    u16le(b, at + k)
}

/// The little-endian half-word at `at`, if two bytes are there.
pub fn u16le(b: &[u8], at: usize) -> (r: Option<u16>)
    ensures
        match r {
            Some(v) => at + 2 <= b@.len() && v == le_u16_spec(b@, at as int),
            None => at + 2 > b@.len(),
        },
{
    if at > b.len() || b.len() - at < 2 {
        return None;
    }
    let v: u16 = b[at] as u16 + (b[at + 1] as u16) * 0x100;
    Some(v)
}

#[derive(Debug, PartialEq)]
pub enum NodeKind {
    Collection { children: Vec<Node> },
    Parameter { type_code: u8 },
}

/// One entry in the schema tree.
#[derive(Debug, PartialEq)]
pub struct Node {
    pub name: String,
    /// Byte offset within the parent element.
    pub offset: u32,
    /// Size of a single element.
    pub datasize: u32,
    pub arraysize: u32,
    pub kind: NodeKind,
}

pub enum NodeKindView {
    Collection { children: Seq<NodeView> },
    Parameter { type_code: u8 },
}

pub struct NodeView {
    pub name: Seq<char>,
    pub offset: u32,
    pub datasize: u32,
    pub arraysize: u32,
    pub kind: NodeKindView,
}

pub open spec fn node_view(n: Node) -> NodeView
    decreases n, 1nat,
{
    NodeView {
        name: n.name@,
        offset: n.offset,
        datasize: n.datasize,
        arraysize: n.arraysize,
        kind: match n.kind {
            NodeKind::Collection { children } => NodeKindView::Collection {
                children: nodes_view(children@),
            },
            NodeKind::Parameter { type_code } => NodeKindView::Parameter { type_code },
        },
    }
}

pub open spec fn nodes_view(s: Seq<Node>) -> Seq<NodeView>
    decreases s, 0nat,
{
    if s.len() == 0 {
        Seq::empty()
    } else {
        nodes_view(s.drop_last()).push(node_view(s.last()))
    }
}

impl View for Node {
    type V = NodeView;

    open spec fn view(&self) -> NodeView {
        node_view(*self)
    }
}


/// `datasize * arraysize`, saturating at the top of `u32`.
pub open spec fn span_spec(datasize: u32, arraysize: u32) -> u32 {
    if datasize * arraysize > 0xFFFF_FFFF {
        0xFFFF_FFFF
    } else {
        (datasize * arraysize) as u32
    }
}

/// `a + b`, saturating at the top of `u32`.
pub open spec fn sat_add(a: u32, b: u32) -> u32 {
    if a + b > 0xFFFF_FFFF {
        0xFFFF_FFFF
    } else {
        (a + b) as u32
    }
}

fn sat_add_exec(a: u32, b: u32) -> (r: u32)
    ensures
        r == sat_add(a, b),
{
    if a > 0xFFFF_FFFF - b {
        0xFFFF_FFFF
    } else {
        a + b
    }
}

fn span_exec(datasize: u32, arraysize: u32) -> (r: u32)
    ensures
        r == span_spec(datasize, arraysize),
{
    let a = datasize as u64;
    let b = arraysize as u64;
    proof {
        assert(a * b <= 0xFFFF_FFFE_0000_0001) by (nonlinear_arith)
            requires
                a <= 0xFFFF_FFFF,
                b <= 0xFFFF_FFFF,
        ;
    }
    let p = a * b;
    if p > 0xFFFF_FFFF {
        0xFFFF_FFFF
    } else {
        p as u32
    }
}

pub open spec fn children_of(n: NodeView) -> Seq<NodeView> {
    match n.kind {
        NodeKindView::Collection { children } => children,
        NodeKindView::Parameter { .. } => Seq::empty(),
    }
}

/// The first child with this name.
pub open spec fn child_spec(n: NodeView, name: Seq<char>) -> Option<NodeView> {
    match first_match(children_of(n), |c: NodeView| c.name == name) {
        Some(i) => Some(children_of(n)[i]),
        None => None,
    }
}

impl Node {
    pub fn is_collection(&self) -> (r: bool)
        ensures
            r == (self@.kind is Collection),
    {
        match &self.kind {
            NodeKind::Collection { .. } => true,
            NodeKind::Parameter { .. } => false,
        }
    }

    pub fn children(&self) -> (r: &[Node])
        ensures
            nodes_view(r@) == children_of(self@),
    {
        match &self.kind {
            NodeKind::Collection { children } => children.as_slice(),
            NodeKind::Parameter { .. } => {
                let e: &[Node] = &[];
                proof {
                    assert(e@ =~= Seq::<Node>::empty());
                }
                e
            },
        }
    }

    pub fn child(&self, name: &str) -> (r: Option<&Node>)
        ensures
            match child_spec(self@, name@) {
                Some(c) => r is Some && r->0@ == c,
                None => r is None,
            },
    {
        let kids = self.children();
        let want = chars_of(name);
        let ghost v = nodes_view(kids@);
        proof {
            lemma_nodes_view_len(kids@);
        }
        let mut i: usize = 0;
        while i < kids.len()
            invariant
                i <= kids@.len(),
                v.len() == kids@.len(),
                v == nodes_view(kids@),
                v == children_of(self@),
                want@ == name@,
                forall|j: int| 0 <= j < i ==> (#[trigger] v[j]).name != name@,
            decreases kids@.len() - i,
        {
            proof {
                lemma_nodes_view_index(kids@, i as int);
            }
            let n = chars_of(kids[i].name.as_str());
            if eq_chars(n.as_slice(), want.as_slice()) {
                proof {
                    lemma_first_match_at(v, |c: NodeView| c.name == name@, i as int);
                }
                return Some(&kids[i]);
            }
            i = i + 1;
        }
        proof {
            lemma_first_match_none(v, |c: NodeView| c.name == name@);
        }
        None
    }

    /// Total bytes this node occupies in its parent, all array elements.
    pub fn span(&self) -> (r: u32)
        ensures
            r == span_spec(self.datasize, self.arraysize),
    {
        span_exec(self.datasize, self.arraysize)
    }
}

pub proof fn lemma_nodes_view_index(s: Seq<Node>, i: int)
    requires
        0 <= i < s.len(),
    ensures
        nodes_view(s).len() == s.len(),
        nodes_view(s)[i] == s[i]@,
    decreases s.len(),
{
    lemma_nodes_view_len(s);
    if i < s.len() - 1 {
        lemma_nodes_view_index(s.drop_last(), i);
    }
}

pub proof fn lemma_nodes_view_len(s: Seq<Node>)
    ensures
        nodes_view(s).len() == s.len(),
    decreases s.len(),
{
    if s.len() > 0 {
        lemma_nodes_view_len(s.drop_last());
    }
}

pub proof fn lemma_nodes_view_push(s: Seq<Node>, n: Node)
    ensures
        nodes_view(s.push(n)) == nodes_view(s).push(n@),
{
    assert(s.push(n).drop_last() =~= s);
}

// ---------------------------------------------------------------------------
// Reading the schema
// ---------------------------------------------------------------------------

/// A node read at `at`: the node, where the next record starts, and how many
/// collections and parameters it held.
pub open spec fn node_spec(d: Seq<u8>, at: int) -> Result<(NodeView, int, nat, nat), YamahaErrorView>
    decreases d.len() - at, 0nat,
{
    if at < 0 || at + 3 > d.len() {
        Err(YamahaErrorView::Truncated("schema record"@))
    } else if bytes_match(d.subrange(at, at + 3), "COL"@) {
        if at + 32 > d.len() {
            Err(YamahaErrorView::Truncated("COL name"@))
        } else if at + 40 > d.len() {
            Err(YamahaErrorView::Truncated("COL offset"@))
        } else if at + 44 > d.len() {
            Err(YamahaErrorView::Truncated("COL datasize"@))
        } else if at + 48 > d.len() {
            Err(YamahaErrorView::Truncated("COL arraysize"@))
        } else {
            let datasize = le_u32_spec(d, at + 40);
            match children_spec(d, at + 48, datasize, 0, Seq::empty()) {
                Err(e) => Err(e),
                Ok((kids, next, cols, prs)) => Ok(
                    (
                        NodeView {
                            name: cstr_spec(d.subrange(at + 4, at + 32)),
                            offset: le_u32_spec(d, at + 36),
                            datasize,
                            arraysize: le_u32_spec(d, at + 44),
                            kind: NodeKindView::Collection { children: kids },
                        },
                        next,
                        cols + 1,
                        prs,
                    ),
                ),
            }
        }
    } else if bytes_match(d.subrange(at, at + 3), "PR "@) {
        if at + 6 > d.len() {
            Err(YamahaErrorView::Truncated("PR size"@))
        } else if at + 8 > d.len() {
            Err(YamahaErrorView::Truncated("PR arraysize"@))
        } else if at + 32 > d.len() {
            Err(YamahaErrorView::Truncated("PR name"@))
        } else {
            Ok(
                (
                    NodeView {
                        name: cstr_spec(d.subrange(at + 8, at + 32)),
                        offset: 0,
                        datasize: le_u16_spec(d, at + 4) as u32,
                        arraysize: le_u16_spec(d, at + 6) as u32,
                        kind: NodeKindView::Parameter { type_code: d[at + 3] },
                    },
                    at + 32,
                    0,
                    1,
                ),
            )
        }
    } else {
        Err(YamahaErrorView::BadSchema("expected COL or PR record"@))
    }
}

/// A collection's children from `at` on, read until their spans reach its
/// `datasize`.
pub open spec fn children_spec(
    d: Seq<u8>,
    at: int,
    datasize: u32,
    consumed: u32,
    kids: Seq<NodeView>,
) -> Result<(Seq<NodeView>, int, nat, nat), YamahaErrorView>
    decreases d.len() - at, 1nat,
{
    if consumed >= datasize {
        Ok((kids, at, 0, 0))
    } else {
        match node_spec(d, at) {
            Err(e) => Err(e),
            Ok((child, next, c, p)) => if next <= at || next > d.len() {
                Err(YamahaErrorView::BadSchema("schema made no progress"@))
            } else if kids.len() + 1 > 4096 {
                Err(YamahaErrorView::BadSchema("implausible child count"@))
            } else {
                match children_spec(
                    d,
                    next,
                    datasize,
                    sat_add(consumed, span_spec(child.datasize, child.arraysize)),
                    kids.push(child),
                ) {
                    Err(e) => Err(e),
                    Ok((ks, last, c2, p2)) => Ok((ks, last, c + c2, p + p2)),
                }
            },
        }
    }
}

pub open spec fn read_result_view(r: Result<(Node, usize, usize, usize), YamahaError>) -> Result<(NodeView, int, nat, nat), YamahaErrorView> {
    match r {
        Ok((n, at, c, p)) => Ok((n@, at as int, c as nat, p as nat)),
        Err(e) => Err(e@),
    }
}

pub open spec fn kids_result_view(r: Result<(Vec<Node>, usize, usize, usize), YamahaError>) -> Result<(Seq<NodeView>, int, nat, nat), YamahaErrorView> {
    match r {
        Ok((v, at, c, p)) => Ok((nodes_view(v@), at as int, c as nat, p as nat)),
        Err(e) => Err(e@),
    }
}

/// Read one record and, if a collection, its children.
fn read_node(d: &[u8], at: usize) -> (r: Result<(Node, usize, usize, usize), YamahaError>)
    requires
        at <= d@.len(),
    ensures
        read_result_view(r) == node_spec(d@, at as int),
        match r {
            Ok((_, next, c, p)) => at < next <= d@.len() && c + p <= next - at,
            Err(_) => true,
        },
    decreases d@.len() - at, 0nat,
{
    if d.len() - at < 3 {
        return Err(YamahaError::Truncated("schema record"));
    }
    let tag = slice_range(d, at, at + 3);
    if bytes_eq_str(tag, "COL") {
        if d.len() - at < 32 {
            return Err(YamahaError::Truncated("COL name"));
        }
        let name = cstr(slice_range(d, at + 4, at + 32));
        let offset = match u32le_off(d, at, 36) {
            Some(v) => v,
            None => return Err(YamahaError::Truncated("COL offset")),
        };
        let datasize = match u32le_off(d, at, 40) {
            Some(v) => v,
            None => return Err(YamahaError::Truncated("COL datasize")),
        };
        let arraysize = match u32le_off(d, at, 44) {
            Some(v) => v,
            None => return Err(YamahaError::Truncated("COL arraysize")),
        };
        let empty: Vec<Node> = Vec::new();
        proof {
            assert(nodes_view(empty@) =~= Seq::<NodeView>::empty());
        }
        match read_children(d, at + 48, datasize, 0, empty) {
            Err(e) => Err(e),
            Ok((kids, next, c, p)) => {
                Ok(
                    (
                        Node {
                            name,
                            offset,
                            datasize,
                            arraysize,
                            kind: NodeKind::Collection { children: kids },
                        },
                        next,
                        c + 1,
                        p,
                    ),
                )
            },
        }
    } else if bytes_eq_str(tag, "PR ") {
        let size = match u16le_off(d, at, 4) {
            Some(v) => v,
            None => return Err(YamahaError::Truncated("PR size")),
        };
        let arraysize = match u16le_off(d, at, 6) {
            Some(v) => v,
            None => return Err(YamahaError::Truncated("PR arraysize")),
        };
        if d.len() - at < 32 {
            return Err(YamahaError::Truncated("PR name"));
        }
        let type_code = d[at + 3];
        let name = cstr(slice_range(d, at + 8, at + 32));
        Ok(
            (
                Node {
                    name,
                    offset: 0,
                    datasize: size as u32,
                    arraysize: arraysize as u32,
                    kind: NodeKind::Parameter { type_code },
                },
                at + 32,
                0,
                1,
            ),
        )
    } else {
        Err(YamahaError::BadSchema("expected COL or PR record"))
    }
}

/// Read children from `at` until their spans reach `datasize`.
fn read_children(d: &[u8], at: usize, datasize: u32, consumed: u32, kids: Vec<Node>) -> (r: Result<
    (Vec<Node>, usize, usize, usize),
    YamahaError,
>)
    requires
        at <= d@.len(),
        kids@.len() <= 4096,
    ensures
        kids_result_view(r) == children_spec(d@, at as int, datasize, consumed, nodes_view(kids@)),
        match r {
            Ok((_, next, c, p)) => at <= next <= d@.len() && c + p <= next - at,
            Err(_) => true,
        },
    decreases d@.len() - at, 1nat,
{
    proof {
        lemma_nodes_view_len(kids@);
    }
    if consumed >= datasize {
        return Ok((kids, at, 0, 0));
    }
    match read_node(d, at) {
        Err(e) => Err(e),
        Ok((child, next, c, p)) => {
            if next <= at || next > d.len() {
                return Err(YamahaError::BadSchema("schema made no progress"));
            }
            if kids.len() + 1 > 4096 {
                return Err(YamahaError::BadSchema("implausible child count"));
            }
            let grown = sat_add_exec(consumed, child.span());
            let ghost cv = child@;
            let mut kids = kids;
            let ghost before = kids@;
            kids.push(child);
            proof {
                lemma_nodes_view_push(before, child);
            }
            match read_children(d, next, datasize, grown, kids) {
                Err(e) => Err(e),
                Ok((ks, last, c2, p2)) => Ok((ks, last, c + c2, p + p2)),
            }
        },
    }
}


// ---------------------------------------------------------------------------
// Parameter offsets
// ---------------------------------------------------------------------------

/// Parameters carry no offset of their own: they are laid out end to end from
/// the start of their parent, while collections state theirs.
pub open spec fn assign_spec(n: NodeView) -> NodeView
    decreases n, 1nat,
{
    match n.kind {
        NodeKindView::Collection { children } => NodeView {
            name: n.name,
            offset: n.offset,
            datasize: n.datasize,
            arraysize: n.arraysize,
            kind: NodeKindView::Collection { children: assign_children(children, 0) },
        },
        NodeKindView::Parameter { .. } => n,
    }
}

pub open spec fn assign_children(cs: Seq<NodeView>, run: u32) -> Seq<NodeView>
    decreases cs, 0nat,
{
    if cs.len() == 0 {
        Seq::empty()
    } else {
        let c = cs[0];
        if c.kind is Collection {
            seq![assign_spec(c)] + assign_children(
                cs.drop_first(),
                sat_add(c.offset, span_spec(c.datasize, c.arraysize)),
            )
        } else {
            seq![
                NodeView {
                    name: c.name,
                    offset: run,
                    datasize: c.datasize,
                    arraysize: c.arraysize,
                    kind: c.kind,
                },
            ] + assign_children(cs.drop_first(), sat_add(run, span_spec(c.datasize, c.arraysize)))
        }
    }
}

/// Assign offsets to parameters, which do not carry their own.
#[verifier::loop_isolation(false)]
fn assign_parameter_offsets(node: Node) -> (r: Node)
    ensures
        r@ == assign_spec(node@),
    decreases node,
{
    let ghost n0 = node;
    let Node { name, offset, datasize, arraysize, kind } = node;
    match kind {
        NodeKind::Parameter { type_code } => Node {
            name,
            offset,
            datasize,
            arraysize,
            kind: NodeKind::Parameter { type_code },
        },
        NodeKind::Collection { children } => {
            let ghost ch = children;
            let ghost orig = nodes_view(children@);
            proof {
                lemma_nodes_view_len(children@);
            }
            let mut rest = children;
            let mut out: Vec<Node> = Vec::new();
            let mut run: u32 = 0;
            let ghost mut k: int = 0;
            proof {
                assert(rest@ =~= ch@.skip(0));
                assert(nodes_view(out@) =~= Seq::<NodeView>::empty());
                assert(orig.skip(0) =~= orig);
            }
            while rest.len() > 0
                invariant
                    0 <= k <= ch@.len(),
                    orig == nodes_view(ch@),
                    orig.len() == ch@.len(),
                    rest@ == ch@.skip(k),
                    n0.kind == (NodeKind::Collection { children: ch }),
                    nodes_view(out@) + assign_children(orig.skip(k), run) == assign_children(orig, 0),
                decreases rest@.len(),
            {
                let c = rest.remove(0);
                proof {
                    assert(c == ch@[k]);
                    lemma_nodes_view_index(ch@, k);
                    assert(orig.skip(k)[0] == c@);
                    assert(orig.skip(k).drop_first() =~= orig.skip(k + 1));
                    assert(rest@ =~= ch@.skip(k + 1));
                    assert(decreases_to!(n0 => n0.kind));
                    assert(n0.kind->children == ch);
                    assert(decreases_to!(n0.kind => n0.kind->children));
                    assert(decreases_to!(ch => ch@));
                    assert(decreases_to!(ch@ => ch@[k]));
                    assert(decreases_to!(n0 => c));
                }
                let ghost before = out@;
                let ghost run0 = run;
                if c.is_collection() {
                    let sp = c.span();
                    let next_run = sat_add_exec(c.offset, sp);
                    let a = assign_parameter_offsets(c);
                    out.push(a);
                    run = next_run;
                    proof {
                        lemma_nodes_view_push(before, a);
                    }
                } else {
                    let sp = c.span();
                    let Node { name: cn, offset: _, datasize: cd, arraysize: ca, kind: ck } = c;
                    let moved = Node { name: cn, offset: run, datasize: cd, arraysize: ca, kind: ck };
                    out.push(moved);
                    proof {
                        lemma_nodes_view_push(before, moved);
                    }
                    run = sat_add_exec(run, sp);
                }
                proof {
                    assert(nodes_view(out@) + assign_children(orig.skip(k + 1), run) =~= nodes_view(before) + assign_children(orig.skip(k), run0));
                    k = k + 1;
                }
            }
            proof {
                assert(orig.skip(k) =~= Seq::<NodeView>::empty());
                assert(nodes_view(out@) =~= assign_children(orig, 0));
            }
            Node { name, offset, datasize, arraysize, kind: NodeKind::Collection { children: out } }
        },
    }
}


// ---------------------------------------------------------------------------
// The payload
// ---------------------------------------------------------------------------

/// A decoded MMSXLIT payload: schema tree plus the value block it describes.
#[derive(Debug)]
pub struct Payload {
    /// Function name, e.g. `Mixing`.
    pub function: String,
    pub root: Node,
    /// Offset of the value block within the payload.
    pub values_at: usize,
    pub collections: usize,
    pub parameters: usize,
    /// The whole payload, values included.
    pub data: Vec<u8>,
}

pub struct PayloadView {
    pub function: Seq<char>,
    pub root: NodeView,
    pub values_at: int,
    pub collections: nat,
    pub parameters: nat,
    pub data: Seq<u8>,
}

impl View for Payload {
    type V = PayloadView;

    open spec fn view(&self) -> PayloadView {
        PayloadView {
            function: self.function@,
            root: self.root@,
            values_at: self.values_at as int,
            collections: self.collections as nat,
            parameters: self.parameters as nat,
            data: self.data@,
        }
    }
}

/// The bytes `COL`.
pub open spec fn col_tag() -> Seq<u8> {
    seq![0x43u8, 0x4fu8, 0x4cu8]
}

/// What a payload's bytes read as.
#[verifier::opaque]
pub open spec fn payload_spec(p: Seq<u8>) -> Result<PayloadView, YamahaErrorView> {
    if !(p.len() >= 7 && bytes_match(p.take(7), "MMSXLIT"@)) {
        Err(YamahaErrorView::NotMms)
    } else if p.len() < 40 {
        Err(YamahaErrorView::Truncated("function name"@))
    } else {
        match first_occurrence(p, col_tag()) {
            None => Err(YamahaErrorView::BadSchema("no schema block"@)),
            Some(start) => match node_spec(p, start) {
                Err(e) => Err(e),
                Ok((root, at, cols, prs)) => if at > p.len() {
                    Err(YamahaErrorView::Truncated("schema overruns payload"@))
                } else {
                    Ok(
                        PayloadView {
                            function: cstr_spec(p.subrange(8, 40)),
                            root: assign_spec(root),
                            values_at: at,
                            collections: cols,
                            parameters: prs,
                            data: p,
                        },
                    )
                },
            },
        }
    }
}

pub open spec fn payload_result_view(r: Result<Payload, YamahaError>) -> Result<PayloadView, YamahaErrorView> {
    match r {
        Ok(p) => Ok(p@),
        Err(e) => Err(e@),
    }
}

/// One step down a path: the child, the running offset after it, and
/// whether the array index has been applied.
pub open spec fn locate_step(node: NodeView, at: int, applied: bool, name: Seq<char>, index: u32) -> Option<(NodeView, int, bool)> {
    match child_spec(node, name) {
        None => None,
        Some(c) => {
            let at1 = at + c.offset;
            if !applied && c.arraysize > 1 {
                if index >= c.arraysize {
                    None
                } else {
                    Some((c, at1 + c.datasize * index, true))
                }
            } else {
                Some((c, at1, applied))
            }
        },
    }
}

/// Where element `index` of the node reached by `path` lies: the running
/// offset and the node. `index` selects an element of the first array met on
/// the way.
pub open spec fn locate_from(node: NodeView, at: int, applied: bool, path: Seq<Seq<char>>, index: u32) -> Option<(int, NodeView)>
    decreases path.len(),
{
    if path.len() == 0 {
        Some((at, node))
    } else {
        match locate_step(node, at, applied, path[0], index) {
            None => None,
            Some((c, at2, ap2)) => locate_from(c, at2, ap2, path.drop_first(), index),
        }
    }
}

pub open spec fn locate_spec(p: PayloadView, path: Seq<Seq<char>>, index: u32) -> Option<(int, NodeView)> {
    match locate_from(p.root, p.values_at, false, path, index) {
        Some((at, n)) => if at > 0xFFFF_FFFF_FFFF_FFFF || at > usize::MAX {
            None
        } else {
            Some((at, n))
        },
        None => None,
    }
}

/// The text of a string parameter.
#[verifier::opaque]
pub open spec fn string_spec(p: PayloadView, path: Seq<Seq<char>>, index: u32) -> Option<Seq<char>> {
    match locate_spec(p, path, index) {
        None => None,
        Some((at, n)) => if at + n.datasize > usize::MAX || at + n.datasize > p.data.len() {
            None
        } else {
            Some(cstr_spec(p.data.subrange(at, at + n.datasize)))
        },
    }
}

/// Value of little-endian bytes.
pub open spec fn le_value(s: Seq<u8>) -> nat
    decreases s.len(),
{
    if s.len() == 0 {
        0
    } else {
        (s[0] + 256 * le_value(s.drop_first())) as nat
    }
}

/// An unsigned parameter of whatever width (1 to 8 bytes) the schema declares.
#[verifier::opaque]
pub open spec fn uint_spec(p: PayloadView, path: Seq<Seq<char>>, index: u32) -> Option<u64> {
    match locate_spec(p, path, index) {
        None => None,
        Some((at, n)) => if n.datasize == 0 || n.datasize > 8 || at + n.datasize > p.data.len() {
            None
        } else {
            Some(le_value(p.data.subrange(at, at + n.datasize)) as u64)
        },
    }
}

pub open spec fn path_view(path: Seq<&str>) -> Seq<Seq<char>> {
    path.map_values(|s: &str| s@)
}

pub open spec fn pow256(k: nat) -> nat
    decreases k,
{
    if k == 0 {
        1
    } else {
        256 * pow256((k - 1) as nat)
    }
}

enum StepOutcome<'a> {
    Stop,
    Overflow,
    Next(&'a Node, u64, bool),
}

/// One step down a path, in 64-bit arithmetic.
fn locate_step_exec<'a>(node: &'a Node, at: u64, applied: bool, name: &str, index: u32) -> (r: StepOutcome<'a>)
    ensures
        match r {
            StepOutcome::Stop => locate_step(node@, at as int, applied, name@, index) is None,
            StepOutcome::Overflow => match locate_step(node@, at as int, applied, name@, index) {
                Some((_, a, _)) => a > 0xFFFF_FFFF_FFFF_FFFF,
                None => false,
            },
            StepOutcome::Next(c, a2, ap2) => locate_step(node@, at as int, applied, name@, index) == Some((c@, a2 as int, ap2)),
        },
{
    let child = match node.child(name) {
        Some(c) => c,
        None => return StepOutcome::Stop,
    };
    if at > 0xFFFF_FFFF_FFFF_FFFF - child.offset as u64 {
        if !applied && child.arraysize > 1 && index >= child.arraysize {
            return StepOutcome::Stop;
        }
        proof {
            assert(child.datasize * index >= 0) by (nonlinear_arith);
        }
        return StepOutcome::Overflow;
    }
    let at1 = at + child.offset as u64;
    if !applied && child.arraysize > 1 {
        if index >= child.arraysize {
            return StepOutcome::Stop;
        }
        proof {
            assert((child.datasize as u64) * (index as u64) <= 0xFFFF_FFFE_0000_0001) by (nonlinear_arith)
                requires
                    child.datasize <= 0xFFFF_FFFF,
                    index <= 0xFFFF_FFFF,
            ;
        }
        let step = (child.datasize as u64) * (index as u64);
        if at1 > 0xFFFF_FFFF_FFFF_FFFF - step {
            return StepOutcome::Overflow;
        }
        StepOutcome::Next(child, at1 + step, true)
    } else {
        StepOutcome::Next(child, at1, applied)
    }
}

impl Payload {
    #[verifier::rlimit(60)]
    pub fn parse(payload: &[u8]) -> (r: Result<Payload, YamahaError>)
        ensures
            payload_result_view(r) == payload_spec(payload@),
    {
        reveal(payload_spec);
        if payload.len() < 7 || !bytes_eq_str(slice_range(payload, 0, 7), "MMSXLIT") {
            proof {
                if payload@.len() >= 7 {
                    assert(payload@.subrange(0, 7) =~= payload@.take(7));
                }
            }
            return Err(YamahaError::NotMms);
        }
        proof {
            assert(payload@.subrange(0, 7) =~= payload@.take(7));
        }
        if payload.len() < 40 {
            return Err(YamahaError::Truncated("function name"));
        }
        let function = cstr(slice_range(payload, 8, 40));
        let tag: [u8; 3] = [0x43, 0x4f, 0x4c];
        proof {
            assert(tag@ =~= col_tag());
        }
        let start = match find_bytes(payload, &tag) {
            Some(i) => i,
            None => return Err(YamahaError::BadSchema("no schema block")),
        };
        proof {
            assert(crate::text::occurs_at(payload@, col_tag(), start as int));
        }
        let (root, at, cols, prs) = match read_node(payload, start) {
            Ok(t) => t,
            Err(e) => return Err(e),
        };
        let root = assign_parameter_offsets(root);
        Ok(
            Payload {
                function,
                root,
                values_at: at,
                collections: cols,
                parameters: prs,
                data: vstd::slice::slice_to_vec(payload),
            },
        )
    }

    /// Absolute offset of element `index` of a node reached by `path`.
    ///
    /// `path` names successive children from the root, e.g.
    /// `["InputChannel", "Label", "Name"]`. `index` selects which element of
    /// the *first* array encountered — enough for the strip tables.
    fn locate(&self, path: &[&str], index: u32) -> (r: Option<(usize, &Node)>)
        ensures
            match locate_spec(self@, path_view(path@), index) {
                Some((at, n)) => match r {
                    Some(found) => found.0 == at && found.1@ == n,
                    None => false,
                },
                None => r is None,
            },
    {
        let mut node = &self.root;
        let mut at: u64 = self.values_at as u64;
        let mut applied = false;
        let mut i: usize = 0;
        let ghost pv = path_view(path@);
        proof {
            assert(pv.skip(0) =~= pv);
        }
        while i < path.len()
            invariant
                i <= path@.len(),
                pv == path_view(path@),
                pv.len() == path@.len(),
                locate_from(self@.root, self@.values_at, false, pv, index) == locate_from(
                    node@,
                    at as int,
                    applied,
                    pv.skip(i as int),
                    index,
                ),
            decreases path@.len() - i,
        {
            proof {
                assert(pv.skip(i as int)[0] == path@[i as int]@);
                assert(pv.skip(i as int).drop_first() =~= pv.skip(i + 1));
            }
            match locate_step_exec(node, at, applied, path[i], index) {
                StepOutcome::Stop => {
                    return None;
                },
                StepOutcome::Overflow => {
                    proof {
                        let (c2, at2, ap2) = locate_step(node@, at as int, applied, pv.skip(i as int)[0], index).unwrap();
                        lemma_locate_grows(c2, at2, ap2, pv.skip(i + 1), index);
                    }
                    return None;
                },
                StepOutcome::Next(c, a2, ap2) => {
                    node = c;
                    at = a2;
                    applied = ap2;
                },
            }
            i = i + 1;
        }
        proof {
            assert(pv.skip(i as int) =~= Seq::<Seq<char>>::empty());
        }
        if at > usize::MAX as u64 {
            return None;
        }
        Some((at as usize, node))
    }

    /// Read a string parameter.
    pub fn string(&self, path: &[&str], index: u32) -> (r: Option<String>)
        ensures
            match string_spec(self@, path_view(path@), index) {
                Some(t) => r is Some && r->0@ == t,
                None => r is None,
            },
    {
        reveal(string_spec);
        let (at, node) = match self.locate(path, index) {
            Some(p) => p,
            None => return None,
        };
        let width = node.datasize as usize;
        if at > usize::MAX - width {
            return None;
        }
        let end = at + width;
        if end > self.data.len() {
            return None;
        }
        Some(cstr(slice_range(self.data.as_slice(), at, end)))
    }

    /// Read an unsigned integer parameter of whatever width the schema declares.
    pub fn uint(&self, path: &[&str], index: u32) -> (r: Option<u64>)
        ensures
            r == uint_spec(self@, path_view(path@), index),
    {
        reveal(uint_spec);
        let (at, node) = match self.locate(path, index) {
            Some(p) => p,
            None => return None,
        };
        let width = node.datasize as usize;
        if width == 0 || width > 8 {
            return None;
        }
        if at > self.data.len() || self.data.len() - at < width {
            return None;
        }
        let bytes = slice_range(self.data.as_slice(), at, at + width);
        let mut v: u64 = 0;
        let mut k: usize = width;
        proof {
            assert(bytes@.skip(width as int) =~= Seq::<u8>::empty());
            lemma_pow256_mono(0, 8);
        }
        while k > 0
            invariant
                k <= width,
                width <= 8,
                bytes@.len() == width,
                v == le_value(bytes@.skip(k as int)),
                v < pow256((width - k) as nat),
                pow256((width - k) as nat) <= pow256(8),
            decreases k,
        {
            k = k - 1;
            proof {
                assert(bytes@.skip(k as int).drop_first() =~= bytes@.skip(k + 1));
                assert(bytes@.skip(k as int)[0] == bytes@[k as int]);
                lemma_pow256_mono((width - k) as nat, 8);
                lemma_pow256_8();
                assert(v * 256 + bytes@[k as int] < pow256((width - k) as nat)) by (nonlinear_arith)
                    requires
                        v < pow256((width - k - 1) as nat),
                        pow256((width - k) as nat) == 256 * pow256((width - k - 1) as nat),
                        bytes@[k as int] < 256,
                ;
            }
            v = v * 256 + bytes[k] as u64;
        }
        proof {
            assert(bytes@.skip(0) =~= bytes@);
        }
        Some(v)
    }

    /// A top-level strip collection and how many elements it has.
    pub fn strip_table(&self, name: &str) -> (r: Option<u32>)
        ensures
            match child_spec(self@.root, name@) {
                Some(c) => r == Some(c.arraysize),
                None => r is None,
            },
    {
        match self.root.child(name) {
            Some(n) => Some(n.arraysize),
            None => None,
        }
    }

    /// Total bytes the schema says the root occupies.
    pub fn declared_size(&self) -> (r: u32)
        ensures
            r == self@.root.datasize,
    {
        self.root.datasize
    }

    /// Bytes actually available for values.
    pub fn value_bytes(&self) -> (r: usize)
        ensures
            r == (if self.data@.len() >= self.values_at { self.data@.len() - self.values_at } else { 0 }),
    {
        if self.data.len() >= self.values_at {
            self.data.len() - self.values_at
        } else {
            0
        }
    }
}

pub proof fn lemma_pow256_8()
    ensures
        pow256(8) == 0x1_0000_0000_0000_0000,
{
    reveal_with_fuel(pow256, 9);
}

pub proof fn lemma_pow256_mono(a: nat, b: nat)
    requires
        a <= b,
    ensures
        pow256(a) <= pow256(b),
        pow256(a) >= 1,
    decreases b,
{
    if b > 0 {
        if a < b {
            lemma_pow256_mono(a, (b - 1) as nat);
        } else {
            lemma_pow256_mono((a - 1) as nat, (b - 1) as nat);
        }
    }
}

/// The running offset only grows along a path.
pub proof fn lemma_locate_grows(node: NodeView, at: int, applied: bool, path: Seq<Seq<char>>, index: u32)
    ensures
        match locate_from(node, at, applied, path, index) {
            Some((a, _)) => a >= at,
            None => true,
        },
    decreases path.len(),
{
    if path.len() > 0 {
        match child_spec(node, path[0]) {
            None => {},
            Some(c) => {
                assert(c.datasize * index >= 0) by (nonlinear_arith);
                match locate_step(node, at, applied, path[0], index) {
                    None => {},
                    Some((c2, at2, ap2)) => {
                        lemma_locate_grows(c2, at2, ap2, path.drop_first(), index);
                    },
                }
            },
        }
    }
}

} // verus!
