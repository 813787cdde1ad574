//! Yamaha DM3 / DM7 / TF scenes and presets, and CL / QL console files.
//!
//! One adapter covers the whole modern range because the file format carries
//! its own schema — see [`mms`]. Nothing here is keyed to a model except the
//! device inventory, and an unknown model still parses.
//!
//! **CL and QL are not this format.** They are the previous architecture, read
//! by [`clf`] instead.
//!
//! # What is not verified against a console
//!
//! The **patch source encoding**. On DM3 the word splits as an index plus a
//! type code (`0x0140`, `0x0160` seen). Where the type code is unrecognised
//! the socket is left unresolved and a diagnostic is emitted rather than a
//! guess.

pub mod clf;
pub mod mbdf;
pub mod mms;

use vstd::prelude::*;

use self::mbdf::{records_view, Container, ContainerView, RecordView};
use self::mms::{
    child_spec, children_of, payload_spec, span_spec, string_spec, uint_spec, NodeView, Payload,
    PayloadView,
};
use super::{AdapterError, AdapterErrorView, Confidence, ShowAdapter, ShowInput};
use crate::lex::string_views;
use crate::model::show::{
    blank_strip, diagnostic, DeviceView, DiagnosticView, InputPatchView, ShowMetaView, ShowView,
    StripView,
};
use crate::model::signal::{strip_id_le, SignalView};
use crate::model::{
    Device, Diagnostic, Direction, InputPatch, Severity, Show, SignalRef, SocketRef, SocketView,
    Strip, StripId, StripKind, Transport, TransportView,
};
use crate::text::{
    chars_of, dec, first_match, lemma_first_match_at, lemma_first_match_none,
    lemma_first_match_same, push_char, push_dec, push_str, sort_by, string_of, trim, trim_vec,
};

verus! {

/// Why a Yamaha container or payload could not be read.
#[derive(Debug, PartialEq)]
pub enum YamahaError {
    NotMbdf,
    NotMms,
    Truncated(&'static str),
    BadRecord(String),
    BadSchema(&'static str),
}

pub enum YamahaErrorView {
    NotMbdf,
    NotMms,
    Truncated(Seq<char>),
    BadRecord(Seq<char>),
    BadSchema(Seq<char>),
}

impl View for YamahaError {
    type V = YamahaErrorView;

    open spec fn view(&self) -> YamahaErrorView {
        match self {
            YamahaError::NotMbdf => YamahaErrorView::NotMbdf,
            YamahaError::NotMms => YamahaErrorView::NotMms,
            YamahaError::Truncated(w) => YamahaErrorView::Truncated(w@),
            YamahaError::BadRecord(t) => YamahaErrorView::BadRecord(t@),
            YamahaError::BadSchema(w) => YamahaErrorView::BadSchema(w@),
        }
    }
}

/// What `format!("{:?}", s)` writes for a string: quoted, with escapes.
pub uninterp spec fn debug_text(s: Seq<char>) -> Seq<char>;

/// `format!("{:?}", s)`.
#[verifier::external_body]
fn debug_string(s: &String) -> (r: String)
    ensures
        r@ == debug_text(s@),
{
    format!("{:?}", s)
}

pub open spec fn yamaha_error_text(e: YamahaErrorView) -> Seq<char> {
    match e {
        YamahaErrorView::NotMbdf => "not a Yamaha MBDF container"@,
        YamahaErrorView::NotMms => "not an MMSXLIT payload"@,
        YamahaErrorView::Truncated(w) => "truncated: "@ + w,
        YamahaErrorView::BadRecord(t) => "unexpected record tag "@ + debug_text(t),
        YamahaErrorView::BadSchema(w) => "bad schema: "@ + w,
    }
}

impl YamahaError {
    /// The sentence shown to the user.
    pub fn message(&self) -> (r: String)
        ensures
            r@ == yamaha_error_text(self@),
    {
        match self {
            YamahaError::NotMbdf => String::from_str("not a Yamaha MBDF container"),
            YamahaError::NotMms => String::from_str("not an MMSXLIT payload"),
            YamahaError::Truncated(w) => {
                let mut s = String::from_str("truncated: ");
                crate::text::push_str(&mut s, *w);
                s
            },
            YamahaError::BadRecord(t) => {
                let mut s = String::from_str("unexpected record tag ");
                let d = debug_string(t);
                crate::text::push_str(&mut s, d.as_str());
                s
            },
            YamahaError::BadSchema(w) => {
                let mut s = String::from_str("bad schema: ");
                crate::text::push_str(&mut s, *w);
                s
            },
        }
    }
}


// ---------------------------------------------------------------------------
// Patch words, devices and strip tables
// ---------------------------------------------------------------------------

/// A patch word: the low half is a connector index, the next half a port-type
/// code. Only the codes actually observed are mapped.
pub open spec fn decode_patch_spec(word: u64) -> Option<(Seq<char>, u16)> {
    let index = word % 0x10000;
    let port = (word / 0x10000) % 0x10000;
    let conn = if index == 0xFFFF { 0u16 } else { (index + 1) as u16 };
    if port == 0x0140 {
        Some(("local"@, conn))
    } else if port == 0x0160 {
        Some(("stereo-in"@, conn))
    } else {
        None
    }
}

/// Decode a patch word into a device id and 1-based connector index.
pub fn decode_patch(word: u64) -> (r: Option<(&'static str, u16)>)
    ensures
        match r {
            Some((d, i)) => decode_patch_spec(word) == Some((d@, i)),
            None => decode_patch_spec(word) is None,
        },
{
    let index = (word % 0x10000) as u16;
    let port = ((word / 0x10000) % 0x10000) as u16;
    let conn: u16 = if index == 0xFFFF {
        0
    } else {
        index + 1
    };
    if port == 0x0140 {
        Some(("local", conn))
    } else if port == 0x0160 {
        Some(("stereo-in", conn))
    } else {
        None
    }
}

pub open spec fn yamaha_devices(model: Seq<char>, inputs: u16) -> Seq<DeviceView> {
    seq![
        DeviceView {
            id: "local"@,
            label: model + " local inputs"@,
            model: Some(model),
            transport: TransportView::Local,
            inputs,
            outputs: 0,
        },
        DeviceView {
            id: "stereo-in"@,
            label: "Stereo / playback inputs"@,
            model: None,
            transport: TransportView::Local,
            inputs: 8,
            outputs: 0,
        },
    ]
}

pub fn devices_for(model: &str, inputs: u16) -> (r: Vec<Device>)
    ensures
        crate::model::show::devices_view(r@) == yamaha_devices(model@, inputs),
{
    let mut label = String::from_str(model);
    push_str(&mut label, " local inputs");
    let local = Device {
        id: String::from_str("local"),
        label,
        model: Some(String::from_str(model)),
        transport: Transport::Local,
        inputs,
        outputs: 0,
    };
    let stereo = Device::new("stereo-in", "Stereo / playback inputs", Transport::Local, 8, 0);
    let v = vec![local, stereo];
    proof {
        assert(crate::model::show::devices_view(v@) =~= yamaha_devices(model@, inputs));
    }
    v
}

/// Top-level strip collections, in the order they are read, and the kind each
/// maps to.
pub open spec fn strip_table_at(k: int) -> (Seq<char>, StripKind) {
    if k == 0 {
        ("InputChannel"@, StripKind::Input)
    } else if k == 1 {
        ("StInChannel"@, StripKind::AuxIn)
    } else if k == 2 {
        ("FxRtnChannel"@, StripKind::FxReturn)
    } else if k == 3 {
        ("Mix"@, StripKind::Bus)
    } else if k == 4 {
        ("MixOutput"@, StripKind::Bus)
    } else if k == 5 {
        ("Matrix"@, StripKind::Matrix)
    } else if k == 6 {
        ("MatrixOutput"@, StripKind::Matrix)
    } else if k == 7 {
        ("Stereo"@, StripKind::Main)
    } else if k == 8 {
        ("StereoOutput"@, StripKind::Main)
    } else if k == 9 {
        ("Mono"@, StripKind::Mono)
    } else if k == 10 {
        ("DCA"@, StripKind::Dca)
    } else {
        ("DCAGroup"@, StripKind::Dca)
    }
}

/// Of the strip collections a scene is read from, exactly "Mix" and "MixOutput" give
/// strips of kind `Bus`, and exactly "Matrix" and "MatrixOutput" give strips of kind
/// `Matrix`.
pub proof fn law_mix_collections_are_buses_and_matrix_collections_matrices(k: int)
    requires
        0 <= k < 12,
    ensures
        (strip_table_at(k).0 == "Mix"@ || strip_table_at(k).0 == "MixOutput"@)
            <==> strip_table_at(k).1 == StripKind::Bus,
        (strip_table_at(k).0 == "Matrix"@ || strip_table_at(k).0 == "MatrixOutput"@)
            <==> strip_table_at(k).1 == StripKind::Matrix,
{
    reveal_strlit("InputChannel");
    reveal_strlit("StInChannel");
    reveal_strlit("FxRtnChannel");
    reveal_strlit("Mix");
    reveal_strlit("MixOutput");
    reveal_strlit("Matrix");
    reveal_strlit("MatrixOutput");
    reveal_strlit("Stereo");
    reveal_strlit("StereoOutput");
    reveal_strlit("Mono");
    reveal_strlit("DCA");
    reveal_strlit("DCAGroup");
    let name = strip_table_at(k).0;
    assert(name.len() > 0 && (name[0] == 'M' || name[0] == 'I' || name[0] == 'S' || name[0]
        == 'F' || name[0] == 'D'));
    if name.len() == 3 || name.len() == 6 || name.len() == 12 {
        assert(name[0] != 'M' ==> name != "Mix"@ && name != "Matrix"@ && name
            != "MatrixOutput"@);
        assert(name[1] != 'a' ==> name != "Matrix"@ && name != "MatrixOutput"@);
    }
}

fn strip_table_entry(k: usize) -> (r: (&'static str, StripKind))
    requires
        k < 12,
    ensures
        (r.0@, r.1) == strip_table_at(k as int),
{
    if k == 0 {
        ("InputChannel", StripKind::Input)
    } else if k == 1 {
        ("StInChannel", StripKind::AuxIn)
    } else if k == 2 {
        ("FxRtnChannel", StripKind::FxReturn)
    } else if k == 3 {
        ("Mix", StripKind::Bus)
    } else if k == 4 {
        ("MixOutput", StripKind::Bus)
    } else if k == 5 {
        ("Matrix", StripKind::Matrix)
    } else if k == 6 {
        ("MatrixOutput", StripKind::Matrix)
    } else if k == 7 {
        ("Stereo", StripKind::Main)
    } else if k == 8 {
        ("StereoOutput", StripKind::Main)
    } else if k == 9 {
        ("Mono", StripKind::Mono)
    } else if k == 10 {
        ("DCA", StripKind::Dca)
    } else {
        ("DCAGroup", StripKind::Dca)
    }
}

pub open spec fn nonempty_opt(o: Option<Seq<char>>) -> Option<Seq<char>> {
    match o {
        Some(t) => if t.len() > 0 {
            Some(t)
        } else {
            None
        },
        None => None,
    }
}

/// Strip `i` of a table: its label's name (trimmed), colour and icon; an input
/// channel is fed by the input slot of its own number.
#[verifier::opaque]
pub open spec fn table_strip(p: PayloadView, table: Seq<char>, kind: StripKind, i: int) -> StripView {
    let b = blank_strip(StripId { kind, index: (i + 1) as u16 });
    StripView {
        id: b.id,
        name: match string_spec(p, seq![table, "Label"@, "Name"@], i as u32) {
            Some(t) => trim(t),
            None => Seq::empty(),
        },
        colour: nonempty_opt(string_spec(p, seq![table, "Label"@, "Color"@], i as u32)),
        icon: nonempty_opt(string_spec(p, seq![table, "Label"@, "Icon"@], i as u32)),
        source: if kind == StripKind::Input {
            SignalView::InputSlot((i + 1) as u16)
        } else {
            SignalView::Off
        },
        muted: false,
        fader_db: None,
        linked_to: None,
    }
}

/// The strips of the first `k` strip tables.
#[verifier::opaque]
pub open spec fn table_strips(p: PayloadView, k: nat) -> Seq<StripView>
    decreases k,
{
    if k == 0 {
        Seq::empty()
    } else {
        let (table, kind) = strip_table_at(k - 1);
        table_strips(p, (k - 1) as nat) + match child_spec(p.root, table) {
            Some(c) => Seq::new(c.arraysize as nat, |i: int| table_strip(p, table, kind, i)),
            None => Seq::empty(),
        }
    }
}

/// How many input channels the payload declares.
pub open spec fn input_count_spec(p: PayloadView) -> u16 {
    match child_spec(p.root, "InputChannel"@) {
        Some(c) => c.arraysize as u16,
        None => 0,
    }
}

pub open spec fn patch_collection(ic: NodeView) -> Option<(Seq<char>, NodeView)> {
    match child_spec(ic, "Patch"@) {
        Some(c) => Some(("Patch"@, c)),
        None => match child_spec(ic, "InPatch"@) {
            Some(c) => Some(("InPatch"@, c)),
            None => None,
        },
    }
}

/// The input patch collection's name, its first parameter's name, and that
/// parameter's width.
#[verifier::opaque]
pub open spec fn patch_info(p: PayloadView) -> Option<(Seq<char>, Seq<char>, u32)> {
    match child_spec(p.root, "InputChannel"@) {
        None => None,
        Some(ic) => match patch_collection(ic) {
            None => None,
            Some((cname, c)) => match first_match(children_of(c), |q: NodeView| !(q.kind is Collection)) {
                Some(j) => Some((cname, children_of(c)[j].name, children_of(c)[j].datasize)),
                None => None,
            },
        },
    }
}

/// The connector feeding input `i`: only a field of four bytes or more
/// carries a port type.
#[verifier::opaque]
pub open spec fn row_socket(p: PayloadView, cname: Seq<char>, pname: Seq<char>, width: u32, i: int) -> Option<SocketView> {
    if width >= 4 {
        match uint_spec(p, seq!["InputChannel"@, cname, pname], i as u32) {
            Some(w) => match decode_patch_spec(w) {
                Some((d, idx)) => Some(SocketView { device: d, dir: Direction::In, index: idx }),
                None => None,
            },
            None => None,
        }
    } else {
        None
    }
}

pub open spec fn patch_row(p: PayloadView, cname: Seq<char>, pname: Seq<char>, width: u32, i: int) -> InputPatchView {
    InputPatchView {
        slot: (i + 1) as u16,
        block_label: Seq::empty(),
        socket: row_socket(p, cname, pname, width, i),
        strip: Some(StripId { kind: StripKind::Input, index: (i + 1) as u16 }),
    }
}

/// How many of the first `k` inputs have no connector.
pub open spec fn unresolved_count(p: PayloadView, cname: Seq<char>, pname: Seq<char>, width: u32, k: nat) -> nat
    decreases k,
{
    if k == 0 {
        0
    } else {
        unresolved_count(p, cname, pname, width, (k - 1) as nat) + if row_socket(p, cname, pname, width, k - 1) is None {
            1nat
        } else {
            0nat
        }
    }
}

pub open spec fn unresolved_detail(cname: Seq<char>, pname: Seq<char>, width: u32) -> Seq<char> {
    if width >= 4 {
        "their port-type code is not one of the values observed so far, so the connector is left blank rather than guessed"@
    } else {
        "this model's "@ + cname + "/"@ + pname + " field is only "@ + dec(width as nat)
            + " byte(s) and carries a source selector, not a port; the connector is chosen by a separate collection that has not been decoded"@
    }
}

/// The input patch and what is said about it.
#[verifier::opaque]
pub open spec fn patch_spec(p: PayloadView, n: u16) -> (Seq<InputPatchView>, Seq<DiagnosticView>) {
    match patch_info(p) {
        Some((cname, pname, width)) => {
            let rows = Seq::new(n as nat, |i: int| patch_row(p, cname, pname, width, i));
            let u = unresolved_count(p, cname, pname, width, n as nat);
            (
                rows,
                if u > 0 {
                    seq![
                        diagnostic(
                            Severity::Unknown,
                            "MMSXLIT/Mixing/InputChannel/"@ + cname + "/"@ + pname,
                            dec(u) + " of "@ + dec(n as nat) + " channels have no resolved connector: "@
                                + unresolved_detail(cname, pname, width),
                        ),
                    ]
                } else {
                    Seq::empty()
                },
            )
        },
        None => (
            Seq::empty(),
            seq![
                diagnostic(
                    Severity::Unknown,
                    "MMSXLIT/Mixing/InputChannel"@,
                    "no input patch collection found (looked for Patch or InPatch); the connector column of the patch list is unknown for this model"@,
                ),
            ],
        ),
    }
}

/// Sum of the root children's spans, in 32-bit arithmetic that wraps.
pub open spec fn span_sum(cs: Seq<NodeView>) -> u32
    decreases cs.len(),
{
    if cs.len() == 0 {
        0
    } else {
        let s = span_sum(cs.drop_last()) + span_spec(cs.last().datasize, cs.last().arraysize);
        if s > 0xFFFF_FFFF {
            (s - 0x1_0000_0000) as u32
        } else {
            s as u32
        }
    }
}

pub open spec fn hex_digit(d: int) -> char {
    if d < 10 {
        ((d + 48) as u32) as char
    } else {
        ((d + 87) as u32) as char
    }
}

/// Two lower-case hexadecimal digits.
pub open spec fn hex2(b: u8) -> Seq<char> {
    seq![hex_digit((b / 16) as int), hex_digit((b % 16) as int)]
}

pub open spec fn version_text(v: Seq<u8>) -> Seq<char> {
    hex2(v[0]) + hex2(v[1]) + hex2(v[2]) + hex2(v[3])
}

/// An `Info/<field>` string of the scene record, trimmed, if not empty.
pub open spec fn info_field(info: PayloadView, field: Seq<char>) -> Option<Seq<char>> {
    match string_spec(info, seq!["Info"@, field], 0) {
        Some(t) => if trim(t).len() > 0 {
            Some(trim(t))
        } else {
            None
        },
        None => None,
    }
}

pub open spec fn named_record(c: ContainerView, name: Seq<char>) -> Option<RecordView> {
    match first_match(c.records, |r: RecordView| r.name == name) {
        Some(i) => Some(c.records[i]),
        None => None,
    }
}

/// The scene identity: title, comment and, where it differs from the model,
/// the product sub-name.
#[verifier::opaque]
pub open spec fn scene_meta(c: ContainerView, m: ShowMetaView) -> ShowMetaView {
    let rec = match named_record(c, "Scene"@) {
        Some(r) => Some(r),
        None => named_record(c, "Preset"@),
    };
    match rec {
        None => m,
        Some(r) => match payload_spec(r.payload) {
            Err(_) => m,
            Ok(info) => ShowMetaView {
                name: match info_field(info, "Title"@) {
                    Some(t) => t,
                    None => m.name,
                },
                note: info_field(info, "Comment"@),
                source_format: m.source_format,
                console: match info_field(info, "ProductSubName"@) {
                    Some(sub) => if sub != c.model {
                        "Yamaha "@ + sub
                    } else {
                        m.console
                    },
                    None => m.console,
                },
                format_version: m.format_version,
            },
        },
    }
}

pub open spec fn base_meta(c: ContainerView) -> ShowMetaView {
    ShowMetaView {
        name: Seq::empty(),
        note: None,
        source_format: "yamaha-mms"@,
        console: if c.model.len() == 0 {
            "Yamaha"@
        } else {
            "Yamaha "@ + c.model
        },
        format_version: Some(version_text(c.version)),
    }
}

pub open spec fn preset_diags(c: ContainerView) -> Seq<DiagnosticView> {
    if c.subtype == "Preset"@ {
        seq![
            diagnostic(
                Severity::Unmodelled,
                "#YAMAHA MBDF"@ + c.subtype,
                "this is a channel preset, not a scene — it carries one strip's processing and no patch, routing or head-amp state, so no patch list can be built from it"@,
            ),
        ]
    } else {
        Seq::empty()
    }
}

pub open spec fn record_names(rs: Seq<RecordView>) -> Seq<Seq<char>> {
    rs.map_values(|r: RecordView| r.name)
}

pub open spec fn empty_show(meta: ShowMetaView) -> ShowView {
    ShowView {
        meta,
        devices: Seq::empty(),
        head_amps: Seq::empty(),
        strips: Seq::empty(),
        inputs: Seq::empty(),
        outputs: Seq::empty(),
        scenes: Seq::empty(),
        diagnostics: Seq::empty(),
    }
}

/// What a scene or preset container reads as.
pub open spec fn parse_container_spec(bytes: Seq<u8>) -> Result<ShowView, YamahaErrorView> {
    match mbdf::container_spec(bytes) {
        Err(e) => Err(e),
        Ok(c) => {
            let meta = scene_meta(c, base_meta(c));
            let d0 = preset_diags(c);
            match named_record(c, "Mixing"@) {
                None => Ok(
                    empty_show(meta).with_diagnostics(
                        d0.push(
                            diagnostic(
                                Severity::Unknown,
                                "#MMS FIELD"@,
                                "no Mixing record in this "@ + c.subtype + " container; records present: "@
                                    + crate::lex::join_spec(record_names(c.records), ", "@),
                            ),
                        ),
                    ),
                ),
                Some(rec) => match payload_spec(rec.payload) {
                    Err(e) => Err(e),
                    Ok(p) => Ok(mixing_view(meta, d0, p, c.model)),
                },
            }
        },
    }
}

/// A show decoded from a `Mixing` payload, after the given meta and
/// diagnostics.
#[verifier::opaque]
pub open spec fn mixing_view(meta: ShowMetaView, d0: Seq<DiagnosticView>, p: PayloadView, model: Seq<char>) -> ShowView {
    let summed = span_sum(children_of(p.root));
    let d1 = if summed != p.root.datasize {
        d0.push(
            diagnostic(
                Severity::Suspect,
                "MMSXLIT/"@ + p.function,
                "schema children sum to "@ + dec(summed as nat) + " bytes but the root declares "@
                    + dec(p.root.datasize as nat)
                    + "; decoded values below this point are not trustworthy"@,
            ),
        )
    } else {
        d0
    };
    let n = input_count_spec(p);
    let (rows, pd) = patch_spec(p, n);
    let d2 = (d1 + pd).push(
        diagnostic(
            Severity::Unmodelled,
            "MMSXLIT/"@ + p.function,
            dec(p.collections) + " collections and "@ + dec(p.parameters)
                + " parameters were read; PFX currently models names, colours, icons and the input patch. Head-amp gain, bus sends, EQ and dynamics are present in the file but not yet carried across"@,
        ),
    );
    ShowView {
        meta,
        devices: yamaha_devices(model, if n > 1 { n } else { 1 }),
        head_amps: Seq::empty(),
        strips: sort_by(table_strips(p, 12), |a: StripView, b: StripView| strip_id_le(a.id, b.id)),
        inputs: rows,
        outputs: Seq::empty(),
        scenes: Seq::empty(),
        diagnostics: d2,
    }
}

// ---------------------------------------------------------------------------
// Decoding a container into a show
// ---------------------------------------------------------------------------

fn hex_digit_exec(d: u8) -> (r: char)
    requires
        d < 16,
    ensures
        r == hex_digit(d as int),
{
    if d < 10 {
        (d + 48) as char
    } else {
        (d + 87) as char
    }
}

pub(crate) fn push_hex2(s: &mut String, b: u8)
    ensures
        final(s)@ == old(s)@ + hex2(b),
{
    push_char(s, hex_digit_exec(b / 16));
    push_char(s, hex_digit_exec(b % 16));
    proof {
        assert(final(s)@ =~= old(s)@ + hex2(b));
    }
}

/// The first record with this name.
fn find_record<'a>(c: &'a Container, name: &str) -> (r: Option<&'a mbdf::Record>)
    ensures
        match named_record(c@, name@) {
            Some(rv) => match r {
                Some(x) => x@ == rv,
                None => false,
            },
            None => r is None,
        },
{
    let r = c.record(name);
    proof {
        let v = records_view(c.records@);
        assert forall|i: int| 0 <= i < c.records@.len() implies (c.records@[i].name@ == name@) == ((|x: RecordView| x.name == name@)(v[i])) by {
            assert(v[i] == c.records@[i]@);
        }
        lemma_first_match_same(c.records@, |x: mbdf::Record| x.name@ == name@, v, |x: RecordView| x.name == name@);
        match first_match(v, |x: RecordView| x.name == name@) {
            Some(i) => {
                assert(v[i] == c.records@[i]@);
            },
            None => {},
        }
    }
    r
}

/// An `Info/<field>` string, trimmed, if not empty.
fn info_field_exec(info: &Payload, field: &str) -> (r: Option<String>)
    ensures
        crate::model::show::opt_text(r) == info_field(info@, field@),
{
    let path: [&str; 2] = ["Info", field];
    proof {
        assert(mms::path_view(path@) =~= seq!["Info"@, field@]);
    }
    match info.string(&path, 0) {
        Some(t) => {
            let tc = chars_of(t.as_str());
            let tt = trim_vec(tc.as_slice());
            if tt.len() > 0 {
                Some(string_of(tt.as_slice()))
            } else {
                None
            }
        },
        None => None,
    }
}

fn yamaha_meta(c: &Container) -> (r: crate::model::ShowMeta)
    ensures
        r@ == scene_meta(c@, base_meta(c@)),
{
    reveal(scene_meta);
    let mut meta = crate::model::ShowMeta::default();
    meta.source_format = String::from_str("yamaha-mms");
    if c.model.as_str().is_empty() {
        meta.console = String::from_str("Yamaha");
    } else {
        let mut con = String::from_str("Yamaha ");
        push_str(&mut con, c.model.as_str());
        meta.console = con;
    }
    let mut v = String::new();
    push_hex2(&mut v, c.version[0]);
    push_hex2(&mut v, c.version[1]);
    push_hex2(&mut v, c.version[2]);
    push_hex2(&mut v, c.version[3]);
    proof {
        assert(v@ =~= version_text(c@.version));
    }
    meta.format_version = Some(v);
    proof {
        assert(meta@ == base_meta(c@));
    }
    let rec = match find_record(c, "Scene") {
        Some(r) => Some(r),
        None => find_record(c, "Preset"),
    };
    let rec = match rec {
        Some(r) => r,
        None => return meta,
    };
    let info = match Payload::parse(rec.payload.as_slice()) {
        Ok(i) => i,
        Err(_) => return meta,
    };
    match info_field_exec(&info, "Title") {
        Some(t) => {
            meta.name = t;
        },
        None => {},
    }
    meta.note = info_field_exec(&info, "Comment");
    match info_field_exec(&info, "ProductSubName") {
        Some(sub) => {
            let a = chars_of(sub.as_str());
            let b = chars_of(c.model.as_str());
            if !crate::text::eq_chars(a.as_slice(), b.as_slice()) {
                let mut con = String::from_str("Yamaha ");
                push_str(&mut con, sub.as_str());
                meta.console = con;
            }
        },
        None => {},
    }
    meta
}

/// The strips of one table, appended to `show`.
fn push_table_strips(show: &mut Show, p: &Payload, table: &str, kind: StripKind, count: u32)
    ensures
        final(show)@ == old(show)@.with_strips(
            old(show)@.strips + Seq::new(count as nat, |i: int| table_strip(p@, table@, kind, i)),
        ),
{
    reveal(table_strip);
    let ghost s0 = show@;
    let mut i: u32 = 0;
    proof {
        assert(s0.strips + Seq::new(0, |j: int| table_strip(p@, table@, kind, j)) =~= s0.strips);
    }
    while i < count
        invariant
            i <= count,
            show@ == s0.with_strips(s0.strips + Seq::new(i as nat, |j: int| table_strip(p@, table@, kind, j))),
        decreases count - i,
    {
        proof {
            reveal(table_strip);
        }
        let mut strip = Strip::new(StripId::new(kind, (i + 1) as u16));
        let pn: [&str; 3] = [table, "Label", "Name"];
        let pc: [&str; 3] = [table, "Label", "Color"];
        let pi: [&str; 3] = [table, "Label", "Icon"];
        proof {
            assert(mms::path_view(pn@) =~= seq![table@, "Label"@, "Name"@]);
            assert(mms::path_view(pc@) =~= seq![table@, "Label"@, "Color"@]);
            assert(mms::path_view(pi@) =~= seq![table@, "Label"@, "Icon"@]);
        }
        match p.string(&pn, i) {
            Some(t) => {
                let tc = chars_of(t.as_str());
                let tt = trim_vec(tc.as_slice());
                strip.name = string_of(tt.as_slice());
            },
            None => {},
        }
        strip.colour = match p.string(&pc, i) {
            Some(t) => if t.as_str().is_empty() {
                None
            } else {
                Some(t)
            },
            None => None,
        };
        strip.icon = match p.string(&pi, i) {
            Some(t) => if t.as_str().is_empty() {
                None
            } else {
                Some(t)
            },
            None => None,
        };
        if kind == StripKind::Input {
            strip.source = SignalRef::InputSlot((i + 1) as u16);
        }
        proof {
            assert(strip@ == table_strip(p@, table@, kind, i as int));
        }
        show.push_strip(strip);
        i = i + 1;
        proof {
            assert(s0.strips + Seq::new(i as nat, |j: int| table_strip(p@, table@, kind, j)) =~= (s0.strips + Seq::new((i - 1) as nat, |j: int| table_strip(p@, table@, kind, j))).push(table_strip(p@, table@, kind, i - 1)));
        }
    }
}

/// The input patch collection and its first parameter.
fn patch_info_exec(p: &Payload) -> (r: Option<(&'static str, String, u32)>)
    ensures
        match patch_info(p@) {
            Some((c, n, w)) => match r {
                Some(x) => x.0@ == c && x.1@ == n && x.2 == w,
                None => false,
            },
            None => r is None,
        },
{
    reveal(patch_info);
    let ic = match p.root.child("InputChannel") {
        Some(x) => x,
        None => return None,
    };
    proof {
        assert(child_spec(p@.root, "InputChannel"@) == Some(ic@));
    }
    let (cname, c): (&'static str, &mms::Node) = match ic.child("Patch") {
        Some(x) => ("Patch", x),
        None => match ic.child("InPatch") {
            Some(x) => ("InPatch", x),
            None => return None,
        },
    };
    let kids = c.children();
    let ghost v = mms::nodes_view(kids@);
    proof {
        mms::lemma_nodes_view_len(kids@);
        assert(patch_collection(ic@) == Some((cname@, c@)));
        assert(v == children_of(c@));
    }
    let mut j: usize = 0;
    while j < kids.len()
        invariant
            j <= kids@.len(),
            v == mms::nodes_view(kids@),
            v.len() == kids@.len(),
            v == children_of(c@),
            child_spec(p@.root, "InputChannel"@) == Some(ic@),
            patch_collection(ic@) == Some((cname@, c@)),
            forall|q: int| 0 <= q < j ==> (#[trigger] v[q]).kind is Collection,
        decreases kids@.len() - j,
    {
        proof {
            reveal(patch_info);
            mms::lemma_nodes_view_index(kids@, j as int);
        }
        if !kids[j].is_collection() {
            proof {
                lemma_first_match_at(v, |q: NodeView| !(q.kind is Collection), j as int);
                assert(v[j as int] == kids@[j as int]@);
            }
            return Some((cname, kids[j].name.clone(), kids[j].datasize));
        }
        j = j + 1;
    }
    proof {
        lemma_first_match_none(v, |q: NodeView| !(q.kind is Collection));
    }
    None
}

/// The connector of input `i`.
fn row_socket_exec(p: &Payload, cname: &str, pname: &String, width: u32, i: u32) -> (r: Option<SocketRef>)
    ensures
        crate::model::show::opt_socket(r) == row_socket(p@, cname@, pname@, width, i as int),
{
    reveal(row_socket);
    if width < 4 {
        return None;
    }
    let path: [&str; 3] = ["InputChannel", cname, pname.as_str()];
    proof {
        assert(mms::path_view(path@) =~= seq!["InputChannel"@, cname@, pname@]);
    }
    match p.uint(&path, i) {
        Some(w) => match decode_patch(w) {
            Some((d, idx)) => Some(SocketRef::new(d, Direction::In, idx)),
            None => None,
        },
        None => None,
    }
}

fn unresolved_detail_exec(cname: &str, pname: &String, width: u32) -> (r: String)
    ensures
        r@ == unresolved_detail(cname@, pname@, width),
{
    if width >= 4 {
        String::from_str(
            "their port-type code is not one of the values observed so far, so the connector is left blank rather than guessed",
        )
    } else {
        let mut m = String::from_str("this model's ");
        push_str(&mut m, cname);
        push_str(&mut m, "/");
        push_str(&mut m, pname.as_str());
        push_str(&mut m, " field is only ");
        push_dec(&mut m, width as u64);
        push_str(
            &mut m,
            " byte(s) and carries a source selector, not a port; the connector is chosen by a separate collection that has not been decoded",
        );
        m
    }
}

/// Compose the input patch rows and their diagnostic.
fn push_patch(show: &mut Show, p: &Payload, n: u16)
    ensures
        final(show)@ == old(show)@.with_inputs(old(show)@.inputs + patch_spec(p@, n).0).with_diagnostics(
            old(show)@.diagnostics + patch_spec(p@, n).1,
        ),
{
    reveal(patch_spec);
    let ghost s0 = show@;
    match patch_info_exec(p) {
        None => {
            show.push_diagnostic(
                Diagnostic::new(
                    Severity::Unknown,
                    String::from_str("MMSXLIT/Mixing/InputChannel"),
                    String::from_str(
                        "no input patch collection found (looked for Patch or InPatch); the connector column of the patch list is unknown for this model",
                    ),
                ),
            );
            proof {
                assert(s0.inputs + Seq::<InputPatchView>::empty() =~= s0.inputs);
                assert(show@.diagnostics =~= s0.diagnostics + patch_spec(p@, n).1);
                assert(show@ == s0.with_inputs(s0.inputs + patch_spec(p@, n).0).with_diagnostics(
                    s0.diagnostics + patch_spec(p@, n).1,
                ));
            }
        },
        Some((cname, pname, width)) => {
            let ghost cn = cname@;
            let ghost pn = pname@;
            let mut unresolved: u32 = 0;
            let mut i: u32 = 0;
            proof {
                assert(s0.inputs + Seq::new(0, |j: int| patch_row(p@, cn, pn, width, j)) =~= s0.inputs);
            }
            while i < n as u32
                invariant
                    i <= n,
                    cn == cname@,
                    pn == pname@,
                    unresolved == unresolved_count(p@, cn, pn, width, i as nat),
                    unresolved <= i,
                    show@ == s0.with_inputs(s0.inputs + Seq::new(i as nat, |j: int| patch_row(p@, cn, pn, width, j))),
                decreases n - i,
            {
                proof {
                    reveal(patch_spec);
                }
                let socket = row_socket_exec(p, cname, &pname, width, i);
                if socket.is_none() {
                    unresolved = unresolved + 1;
                }
                let row = InputPatch {
                    slot: (i + 1) as u16,
                    block_label: String::new(),
                    socket,
                    strip: Some(StripId::new(StripKind::Input, (i + 1) as u16)),
                };
                proof {
                    assert(row@ == patch_row(p@, cn, pn, width, i as int));
                }
                show.push_input(row);
                i = i + 1;
                proof {
                    assert(s0.inputs + Seq::new(i as nat, |j: int| patch_row(p@, cn, pn, width, j)) =~= (s0.inputs + Seq::new((i - 1) as nat, |j: int| patch_row(p@, cn, pn, width, j))).push(patch_row(p@, cn, pn, width, i - 1)));
                }
            }
            proof {
                assert(Seq::new(n as nat, |j: int| patch_row(p@, cn, pn, width, j)) =~= patch_spec(p@, n).0);
            }
            if unresolved > 0 {
                let mut m = String::new();
                push_dec(&mut m, unresolved as u64);
                push_str(&mut m, " of ");
                push_dec(&mut m, n as u64);
                push_str(&mut m, " channels have no resolved connector: ");
                let detail = unresolved_detail_exec(cname, &pname, width);
                push_str(&mut m, detail.as_str());
                let mut l = String::from_str("MMSXLIT/Mixing/InputChannel/");
                push_str(&mut l, cname);
                push_str(&mut l, "/");
                push_str(&mut l, pname.as_str());
                show.push_diagnostic(Diagnostic::new(Severity::Unknown, l, m));
                proof {
                    assert(show@.diagnostics =~= s0.diagnostics + patch_spec(p@, n).1);
                    assert(show@.inputs == s0.inputs + patch_spec(p@, n).0);
                    assert(show@ == s0.with_inputs(s0.inputs + patch_spec(p@, n).0).with_diagnostics(
                        s0.diagnostics + patch_spec(p@, n).1,
                    ));
                }
            } else {
                proof {
                    assert(s0.diagnostics + Seq::<DiagnosticView>::empty() =~= s0.diagnostics);
                    assert(show@.inputs == s0.inputs + patch_spec(p@, n).0);
                    assert(show@ == s0.with_inputs(s0.inputs + patch_spec(p@, n).0).with_diagnostics(
                        s0.diagnostics + patch_spec(p@, n).1,
                    ));
                }
            }
        },
    }
}

/// Sum of the children's spans, wrapping at 32 bits.
fn span_sum_exec(kids: &[mms::Node]) -> (r: u32)
    ensures
        r == span_sum(mms::nodes_view(kids@)),
{
    let ghost v = mms::nodes_view(kids@);
    proof {
        mms::lemma_nodes_view_len(kids@);
        assert(v.take(0) =~= Seq::<NodeView>::empty());
    }
    let mut sum: u32 = 0;
    let mut i: usize = 0;
    while i < kids.len()
        invariant
            i <= kids@.len(),
            v == mms::nodes_view(kids@),
            v.len() == kids@.len(),
            sum == span_sum(v.take(i as int)),
        decreases kids@.len() - i,
    {
        proof {
            mms::lemma_nodes_view_index(kids@, i as int);
            assert(v.take(i + 1).drop_last() =~= v.take(i as int));
            assert(v.take(i + 1).last() == kids@[i as int]@);
        }
        let sp = kids[i].span();
        sum = if sum > 0xFFFF_FFFF - sp {
            sum - (0xFFFF_FFFF - sp) - 1
        } else {
            sum + sp
        };
        i = i + 1;
    }
    proof {
        assert(v.take(i as int) =~= v);
    }
    sum
}

/// The strips of table `k`, appended; the table's size, if it is there.
#[verifier::rlimit(40)]
fn push_table_k(show: &mut Show, payload: &Payload, k: usize) -> (r: Option<u32>)
    requires
        k < 12,
    ensures
        final(show)@ == old(show)@.with_strips(
            old(show)@.strips + (table_strips(payload@, (k + 1) as nat).skip(
                table_strips(payload@, k as nat).len() as int,
            )),
        ),
        table_strips(payload@, (k + 1) as nat).take(table_strips(payload@, k as nat).len() as int)
            == table_strips(payload@, k as nat),
        table_strips(payload@, (k + 1) as nat).len() >= table_strips(payload@, k as nat).len(),
        match child_spec(payload@.root, strip_table_at(k as int).0) {
            Some(c) => r == Some(c.arraysize),
            None => r is None,
        },
{
    let (table, kind) = strip_table_entry(k);
    let ghost s0 = show@;
    let r = payload.strip_table(table);
    proof {
        reveal_with_fuel(table_strips, 1);
    }
    let ghost prev = table_strips(payload@, k as nat);
    match r {
        Some(count) => {
            push_table_strips(show, payload, table, kind, count);
            proof {
                let add = Seq::new(count as nat, |i: int| table_strip(payload@, table@, kind, i));
                assert(table_strips(payload@, (k + 1) as nat) =~= prev + add);
                assert((prev + add).skip(prev.len() as int) =~= add);
                assert((prev + add).take(prev.len() as int) =~= prev);
            }
        },
        None => {
            proof {
                assert(table_strips(payload@, (k + 1) as nat) =~= prev);
                assert(prev.skip(prev.len() as int) =~= Seq::<StripView>::empty());
                assert(prev.take(prev.len() as int) =~= prev);
                assert(show@.strips =~= s0.strips + Seq::<StripView>::empty());
            }
        },
    }
    r
}

/// The strips of every strip table, appended; the input channel count.
fn push_all_strips(show: &mut Show, payload: &Payload) -> (n: u16)
    ensures
        final(show)@ == old(show)@.with_strips(old(show)@.strips + table_strips(payload@, 12)),
        n == input_count_spec(payload@),
{
    let ghost s0 = show@;
    let mut input_count: u16 = 0;
    let mut k: usize = 0;
    proof {
        reveal(table_strips);
        assert(s0.strips + table_strips(payload@, 0) =~= s0.strips);
    }
    while k < 12
        invariant
            k <= 12,
            show@ == s0.with_strips(s0.strips + table_strips(payload@, k as nat)),
            input_count == (if k > 0 { input_count_spec(payload@) } else { 0 }),
        decreases 12 - k,
    {
        let ghost before = show@.strips;
        let r = push_table_k(show, payload, k);
        if k == 0 {
            match r {
                Some(count) => {
                    input_count = count as u16;
                },
                None => {},
            }
        }
        proof {
            let t0 = table_strips(payload@, k as nat);
            let t1 = table_strips(payload@, (k + 1) as nat);
            assert(t1 =~= t1.take(t0.len() as int) + t1.skip(t0.len() as int));
            assert(t1 =~= t0 + t1.skip(t0.len() as int));
            assert(show@.strips =~= s0.strips + t1);
        }
        k = k + 1;
    }
    input_count
}

fn sort_show_strips(show: &mut Show)
    ensures
        final(show)@ == old(show)@.with_strips(
            sort_by(old(show)@.strips, |a: StripView, b: StripView| strip_id_le(a.id, b.id)),
        ),
{
    let mut v: Vec<Strip> = Vec::new();
    std::mem::swap(&mut v, &mut show.strips);
    let ghost vs = v@;
    let sorted = crate::text::stable_sort(v);
    proof {
        let f = |s: Strip| s@;
        let le = |a: StripView, b: StripView| strip_id_le(a.id, b.id);
        crate::text::lemma_sorted_map(vs, f, le);
        assert(vs.map_values(f) =~= crate::model::show::strips_view(vs));
        assert(crate::text::sorted_spec(vs).map_values(f) =~= crate::model::show::strips_view(sorted@));
    }
    show.strips = sorted;
}

/// Fill a show from the `Mixing` payload.
#[verifier::rlimit(40)]
fn decode_mixing(show: &mut Show, payload: &Payload, model: &str)
    requires
        old(show)@ == empty_show(old(show)@.meta).with_diagnostics(old(show)@.diagnostics),
    ensures
        final(show)@ == mixing_view(old(show)@.meta, old(show)@.diagnostics, payload@, model@),
{
    reveal(mixing_view);
    let ghost s0 = show@;
    let summed = span_sum_exec(payload.root.children());
    if summed != payload.declared_size() {
        let mut l = String::from_str("MMSXLIT/");
        push_str(&mut l, payload.function.as_str());
        let mut m = String::from_str("schema children sum to ");
        push_dec(&mut m, summed as u64);
        push_str(&mut m, " bytes but the root declares ");
        push_dec(&mut m, payload.declared_size() as u64);
        push_str(&mut m, "; decoded values below this point are not trustworthy");
        show.push_diagnostic(Diagnostic::new(Severity::Suspect, l, m));
    }
    let input_count = push_all_strips(show, payload);
    push_patch(show, payload, input_count);
    let mut l = String::from_str("MMSXLIT/");
    push_str(&mut l, payload.function.as_str());
    let mut m = String::new();
    push_dec(&mut m, payload.collections as u64);
    push_str(&mut m, " collections and ");
    push_dec(&mut m, payload.parameters as u64);
    push_str(
        &mut m,
        " parameters were read; PFX currently models names, colours, icons and the input patch. Head-amp gain, bus sends, EQ and dynamics are present in the file but not yet carried across",
    );
    show.push_diagnostic(Diagnostic::new(Severity::Unmodelled, l, m));
    let n = if input_count > 1 {
        input_count
    } else {
        1
    };
    show.devices = devices_for(model, n);
    sort_show_strips(show);
    proof {
        assert(Seq::<InputPatchView>::empty() + patch_spec(payload@, input_count).0 =~= patch_spec(payload@, input_count).0);
        assert(Seq::<StripView>::empty() + table_strips(payload@, 12) =~= table_strips(payload@, 12));
    }
}

/// Decode a scene or preset container into a show.
pub fn parse_container(bytes: &[u8]) -> (r: Result<Show, YamahaError>)
    ensures
        match r {
            Ok(s) => parse_container_spec(bytes@) == Ok::<ShowView, YamahaErrorView>(s@),
            Err(e) => parse_container_spec(bytes@) == Err::<ShowView, YamahaErrorView>(e@),
        },
{
    let container = match Container::parse(bytes) {
        Ok(c) => c,
        Err(e) => return Err(e),
    };
    let ghost c = container@;
    let mut show = Show::default();
    show.meta = yamaha_meta(&container);
    let sub = chars_of(container.subtype.as_str());
    if crate::text::eq_str(sub.as_slice(), "Preset") {
        let mut l = String::from_str("#YAMAHA MBDF");
        push_str(&mut l, container.subtype.as_str());
        show.push_diagnostic(
            Diagnostic::new(
                Severity::Unmodelled,
                l,
                String::from_str(
                    "this is a channel preset, not a scene — it carries one strip's processing and no patch, routing or head-amp state, so no patch list can be built from it",
                ),
            ),
        );
    }
    proof {
        assert(show@.diagnostics =~= preset_diags(c));
        assert(show@.strips =~= Seq::<StripView>::empty());
        assert(show@.devices =~= Seq::<DeviceView>::empty());
        assert(show@.inputs =~= Seq::<InputPatchView>::empty());
        assert(show@.outputs =~= Seq::<crate::model::show::OutputPatchView>::empty());
        assert(show@.head_amps =~= Seq::<crate::model::show::HeadAmpView>::empty());
        assert(show@.scenes =~= Seq::<crate::model::show::SceneView>::empty());
        assert(show@ == empty_show(show@.meta).with_diagnostics(show@.diagnostics));
    }
    let record = match find_record(&container, "Mixing") {
        Some(r) => r,
        None => {
            no_mixing(&mut show, &container);
            return Ok(show);
        },
    };
    let payload = match Payload::parse(record.payload.as_slice()) {
        Ok(p) => p,
        Err(e) => return Err(e),
    };
    decode_mixing(&mut show, &payload, container.model.as_str());
    Ok(show)
}

/// Say that there is no `Mixing` record, and which records there are.
fn no_mixing(show: &mut Show, container: &Container)
    ensures
        final(show)@ == old(show)@.push_diagnostic(
            diagnostic(
                Severity::Unknown,
                "#MMS FIELD"@,
                "no Mixing record in this "@ + container@.subtype + " container; records present: "@
                    + crate::lex::join_spec(record_names(container@.records), ", "@),
            ),
        ),
{
    let ghost c = container@;
    let mut names: Vec<String> = Vec::new();
    let mut i: usize = 0;
    proof {
        assert(string_views(names@) =~= record_names(c.records).take(0));
    }
    while i < container.records.len()
        invariant
            i <= container.records@.len(),
            c == container@,
            string_views(names@) == record_names(c.records).take(i as int),
        decreases container.records@.len() - i,
    {
        let ghost before = string_views(names@);
        let nm = container.records[i].name.clone();
        names.push(nm);
        proof {
            assert(c.records[i as int] == container.records@[i as int]@);
            assert(string_views(names@) =~= before.push(container.records@[i as int].name@));
            assert(record_names(c.records).take(i + 1) =~= record_names(c.records).take(i as int).push(c.records[i as int].name));
        }
        i = i + 1;
    }
    proof {
        assert(record_names(c.records).take(i as int) =~= record_names(c.records));
    }
    let mut m = String::from_str("no Mixing record in this ");
    push_str(&mut m, container.subtype.as_str());
    push_str(&mut m, " container; records present: ");
    crate::lex::push_joined(&mut m, names.as_slice(), ", ");
    show.push_diagnostic(Diagnostic::new(Severity::Unknown, String::from_str("#MMS FIELD"), m));
}


// ---------------------------------------------------------------------------
// The adapter
// ---------------------------------------------------------------------------

pub open spec fn yamaha_sniff_spec(files: Seq<super::ShowFile>) -> Confidence {
    if files.len() > 0 && mbdf::looks_like_spec(files[0].bytes@) {
        Confidence::Strong
    } else {
        Confidence::No
    }
}

pub open spec fn yamaha_parse_spec(files: Seq<super::ShowFile>) -> Result<ShowView, AdapterErrorView> {
    if files.len() == 0 {
        Err(AdapterErrorView::Unrecognised)
    } else {
        match parse_container_spec(files[0].bytes@) {
            Ok(sv) => Ok(sv),
            Err(e) => Err(AdapterErrorView::Parse { adapter: "yamaha-mms"@, message: yamaha_error_text(e) }),
        }
    }
}

pub struct YamahaAdapter;

impl ShowAdapter for YamahaAdapter {
    fn id(&self) -> (r: &'static str)
        ensures
            r@ == "yamaha-mms"@,
    {
        "yamaha-mms"
    }

    fn display_name(&self) -> (r: &'static str)
        ensures
            r@ == "Yamaha DM3 / DM7 / TF scene"@,
    {
        "Yamaha DM3 / DM7 / TF scene"
    }

    fn extensions(&self) -> (r: &'static [&'static str])
        ensures
            r@.map_values(|e: &str| e@) == seq!["dm3s"@, "dm7s"@, "tfs"@, "dm3p"@, "dm7p"@, "tfp"@],
    {
        let r: &'static [&'static str] = &["dm3s", "dm7s", "tfs", "dm3p", "dm7p", "tfp"];
        proof {
            assert(r@.map_values(|e: &str| e@) =~= seq!["dm3s"@, "dm7s"@, "tfs"@, "dm3p"@, "dm7p"@, "tfp"@]);
        }
        r
    }

    /// The container magic is specific enough to be conclusive on its own.
    fn sniff(&self, input: &ShowInput) -> (r: Confidence)
        ensures
            r == yamaha_sniff_spec(input.files@),
    {
        match input.primary() {
            Some(file) => if Container::looks_like(file.bytes.as_slice()) {
                Confidence::Strong
            } else {
                Confidence::No
            },
            None => Confidence::No,
        }
    }

    fn parse(&self, input: &ShowInput) -> (r: Result<Show, AdapterError>)
        ensures
            super::x32::show_result_view(r) == yamaha_parse_spec(input.files@),
    {
        let file = match input.primary() {
            Some(f) => f,
            None => return Err(AdapterError::Unrecognised),
        };
        match parse_container(file.bytes.as_slice()) {
            Ok(s) => Ok(s),
            Err(e) => Err(AdapterError::Parse { adapter: "yamaha-mms", message: e.message() }),
        }
    }
}

} // verus!
