//! Yamaha CL / QL — the `.CLF` console file.
//!
//! **Not the MMS/MBDF format** used by DM3, DM7 and TF (see [`super::mms`]).
//! CL and QL are the previous architecture: a flat, uncompressed binary with no
//! self-description. Everything below came from controlled diffs through QL
//! Editor V5.8.1 running offline.
//!
//! # Provenance
//!
//! Two diffs, each changing exactly one patch point:
//!
//! ```text
//! CH4  INPUT4  -> DANTE1   0x00d74e: 0x44 -> 0x01
//! CH12 INPUT12 -> DANTE2   0x00d756: 0xc4 -> 0x02
//! ```
//!
//! An 8-byte gap for an 8-channel gap: one byte per channel, contiguous.

use vstd::prelude::*;

use crate::formats::{file_name_spec, AdapterError, AdapterErrorView, Confidence, ShowAdapter, ShowInput};
use crate::lex::{trim_end_seq, trim_end_seq_vec};
use crate::model::show::{
    blank_strip, diagnostic, DeviceView, DiagnosticView, InputPatchView, ShowMetaView, ShowView,
    StripView,
};
use crate::model::{
    Device, Diagnostic, Direction, InputPatch, Severity, Show, SocketRef, SocketView, Strip,
    StripId, StripKind, Transport, TransportView,
};
use crate::text::{
    ascii_chars, chars_of, dec, is_ascii_bytes, push_dec, push_str, slice_range, starts_with,
    string_of, trim, trim_vec, until_nul, until_nul_slice, utf8_decode, utf8_strict,
};

verus! {

/// Offset of input channel 1's patch byte, observed in a QL5 file written by
/// QL Editor V5.8.1. It is never used without checking that what it points at
/// actually decodes.
pub const PATCH_TABLE: usize = 0x00d74b;

/// Input channels read.
pub const CHANNELS: usize = 64;

/// Where the product string sits in the header.
pub const PRODUCT_AT: usize = 0x10;

/// The product string, e.g. `QL [OSX, 5.8.1.27]`: the format's only reliable
/// signature.
pub open spec fn product_spec(d: Seq<u8>) -> Option<Seq<char>> {
    if d.len() < PRODUCT_AT + 32 {
        None
    } else {
        match utf8_decode(until_nul(d.subrange(PRODUCT_AT as int, PRODUCT_AT + 32))) {
            None => None,
            Some(t) => {
                let text = trim(t);
                if text.len() >= 3 && (text.take(3) == "QL "@ || text.take(3) == "CL "@) {
                    Some(text)
                } else {
                    None
                }
            },
        }
    }
}

pub fn product(d: &[u8]) -> (r: Option<String>)
    ensures
        match r {
            Some(s) => product_spec(d@) == Some(s@),
            None => product_spec(d@) is None,
        },
{
    if d.len() < PRODUCT_AT + 32 {
        return None;
    }
    let s = slice_range(d, PRODUCT_AT, PRODUCT_AT + 32);
    let head = until_nul_slice(s);
    let t = match utf8_strict(head) {
        Some(t) => t,
        None => return None,
    };
    let tc = chars_of(t.as_str());
    let text = trim_vec(tc.as_slice());
    let ql = chars_of("QL ");
    let cl = chars_of("CL ");
    proof {
        reveal_strlit("QL ");
        reveal_strlit("CL ");
    }
    if text.len() >= 3 && (starts_with(text.as_slice(), ql.as_slice()) || starts_with(
        text.as_slice(),
        cl.as_slice(),
    )) {
        Some(string_of(text.as_slice()))
    } else {
        None
    }
}

/// A patch byte's source.
///
/// ```text
/// 0x00        not patched
/// 0x01..0x40  DANTE 1..64
/// 0x41..0x48  INPUT 1..8
/// 0xC1..0xD8  INPUT 9..32
/// ```
///
/// The split in the INPUT range is odd but deterministic, and both halves are
/// confirmed by a diff (INPUT4 = `0x44`, INPUT12 = `0xC4`).
pub open spec fn source_spec(v: u8) -> Option<(Seq<char>, u16)> {
    if v == 0 {
        None
    } else if v <= 0x40 {
        Some(("dante"@, v as u16))
    } else if 0x41 <= v <= 0x48 {
        Some(("local"@, (v - 0x40) as u16))
    } else if 0xC1 <= v <= 0xD8 {
        Some(("local"@, (v - 0xC0 + 8) as u16))
    } else {
        None
    }
}

/// Decode a patch byte into a source.
pub fn decode_source(v: u8) -> (r: Option<(&'static str, u16)>)
    ensures
        match r {
            Some((d, i)) => source_spec(v) == Some((d@, i)),
            None => source_spec(v) is None,
        },
{
    if v == 0 {
        None
    } else if v <= 0x40 {
        Some(("dante", v as u16))
    } else if 0x41 <= v && v <= 0x48 {
        Some(("local", (v - 0x40) as u16))
    } else if 0xC1 <= v && v <= 0xD8 {
        Some(("local", (v - 0xC0) as u16 + 8))
    } else {
        None
    }
}

pub open spec fn clf_devices(model: Seq<char>) -> Seq<DeviceView> {
    seq![
        DeviceView {
            id: "local"@,
            label: model + " local inputs"@,
            model: None,
            transport: TransportView::Local,
            inputs: 32,
            outputs: 16,
        },
        DeviceView {
            id: "dante"@,
            label: "Dante"@,
            model: None,
            transport: TransportView::Dante,
            inputs: 64,
            outputs: 64,
        },
    ]
}

pub fn devices(model: &str) -> (r: Vec<Device>)
    ensures
        crate::model::show::devices_view(r@) == clf_devices(model@),
{
    let mut label = String::from_str(model);
    push_str(&mut label, " local inputs");
    let local = Device {
        id: String::from_str("local"),
        label,
        model: None,
        transport: Transport::Local,
        inputs: 32,
        outputs: 16,
    };
    let dante = Device::new("dante", "Dante", Transport::Dante, 64, 64);
    let v = vec![local, dante];
    proof {
        assert(crate::model::show::devices_view(v@) =~= clf_devices(model@));
    }
    v
}

/// Why a file is not read as a console file.
#[derive(Debug, PartialEq, Eq, Structural)]
pub enum ClfError {
    NotClf,
}

impl ClfError {
    pub fn message(&self) -> (r: String)
        ensures
            r@ == "not a CL/QL console file"@,
    {
        String::from_str("not a CL/QL console file")
    }
}

/// How many of the bytes decode to a known source.
pub open spec fn decoded_count(t: Seq<u8>) -> nat
    decreases t.len(),
{
    if t.len() == 0 {
        0
    } else {
        decoded_count(t.drop_last()) + if source_spec(t.last()) is Some {
            1nat
        } else {
            0nat
        }
    }
}

/// How many bytes are set but decode to nothing known.
pub open spec fn unknown_count(t: Seq<u8>) -> nat
    decreases t.len(),
{
    if t.len() == 0 {
        0
    } else {
        unknown_count(t.drop_last()) + if source_spec(t.last()) is None && t.last() != 0 {
            1nat
        } else {
            0nat
        }
    }
}

pub open spec fn clf_socket(v: u8) -> Option<SocketView> {
    match source_spec(v) {
        Some((d, i)) => Some(SocketView { device: d, dir: Direction::In, index: i }),
        None => None,
    }
}

pub open spec fn clf_row(t: Seq<u8>, i: int) -> InputPatchView {
    InputPatchView {
        slot: (i + 1) as u16,
        block_label: Seq::empty(),
        socket: clf_socket(t[i]),
        strip: Some(StripId { kind: StripKind::Input, index: (i + 1) as u16 }),
    }
}

pub open spec fn table_offset_text() -> Seq<char> {
    "0x0d74b"@
}

pub open spec fn clf_meta(product: Seq<char>, name: Seq<char>) -> ShowMetaView {
    ShowMetaView {
        name: trim_end_seq(trim_end_seq(file_name_spec(name), ".CLF"@), ".clf"@),
        note: None,
        source_format: "yamaha-clf"@,
        console: "Yamaha "@ + product.take(2),
        format_version: Some(product),
    }
}

pub open spec fn unmodelled_note(name: Seq<char>) -> DiagnosticView {
    diagnostic(
        Severity::Unmodelled,
        name,
        "channel names, head-amp gain and phantom, bus sends and processing are all in this file and none of them are decoded yet — the format carries no schema, so each has to be located by its own controlled diff. The file also carries a checksum, which does not matter for reading but would have to be solved before anything could be written back"@,
    )
}

/// What a console file reads as. `name` is the upload's name; its base name,
/// without the extension, names the show.
pub open spec fn parse_clf_spec(d: Seq<u8>, name: Seq<char>) -> Result<ShowView, ClfError> {
    match product_spec(d) {
        None => Err(ClfError::NotClf),
        Some(product) => {
            let base = ShowView {
                meta: clf_meta(product, name),
                devices: clf_devices(product.take(2)),
                head_amps: Seq::empty(),
                strips: Seq::empty(),
                inputs: Seq::empty(),
                outputs: Seq::empty(),
                scenes: Seq::empty(),
                diagnostics: Seq::empty(),
            };
            if d.len() < PATCH_TABLE + CHANNELS {
                Ok(
                    base.push_diagnostic(
                        diagnostic(
                            Severity::Unknown,
                            table_offset_text(),
                            "the file ends before the input patch table this format keeps at a fixed offset; no patch could be read"@,
                        ),
                    ),
                )
            } else {
                let t = d.subrange(PATCH_TABLE as int, PATCH_TABLE + CHANNELS);
                let decoded = decoded_count(t);
                if decoded * 4 < CHANNELS * 3 {
                    Ok(
                        base.push_diagnostic(
                            diagnostic(
                                Severity::Suspect,
                                table_offset_text(),
                                "only "@ + dec(decoded)
                                    + " of 64 bytes at the expected patch-table offset decode to a known source, so this is probably not the table. The offset was established on a QL5 written by QL Editor V5.8.1 and is not derived from anything in the file, so another frame size or firmware may well move it. No patch is reported rather than a wrong one"@,
                            ),
                        ),
                    )
                } else {
                    let u = unknown_count(t);
                    let notes = if u > 0 {
                        seq![
                            diagnostic(
                                Severity::Unknown,
                                "input patch table"@,
                                dec(u)
                                    + " channel(s) carry a source code outside the ranges confirmed by diff (Dante and the local inputs). CL/QL can also patch from a slot card, an effect return or the playback bus, and those codes have never been observed, so those connectors are left blank rather than guessed"@,
                            ),
                        ]
                    } else {
                        Seq::empty()
                    };
                    Ok(
                        base.with_strips(
                            Seq::new(CHANNELS as nat, |i: int| blank_strip(StripId { kind: StripKind::Input, index: (i + 1) as u16 })),
                        ).with_inputs(Seq::new(CHANNELS as nat, |i: int| clf_row(t, i))).with_diagnostics(
                            notes.push(unmodelled_note(name)),
                        ),
                    )
                }
            }
        },
    }
}

fn decoded_count_exec(t: &[u8]) -> (r: usize)
    ensures
        r == decoded_count(t@),
        r <= t@.len(),
{
    let mut c: usize = 0;
    let mut i: usize = 0;
    proof {
        assert(t@.take(0) =~= Seq::<u8>::empty());
    }
    while i < t.len()
        invariant
            i <= t@.len(),
            c <= i,
            c == decoded_count(t@.take(i as int)),
        decreases t@.len() - i,
    {
        proof {
            assert(t@.take(i + 1).drop_last() =~= t@.take(i as int));
        }
        if decode_source(t[i]).is_some() {
            c = c + 1;
        }
        i = i + 1;
    }
    proof {
        assert(t@.take(i as int) =~= t@);
    }
    c
}

/// Read a console file.
#[verifier::rlimit(40)]
pub fn parse_clf(d: &[u8], name: &str) -> (r: Result<Show, ClfError>)
    ensures
        match r {
            Ok(s) => parse_clf_spec(d@, name@) == Ok::<ShowView, ClfError>(s@),
            Err(e) => parse_clf_spec(d@, name@) == Err::<ShowView, ClfError>(e),
        },
{
    let product = match product(d) {
        Some(p) => p,
        None => return Err(ClfError::NotClf),
    };
    let pc = chars_of(product.as_str());
    let model = string_of(crate::text::slice_vec(pc.as_slice(), 0, 2).as_slice());
    let mut show = Show::default();
    show.meta.source_format = String::from_str("yamaha-clf");
    let mut console = String::from_str("Yamaha ");
    push_str(&mut console, model.as_str());
    show.meta.console = console;
    show.meta.format_version = Some(product.clone());
    let nc = chars_of(name);
    let nlen = nc.len();
    let base = match crate::text::rfind_char(nc.as_slice(), '/') {
        Some(i) => {
            assert(i < nlen);
            crate::text::slice_vec(nc.as_slice(), i + 1, nlen)
        },
        None => nc.clone(),
    };
    proof {
        match crate::text::last_index_of_char(name@, '/') {
            Some(i) => {
                assert(base@ =~= name@.skip(i + 1));
            },
            None => {
                assert(base@ =~= name@);
            },
        }
        assert(base@ == file_name_spec(name@));
    }
    let upper = chars_of(".CLF");
    let lower = chars_of(".clf");
    proof {
        reveal_strlit(".CLF");
        reveal_strlit(".clf");
    }
    let t1 = trim_end_seq_vec(base.as_slice(), upper.as_slice());
    let t2 = trim_end_seq_vec(t1.as_slice(), lower.as_slice());
    show.meta.name = string_of(t2.as_slice());
    show.devices = devices(model.as_str());
    let ghost product_v = product@;
    proof {
        assert(show@.meta == clf_meta(product_v, name@));
        assert(show@.strips =~= Seq::<StripView>::empty());
        assert(show@.inputs =~= Seq::<InputPatchView>::empty());
        assert(show@.diagnostics =~= Seq::<DiagnosticView>::empty());
        assert(show@.head_amps =~= Seq::<crate::model::show::HeadAmpView>::empty());
        assert(show@.outputs =~= Seq::<crate::model::show::OutputPatchView>::empty());
        assert(show@.scenes =~= Seq::<crate::model::show::SceneView>::empty());
    }
    if d.len() < PATCH_TABLE + CHANNELS {
        show.push_diagnostic(
            Diagnostic::new(
                Severity::Unknown,
                String::from_str("0x0d74b"),
                String::from_str(
                    "the file ends before the input patch table this format keeps at a fixed offset; no patch could be read",
                ),
            ),
        );
        return Ok(show);
    }
    let table = slice_range(d, PATCH_TABLE, PATCH_TABLE + CHANNELS);
    let decoded = decoded_count_exec(table);
    if decoded * 4 < CHANNELS * 3 {
        let mut m = String::from_str("only ");
        push_dec(&mut m, decoded as u64);
        push_str(
            &mut m,
            " of 64 bytes at the expected patch-table offset decode to a known source, so this is probably not the table. The offset was established on a QL5 written by QL Editor V5.8.1 and is not derived from anything in the file, so another frame size or firmware may well move it. No patch is reported rather than a wrong one",
        );
        show.push_diagnostic(Diagnostic::new(Severity::Suspect, String::from_str("0x0d74b"), m));
        return Ok(show);
    }
    let unresolved = fill_clf_patch(&mut show, table);
    if unresolved > 0 {
        let mut m = String::new();
        push_dec(&mut m, unresolved as u64);
        push_str(
            &mut m,
            " channel(s) carry a source code outside the ranges confirmed by diff (Dante and the local inputs). CL/QL can also patch from a slot card, an effect return or the playback bus, and those codes have never been observed, so those connectors are left blank rather than guessed",
        );
        show.push_diagnostic(Diagnostic::new(Severity::Unknown, String::from_str("input patch table"), m));
    }
    let mut m = String::from_str(
        "channel names, head-amp gain and phantom, bus sends and processing are all in this file and none of them are decoded yet — the format carries no schema, so each has to be located by its own controlled diff. The file also carries a checksum, which does not matter for reading but would have to be solved before anything could be written back",
    );
    show.push_diagnostic(Diagnostic::new(Severity::Unmodelled, String::from_str(name), m));
    Ok(show)
}

/// One strip and one patch row per table byte; how many bytes were set but
/// decode to nothing known.
fn fill_clf_patch(show: &mut Show, t: &[u8]) -> (u: usize)
    requires
        t@.len() == CHANNELS,
    ensures
        u == unknown_count(t@),
        final(show)@ == old(show)@.with_strips(
            old(show)@.strips + Seq::new(CHANNELS as nat, |i: int| blank_strip(StripId { kind: StripKind::Input, index: (i + 1) as u16 })),
        ).with_inputs(old(show)@.inputs + Seq::new(CHANNELS as nat, |i: int| clf_row(t@, i))),
{
    let ghost s0 = show@;
    let mut unresolved: usize = 0;
    let mut i: usize = 0;
    proof {
        assert(t@.take(0) =~= Seq::<u8>::empty());
        assert(s0.strips + Seq::new(0, |j: int| blank_strip(StripId { kind: StripKind::Input, index: (j + 1) as u16 })) =~= s0.strips);
        assert(s0.inputs + Seq::new(0, |j: int| clf_row(t@, j)) =~= s0.inputs);
    }
    while i < t.len()
        invariant
            i <= t@.len(),
            t@.len() == CHANNELS,
            unresolved <= i,
            unresolved == unknown_count(t@.take(i as int)),
            show@ == s0.with_strips(
                s0.strips + Seq::new(i as nat, |j: int| blank_strip(StripId { kind: StripKind::Input, index: (j + 1) as u16 })),
            ).with_inputs(s0.inputs + Seq::new(i as nat, |j: int| clf_row(t@, j))),
        decreases t@.len() - i,
    {
        let ch = (i + 1) as u16;
        show.push_strip(Strip::new(StripId::new(StripKind::Input, ch)));
        let v = t[i];
        let socket = match decode_source(v) {
            Some((dev, idx)) => Some(SocketRef::new(dev, Direction::In, idx)),
            None => None,
        };
        proof {
            assert(t@.take(i + 1).drop_last() =~= t@.take(i as int));
        }
        if socket.is_none() && v != 0 {
            unresolved = unresolved + 1;
        }
        let row = InputPatch {
            slot: ch,
            block_label: String::new(),
            socket,
            strip: Some(StripId::new(StripKind::Input, ch)),
        };
        proof {
            assert(row@ == clf_row(t@, i as int));
        }
        show.push_input(row);
        i = i + 1;
        proof {
            assert(s0.strips + Seq::new(i as nat, |j: int| blank_strip(StripId { kind: StripKind::Input, index: (j + 1) as u16 })) =~= (s0.strips + Seq::new((i - 1) as nat, |j: int| blank_strip(StripId { kind: StripKind::Input, index: (j + 1) as u16 }))).push(blank_strip(StripId { kind: StripKind::Input, index: ((i - 1) + 1) as u16 })));
            assert(s0.inputs + Seq::new(i as nat, |j: int| clf_row(t@, j)) =~= (s0.inputs + Seq::new((i - 1) as nat, |j: int| clf_row(t@, j))).push(clf_row(t@, i - 1)));
        }
    }
    proof {
        assert(t@.take(i as int) =~= t@);
    }
    unresolved
}

// ---------------------------------------------------------------------------
// The adapter
// ---------------------------------------------------------------------------

pub open spec fn clf_parse_spec(files: Seq<crate::formats::ShowFile>, name: Seq<char>) -> Result<ShowView, AdapterErrorView> {
    if files.len() == 0 {
        Err(AdapterErrorView::Unrecognised)
    } else {
        match parse_clf_spec(files[0].bytes@, name) {
            Ok(sv) => Ok(sv),
            Err(_) => Err(AdapterErrorView::Parse { adapter: "yamaha-clf"@, message: "not a CL/QL console file"@ }),
        }
    }
}

pub struct ClfAdapter;

impl ShowAdapter for ClfAdapter {
    fn id(&self) -> (r: &'static str)
        ensures
            r@ == "yamaha-clf"@,
    {
        "yamaha-clf"
    }

    fn display_name(&self) -> (r: &'static str)
        ensures
            r@ == "Yamaha CL / QL console file"@,
    {
        "Yamaha CL / QL console file"
    }

    fn extensions(&self) -> (r: &'static [&'static str])
        ensures
            r@.map_values(|e: &str| e@) == seq!["clf"@],
    {
        let r: &'static [&'static str] = &["clf"];
        proof {
            assert(r@.map_values(|e: &str| e@) =~= seq!["clf"@]);
        }
        r
    }

    fn sniff(&self, input: &ShowInput) -> (r: Confidence)
        ensures
            r == (if input.files@.len() > 0 && product_spec(input.files@[0].bytes@) is Some {
                Confidence::Strong
            } else {
                Confidence::No
            }),
    {
        match input.primary() {
            Some(f) => match product(f.bytes.as_slice()) {
                Some(_) => Confidence::Strong,
                None => Confidence::No,
            },
            None => Confidence::No,
        }
    }

    fn parse(&self, input: &ShowInput) -> (r: Result<Show, AdapterError>)
        ensures
            crate::formats::x32::show_result_view(r) == clf_parse_spec(input.files@, input.name@),
    {
        let f = match input.primary() {
            Some(f) => f,
            None => return Err(AdapterError::Unrecognised),
        };
        match parse_clf(f.bytes.as_slice(), input.name.as_str()) {
            Ok(s) => Ok(s),
            Err(e) => Err(AdapterError::Parse { adapter: "yamaha-clf", message: e.message() }),
        }
    }
}

} // verus!
