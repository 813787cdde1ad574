//! Allen & Heath Avantis and dLive shows, and SQ NVRAM images.

pub mod archive;
pub mod sq;

use vstd::prelude::*;

use self::archive::{entries_view, gunzip_spec, tar_walk, Entry, EntryView};
use crate::formats::yamaha::{hex2, push_hex2};
use crate::formats::{AdapterError, AdapterErrorView, Confidence, ShowAdapter, ShowFile, ShowInput};
use crate::formats::x32::contains_text;
use crate::lex::{join_spec, string_views, trim_end_seq, trim_end_seq_vec};
use crate::model::show::{
    blank_strip, diagnostic, DeviceView, DiagnosticView, InputPatchView, ShowMetaView, ShowView,
    StripView,
};
use crate::model::signal::strip_id_le;
use crate::model::{
    Device, Diagnostic, Direction, InputPatch, Severity, Show, SocketRef, SocketView, Strip,
    StripId, StripKind, Transport, TransportView,
};
use crate::text::{
    chars_of, dec, first_match, first_occurrence, lemma_first_match_at, lemma_first_match_none,
    parse_u16, parse_u16_spec, push_dec, push_str, sort_by, string_of,
};

verus! {

/// Why an Allen & Heath show could not be read.
#[derive(Debug, PartialEq, Eq)]
pub enum AhError {
    NotGzip,
    Inflate,
    Truncated(&'static str),
    Unsupported(&'static str),
    NotAShow,
}

pub enum AhErrorView {
    NotGzip,
    Inflate,
    Truncated(Seq<char>),
    Unsupported(Seq<char>),
    NotAShow,
}

impl View for AhError {
    type V = AhErrorView;

    open spec fn view(&self) -> AhErrorView {
        match self {
            AhError::NotGzip => AhErrorView::NotGzip,
            AhError::Inflate => AhErrorView::Inflate,
            AhError::Truncated(w) => AhErrorView::Truncated(w@),
            AhError::Unsupported(w) => AhErrorView::Unsupported(w@),
            AhError::NotAShow => AhErrorView::NotAShow,
        }
    }
}

pub open spec fn ah_error_text(e: AhErrorView) -> Seq<char> {
    match e {
        AhErrorView::NotGzip => "not a gzip stream"@,
        AhErrorView::Inflate => "could not inflate"@,
        AhErrorView::Truncated(w) => "truncated: "@ + w,
        AhErrorView::Unsupported(w) => "unsupported: "@ + w,
        AhErrorView::NotAShow => "no Show directory — this does not look like an Allen & Heath show"@,
    }
}

impl AhError {
    /// The sentence shown to the user.
    pub fn message(&self) -> (r: String)
        ensures
            r@ == ah_error_text(self@),
    {
        match self {
            AhError::NotGzip => String::from_str("not a gzip stream"),
            AhError::Inflate => String::from_str("could not inflate"),
            AhError::Truncated(w) => {
                let mut s = String::from_str("truncated: ");
                crate::text::push_str(&mut s, *w);
                s
            },
            AhError::Unsupported(w) => {
                let mut s = String::from_str("unsupported: ");
                crate::text::push_str(&mut s, *w);
                s
            },
            AhError::NotAShow => String::from_str(
                "no Show directory — this does not look like an Allen & Heath show",
            ),
        }
    }
}


// ---------------------------------------------------------------------------
// Sources, devices and object counts
// ---------------------------------------------------------------------------

/// Source type codes confirmed by controlled diff.
pub open spec fn source_device_spec(code: u8) -> Option<Seq<char>> {
    if code == 0x00 {
        Some("local"@)
    } else if code == 0x03 {
        Some("slink"@)
    } else {
        None
    }
}

/// Decode a source type code into a device id.
pub fn source_device(code: u8) -> (r: Option<&'static str>)
    ensures
        match r {
            Some(d) => source_device_spec(code) == Some(d@),
            None => source_device_spec(code) is None,
        },
{
    if code == 0x00 {
        Some("local")
    } else if code == 0x03 {
        Some("slink")
    } else {
        None
    }
}

pub open spec fn ah_devices() -> Seq<DeviceView> {
    seq![
        DeviceView {
            id: "local"@,
            label: "Console local inputs"@,
            model: None,
            transport: TransportView::Local,
            inputs: 12,
            outputs: 12,
        },
        DeviceView {
            id: "slink"@,
            label: "SLink (stage box)"@,
            model: None,
            transport: TransportView::SLink,
            inputs: 128,
            outputs: 128,
        },
    ]
}

pub fn devices() -> (r: Vec<Device>)
    ensures
        crate::model::show::devices_view(r@) == ah_devices(),
{
    let v = vec![
        Device::new("local", "Console local inputs", Transport::Local, 12, 12),
        Device::new("slink", "SLink (stage box)", Transport::SLink, 128, 128),
    ];
    proof {
        assert(crate::model::show::devices_view(v@) =~= ah_devices());
    }
    v
}

/// ASCII text as bytes.
pub open spec fn ascii_bytes(s: Seq<char>) -> Seq<u8> {
    s.map_values(|c: char| c as u8)
}

pub open spec fn is_ascii_text(s: Seq<char>) -> bool {
    forall|i: int| 0 <= i < s.len() ==> (#[trigger] s[i] as u32) < 128
}

/// Leading ASCII digits.
pub open spec fn digit_run(b: Seq<u8>) -> nat
    decreases b.len(),
{
    if b.len() > 0 && 0x30 <= b[0] <= 0x39 {
        1 + digit_run(b.drop_first())
    } else {
        0
    }
}

/// The highest object number after a `, <class> ` label from `i` on.
pub open spec fn count_from(scene: Seq<u8>, hay: Seq<u8>, i: int, highest: u16) -> u16
    decreases scene.len() - i,
{
    if hay.len() == 0 || i < 0 || i + hay.len() >= scene.len() {
        highest
    } else if scene.subrange(i, i + hay.len()) == hay {
        let tail_end = if i + hay.len() + 4 < scene.len() { i + hay.len() + 4 } else { scene.len() as int };
        let tail = scene.subrange(i + hay.len(), tail_end);
        let digits = archive::latin1(tail.take(digit_run(tail) as int));
        let h2 = match parse_u16_spec(digits) {
            Some(n) => if n > highest { n } else { highest },
            None => highest,
        };
        count_from(scene, hay, i + hay.len(), h2)
    } else {
        count_from(scene, hay, i + 1, highest)
    }
}

/// How many objects of a class the scene describes: the highest number any
/// `, <class> NN` label gives it.
pub open spec fn count_objects_spec(scene: Seq<u8>, class: Seq<char>) -> u16 {
    count_from(scene, ascii_bytes(", "@ + class + " "@), 0, 0)
}

fn digit_run_exec(b: &[u8]) -> (r: usize)
    ensures
        r == digit_run(b@),
        r <= b@.len(),
{
    let mut i: usize = 0;
    while i < b.len() && 0x30 <= b[i] && b[i] <= 0x39
        invariant
            i <= b@.len(),
            forall|j: int| 0 <= j < i ==> 0x30 <= #[trigger] b@[j] <= 0x39,
        decreases b@.len() - i,
    {
        i = i + 1;
    }
    proof {
        lemma_digit_run(b@, i as int);
    }
    i
}

proof fn lemma_digit_run(b: Seq<u8>, n: int)
    requires
        0 <= n <= b.len(),
        forall|j: int| 0 <= j < n ==> 0x30 <= #[trigger] b[j] <= 0x39,
        n < b.len() ==> !(0x30 <= b[n] <= 0x39),
    ensures
        digit_run(b) == n,
    decreases b.len(),
{
    if n > 0 {
        assert forall|j: int| 0 <= j < n - 1 implies 0x30 <= #[trigger] b.drop_first()[j] <= 0x39 by {
            assert(b.drop_first()[j] == b[j + 1]);
        }
        if n - 1 < b.len() - 1 {
            assert(b.drop_first()[n - 1] == b[n]);
        }
        lemma_digit_run(b.drop_first(), n - 1);
    }
}

/// The bytes of ASCII text.
fn ascii_vec(s: &str) -> (r: Vec<u8>)
    requires
        is_ascii_text(s@),
    ensures
        r@ == ascii_bytes(s@),
{
    let cs = chars_of(s);
    let mut r: Vec<u8> = Vec::new();
    let mut i: usize = 0;
    while i < cs.len()
        invariant
            i <= cs@.len(),
            cs@ == s@,
            is_ascii_text(s@),
            r@ == ascii_bytes(cs@.take(i as int)),
        decreases cs@.len() - i,
    {
        let c = cs[i];
        proof {
            assert((cs@[i as int] as u32) < 128);
        }
        r.push(c as u8);
        i = i + 1;
        proof {
            assert(r@ =~= ascii_bytes(cs@.take(i as int)));
        }
    }
    proof {
        assert(cs@.take(i as int) =~= cs@);
    }
    r
}

/// Count how many objects of a given class the scene describes.
///
/// Block labels name their object, e.g. `", Input Channel 07"`, so the
/// highest trailing number gives the strip inventory without decoding any
/// values. The class is ASCII, as the object classes are.
fn count_objects(scene: &[u8], class: &str) -> (r: u16)
    requires
        is_ascii_text(class@),
    ensures
        r == count_objects_spec(scene@, class@),
{
    let mut needle = String::from_str(", ");
    push_str(&mut needle, class);
    push_str(&mut needle, " ");
    proof {
        reveal_strlit(", ");
        reveal_strlit(" ");
        assert(is_ascii_text(needle@));
    }
    let hay = ascii_vec(needle.as_str());
    let h = hay.len();
    let n = scene.len();
    let mut highest: u16 = 0;
    let mut i: usize = 0;
    while i < n && h < n - i
        invariant
            n == scene@.len(),
            h == hay@.len(),
            hay@ == ascii_bytes(", "@ + class@ + " "@),
            i <= n,
            count_from(scene@, hay@, i as int, highest) == count_objects_spec(scene@, class@),
        decreases n - i,
    {
        if h == 0 {
            return highest;
        }
        let piece = slice_range_u8(scene, i, i + h);
        if bytes_equal(piece, hay.as_slice()) {
            let tail_end = if n - i - h > 4 {
                i + h + 4
            } else {
                n
            };
            let tail = slice_range_u8(scene, i + h, tail_end);
            let k = digit_run_exec(tail);
            let digits = crate::formats::ah::archive::latin1_of(tail, k);
            let dc = chars_of(digits.as_str());
            match parse_u16(dc.as_slice()) {
                Some(v) => {
                    if v > highest {
                        highest = v;
                    }
                },
                None => {},
            }
            i = i + h;
        } else {
            i = i + 1;
        }
    }
    highest
}

fn slice_range_u8(b: &[u8], from: usize, to: usize) -> (r: &[u8])
    requires
        from <= to <= b@.len(),
    ensures
        r@ == b@.subrange(from as int, to as int),
{
    crate::text::slice_range(b, from, to)
}

fn bytes_equal(a: &[u8], b: &[u8]) -> (r: bool)
    ensures
        r == (a@ == b@),
{
    if a.len() != b.len() {
        return false;
    }
    let mut i: usize = 0;
    while i < a.len()
        invariant
            a@.len() == b@.len(),
            i <= a@.len(),
            forall|j: int| 0 <= j < i ==> a@[j] == b@[j],
        decreases a@.len() - i,
    {
        if a[i] != b[i] {
            return false;
        }
        i = i + 1;
    }
    proof {
        assert(a@ =~= b@);
    }
    true
}


// ---------------------------------------------------------------------------
// The show
// ---------------------------------------------------------------------------

/// Object classes present in a scene, and the kind each maps to.
pub open spec fn strip_class_at(k: int) -> (Seq<char>, StripKind) {
    if k == 0 {
        ("Input Channel"@, StripKind::Input)
    } else if k == 1 {
        ("Mono Aux Channel"@, StripKind::Bus)
    } else if k == 2 {
        ("Mono Group Channel"@, StripKind::Bus)
    } else if k == 3 {
        ("Mono Matrix Channel"@, StripKind::Matrix)
    } else {
        ("FX Channel"@, StripKind::FxReturn)
    }
}

/// Of the object classes a scene's strips are read from, exactly "Mono Matrix Channel"
/// gives strips of kind `Matrix`, and exactly "Mono Aux Channel" and "Mono Group Channel"
/// give strips of kind `Bus`.
pub proof fn law_matrix_class_gives_matrices_and_aux_group_classes_buses(k: int)
    requires
        0 <= k < 5,
    ensures
        strip_class_at(k).0 == "Mono Matrix Channel"@ <==> strip_class_at(k).1
            == StripKind::Matrix,
        (strip_class_at(k).0 == "Mono Aux Channel"@ || strip_class_at(k).0
            == "Mono Group Channel"@) <==> strip_class_at(k).1 == StripKind::Bus,
{
    reveal_strlit("Input Channel");
    reveal_strlit("Mono Aux Channel");
    reveal_strlit("Mono Group Channel");
    reveal_strlit("Mono Matrix Channel");
    reveal_strlit("FX Channel");
    assert("Input Channel"@.len() == 13);
    assert("Mono Aux Channel"@.len() == 16);
    assert("Mono Group Channel"@.len() == 18);
    assert("Mono Matrix Channel"@.len() == 19);
    assert("FX Channel"@.len() == 10);
}

fn strip_class_entry(k: usize) -> (r: (&'static str, StripKind))
    requires
        k < 5,
    ensures
        (r.0@, r.1) == strip_class_at(k as int),
        is_ascii_text(r.0@),
{
    let r = if k == 0 {
        ("Input Channel", StripKind::Input)
    } else if k == 1 {
        ("Mono Aux Channel", StripKind::Bus)
    } else if k == 2 {
        ("Mono Group Channel", StripKind::Bus)
    } else if k == 3 {
        ("Mono Matrix Channel", StripKind::Matrix)
    } else {
        ("FX Channel", StripKind::FxReturn)
    };
    proof {
        reveal_strlit("Input Channel");
        reveal_strlit("Mono Aux Channel");
        reveal_strlit("Mono Group Channel");
        reveal_strlit("Mono Matrix Channel");
        reveal_strlit("FX Channel");
    }
    r
}

/// The strips of the first `k` object classes, numbered from 1.
#[verifier::opaque]
pub open spec fn class_strips(scene: Seq<u8>, k: nat) -> Seq<StripView>
    decreases k,
{
    if k == 0 {
        Seq::empty()
    } else {
        let (class, kind) = strip_class_at(k - 1);
        class_strips(scene, (k - 1) as nat) + Seq::new(
            count_objects_spec(scene, class) as nat,
            |i: int| blank_strip(StripId { kind, index: (i + 1) as u16 }),
        )
    }
}

/// The bytes `Channel Mapper`.
pub open spec fn mapper_label() -> Seq<u8> {
    ascii_bytes("Channel Mapper"@)
}

/// How many table entries fit: every channel up to `n` whose three bytes lie
/// inside the scene.
pub open spec fn mapper_fit(len: int, base: int, n: int) -> int {
    if base > len {
        0
    } else if (len - base) / 3 < n {
        (len - base) / 3
    } else {
        n
    }
}

/// Channel `ch`'s entry: a type code, then a big-endian index from 0.
pub open spec fn mapper_row(scene: Seq<u8>, base: int, ch: int) -> InputPatchView {
    let o = base + ch * 3;
    let index = scene[o + 1] * 256 + scene[o + 2];
    InputPatchView {
        slot: (ch + 1) as u16,
        block_label: Seq::empty(),
        socket: match source_device_spec(scene[o]) {
            Some(dev) => Some(
                SocketView {
                    device: dev,
                    dir: Direction::In,
                    index: if index == 0xFFFF { 0u16 } else { (index + 1) as u16 },
                },
            ),
            None => None,
        },
        strip: Some(StripId { kind: StripKind::Input, index: (ch + 1) as u16 }),
    }
}

pub open spec fn count_of(s: Seq<u8>, c: int) -> nat
    decreases s.len(),
{
    if s.len() == 0 {
        0
    } else {
        count_of(s.drop_last(), c) + if s.last() == c { 1nat } else { 0nat }
    }
}

/// `0xCC on N` for every code from `c` up that occurs, in ascending order.
pub open spec fn code_parts(codes: Seq<u8>, c: int) -> Seq<Seq<char>>
    decreases 256 - c,
{
    if c >= 256 || c < 0 {
        Seq::empty()
    } else {
        (if count_of(codes, c) > 0 {
            seq!["0x"@ + hex2(c as u8) + " on "@ + dec(count_of(codes, c))]
        } else {
            Seq::empty()
        }) + code_parts(codes, c + 1)
    }
}

/// The type codes of the channels read that no device is known for.
pub open spec fn unmapped_codes(scene: Seq<u8>, base: int, k: int) -> Seq<u8> {
    Seq::new(k as nat, |ch: int| scene[base + ch * 3]).filter(|c: u8| source_device_spec(c) is None)
}

pub open spec fn unmapped_message(codes: Seq<u8>) -> Seq<char> {
    dec(codes.len())
        + " channel(s) carry a source type outside the two confirmed codes (0x00 local, 0x03 SLink): "@
        + join_spec(code_parts(codes, 0), ", "@)
        + ". Avantis also offers I/O Port 1, I/O Port 2, USB and an unpatched state, and which code is which has not been established, so those connectors are left blank rather than guessed"@
}

/// The input patch from the `Channel Mapper` block, and what is said about it.
#[verifier::opaque]
pub open spec fn mapper_spec(scene: Seq<u8>, inputs: u16) -> (Seq<InputPatchView>, Seq<DiagnosticView>) {
    match first_occurrence(scene, mapper_label()) {
        Some(at) => {
            let base = at + 16;
            let k = mapper_fit(scene.len() as int, base, inputs as int);
            let codes = unmapped_codes(scene, base, k);
            (
                Seq::new(k as nat, |ch: int| mapper_row(scene, base, ch)),
                if codes.len() > 0 {
                    seq![diagnostic(Severity::Unknown, "Channel Mapper"@, unmapped_message(codes))]
                } else {
                    Seq::empty()
                },
            )
        },
        None => (
            Seq::empty(),
            seq![
                diagnostic(
                    Severity::Unknown,
                    "StageBoxScene65535"@,
                    "no Channel Mapper block found in the live scene; the connector column of the patch list is unknown for this show"@,
                ),
            ],
        ),
    }
}

pub open spec fn model_note() -> DiagnosticView {
    diagnostic(
        Severity::Unmodelled,
        "Show/"@,
        "the show file does not state which console model it came from; Avantis and dLive shows are structurally the same and cannot be told apart from the archive alone"@,
    )
}

pub open spec fn files_note(n: nat) -> DiagnosticView {
    diagnostic(
        Severity::Unmodelled,
        "Show/"@,
        dec(n)
            + " files were read. PFX currently models the strip inventory and the input patch. Channel names, preamp gain and phantom, bus sends, EQ and dynamics are all present in the scene data but not yet carried across"@,
    )
}

pub open spec fn ah_meta(name: Seq<char>) -> ShowMetaView {
    ShowMetaView {
        name: crate::formats::file_name_spec(trim_end_seq(trim_end_seq(name, ".gz"@), ".tar"@)),
        note: None,
        source_format: "allen-heath"@,
        console: "Allen & Heath"@,
        format_version: None,
    }
}

/// The show read out of the live scene.
pub open spec fn ah_show(files: nat, scene: Seq<u8>, name: Seq<char>) -> ShowView {
    let inputs = count_objects_spec(scene, "Input Channel"@);
    let (rows, notes) = mapper_spec(scene, inputs);
    ShowView {
        meta: ah_meta(name),
        devices: ah_devices(),
        head_amps: Seq::empty(),
        strips: sort_by(class_strips(scene, 5), |a: StripView, b: StripView| strip_id_le(a.id, b.id)),
        inputs: rows,
        outputs: Seq::empty(),
        scenes: Seq::empty(),
        diagnostics: (seq![model_note()] + notes).push(files_note(files)),
    }
}

/// `archive::open`, as a specification.
pub open spec fn open_spec(d: Seq<u8>) -> Result<Seq<EntryView>, AhErrorView> {
    match gunzip_spec(d) {
        Err(e) => Err(e),
        Ok(t) => tar_walk(t, 0, Seq::empty()),
    }
}

pub open spec fn in_show_dir(e: EntryView) -> bool {
    e.path.len() >= 5 && e.path.take(5) == "Show/"@
}

/// Whether any entry of the archive lies under `Show/`.
pub open spec fn has_show_entry(entries: Seq<EntryView>) -> bool {
    exists|i: int| 0 <= i < entries.len() && in_show_dir(#[trigger] entries[i])
}

pub open spec fn is_live_scene(e: EntryView) -> bool {
    contains_text(e.path, "StageBoxScene65535"@)
}

/// What a show archive reads as. The live scene is the only one carrying the
/// patch; scenes are themselves gzipped tars.
pub open spec fn parse_show_spec(bytes: Seq<u8>, name: Seq<char>) -> Result<ShowView, AhErrorView> {
    match open_spec(bytes) {
        Err(e) => Err(e),
        Ok(entries) => if !has_show_entry(entries) {
            Err(AhErrorView::NotAShow)
        } else {
            match first_match(entries, |e: EntryView| is_live_scene(e)) {
                None => Err(AhErrorView::Truncated("no live scene in this show"@)),
                Some(li) => match open_spec(entries[li].data) {
                    Err(e) => Err(e),
                    Ok(inner) => if inner.len() == 0 {
                        Err(AhErrorView::Truncated("live scene archive is empty"@))
                    } else {
                        Ok(ah_show(entries.len(), inner[0].data, name))
                    },
                },
            }
        },
    }
}


fn push_class_strips(show: &mut Show, scene: &[u8]) -> (n: u16)
    ensures
        final(show)@ == old(show)@.with_strips(old(show)@.strips + class_strips(scene@, 5)),
        n == count_objects_spec(scene@, "Input Channel"@),
{
    let ghost s0 = show@;
    let mut inputs: u16 = 0;
    let mut k: usize = 0;
    proof {
        reveal(class_strips);
        assert(s0.strips + class_strips(scene@, 0) =~= s0.strips);
    }
    while k < 5
        invariant
            k <= 5,
            show@ == s0.with_strips(s0.strips + class_strips(scene@, k as nat)),
            k > 0 ==> inputs == count_objects_spec(scene@, "Input Channel"@),
        decreases 5 - k,
    {
        let (class, kind) = strip_class_entry(k);
        let n = count_objects(scene, class);
        if k == 0 {
            inputs = n;
        }
        let ghost before = show@.strips;
        let mut i: u32 = 0;
        proof {
            assert(before + Seq::new(0, |j: int| blank_strip(StripId { kind, index: (j + 1) as u16 })) =~= before);
        }
        while i < n as u32
            invariant
                i <= n,
                before == s0.strips + class_strips(scene@, k as nat),
                show@ == s0.with_strips(before + Seq::new(i as nat, |j: int| blank_strip(StripId { kind, index: (j + 1) as u16 }))),
            decreases n - i,
        {
            show.push_strip(Strip::new(StripId::new(kind, (i + 1) as u16)));
            proof {
                assert(before + Seq::new((i + 1) as nat, |j: int| blank_strip(StripId { kind, index: (j + 1) as u16 })) =~= (before + Seq::new(i as nat, |j: int| blank_strip(StripId { kind, index: (j + 1) as u16 }))).push(blank_strip(StripId { kind, index: (i + 1) as u16 })));
            }
            i = i + 1;
        }
        proof {
            reveal_with_fuel(class_strips, 1);
            let (c2, k2) = strip_class_at(k as int);
            assert(c2 == class@ && k2 == kind);
            assert(Seq::new(n as nat, |j: int| blank_strip(StripId { kind, index: (j + 1) as u16 })) =~= Seq::new(
                count_objects_spec(scene@, c2) as nat,
                |j: int| blank_strip(StripId { kind: k2, index: (j + 1) as u16 }),
            ));
            assert(show@.strips =~= s0.strips + class_strips(scene@, (k + 1) as nat));
        }
        k = k + 1;
    }
    inputs
}


/// The `0xCC on N` parts for every code that occurs, ascending.
fn code_parts_exec(counts: &Vec<usize>, codes: Ghost<Seq<u8>>) -> (r: Vec<String>)
    requires
        counts@.len() == 256,
        forall|c: int| 0 <= c < 256 ==> #[trigger] counts@[c] == count_of(codes@, c),
    ensures
        string_views(r@) == code_parts(codes@, 0),
{
    let mut parts: Vec<String> = Vec::new();
    let mut c: usize = 0;
    proof {
        assert(string_views(parts@) + code_parts(codes@, 0) =~= code_parts(codes@, 0));
    }
    while c < 256
        invariant
            c <= 256,
            counts@.len() == 256,
            forall|x: int| 0 <= x < 256 ==> #[trigger] counts@[x] == count_of(codes@, x),
            string_views(parts@) + code_parts(codes@, c as int) == code_parts(codes@, 0),
        decreases 256 - c,
    {
        let ghost before = string_views(parts@);
        if counts[c] > 0 {
            let mut p = String::from_str("0x");
            push_hex2(&mut p, c as u8);
            push_str(&mut p, " on ");
            push_dec(&mut p, counts[c] as u64);
            parts.push(p);
            proof {
                assert(string_views(parts@) =~= before.push(p@));
                assert(before.push(p@) + code_parts(codes@, c + 1) =~= before + code_parts(codes@, c as int));
            }
        } else {
            proof {
                assert(before + code_parts(codes@, c + 1) =~= before + code_parts(codes@, c as int));
            }
        }
        c = c + 1;
    }
    proof {
        assert(code_parts(codes@, 256) =~= Seq::<Seq<char>>::empty());
        assert(string_views(parts@) + Seq::<Seq<char>>::empty() =~= string_views(parts@));
    }
    parts
}

/// The mapper rows, appended; the tally of unknown type codes.
#[verifier::rlimit(40)]
fn push_mapper_rows(show: &mut Show, scene: &[u8], base: usize, fit: usize) -> (r: (Vec<usize>, usize))
    requires
        base + fit * 3 <= scene@.len(),
        fit <= 0xFFFF,
    ensures
        final(show)@ == old(show)@.with_inputs(old(show)@.inputs + Seq::new(fit as nat, |ch: int| mapper_row(scene@, base as int, ch))),
        r.0@.len() == 256,
        forall|c: int| 0 <= c < 256 ==> #[trigger] r.0@[c] == count_of(unmapped_codes(scene@, base as int, fit as int), c),
        r.1 == unmapped_codes(scene@, base as int, fit as int).len(),
{
    let ghost s0 = show@;
    let ghost f = |ch: int| scene@[base + ch * 3];
    let ghost p = |c: u8| source_device_spec(c) is None;
    let mut counts: Vec<usize> = Vec::new();
    let mut z: usize = 0;
    while z < 256
        invariant
            z <= 256,
            counts@.len() == z,
            forall|c: int| 0 <= c < z ==> #[trigger] counts@[c] == 0,
        decreases 256 - z,
    {
        counts.push(0);
        z = z + 1;
    }
    let mut total: usize = 0;
    let mut ch: usize = 0;
    let n = scene.len();
    proof {
        assert(Seq::new(0, f).filter(p) =~= Seq::<u8>::empty()) by {
            reveal_with_fuel(Seq::filter, 1);
        }
        assert(s0.inputs + Seq::new(0, |c: int| mapper_row(scene@, base as int, c)) =~= s0.inputs);
    }
    while ch < fit
        invariant
            ch <= fit,
            fit <= 0xFFFF,
            n == scene@.len(),
            base + fit * 3 <= n,
            f == (|c: int| scene@[base + c * 3]),
            p == (|c: u8| source_device_spec(c) is None),
            counts@.len() == 256,
            forall|c: int| 0 <= c < 256 ==> #[trigger] counts@[c] == count_of(Seq::new(ch as nat, f).filter(p), c),
            total == Seq::new(ch as nat, f).filter(p).len(),
            total <= ch,
            show@ == s0.with_inputs(s0.inputs + Seq::new(ch as nat, |c: int| mapper_row(scene@, base as int, c))),
        decreases fit - ch,
    {
        let o = base + ch * 3;
        let code = scene[o];
        let index: u16 = (scene[o + 1] as u16) * 256 + scene[o + 2] as u16;
        let socket = match source_device(code) {
            Some(dev) => {
                let idx: u16 = if index == 0xFFFF {
                    0
                } else {
                    index + 1
                };
                Some(SocketRef::new(dev, Direction::In, idx))
            },
            None => None,
        };
        let ghost prev = Seq::new(ch as nat, f).filter(p);
        proof {
            assert(Seq::new((ch + 1) as nat, f).drop_last() =~= Seq::new(ch as nat, f));
            assert(Seq::new((ch + 1) as nat, f).last() == code);
            reveal_with_fuel(Seq::filter, 1);
        }
        if socket.is_none() {
            let old_c = counts[code as usize];
            proof {
                assert(old_c == count_of(prev, code as int));
                assert(count_of(prev, code as int) <= prev.len()) by {
                    lemma_count_of_le(prev, code as int);
                }
            }
            counts.set(code as usize, old_c + 1);
            total = total + 1;
            proof {
                let now = Seq::new((ch + 1) as nat, f).filter(p);
                assert(now =~= prev.push(code));
                assert(now.drop_last() =~= prev);
                assert forall|c: int| 0 <= c < 256 implies #[trigger] counts@[c] == count_of(now, c) by {
                    assert(count_of(now, c) == count_of(prev, c) + if code == c { 1nat } else { 0nat });
                }
            }
        } else {
            proof {
                let now = Seq::new((ch + 1) as nat, f).filter(p);
                assert(now =~= prev);
            }
        }
        let row = InputPatch {
            slot: (ch + 1) as u16,
            block_label: String::new(),
            socket,
            strip: Some(StripId::new(StripKind::Input, (ch + 1) as u16)),
        };
        proof {
            assert(row@ == mapper_row(scene@, base as int, ch as int));
        }
        show.push_input(row);
        ch = ch + 1;
        proof {
            assert(s0.inputs + Seq::new(ch as nat, |c: int| mapper_row(scene@, base as int, c)) =~= (s0.inputs + Seq::new((ch - 1) as nat, |c: int| mapper_row(scene@, base as int, c))).push(mapper_row(scene@, base as int, ch - 1)));
        }
    }
    proof {
        assert(Seq::new(fit as nat, f).filter(p) =~= unmapped_codes(scene@, base as int, fit as int));
    }
    (counts, total)
}

proof fn lemma_count_of_le(s: Seq<u8>, c: int)
    ensures
        count_of(s, c) <= s.len(),
    decreases s.len(),
{
    if s.len() > 0 {
        lemma_count_of_le(s.drop_last(), c);
    }
}

fn unmapped_message_exec(total: usize, counts: &Vec<usize>, codes: Ghost<Seq<u8>>) -> (r: String)
    requires
        counts@.len() == 256,
        forall|c: int| 0 <= c < 256 ==> #[trigger] counts@[c] == count_of(codes@, c),
        total == codes@.len(),
    ensures
        r@ == unmapped_message(codes@),
{
    let parts = code_parts_exec(counts, codes);
    let mut m = String::new();
    push_dec(&mut m, total as u64);
    push_str(
        &mut m,
        " channel(s) carry a source type outside the two confirmed codes (0x00 local, 0x03 SLink): ",
    );
    crate::lex::push_joined(&mut m, parts.as_slice(), ", ");
    push_str(
        &mut m,
        ". Avantis also offers I/O Port 1, I/O Port 2, USB and an unpatched state, and which code is which has not been established, so those connectors are left blank rather than guessed",
    );
    m
}

/// Where the table starts and how many entries of it to read.
fn mapper_bounds(len: usize, at: usize, inputs: u16) -> (r: (usize, usize))
    ensures
        r.1 as int == mapper_fit(len as int, at + 16, inputs as int),
        r.1 <= 0xFFFF,
        r.0 + r.1 * 3 <= len,
        r.1 > 0 ==> r.0 == at + 16,
{
    if at > len || len - at < 16 {
        proof {
            assert(mapper_fit(len as int, at + 16, inputs as int) == 0) by (nonlinear_arith)
                requires
                    at > len || len - at < 16,
                    at + 16 > len ==> mapper_fit(len as int, at + 16, inputs as int) == 0,
                    at + 16 <= len ==> mapper_fit(len as int, at + 16, inputs as int) == (if (len - at - 16) / 3 < inputs { (len - at - 16) / 3 } else { inputs as int }),
            ;
        }
        return (len, 0);
    }
    let base = at + 16;
    let q = (len - base) / 3;
    let fit = if q < inputs as usize {
        q
    } else {
        inputs as usize
    };
    proof {
        assert(fit * 3 <= len - base) by (nonlinear_arith)
            requires
                fit <= (len - base) / 3,
                len >= base,
        ;
    }
    (base, fit)
}

/// The input patch from the `Channel Mapper` block, and its diagnostics.
#[verifier::rlimit(40)]
fn push_mapper(show: &mut Show, scene: &[u8], inputs: u16)
    ensures
        final(show)@ == old(show)@.with_inputs(old(show)@.inputs + mapper_spec(scene@, inputs).0).with_diagnostics(
            old(show)@.diagnostics + mapper_spec(scene@, inputs).1,
        ),
{
    let ghost s0 = show@;
    proof {
        reveal_strlit("Channel Mapper");
    }
    let label = ascii_vec("Channel Mapper");
    match crate::text::find_bytes(scene, label.as_slice()) {
        None => {
            show.push_diagnostic(
                Diagnostic::new(
                    Severity::Unknown,
                    String::from_str("StageBoxScene65535"),
                    String::from_str(
                        "no Channel Mapper block found in the live scene; the connector column of the patch list is unknown for this show",
                    ),
                ),
            );
            proof {
                reveal(mapper_spec);
                assert(s0.inputs + Seq::<InputPatchView>::empty() =~= s0.inputs);
                assert(show@.diagnostics =~= s0.diagnostics + mapper_spec(scene@, inputs).1);
            }
        },
        Some(at) => {
            let (base, fit) = mapper_bounds(scene.len(), at, inputs);
            let ghost b = at + 16;
            let ghost k = mapper_fit(scene@.len() as int, b, inputs as int);
            let (counts, total) = push_mapper_rows(show, scene, base, fit);
            proof {
                if fit == 0 {
                    assert(Seq::new(0, |ch: int| mapper_row(scene@, base as int, ch)) =~= Seq::new(0, |ch: int| mapper_row(scene@, b, ch)));
                    assert(unmapped_codes(scene@, base as int, 0) =~= unmapped_codes(scene@, b, 0)) by {
                        reveal_with_fuel(Seq::filter, 1);
                    }
                }
            }
            let ghost codes = unmapped_codes(scene@, b, k);
            proof {
                reveal(mapper_spec);
            }
            if total > 0 {
                let m = unmapped_message_exec(total, &counts, Ghost(codes));
                show.push_diagnostic(Diagnostic::new(Severity::Unknown, String::from_str("Channel Mapper"), m));
                proof {
                    assert(show@.diagnostics =~= s0.diagnostics + mapper_spec(scene@, inputs).1);
                }
            } else {
                proof {
                    assert(s0.diagnostics + Seq::<DiagnosticView>::empty() =~= s0.diagnostics);
                }
            }
        },
    }
}


fn show_name(name: &str) -> (r: String)
    ensures
        r@ == ah_meta(name@).name,
{
    let nc = chars_of(name);
    let gz = chars_of(".gz");
    let tar = chars_of(".tar");
    proof {
        reveal_strlit(".gz");
        reveal_strlit(".tar");
    }
    let t1 = trim_end_seq_vec(nc.as_slice(), gz.as_slice());
    let t2 = trim_end_seq_vec(t1.as_slice(), tar.as_slice());
    let n = t2.len();
    match crate::text::rfind_char(t2.as_slice(), '/') {
        Some(i) => {
            assert(i < n);
            let b = crate::text::slice_vec(t2.as_slice(), i + 1, n);
            proof {
                assert(b@ =~= t2@.skip(i + 1));
            }
            string_of(b.as_slice())
        },
        None => string_of(t2.as_slice()),
    }
}

fn in_show_dir_exec(e: &Entry) -> (r: bool)
    ensures
        r == in_show_dir(e@),
{
    let p = chars_of(e.path.as_str());
    let d = chars_of("Show/");
    proof {
        reveal_strlit("Show/");
    }
    crate::text::starts_with(p.as_slice(), d.as_slice())
}

fn is_live_scene_exec(e: &Entry) -> (r: bool)
    ensures
        r == is_live_scene(e@),
{
    let p = chars_of(e.path.as_str());
    let d = chars_of("StageBoxScene65535");
    crate::lex::contains_chars(p.as_slice(), d.as_slice())
}

/// Whether any entry lies under `Show/`.
fn has_show_dir(entries: &Vec<Entry>) -> (r: bool)
    ensures
        r == has_show_entry(entries_view(entries@)),
{
    let ghost ev = entries_view(entries@);
    let mut i: usize = 0;
    while i < entries.len()
        invariant
            i <= entries@.len(),
            ev == entries_view(entries@),
            forall|j: int| 0 <= j < i ==> !in_show_dir(#[trigger] ev[j]),
        decreases entries@.len() - i,
    {
        proof {
            assert(ev[i as int] == entries@[i as int]@);
        }
        if in_show_dir_exec(&entries[i]) {
            assert(in_show_dir(ev[i as int]));
            return true;
        }
        i = i + 1;
    }
    false
}

/// The first entry that is the live scene.
fn find_live_scene(entries: &Vec<Entry>) -> (r: Option<usize>)
    ensures
        match r {
            Some(k) => k < entries@.len() && first_match(entries_view(entries@), |e: EntryView| is_live_scene(e))
                == Some(k as int),
            None => first_match(entries_view(entries@), |e: EntryView| is_live_scene(e)) is None,
        },
{
    let ghost ev = entries_view(entries@);
    let mut i: usize = 0;
    while i < entries.len()
        invariant
            i <= entries@.len(),
            ev == entries_view(entries@),
            forall|j: int| 0 <= j < i ==> !is_live_scene(#[trigger] ev[j]),
        decreases entries@.len() - i,
    {
        proof {
            assert(ev[i as int] == entries@[i as int]@);
        }
        if is_live_scene_exec(&entries[i]) {
            proof {
                lemma_first_match_at(ev, |e: EntryView| is_live_scene(e), i as int);
            }
            return Some(i);
        }
        i = i + 1;
    }
    proof {
        lemma_first_match_none(ev, |e: EntryView| is_live_scene(e));
    }
    None
}

/// Read an Avantis or dLive show archive.
#[verifier::rlimit(40)]
pub fn parse_show(bytes: &[u8], name: &str) -> (r: Result<Show, AhError>)
    ensures
        match r {
            Ok(s) => parse_show_spec(bytes@, name@) == Ok::<ShowView, AhErrorView>(s@),
            Err(e) => parse_show_spec(bytes@, name@) == Err::<ShowView, AhErrorView>(e@),
        },
{
    let entries = match archive::open(bytes) {
        Ok(e) => e,
        Err(e) => return Err(e),
    };
    let ghost ev = entries_view(entries@);
    if !has_show_dir(&entries) {
        return Err(AhError::NotAShow);
    }
    let li = match find_live_scene(&entries) {
        Some(k) => k,
        None => return Err(AhError::Truncated("no live scene in this show")),
    };
    proof {
        assert(ev[li as int] == entries@[li as int]@);
    }
    let inner = match archive::open(entries[li].data.as_slice()) {
        Ok(v) => v,
        Err(e) => return Err(e),
    };
    if inner.len() == 0 {
        return Err(AhError::Truncated("live scene archive is empty"));
    }
    proof {
        assert(entries_view(inner@)[0] == inner@[0]@);
    }
    let scene = inner[0].data.as_slice();
    let mut show = Show::default();
    show.meta.source_format = String::from_str("allen-heath");
    show.meta.console = String::from_str("Allen & Heath");
    show.meta.name = show_name(name);
    show.devices = devices();
    show.push_diagnostic(
        Diagnostic::new(
            Severity::Unmodelled,
            String::from_str("Show/"),
            String::from_str(
                "the show file does not state which console model it came from; Avantis and dLive shows are structurally the same and cannot be told apart from the archive alone",
            ),
        ),
    );
    let inputs = push_class_strips(&mut show, scene);
    push_mapper(&mut show, scene, inputs);
    let mut m = String::new();
    push_dec(&mut m, entries.len() as u64);
    push_str(
        &mut m,
        " files were read. PFX currently models the strip inventory and the input patch. Channel names, preamp gain and phantom, bus sends, EQ and dynamics are all present in the scene data but not yet carried across",
    );
    show.push_diagnostic(Diagnostic::new(Severity::Unmodelled, String::from_str("Show/"), m));
    let mut v: Vec<Strip> = Vec::new();
    std::mem::swap(&mut v, &mut show.strips);
    let ghost vs = v@;
    let sorted = crate::text::stable_sort(v);
    proof {
        let f = |s: Strip| s@;
        let le = |a: StripView, b: StripView| strip_id_le(a.id, b.id);
        crate::text::lemma_sorted_map(vs, f, le);
        assert(vs.map_values(f) =~= crate::model::show::strips_view(vs));
        assert(crate::text::sorted_spec(vs).map_values(f) =~= crate::model::show::strips_view(sorted@));
    }
    show.strips = sorted;
    proof {
        let sc = inner@[0].data@;
        assert(vs =~= vs);
        assert(show@.head_amps =~= Seq::<crate::model::show::HeadAmpView>::empty());
        assert(show@.outputs =~= Seq::<crate::model::show::OutputPatchView>::empty());
        assert(show@.scenes =~= Seq::<crate::model::show::SceneView>::empty());
        assert(Seq::<InputPatchView>::empty() + mapper_spec(sc, inputs).0 =~= mapper_spec(sc, inputs).0);
        assert(Seq::<StripView>::empty() + class_strips(sc, 5) =~= class_strips(sc, 5));
        assert(show@.diagnostics =~= (seq![model_note()] + mapper_spec(sc, inputs).1).push(files_note(ev.len())));
    }
    Ok(show)
}

// ---------------------------------------------------------------------------
// The adapter
// ---------------------------------------------------------------------------

pub open spec fn ah_sniff_spec(files: Seq<ShowFile>) -> Confidence {
    if files.len() == 0 {
        Confidence::No
    } else {
        let b = files[0].bytes@;
        if !(b.len() >= 2 && b[0] == 0x1F && b[1] == 0x8B) {
            Confidence::No
        } else {
            match open_spec(b) {
                Ok(entries) => if has_show_entry(entries) {
                    Confidence::Strong
                } else {
                    Confidence::No
                },
                Err(_) => Confidence::No,
            }
        }
    }
}

pub open spec fn ah_parse_spec(files: Seq<ShowFile>, name: Seq<char>) -> Result<ShowView, AdapterErrorView> {
    if files.len() == 0 {
        Err(AdapterErrorView::Unrecognised)
    } else {
        match parse_show_spec(files[0].bytes@, name) {
            Ok(sv) => Ok(sv),
            Err(e) => Err(AdapterErrorView::Parse { adapter: "allen-heath"@, message: ah_error_text(e) }),
        }
    }
}

pub struct AllenHeathAdapter;

impl ShowAdapter for AllenHeathAdapter {
    fn id(&self) -> (r: &'static str)
        ensures
            r@ == "allen-heath"@,
    {
        "allen-heath"
    }

    fn display_name(&self) -> (r: &'static str)
        ensures
            r@ == "Allen & Heath Avantis / dLive show"@,
    {
        "Allen & Heath Avantis / dLive show"
    }

    fn extensions(&self) -> (r: &'static [&'static str])
        ensures
            r@.map_values(|e: &str| e@) == seq!["tar.gz"@, "gz"@],
    {
        let r: &'static [&'static str] = &["tar.gz", "gz"];
        proof {
            assert(r@.map_values(|e: &str| e@) =~= seq!["tar.gz"@, "gz"@]);
        }
        r
    }

    /// Gzip alone is not enough — plenty of things are gzipped. Only claim it
    /// once a `Show/` directory is actually present.
    fn sniff(&self, input: &ShowInput) -> (r: Confidence)
        ensures
            r == ah_sniff_spec(input.files@),
    {
        let file = match input.primary() {
            Some(f) => f,
            None => return Confidence::No,
        };
        if !(file.bytes.len() >= 2 && file.bytes[0] == 0x1F && file.bytes[1] == 0x8B) {
            return Confidence::No;
        }
        match archive::open(file.bytes.as_slice()) {
            Ok(entries) => if has_show_dir(&entries) {
                Confidence::Strong
            } else {
                Confidence::No
            },
            Err(_) => Confidence::No,
        }
    }

    fn parse(&self, input: &ShowInput) -> (r: Result<Show, AdapterError>)
        ensures
            crate::formats::x32::show_result_view(r) == ah_parse_spec(input.files@, input.name@),
    {
        let file = match input.primary() {
            Some(f) => f,
            None => return Err(AdapterError::Unrecognised),
        };
        match parse_show(file.bytes.as_slice(), input.name.as_str()) {
            Ok(s) => Ok(s),
            Err(e) => Err(AdapterError::Parse { adapter: "allen-heath", message: e.message() }),
        }
    }
}

} // verus!
