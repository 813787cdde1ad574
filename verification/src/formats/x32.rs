//! Behringer X32 / Midas M32 / X-Air `.scn` scene files.
//!
//! The format is line-oriented text: an OSC-like path followed by
//! whitespace-separated tokens, with quoted strings for names.
//!
//! ```text
//! #2.7# "General 1.2.2" "" %000000000 1
//! /config/routing/IN A1-8 A9-16 A17-24 B1-8 AUX1-4
//! /ch/01/config "Diazno" 1 CY 1
//! /headamp/000 +0.0 OFF
//! /outputs/main/01 4 PRE OFF
//! ```
//!
//! # The patch chain
//!
//! Getting from an XLR to a fader takes three hops on this console, and all
//! three have to be composed or the patch list is wrong:
//!
//! 1. `/config/routing/IN` maps blocks of 8 **physical connectors** onto the
//!    32 **input slots**. A block named `A1-8` means slots 1–8 are fed by
//!    AES50-A connectors 1–8.
//! 2. `/ch/NN/config`'s last token selects which **input slot** feeds channel
//!    `NN`. This is a free mapping — channel 7 may well take slot 22.
//! 3. `/headamp/NNN` holds the gain for a **connector**, indexed in a flat
//!    space across local and both AES50 links.
//!
//! Skipping step 1 and assuming channel N is fed by XLR N is the single most
//! common way to produce a confident, wrong patch list.
//!
//! # Provenance of the enumerations
//!
//! The signal-source numbering below is derived from community documentation
//! and corroborated against real scene files, *not* from a running console.
//! Anything outside the mapped ranges is reported as a [`Diagnostic`] rather
//! than guessed.

use vstd::prelude::*;

use super::{AdapterError, AdapterErrorView, Confidence, ShowAdapter, ShowInput, extension_spec};
use crate::lex::{
    float_token, is_float_text, lemma_split_nonempty, push_joined, split_chars, split_spec,
    string_views, trim_char, trim_char_vec, trim_end_seq, trim_end_seq_vec, trim_start_char,
    trim_start_char_vec, views,
};
use crate::model::show::{
    blank_strip, DeviceView, DiagnosticView, HeadAmpView, InputPatchView, OutputPatchView,
    ShowMetaView, ShowView, StripView,
};
use crate::model::signal::{SignalView, strip_id_le};
use crate::model::{
    socket_le, Device, Diagnostic, Direction, HeadAmp, InputPatch, OutputPatch, Severity, Show,
    SignalRef, SocketRef, SocketView, Strip, StripId, StripKind, Tap, Transport, TransportView,
};
use crate::text::{
    chars_of, dec, eq_str, first_match, is_digit, is_digit_char, is_ws, is_ws_char,
    lemma_first_match_at, lemma_first_match_none, lemma_seq_lt_total, lemma_seq_lt_trans,
    lemma_sort_by_multiset, lemma_sort_by_sorted, lemma_sorted_map,
    lossy_utf8, occurs_at, parse_u16, parse_u16_spec, push_char, push_dec, push_str, slice_prefix,
    seq_lt, slice_vec, sort_by, sorted_spec, stable_sort, string_of, trim_end, trim_end_vec, upper_char,
    upper_seq, utf8_lossy,
};

verus! {

// ---------------------------------------------------------------------------
// Tokens
// ---------------------------------------------------------------------------

/// Where the tokeniser stands after some prefix of a line.
pub struct TokState {
    pub out: Seq<Seq<char>>,
    pub cur: Seq<char>,
    pub in_quotes: bool,
    pub has_token: bool,
}

pub open spec fn tok_step(st: TokState, c: char) -> TokState {
    if c == '"' {
        TokState { out: st.out, cur: st.cur, in_quotes: !st.in_quotes, has_token: true }
    } else if is_ws(c) && !st.in_quotes {
        if st.has_token {
            TokState { out: st.out.push(st.cur), cur: Seq::empty(), in_quotes: st.in_quotes, has_token: false }
        } else {
            st
        }
    } else {
        TokState { out: st.out, cur: st.cur.push(c), in_quotes: st.in_quotes, has_token: true }
    }
}

pub open spec fn tok_run(s: Seq<char>) -> TokState
    decreases s.len(),
{
    if s.len() == 0 {
        TokState { out: Seq::empty(), cur: Seq::empty(), in_quotes: false, has_token: false }
    } else {
        tok_step(tok_run(s.drop_last()), s.last())
    }
}

/// A scene line's tokens: whitespace separates them except inside double
/// quotes, and a pair of quotes makes a token even when empty.
pub open spec fn tokenise_spec(s: Seq<char>) -> Seq<Seq<char>> {
    let st = tok_run(s);
    if st.has_token {
        st.out.push(st.cur)
    } else {
        st.out
    }
}

/// Split a scene line into its tokens, over characters.
pub fn tokenise_chars(line: &[char]) -> (r: Vec<String>)
    ensures
        string_views(r@) == tokenise_spec(line@),
{
    let mut out: Vec<String> = Vec::new();
    let mut cur = String::new();
    let mut in_quotes = false;
    let mut has_token = false;
    let mut i: usize = 0;
    proof {
        assert(line@.take(0) =~= Seq::<char>::empty());
        assert(string_views(out@) =~= Seq::<Seq<char>>::empty());
    }
    while i < line.len()
        invariant
            i <= line@.len(),
            (TokState { out: string_views(out@), cur: cur@, in_quotes, has_token }) == tok_run(
                line@.take(i as int),
            ),
        decreases line@.len() - i,
    {
        let c = line[i];
        proof {
            assert(line@.take(i + 1).drop_last() =~= line@.take(i as int));
        }
        if c == '"' {
            in_quotes = !in_quotes;
            has_token = true;
        } else if is_ws_char(c) && !in_quotes {
            if has_token {
                let ghost before = string_views(out@);
                out.push(cur);
                cur = String::new();
                has_token = false;
                proof {
                    assert(string_views(out@) =~= before.push(tok_run(line@.take(i as int)).cur));
                }
            }
        } else {
            push_char(&mut cur, c);
            has_token = true;
        }
        i = i + 1;
    }
    proof {
        assert(line@.take(i as int) =~= line@);
    }
    if has_token {
        let ghost before = string_views(out@);
        out.push(cur);
        proof {
            assert(string_views(out@) =~= before.push(tok_run(line@).cur));
        }
    }
    out
}

/// Split a scene line into its path and tokens, honouring quoted strings.
pub fn tokenise(line: &str) -> (r: Vec<String>)
    ensures
        string_views(r@) == tokenise_spec(line@),
{
    let cs = chars_of(line);
    tokenise_chars(cs.as_slice())
}

// ---------------------------------------------------------------------------
// Routing blocks and signal enumerations
// ---------------------------------------------------------------------------

/// A physical input group named by a routing block, e.g. `A1-8`.
pub struct BlockTarget {
    pub device: &'static str,
    /// 1-based connector index of the first socket in the block.
    pub start: u16,
}

/// The device a block prefix (upper-cased) names.
pub open spec fn block_device(prefix: Seq<char>) -> Option<Seq<char>> {
    if prefix == "IN"@ {
        Some("local"@)
    } else if prefix == "A"@ {
        Some("aes50a"@)
    } else if prefix == "B"@ {
        Some("aes50b"@)
    } else if prefix == "CARD"@ {
        Some("card"@)
    } else if prefix == "AUX"@ {
        Some("aux"@)
    } else {
        None
    }
}

/// Names are `<prefix><first>-<last>`: `IN1-8` local, `A`/`B` the AES50
/// links, `CARD` the expansion slot, `AUX` the rear auxiliary inputs.
pub open spec fn resolve_block_spec(t: Seq<char>) -> Option<(Seq<char>, u16)> {
    match first_match(t, |c: char| is_digit(c)) {
        None => None,
        Some(k) => match parse_u16_spec(split_spec(t.skip(k), '-')[0]) {
            None => None,
            Some(first) => match block_device(upper_seq(t.take(k))) {
                Some(d) => Some((d, first)),
                None => None,
            },
        },
    }
}

pub open spec fn block_target_view(b: Option<BlockTarget>) -> Option<(Seq<char>, u16)> {
    match b {
        Some(t) => Some((t.device@, t.start)),
        None => None,
    }
}

/// Resolve an input routing block name to the connectors it represents.
pub fn resolve_input_block(token: &str) -> (r: Option<BlockTarget>)
    ensures
        block_target_view(r) == resolve_block_spec(token@),
{
    let cs = chars_of(token);
    resolve_block_chars(cs.as_slice())
}

fn resolve_block_chars(t: &[char]) -> (r: Option<BlockTarget>)
    ensures
        block_target_view(r) == resolve_block_spec(t@),
{
    let n = t.len();
    let mut k: usize = 0;
    while k < n && !is_digit_char(t[k])
        invariant
            k <= n,
            n == t@.len(),
            forall|j: int| 0 <= j < k ==> !is_digit(#[trigger] t@[j]),
        decreases n - k,
    {
        k = k + 1;
    }
    if k == n {
        proof {
            lemma_first_match_none(t@, |c: char| is_digit(c));
        }
        return None;
    }
    proof {
        lemma_first_match_at(t@, |c: char| is_digit(c), k as int);
    }
    let range = slice_vec(t, k, n);
    let pieces = split_chars(range.as_slice(), '-');
    proof {
        assert(range@ =~= t@.skip(k as int));
        lemma_split_nonempty(range@, '-');
        assert(views(pieces@)[0] == pieces@[0]@);
    }
    let first = match parse_u16(pieces[0].as_slice()) {
        Some(v) => v,
        None => return None,
    };
    let mut up: Vec<char> = Vec::new();
    let mut i: usize = 0;
    while i < k
        invariant
            i <= k,
            k < n,
            n == t@.len(),
            up@ == upper_seq(t@.take(i as int)),
        decreases k - i,
    {
        up.push(upper_char(t[i]));
        i = i + 1;
        proof {
            assert(up@ =~= upper_seq(t@.take(i as int)));
        }
    }
    let p = up.as_slice();
    let device: &'static str = if eq_str(p, "IN") {
        "local"
    } else if eq_str(p, "A") {
        "aes50a"
    } else if eq_str(p, "B") {
        "aes50b"
    } else if eq_str(p, "CARD") {
        "card"
    } else if eq_str(p, "AUX") {
        "aux"
    } else {
        return None;
    };
    Some(BlockTarget { device, start: first })
}

/// A strip's source token, from the console's input-signal enumeration.
pub open spec fn input_signal_spec(n: u16) -> SignalView {
    if n == 0 {
        SignalView::Off
    } else if n <= 32 {
        SignalView::InputSlot(n)
    } else if n <= 40 {
        SignalView::Named("Aux In "@ + dec((n - 32) as nat))
    } else if n <= 48 {
        SignalView::Named("FX Return "@ + dec((n - 40) as nat))
    } else {
        SignalView::Named("source "@ + dec(n as nat))
    }
}

/// Decode a strip's source token from the console's input-signal enumeration.
pub fn decode_input_signal(n: u16) -> (r: SignalRef)
    ensures
        r@ == input_signal_spec(n),
{
    if n == 0 {
        SignalRef::Off
    } else if n <= 32 {
        SignalRef::InputSlot(n)
    } else if n <= 40 {
        let mut s = String::from_str("Aux In ");
        push_dec(&mut s, (n - 32) as u64);
        SignalRef::Named(s)
    } else if n <= 48 {
        let mut s = String::from_str("FX Return ");
        push_dec(&mut s, (n - 40) as u64);
        SignalRef::Named(s)
    } else {
        let mut s = String::from_str("source ");
        push_dec(&mut s, n as u64);
        SignalRef::Named(s)
    }
}

/// An output's source token, from the console's output-signal enumeration:
/// the reference plus a human label for the report.
pub open spec fn output_signal_spec(n: u16) -> (SignalView, Seq<char>) {
    if n == 0 {
        (SignalView::Off, "—"@)
    } else if n == 1 {
        (SignalView::Strip(StripId { kind: StripKind::Main, index: 1 }), "Main L"@)
    } else if n == 2 {
        (SignalView::Strip(StripId { kind: StripKind::Main, index: 1 }), "Main R"@)
    } else if n == 3 {
        (SignalView::Strip(StripId { kind: StripKind::Mono, index: 1 }), "Main M/C"@)
    } else if n <= 19 {
        (SignalView::Strip(StripId { kind: StripKind::Bus, index: (n - 3) as u16 }), "Bus "@ + dec((n - 3) as nat))
    } else if n <= 25 {
        (SignalView::Strip(StripId { kind: StripKind::Matrix, index: (n - 19) as u16 }), "Matrix "@ + dec((n - 19) as nat))
    } else if n <= 57 {
        (SignalView::Strip(StripId { kind: StripKind::Input, index: (n - 25) as u16 }), "Ch "@ + dec((n - 25) as nat) + " direct"@)
    } else {
        (SignalView::Named("source "@ + dec(n as nat)), "source "@ + dec(n as nat))
    }
}

/// Decode an output's source token from the console's output-signal
/// enumeration.
pub fn decode_output_signal(n: u16) -> (r: (SignalRef, String))
    ensures
        (r.0@, r.1@) == output_signal_spec(n),
{
    if n == 0 {
        (SignalRef::Off, String::from_str("—"))
    } else if n == 1 {
        (SignalRef::Strip(StripId::new(StripKind::Main, 1)), String::from_str("Main L"))
    } else if n == 2 {
        (SignalRef::Strip(StripId::new(StripKind::Main, 1)), String::from_str("Main R"))
    } else if n == 3 {
        (SignalRef::Strip(StripId::new(StripKind::Mono, 1)), String::from_str("Main M/C"))
    } else if n <= 19 {
        let b = n - 3;
        let mut s = String::from_str("Bus ");
        push_dec(&mut s, b as u64);
        (SignalRef::Strip(StripId::new(StripKind::Bus, b)), s)
    } else if n <= 25 {
        let m = n - 19;
        let mut s = String::from_str("Matrix ");
        push_dec(&mut s, m as u64);
        (SignalRef::Strip(StripId::new(StripKind::Matrix, m)), s)
    } else if n <= 57 {
        let c = n - 25;
        let mut s = String::from_str("Ch ");
        push_dec(&mut s, c as u64);
        push_str(&mut s, " direct");
        (SignalRef::Strip(StripId::new(StripKind::Input, c)), s)
    } else {
        let mut s = String::from_str("source ");
        push_dec(&mut s, n as u64);
        let l = s.clone();
        (SignalRef::Named(s), l)
    }
}

/// Every strip the output enumeration names exists on the console: one of
/// the 6 matrices, 16 buses or 32 input channels.
pub proof fn law_output_sources_in_range(n: u16)
    ensures
        match output_signal_spec(n).0 {
            SignalView::Strip(id) => {
                &&& (id.kind == StripKind::Matrix ==> 1 <= id.index <= 6)
                &&& (id.kind == StripKind::Bus ==> 1 <= id.index <= 16)
                &&& (id.kind == StripKind::Input ==> 1 <= id.index <= 32)
                &&& 1 <= n <= 57
            },
            SignalView::Named(_) => n > 57,
            SignalView::Off => n == 0,
            _ => false,
        },
{
}

/// The tap point a token names.
pub open spec fn tap_spec(t: Seq<char>) -> Tap {
    if t == "IN"@ || t == "IN/LC"@ {
        Tap::PreEq
    } else if t == "<-EQ"@ {
        Tap::PreEq
    } else if t == "EQ->"@ {
        Tap::PostEq
    } else if t == "PRE"@ {
        Tap::PreFader
    } else if t == "POST"@ {
        Tap::PostFader
    } else {
        Tap::Unknown
    }
}

pub fn decode_tap(token: &str) -> (r: Tap)
    ensures
        r == tap_spec(token@),
{
    let cs = chars_of(token);
    decode_tap_chars(cs.as_slice())
}

fn decode_tap_chars(t: &[char]) -> (r: Tap)
    ensures
        r == tap_spec(t@),
{
    if eq_str(t, "IN") || eq_str(t, "IN/LC") {
        Tap::PreEq
    } else if eq_str(t, "<-EQ") {
        Tap::PreEq
    } else if eq_str(t, "EQ->") {
        Tap::PostEq
    } else if eq_str(t, "PRE") {
        Tap::PreFader
    } else if eq_str(t, "POST") {
        Tap::PostFader
    } else {
        Tap::Unknown
    }
}

/// The connector a flat head-amp index controls: 0–31 the local XLRs, 32–79
/// AES50-A, 80–127 AES50-B.
pub open spec fn headamp_spec(idx: u16) -> Option<SocketView> {
    if idx <= 31 {
        Some(SocketView { device: "local"@, dir: Direction::In, index: (idx + 1) as u16 })
    } else if idx <= 79 {
        Some(SocketView { device: "aes50a"@, dir: Direction::In, index: (idx - 31) as u16 })
    } else if idx <= 127 {
        Some(SocketView { device: "aes50b"@, dir: Direction::In, index: (idx - 79) as u16 })
    } else {
        None
    }
}

pub open spec fn socket_opt_view(s: Option<SocketRef>) -> Option<SocketView> {
    match s {
        Some(v) => Some(v@),
        None => None,
    }
}

/// Map a flat head-amp index onto the connector it controls.
pub fn headamp_socket(idx: u16) -> (r: Option<SocketRef>)
    ensures
        socket_opt_view(r) == headamp_spec(idx),
{
    if idx <= 31 {
        Some(SocketRef::new("local", Direction::In, idx + 1))
    } else if idx <= 79 {
        Some(SocketRef::new("aes50a", Direction::In, idx - 31))
    } else if idx <= 127 {
        Some(SocketRef::new("aes50b", Direction::In, idx - 79))
    } else {
        None
    }
}

pub open spec fn device_spec(
    id: Seq<char>,
    label: Seq<char>,
    transport: TransportView,
    inputs: u16,
    outputs: u16,
) -> DeviceView {
    DeviceView { id, label, model: None, transport, inputs, outputs }
}

/// The I/O an X32 always has.
pub open spec fn x32_devices() -> Seq<DeviceView> {
    seq![
        device_spec("local"@, "Console local I/O"@, TransportView::Local, 32, 16),
        device_spec("aes50a"@, "AES50 A"@, TransportView::Aes50A, 48, 48),
        device_spec("aes50b"@, "AES50 B"@, TransportView::Aes50B, 48, 48),
        device_spec("card"@, "Expansion card"@, TransportView::Card("slot"@), 32, 32),
        device_spec("aux"@, "Aux in/out (rear)"@, TransportView::Local, 6, 6),
        device_spec("p16"@, "Ultranet P16"@, TransportView::Ultranet, 0, 16),
        device_spec("aes"@, "AES/EBU"@, TransportView::Other("aes3"@), 2, 2),
        device_spec("rec"@, "USB recorder"@, TransportView::Recorder, 2, 2),
    ]
}

pub fn devices() -> (r: Vec<Device>)
    ensures
        crate::model::show::devices_view(r@) == x32_devices(),
{
    let mut v: Vec<Device> = Vec::new();
    v.push(Device::new("local", "Console local I/O", Transport::Local, 32, 16));
    v.push(Device::new("aes50a", "AES50 A", Transport::Aes50A, 48, 48));
    v.push(Device::new("aes50b", "AES50 B", Transport::Aes50B, 48, 48));
    v.push(Device::new("card", "Expansion card", Transport::Card(String::from_str("slot")), 32, 32));
    v.push(Device::new("aux", "Aux in/out (rear)", Transport::Local, 6, 6));
    v.push(Device::new("p16", "Ultranet P16", Transport::Ultranet, 0, 16));
    v.push(Device::new("aes", "AES/EBU", Transport::Other(String::from_str("aes3")), 2, 2));
    v.push(Device::new("rec", "USB recorder", Transport::Recorder, 2, 2));
    proof {
        assert(crate::model::show::devices_view(v@) =~= x32_devices());
    }
    v
}

/// Strip kinds keyed by their scene-file path segment, with how many exist.
pub open spec fn strip_section(s: Seq<char>) -> Option<(StripKind, u16)> {
    if s == "ch"@ {
        Some((StripKind::Input, 32))
    } else if s == "auxin"@ {
        Some((StripKind::AuxIn, 8))
    } else if s == "fxrtn"@ {
        Some((StripKind::FxReturn, 8))
    } else if s == "bus"@ {
        Some((StripKind::Bus, 16))
    } else if s == "mtx"@ {
        Some((StripKind::Matrix, 6))
    } else if s == "dca"@ {
        Some((StripKind::Dca, 8))
    } else {
        None
    }
}

fn strip_section_exec(s: &[char]) -> (r: Option<(StripKind, u16)>)
    ensures
        r == strip_section(s@),
{
    if eq_str(s, "ch") {
        Some((StripKind::Input, 32))
    } else if eq_str(s, "auxin") {
        Some((StripKind::AuxIn, 8))
    } else if eq_str(s, "fxrtn") {
        Some((StripKind::FxReturn, 8))
    } else if eq_str(s, "bus") {
        Some((StripKind::Bus, 16))
    } else if eq_str(s, "mtx") {
        Some((StripKind::Matrix, 6))
    } else if eq_str(s, "dca") {
        Some((StripKind::Dca, 8))
    } else {
        None
    }
}

/// Output sections keyed by path segment, with the device they land on.
pub open spec fn output_section(s: Seq<char>) -> Option<Seq<char>> {
    if s == "main"@ {
        Some("local"@)
    } else if s == "aux"@ {
        Some("aux"@)
    } else if s == "p16"@ {
        Some("p16"@)
    } else if s == "aes"@ {
        Some("aes"@)
    } else if s == "rec"@ {
        Some("rec"@)
    } else {
        None
    }
}

fn output_section_exec(s: &[char]) -> (r: Option<&'static str>)
    ensures
        match r {
            Some(d) => output_section(s@) == Some(d@),
            None => output_section(s@) is None,
        },
{
    if eq_str(s, "main") {
        Some("local")
    } else if eq_str(s, "aux") {
        Some("aux")
    } else if eq_str(s, "p16") {
        Some("p16")
    } else if eq_str(s, "aes") {
        Some("aes")
    } else if eq_str(s, "rec") {
        Some("rec")
    } else {
        None
    }
}


// ---------------------------------------------------------------------------
// The scene, line by line
// ---------------------------------------------------------------------------

/// The parser's state after some lines of a scene file: the show so far, the
/// input routing blocks last seen, and whether any line was understood.
pub struct ScnSpec {
    pub show: ShowView,
    pub blocks: Seq<Seq<char>>,
    pub recognised: bool,
}

pub open spec fn scn_init() -> ScnSpec {
    ScnSpec {
        show: ShowView {
            meta: ShowMetaView {
                name: Seq::empty(),
                note: None,
                source_format: "x32"@,
                console: "Behringer X32 / Midas M32"@,
                format_version: None,
            },
            devices: x32_devices(),
            head_amps: Seq::empty(),
            strips: Seq::empty(),
            inputs: Seq::empty(),
            outputs: Seq::empty(),
            scenes: Seq::empty(),
            diagnostics: Seq::empty(),
        },
        blocks: Seq::empty(),
        recognised: false,
    }
}

pub open spec fn with_show(st: ScnSpec, show: ShowView) -> ScnSpec {
    ScnSpec { show, blocks: st.blocks, recognised: true }
}

/// `line N: /path`, the place a diagnostic points at.
pub open spec fn locus_spec(lineno: nat, path: Seq<char>) -> Seq<char> {
    "line "@ + dec(lineno + 1) + ": "@ + path
}

/// The header `#2.7# "Scene name" "note" ...`: version, name, note.
pub open spec fn header_step(st: ScnSpec, toks: Seq<Seq<char>>, name: Seq<char>) -> ScnSpec {
    if toks.len() == 0 {
        st
    } else {
        let m = st.show.meta;
        let meta = ShowMetaView {
            name: if toks.len() > 1 && toks[1].len() > 0 {
                toks[1]
            } else {
                trim_end_seq(name, ".scn"@)
            },
            note: if toks.len() > 2 && toks[2].len() > 0 {
                Some(toks[2])
            } else {
                None
            },
            source_format: m.source_format,
            console: m.console,
            format_version: Some(trim_char(toks[0], '#')),
        };
        ScnSpec { show: st.show.with_meta(meta), blocks: st.blocks, recognised: st.recognised }
    }
}

pub open spec fn is_link(s: Seq<char>) -> bool {
    s == "AES50A"@ || s == "AES50B"@ || s == "CARD"@ || s == "OUT"@
}

pub open spec fn link_message(link: Seq<char>, args: Seq<Seq<char>>) -> Seq<char> {
    link + " output routing blocks ["@ + crate::lex::join_spec(args, " "@)
        + "] are recorded but not expanded into per-connector rows; the output patch below covers the console's own output definitions only"@
}

pub open spec fn opt_arg(args: Seq<Seq<char>>, i: int) -> Option<Seq<char>> {
    if 0 <= i < args.len() {
        Some(args[i])
    } else {
        None
    }
}

/// Main L/R or mono, named by the first argument unless it is empty.
pub open spec fn main_strip(kind: StripKind, args: Seq<Seq<char>>, default_name: Seq<char>) -> StripView {
    let b = blank_strip(StripId { kind, index: 1 });
    StripView {
        id: b.id,
        name: if args.len() > 0 && args[0].len() > 0 {
            args[0]
        } else {
            default_name
        },
        colour: opt_arg(args, 1),
        icon: b.icon,
        source: b.source,
        muted: b.muted,
        fader_db: b.fader_db,
        linked_to: b.linked_to,
    }
}

/// A `/<section>/NN/config` strip: name, colour, icon and, for input-bearing
/// strips, the source token.
pub open spec fn config_strip(kind: StripKind, index: u16, args: Seq<Seq<char>>) -> StripView {
    StripView {
        id: StripId { kind, index },
        name: if args.len() > 0 {
            args[0]
        } else {
            Seq::empty()
        },
        colour: opt_arg(args, 1),
        icon: opt_arg(args, 2),
        source: if (kind == StripKind::Input || kind == StripKind::AuxIn) && args.len() > 3 {
            match parse_u16_spec(args[3]) {
                Some(v) => input_signal_spec(v),
                None => SignalView::Off,
            }
        } else {
            SignalView::Off
        },
        muted: false,
        fader_db: None,
        linked_to: None,
    }
}

pub open spec fn config_step(
    sv: ShowView,
    locus: Seq<char>,
    section: Seq<char>,
    idx: Seq<char>,
    args: Seq<Seq<char>>,
) -> ShowView {
    match strip_section(section) {
        None => sv,
        Some((kind, count)) => match parse_u16_spec(idx) {
            None => sv,
            Some(index) => if index == 0 || index > count {
                sv.push_diagnostic(
                    crate::model::show::diagnostic(
                        Severity::Suspect,
                        locus,
                        section + " "@ + dec(index as nat) + " is outside the X32's range of "@
                            + dec(count as nat),
                    ),
                )
            } else {
                sv.with_strips(sv.strips.push(config_strip(kind, index, args)))
            },
        },
    }
}

/// Level text the show file holds, kept where it reads as a number.
pub open spec fn level_arg(args: Seq<Seq<char>>, i: int) -> Option<Seq<char>> {
    if 0 <= i < args.len() && is_float_text(args[i]) {
        Some(args[i])
    } else {
        None
    }
}

pub open spec fn mixed_strip(s: StripView, args: Seq<Seq<char>>) -> StripView {
    StripView {
        id: s.id,
        name: s.name,
        colour: s.colour,
        icon: s.icon,
        source: s.source,
        muted: args.len() > 0 && args[0] == "OFF"@,
        fader_db: level_arg(args, 1),
        linked_to: s.linked_to,
    }
}

/// `/<section>/NN/mix`: mute and fader of the first strip with that id.
pub open spec fn mix_step(sv: ShowView, section: Seq<char>, idx: Seq<char>, args: Seq<Seq<char>>) -> ShowView {
    match strip_section(section) {
        None => sv,
        Some((kind, _count)) => match parse_u16_spec(idx) {
            None => sv,
            Some(index) => match first_match(sv.strips, |s: StripView| s.id == StripId { kind, index }) {
                None => sv,
                Some(i) => sv.with_strips(sv.strips.update(i, mixed_strip(sv.strips[i], args))),
            },
        },
    }
}

pub open spec fn headamp_step(sv: ShowView, locus: Seq<char>, idx: Seq<char>, args: Seq<Seq<char>>) -> ShowView {
    match parse_u16_spec(idx) {
        None => sv,
        Some(n) => match headamp_spec(n) {
            None => sv.push_diagnostic(
                crate::model::show::diagnostic(
                    Severity::Suspect,
                    locus,
                    "head amp "@ + dec(n as nat) + " is outside the 0–127 range"@,
                ),
            ),
            Some(socket) => sv.with_head_amps(
                sv.head_amps.push(
                    HeadAmpView {
                        socket,
                        gain_db: level_arg(args, 0),
                        phantom: args.len() > 1 && args[1] == "ON"@,
                        pad: false,
                        polarity_invert: false,
                    },
                ),
            ),
        },
    }
}

pub open spec fn output_step(
    sv: ShowView,
    locus: Seq<char>,
    section: Seq<char>,
    idx: Seq<char>,
    args: Seq<Seq<char>>,
) -> ShowView {
    match output_section(section) {
        None => sv,
        Some(device) => match parse_u16_spec(idx) {
            None => sv,
            Some(index) => if args.len() == 0 {
                sv
            } else {
                match parse_u16_spec(args[0]) {
                    None => sv,
                    Some(src) => {
                        let (source, label) = output_signal_spec(src);
                        let sv1 = if source is Named {
                            sv.push_diagnostic(
                                crate::model::show::diagnostic(
                                    Severity::Unknown,
                                    locus,
                                    "output source "@ + dec(src as nat)
                                        + " is outside the decoded range 0–57 and was kept as an opaque label"@,
                                ),
                            )
                        } else {
                            sv
                        };
                        sv1.with_outputs(
                            sv1.outputs.push(
                                OutputPatchView {
                                    socket: SocketView { device, dir: Direction::Out, index },
                                    source,
                                    tap: if args.len() > 1 {
                                        tap_spec(args[1])
                                    } else {
                                        Tap::Unknown
                                    },
                                    source_label: label,
                                },
                            ),
                        )
                    },
                }
            },
        },
    }
}

/// A line that starts with `/`: what its path segments select.
pub open spec fn path_step(st: ScnSpec, lineno: nat, path: Seq<char>, args: Seq<Seq<char>>) -> ScnSpec {
    let segs = split_spec(trim_start_char(path, '/'), '/');
    let locus = locus_spec(lineno, path);
    let sv = st.show;
    if segs.len() == 3 && segs[0] == "config"@ && segs[1] == "routing"@ && segs[2] == "IN"@ {
        ScnSpec { show: sv, blocks: args, recognised: true }
    } else if segs.len() == 3 && segs[0] == "config"@ && segs[1] == "routing"@ && is_link(segs[2]) {
        with_show(
            st,
            sv.push_diagnostic(
                crate::model::show::diagnostic(Severity::Unmodelled, locus, link_message(segs[2], args)),
            ),
        )
    } else if segs.len() == 3 && segs[0] == "main"@ && segs[1] == "st"@ && segs[2] == "config"@ {
        with_show(st, sv.with_strips(sv.strips.push(main_strip(StripKind::Main, args, "Main LR"@))))
    } else if segs.len() == 3 && segs[0] == "main"@ && segs[1] == "m"@ && segs[2] == "config"@ {
        with_show(st, sv.with_strips(sv.strips.push(main_strip(StripKind::Mono, args, "Main M/C"@))))
    } else if segs.len() == 3 && segs[2] == "config"@ {
        with_show(st, config_step(sv, locus, segs[0], segs[1], args))
    } else if segs.len() == 3 && segs[2] == "mix"@ {
        with_show(st, mix_step(sv, segs[0], segs[1], args))
    } else if segs.len() == 2 && segs[0] == "headamp"@ {
        with_show(st, headamp_step(sv, locus, segs[1], args))
    } else if segs.len() == 3 && segs[0] == "outputs"@ {
        with_show(st, output_step(sv, locus, segs[1], segs[2], args))
    } else {
        st
    }
}

/// One line of the scene file. Lines are trimmed at the end; blank lines and
/// lines that are neither a header nor a path are skipped.
pub open spec fn scn_line(st: ScnSpec, lineno: nat, raw: Seq<char>, name: Seq<char>) -> ScnSpec {
    let line = trim_end(raw);
    if line.len() == 0 {
        st
    } else if line[0] == '#' {
        header_step(st, tokenise_spec(line.drop_first()), name)
    } else if line[0] != '/' {
        st
    } else {
        let toks = tokenise_spec(line);
        if toks.len() == 0 {
            st
        } else {
            path_step(st, lineno, toks[0], toks.drop_first())
        }
    }
}

/// The state after the given lines, numbered from 0.
pub open spec fn scn_fold(lines: Seq<Seq<char>>, name: Seq<char>) -> ScnSpec
    decreases lines.len(),
{
    if lines.len() == 0 {
        scn_init()
    } else {
        scn_line(scn_fold(lines.drop_last(), name), (lines.len() - 1) as nat, lines.last(), name)
    }
}

// ---------------------------------------------------------------------------
// Composing the input patch
// ---------------------------------------------------------------------------

/// The first strip fed by an input slot.
pub open spec fn slot_strip(strips: Seq<StripView>, slot: u16) -> Option<StripId> {
    match first_match(strips, |s: StripView| s.source == SignalView::InputSlot(slot)) {
        Some(j) => Some(strips[j].id),
        None => None,
    }
}

/// Connector number `start + o`, wrapping as 16-bit arithmetic does.
pub open spec fn connector(start: u16, o: int) -> u16 {
    if start + o > 65535 {
        (start + o - 65536) as u16
    } else {
        (start + o) as u16
    }
}

pub open spec fn row_spec(strips: Seq<StripView>, bi: int, block: Seq<char>, o: int) -> InputPatchView {
    let slot = (bi * 8 + o + 1) as u16;
    InputPatchView {
        slot,
        block_label: block,
        socket: match resolve_block_spec(block) {
            Some((d, start)) => Some(SocketView { device: d, dir: Direction::In, index: connector(start, o) }),
            None => None,
        },
        strip: slot_strip(strips, slot),
    }
}

/// Block `bi` feeds slots `8 bi + 1 ..= 8 bi + 8`.
pub open spec fn block_rows(strips: Seq<StripView>, bi: int, block: Seq<char>) -> Seq<InputPatchView> {
    Seq::new(8, |o: int| row_spec(strips, bi, block, o))
}

pub open spec fn input_rows(strips: Seq<StripView>, blocks: Seq<Seq<char>>, k: nat) -> Seq<InputPatchView>
    decreases k,
{
    if k == 0 {
        Seq::empty()
    } else {
        input_rows(strips, blocks, (k - 1) as nat) + block_rows(strips, k - 1, blocks[k - 1])
    }
}

pub open spec fn block_diags(blocks: Seq<Seq<char>>, k: nat) -> Seq<DiagnosticView>
    decreases k,
{
    if k == 0 {
        Seq::empty()
    } else {
        block_diags(blocks, (k - 1) as nat) + if resolve_block_spec(blocks[k - 1]) is None {
            seq![
                crate::model::show::diagnostic(
                    Severity::Unknown,
                    "/config/routing/IN"@,
                    "unrecognised input routing block '"@ + blocks[k - 1] + "'"@,
                ),
            ]
        } else {
            Seq::empty()
        }
    }
}

pub open spec fn aux_block_diag(block: Seq<char>) -> DiagnosticView {
    crate::model::show::diagnostic(
        Severity::Unmodelled,
        "/config/routing/IN"@,
        "aux input routing block '"@ + block
            + "' feeds the rear aux inputs, which sit outside the 32 input slots and are not listed in the input patch"@,
    )
}

/// Routing blocks 1–4 cover the 32 input slots, eight at a time; a fifth
/// addresses the rear aux inputs, which sit outside the slot space.
pub open spec fn input_patch_spec(sv: ShowView, blocks: Seq<Seq<char>>) -> ShowView {
    if blocks.len() == 0 {
        sv.push_diagnostic(
            crate::model::show::diagnostic(
                Severity::Unknown,
                "/config/routing/IN"@,
                "no input routing found; the connector column of the patch list is unknown"@,
            ),
        )
    } else {
        let k: nat = if blocks.len() < 4 { blocks.len() } else { 4 };
        sv.with_inputs(sv.inputs + input_rows(sv.strips, blocks, k)).with_diagnostics(
            sv.diagnostics + block_diags(blocks, k) + if blocks.len() > 4 {
                seq![aux_block_diag(blocks[4])]
            } else {
                Seq::empty()
            },
        )
    }
}

/// Whether some input patch row is fed by this connector.
pub open spec fn socket_used(inputs: Seq<InputPatchView>, s: SocketView) -> bool {
    exists|i: int| 0 <= i < inputs.len() && #[trigger] inputs[i].socket == Some(s)
}

/// Head amps on connectors that nothing is patched from are dropped, the rest
/// sorted by connector.
pub open spec fn head_amp_spec(sv: ShowView) -> ShowView {
    sv.with_head_amps(
        sort_by(
            sv.head_amps.filter(|h: HeadAmpView| socket_used(sv.inputs, h.socket)),
            |a: HeadAmpView, b: HeadAmpView| socket_le(a.socket, b.socket),
        ),
    )
}

pub open spec fn no_scene_message() -> Seq<char> {
    "no recognised scene paths found — this does not look like a scene file"@
}

/// What a scene file's text reads as.
pub open spec fn parse_scn_spec(text: Seq<char>, name: Seq<char>) -> Result<ShowView, AdapterErrorView> {
    let st = scn_fold(split_spec(text, '\n'), name);
    if !st.recognised {
        Err(AdapterErrorView::Parse { adapter: "x32"@, message: no_scene_message() })
    } else {
        let sv = head_amp_spec(input_patch_spec(st.show, st.blocks));
        Ok(
            sv.with_strips(sort_by(sv.strips, |a: StripView, b: StripView| strip_id_le(a.id, b.id)))
                .with_outputs(
                sort_by(sv.outputs, |a: OutputPatchView, b: OutputPatchView| socket_le(a.socket, b.socket)),
            ),
        )
    }
}

pub open spec fn show_result_view(r: Result<Show, AdapterError>) -> Result<ShowView, AdapterErrorView> {
    match r {
        Ok(s) => Ok(s@),
        Err(e) => Err(e@),
    }
}


// ---------------------------------------------------------------------------
// The parser
// ---------------------------------------------------------------------------

struct ScnState {
    show: Show,
    blocks: Vec<String>,
    recognised: bool,
}

impl View for ScnState {
    type V = ScnSpec;

    closed spec fn view(&self) -> ScnSpec {
        ScnSpec { show: self.show@, blocks: string_views(self.blocks@), recognised: self.recognised }
    }
}

/// All tokens after the first.
fn tail_strings(v: &Vec<String>) -> (r: Vec<String>)
    requires
        v@.len() > 0,
    ensures
        string_views(r@) == string_views(v@).drop_first(),
{
    let mut r: Vec<String> = Vec::new();
    let mut i: usize = 1;
    proof {
        assert(string_views(r@) =~= string_views(v@).subrange(1, 1));
    }
    while i < v.len()
        invariant
            1 <= i <= v@.len(),
            string_views(r@) == string_views(v@).subrange(1, i as int),
        decreases v@.len() - i,
    {
        let ghost before = string_views(r@);
        let c = v[i].clone();
        r.push(c);
        proof {
            assert(string_views(r@) =~= before.push(v@[i as int]@));
            assert(string_views(v@).subrange(1, i + 1) =~= string_views(v@).subrange(1, i as int).push(v@[i as int]@));
        }
        i = i + 1;
    }
    proof {
        assert(string_views(v@).subrange(1, i as int) =~= string_views(v@).drop_first());
    }
    r
}

fn arg_is(args: &Vec<String>, i: usize, lit: &str) -> (r: bool)
    ensures
        r == (i < args@.len() && args@[i as int]@ == lit@),
{
    if i < args.len() {
        let cs = chars_of(args[i].as_str());
        eq_str(cs.as_slice(), lit)
    } else {
        false
    }
}

fn opt_arg_exec(args: &Vec<String>, i: usize) -> (r: Option<String>)
    ensures
        crate::model::show::opt_text(r) == opt_arg(string_views(args@), i as int),
{
    if i < args.len() {
        Some(args[i].clone())
    } else {
        None
    }
}

fn level_arg_exec(args: &Vec<String>, i: usize) -> (r: Option<String>)
    ensures
        crate::model::show::opt_text(r) == level_arg(string_views(args@), i as int),
{
    if i < args.len() {
        float_token(&args[i])
    } else {
        None
    }
}

fn nonempty(s: &String) -> (r: bool)
    ensures
        r == (s@.len() > 0),
{
    !s.as_str().is_empty()
}

fn locus(lineno: usize, path: &String) -> (r: String)
    requires
        lineno < usize::MAX,
    ensures
        r@ == locus_spec(lineno as nat, path@),
{
    let mut s = String::from_str("line ");
    push_dec(&mut s, lineno as u64 + 1);
    push_str(&mut s, ": ");
    push_str(&mut s, path.as_str());
    s
}

fn diag(severity: Severity, locus: &str, message: String) -> (r: Diagnostic)
    ensures
        r@ == crate::model::show::diagnostic(severity, locus@, message@),
{
    Diagnostic::new(severity, String::from_str(locus), message)
}

fn header_exec(st: &mut ScnState, toks: &Vec<String>, name: &[char])
    ensures
        final(st)@ == header_step(old(st)@, string_views(toks@), name@),
{
    if toks.len() == 0 {
        return;
    }
    let t0 = chars_of(toks[0].as_str());
    let v = trim_char_vec(t0.as_slice(), '#');
    st.show.meta.format_version = Some(string_of(v.as_slice()));
    if toks.len() > 1 && nonempty(&toks[1]) {
        st.show.meta.name = toks[1].clone();
    } else {
        let suffix = chars_of(".scn");
        proof {
            reveal_strlit(".scn");
        }
        let t = trim_end_seq_vec(name, suffix.as_slice());
        st.show.meta.name = string_of(t.as_slice());
    }
    if toks.len() > 2 && nonempty(&toks[2]) {
        st.show.meta.note = Some(toks[2].clone());
    } else {
        st.show.meta.note = None;
    }
}

fn config_exec(show: &mut Show, locus: &String, section: &[char], idx: &[char], args: &Vec<String>)
    ensures
        final(show)@ == config_step(old(show)@, locus@, section@, idx@, string_views(args@)),
{
    let (kind, count) = match strip_section_exec(section) {
        Some(p) => p,
        None => return,
    };
    let index = match parse_u16(idx) {
        Some(v) => v,
        None => return,
    };
    if index == 0 || index > count {
        let mut m = string_of(section);
        push_str(&mut m, " ");
        push_dec(&mut m, index as u64);
        push_str(&mut m, " is outside the X32's range of ");
        push_dec(&mut m, count as u64);
        show.push_diagnostic(Diagnostic::new(Severity::Suspect, locus.clone(), m));
        return;
    }
    let mut strip = Strip::new(StripId::new(kind, index));
    if args.len() > 0 {
        strip.name = args[0].clone();
    }
    strip.colour = opt_arg_exec(args, 1);
    strip.icon = opt_arg_exec(args, 2);
    if (kind == StripKind::Input || kind == StripKind::AuxIn) && args.len() > 3 {
        let a3 = chars_of(args[3].as_str());
        match parse_u16(a3.as_slice()) {
            Some(v) => {
                strip.source = decode_input_signal(v);
            },
            None => {},
        }
    }
    proof {
        assert(strip@ == config_strip(kind, index, string_views(args@)));
    }
    show.push_strip(strip);
}

fn main_exec(show: &mut Show, kind: StripKind, args: &Vec<String>, default_name: &str)
    ensures
        final(show)@ == old(show)@.with_strips(
            old(show)@.strips.push(main_strip(kind, string_views(args@), default_name@)),
        ),
{
    let mut strip = Strip::new(StripId::new(kind, 1));
    if args.len() > 0 && nonempty(&args[0]) {
        strip.name = args[0].clone();
    } else {
        strip.name = String::from_str(default_name);
    }
    strip.colour = opt_arg_exec(args, 1);
    proof {
        assert(strip@ == main_strip(kind, string_views(args@), default_name@));
    }
    show.push_strip(strip);
}

fn mix_exec(show: &mut Show, section: &[char], idx: &[char], args: &Vec<String>)
    ensures
        final(show)@ == mix_step(old(show)@, section@, idx@, string_views(args@)),
{
    let (kind, _count) = match strip_section_exec(section) {
        Some(p) => p,
        None => return,
    };
    let index = match parse_u16(idx) {
        Some(v) => v,
        None => return,
    };
    let id = StripId::new(kind, index);
    let ghost sv = show@;
    match find_strip(&show.strips, id) {
        None => {},
        Some(i) => {
            let old_s = &show.strips[i];
            let s = Strip {
                id: old_s.id,
                name: old_s.name.clone(),
                colour: crate::model::show::clone_opt(&old_s.colour),
                icon: crate::model::show::clone_opt(&old_s.icon),
                source: old_s.source.clone(),
                muted: arg_is(args, 0, "OFF"),
                fader_db: level_arg_exec(args, 1),
                linked_to: old_s.linked_to,
            };
            proof {
                assert(sv.strips[i as int] == show.strips@[i as int]@);
                assert(s@ == mixed_strip(sv.strips[i as int], string_views(args@)));
            }
            show.set_strip(i, s);
        },
    }
}

/// Position of the first strip with this id.
fn find_strip(strips: &Vec<Strip>, id: StripId) -> (r: Option<usize>)
    ensures
        match r {
            Some(i) => i < strips@.len() && first_match(
                crate::model::show::strips_view(strips@),
                |s: StripView| s.id == id,
            ) == Some(i as int),
            None => first_match(crate::model::show::strips_view(strips@), |s: StripView| s.id == id) is None,
        },
{
    let ghost v = crate::model::show::strips_view(strips@);
    let ghost p = |s: StripView| s.id == id;
    let mut i: usize = 0;
    while i < strips.len()
        invariant
            i <= strips@.len(),
            v == crate::model::show::strips_view(strips@),
            p == (|s: StripView| s.id == id),
            forall|j: int| 0 <= j < i ==> !p(#[trigger] v[j]),
        decreases strips@.len() - i,
    {
        proof {
            assert(v[i as int] == strips@[i as int]@);
        }
        if strips[i].id == id {
            proof {
                lemma_first_match_at(v, p, i as int);
            }
            return Some(i);
        }
        i = i + 1;
    }
    proof {
        lemma_first_match_none(v, p);
    }
    None
}

fn headamp_exec(show: &mut Show, locus: &String, idx: &[char], args: &Vec<String>)
    ensures
        final(show)@ == headamp_step(old(show)@, locus@, idx@, string_views(args@)),
{
    let n = match parse_u16(idx) {
        Some(v) => v,
        None => return,
    };
    match headamp_socket(n) {
        None => {
            let mut m = String::from_str("head amp ");
            push_dec(&mut m, n as u64);
            push_str(&mut m, " is outside the 0–127 range");
            show.push_diagnostic(Diagnostic::new(Severity::Suspect, locus.clone(), m));
        },
        Some(socket) => {
            let h = HeadAmp {
                socket,
                gain_db: level_arg_exec(args, 0),
                phantom: arg_is(args, 1, "ON"),
                pad: false,
                polarity_invert: false,
            };
            show.push_head_amp(h);
        },
    }
}

fn output_exec(show: &mut Show, locus: &String, section: &[char], idx: &[char], args: &Vec<String>)
    ensures
        final(show)@ == output_step(old(show)@, locus@, section@, idx@, string_views(args@)),
{
    let device = match output_section_exec(section) {
        Some(d) => d,
        None => return,
    };
    let index = match parse_u16(idx) {
        Some(v) => v,
        None => return,
    };
    if args.len() == 0 {
        return;
    }
    let a0 = chars_of(args[0].as_str());
    let src = match parse_u16(a0.as_slice()) {
        Some(v) => v,
        None => return,
    };
    let (source, label) = decode_output_signal(src);
    if source.is_named() {
        let mut m = String::from_str("output source ");
        push_dec(&mut m, src as u64);
        push_str(&mut m, " is outside the decoded range 0–57 and was kept as an opaque label");
        show.push_diagnostic(Diagnostic::new(Severity::Unknown, locus.clone(), m));
    }
    let tap = if args.len() > 1 {
        decode_tap(args[1].as_str())
    } else {
        Tap::Unknown
    };
    let o = OutputPatch {
        socket: SocketRef::new(device, Direction::Out, index),
        source,
        tap,
        source_label: label,
    };
    show.push_output(o);
}

fn path_exec(st: &mut ScnState, lineno: usize, toks: &Vec<String>)
    requires
        toks@.len() > 0,
        lineno < usize::MAX,
    ensures
        final(st)@ == path_step(
            old(st)@,
            lineno as nat,
            toks@[0]@,
            string_views(toks@).drop_first(),
        ),
{
    let path = &toks[0];
    let args = tail_strings(toks);
    let pc = chars_of(path.as_str());
    let trimmed = trim_start_char_vec(pc.as_slice(), '/');
    let segs = split_chars(trimmed.as_slice(), '/');
    let loc = locus(lineno, path);
    let ghost a = string_views(args@);
    let ghost sg = views(segs@);
    proof {
        assert(sg == split_spec(trim_start_char(path@, '/'), '/'));
        if segs@.len() > 0 {
            assert(sg[0] == segs@[0]@);
        }
        if segs@.len() > 1 {
            assert(sg[1] == segs@[1]@);
        }
        if segs@.len() > 2 {
            assert(sg[2] == segs@[2]@);
        }
    }
    let n = segs.len();
    let three = n == 3;
    if three && eq_str(segs[0].as_slice(), "config") && eq_str(segs[1].as_slice(), "routing")
        && eq_str(segs[2].as_slice(), "IN") {
        st.blocks = args;
        st.recognised = true;
        return;
    }
    if three && eq_str(segs[0].as_slice(), "config") && eq_str(segs[1].as_slice(), "routing") && (
    eq_str(segs[2].as_slice(), "AES50A") || eq_str(segs[2].as_slice(), "AES50B") || eq_str(
        segs[2].as_slice(),
        "CARD",
    ) || eq_str(segs[2].as_slice(), "OUT")) {
        let mut m = string_of(segs[2].as_slice());
        push_str(&mut m, " output routing blocks [");
        push_joined(&mut m, args.as_slice(), " ");
        push_str(
            &mut m,
            "] are recorded but not expanded into per-connector rows; the output patch below covers the console's own output definitions only",
        );
        st.show.push_diagnostic(Diagnostic::new(Severity::Unmodelled, loc, m));
        st.recognised = true;
        return;
    }
    if three && eq_str(segs[0].as_slice(), "main") && eq_str(segs[1].as_slice(), "st") && eq_str(
        segs[2].as_slice(),
        "config",
    ) {
        main_exec(&mut st.show, StripKind::Main, &args, "Main LR");
        st.recognised = true;
        return;
    }
    if three && eq_str(segs[0].as_slice(), "main") && eq_str(segs[1].as_slice(), "m") && eq_str(
        segs[2].as_slice(),
        "config",
    ) {
        main_exec(&mut st.show, StripKind::Mono, &args, "Main M/C");
        st.recognised = true;
        return;
    }
    if three && eq_str(segs[2].as_slice(), "config") {
        config_exec(&mut st.show, &loc, segs[0].as_slice(), segs[1].as_slice(), &args);
        st.recognised = true;
        return;
    }
    if three && eq_str(segs[2].as_slice(), "mix") {
        mix_exec(&mut st.show, segs[0].as_slice(), segs[1].as_slice(), &args);
        st.recognised = true;
        return;
    }
    if n == 2 && eq_str(segs[0].as_slice(), "headamp") {
        headamp_exec(&mut st.show, &loc, segs[1].as_slice(), &args);
        st.recognised = true;
        return;
    }
    if three && eq_str(segs[0].as_slice(), "outputs") {
        output_exec(&mut st.show, &loc, segs[1].as_slice(), segs[2].as_slice(), &args);
        st.recognised = true;
        return;
    }
}

fn line_exec(st: &mut ScnState, lineno: usize, raw: &[char], name: &[char])
    requires
        lineno < usize::MAX,
    ensures
        final(st)@ == scn_line(old(st)@, lineno as nat, raw@, name@),
{
    let line = trim_end_vec(raw);
    if line.len() == 0 {
        return;
    }
    if line[0] == '#' {
        let rest = slice_vec(line.as_slice(), 1, line.len());
        proof {
            assert(rest@ =~= line@.drop_first());
        }
        let toks = tokenise_chars(rest.as_slice());
        header_exec(st, &toks, name);
        return;
    }
    if line[0] != '/' {
        return;
    }
    let toks = tokenise_chars(line.as_slice());
    if toks.len() == 0 {
        return;
    }
    proof {
        assert(string_views(toks@)[0] == toks@[0]@);
    }
    path_exec(st, lineno, &toks);
}


/// The first strip fed by this input slot.
fn slot_strip_exec(strips: &Vec<Strip>, slot: u16) -> (r: Option<StripId>)
    ensures
        r == slot_strip(crate::model::show::strips_view(strips@), slot),
{
    let ghost v = crate::model::show::strips_view(strips@);
    let ghost p = |s: StripView| s.source == SignalView::InputSlot(slot);
    let mut i: usize = 0;
    while i < strips.len()
        invariant
            i <= strips@.len(),
            v == crate::model::show::strips_view(strips@),
            p == (|s: StripView| s.source == SignalView::InputSlot(slot)),
            forall|j: int| 0 <= j < i ==> !p(#[trigger] v[j]),
        decreases strips@.len() - i,
    {
        proof {
            assert(v[i as int] == strips@[i as int]@);
        }
        let hit = match &strips[i].source {
            SignalRef::InputSlot(n) => *n == slot,
            _ => false,
        };
        if hit {
            proof {
                lemma_first_match_at(v, p, i as int);
            }
            return Some(strips[i].id);
        }
        i = i + 1;
    }
    proof {
        lemma_first_match_none(v, p);
    }
    None
}

fn connector_exec(start: u16, o: u16) -> (r: u16)
    requires
        o < 8,
    ensures
        r == connector(start, o as int),
{
    let s: u32 = start as u32 + o as u32;
    if s > 65535 {
        (s - 65536) as u16
    } else {
        s as u16
    }
}

/// Everything but the input rows and the diagnostics is as it was.
pub open spec fn same_but_patch_notes(a: ShowView, b: ShowView) -> bool {
    a == b.with_inputs(a.inputs).with_diagnostics(a.diagnostics)
}

/// Compose routing blocks and channel sources into the input patch.
fn build_input_patch(show: &mut Show, blocks: &Vec<String>)
    ensures
        final(show)@ == input_patch_spec(old(show)@, string_views(blocks@)),
{
    let ghost b = string_views(blocks@);
    if blocks.len() == 0 {
        show.push_diagnostic(
            diag(
                Severity::Unknown,
                "/config/routing/IN",
                String::from_str("no input routing found; the connector column of the patch list is unknown"),
            ),
        );
        return;
    }
    let ghost sv0 = show@;
    let k: usize = if blocks.len() < 4 {
        blocks.len()
    } else {
        4
    };
    let mut bi: usize = 0;
    while bi < k
        invariant
            bi <= k,
            k <= 4,
            k <= blocks@.len(),
            b == string_views(blocks@),
            show@.strips == sv0.strips,
            show@.inputs == sv0.inputs + input_rows(sv0.strips, b, bi as nat),
            show@.diagnostics == sv0.diagnostics + block_diags(b, bi as nat),
            same_but_patch_notes(show@, sv0),
        decreases k - bi,
    {
        let bc = chars_of(blocks[bi].as_str());
        let target = resolve_block_chars(bc.as_slice());
        proof {
            assert(b[bi as int] == blocks@[bi as int]@);
        }
        if target.is_none() {
            let mut m = String::from_str("unrecognised input routing block '");
            push_str(&mut m, blocks[bi].as_str());
            push_str(&mut m, "'");
            show.push_diagnostic(diag(Severity::Unknown, "/config/routing/IN", m));
        }
        proof {
            assert(show@.diagnostics =~= sv0.diagnostics + block_diags(b, (bi + 1) as nat));
        }
        let ghost rows0 = show@.inputs;
        let mut o: u16 = 0;
        while o < 8
            invariant
                o <= 8,
                bi < k,
                k <= 4,
                k <= blocks@.len(),
                b == string_views(blocks@),
                block_target_view(target) == resolve_block_spec(b[bi as int]),
                show@.strips == sv0.strips,
                show@.inputs == rows0 + block_rows(sv0.strips, bi as int, b[bi as int]).take(o as int),
                show@.diagnostics == sv0.diagnostics + block_diags(b, (bi + 1) as nat),
                same_but_patch_notes(show@, sv0),
            decreases 8 - o,
        {
            let slot: u16 = (bi as u16) * 8 + o + 1;
            let socket = match &target {
                Some(t) => Some(SocketRef::new(t.device, Direction::In, connector_exec(t.start, o))),
                None => None,
            };
            let strip = slot_strip_exec(&show.strips, slot);
            let row = InputPatch { slot, block_label: blocks[bi].clone(), socket, strip };
            proof {
                assert(row@ == row_spec(sv0.strips, bi as int, b[bi as int], o as int));
            }
            show.push_input(row);
            proof {
                assert(block_rows(sv0.strips, bi as int, b[bi as int]).take(o + 1) =~= block_rows(
                    sv0.strips,
                    bi as int,
                    b[bi as int],
                ).take(o as int).push(row@));
            }
            o = o + 1;
        }
        proof {
            assert(block_rows(sv0.strips, bi as int, b[bi as int]).take(8) =~= block_rows(
                sv0.strips,
                bi as int,
                b[bi as int],
            ));
            assert(show@.inputs =~= sv0.inputs + input_rows(sv0.strips, b, (bi + 1) as nat));
        }
        bi = bi + 1;
    }
    if blocks.len() > 4 {
        let mut m = String::from_str("aux input routing block '");
        push_str(&mut m, blocks[4].as_str());
        push_str(
            &mut m,
            "' feeds the rear aux inputs, which sit outside the 32 input slots and are not listed in the input patch",
        );
        show.push_diagnostic(diag(Severity::Unmodelled, "/config/routing/IN", m));
        proof {
            assert(b[4] == blocks@[4]@);
        }
    }
    proof {
        let extra = if b.len() > 4 {
            seq![aux_block_diag(b[4])]
        } else {
            Seq::empty()
        };
        assert(show@.diagnostics =~= sv0.diagnostics + block_diags(b, k as nat) + extra);
        assert(show@ == input_patch_spec(sv0, b));
    }
}


/// Whether some input patch row is fed by this connector.
fn socket_in_inputs(inputs: &Vec<InputPatch>, sock: &SocketRef) -> (r: bool)
    ensures
        r == socket_used(crate::model::show::inputs_view(inputs@), sock@),
{
    let ghost v = crate::model::show::inputs_view(inputs@);
    let mut i: usize = 0;
    while i < inputs.len()
        invariant
            i <= inputs@.len(),
            v == crate::model::show::inputs_view(inputs@),
            forall|j: int| 0 <= j < i ==> #[trigger] v[j].socket != Some(sock@),
        decreases inputs@.len() - i,
    {
        proof {
            assert(v[i as int] == inputs@[i as int]@);
        }
        let hit = match &inputs[i].socket {
            Some(x) => x.same(sock),
            None => false,
        };
        if hit {
            proof {
                assert(v[i as int].socket == Some(sock@));
            }
            return true;
        }
        i = i + 1;
    }
    false
}

/// Drop head amps for connectors that nothing is patched from, and sort the
/// rest by connector.
///
/// The console stores all 128 regardless of use; listing every one would bury
/// the eight that matter.
fn resolve_head_amp_sockets(show: &mut Show)
    ensures
        final(show)@ == head_amp_spec(old(show)@),
{
    let ghost sv0 = show@;
    let ghost p = |h: HeadAmpView| socket_used(sv0.inputs, h.socket);
    let mut rest: Vec<HeadAmp> = Vec::new();
    std::mem::swap(&mut rest, &mut show.head_amps);
    let ghost orig = crate::model::show::head_amps_view(rest@);
    let mut kept: Vec<HeadAmp> = Vec::new();
    let ghost mut k: int = 0;
    proof {
        assert(orig.take(0) =~= Seq::<HeadAmpView>::empty());
        assert(crate::model::show::head_amps_view(rest@) =~= orig.skip(0));
    }
    while rest.len() > 0
        invariant
            0 <= k <= orig.len(),
            crate::model::show::head_amps_view(rest@) == orig.skip(k),
            crate::model::show::head_amps_view(kept@) == orig.take(k).filter(p),
            p == (|h: HeadAmpView| socket_used(sv0.inputs, h.socket)),
            show@.inputs == sv0.inputs,
            show@ == sv0.with_head_amps(show@.head_amps),
        decreases rest@.len(),
    {
        let ghost r0 = rest@;
        proof {
            assert(crate::model::show::head_amps_view(r0).len() == r0.len());
            assert(k < orig.len());
        }
        let h = rest.remove(0);
        proof {
            assert(crate::model::show::head_amps_view(r0)[0] == r0[0]@);
            assert(orig.skip(k)[0] == orig[k]);
            assert(orig[k] == h@);
            let t = orig.take(k + 1);
            assert(t.drop_last() =~= orig.take(k));
            reveal_with_fuel(Seq::filter, 1);
        }
        let ghost before = crate::model::show::head_amps_view(kept@);
        if socket_in_inputs(&show.patch.inputs, &h.socket) {
            kept.push(h);
            proof {
                assert(crate::model::show::head_amps_view(kept@) =~= before.push(h@));
            }
        }
        proof {
            assert(crate::model::show::head_amps_view(kept@) =~= orig.take(k + 1).filter(p));
            let rv = crate::model::show::head_amps_view(rest@);
            assert(rest@ =~= r0.subrange(1, r0.len() as int));
            assert forall|j: int| 0 <= j < rv.len() implies rv[j] == orig.skip(k + 1)[j] by {
                assert(crate::model::show::head_amps_view(r0)[j + 1] == r0[j + 1]@);
                assert(orig.skip(k)[j + 1] == orig.skip(k + 1)[j]);
            }
            assert(rv =~= orig.skip(k + 1));
            k = k + 1;
        }
    }
    proof {
        assert(orig.take(k) =~= orig);
    }
    let ghost kept_seq = kept@;
    let sorted = stable_sort(kept);
    proof {
        let f = |h: HeadAmp| h@;
        let le = |a: HeadAmpView, b: HeadAmpView| socket_le(a.socket, b.socket);
        lemma_sorted_map(kept_seq, f, le);
        assert(kept_seq.map_values(f) =~= crate::model::show::head_amps_view(kept_seq));
        assert(sorted_spec(kept_seq).map_values(f) =~= crate::model::show::head_amps_view(sorted@));
    }
    show.head_amps = sorted;
}

fn sort_strips(show: &mut Show)
    ensures
        final(show)@ == old(show)@.with_strips(
            sort_by(old(show)@.strips, |a: StripView, b: StripView| strip_id_le(a.id, b.id)),
        ),
{
    let mut v: Vec<Strip> = Vec::new();
    std::mem::swap(&mut v, &mut show.strips);
    let ghost vs = v@;
    let sorted = stable_sort(v);
    proof {
        let f = |s: Strip| s@;
        let le = |a: StripView, b: StripView| strip_id_le(a.id, b.id);
        lemma_sorted_map(vs, f, le);
        assert(vs.map_values(f) =~= crate::model::show::strips_view(vs));
        assert(sorted_spec(vs).map_values(f) =~= crate::model::show::strips_view(sorted@));
    }
    show.strips = sorted;
}

fn sort_outputs(show: &mut Show)
    ensures
        final(show)@ == old(show)@.with_outputs(
            sort_by(old(show)@.outputs, |a: OutputPatchView, b: OutputPatchView| socket_le(a.socket, b.socket)),
        ),
{
    let mut v: Vec<OutputPatch> = Vec::new();
    std::mem::swap(&mut v, &mut show.patch.outputs);
    let ghost vs = v@;
    let sorted = stable_sort(v);
    proof {
        let f = |s: OutputPatch| s@;
        let le = |a: OutputPatchView, b: OutputPatchView| socket_le(a.socket, b.socket);
        lemma_sorted_map(vs, f, le);
        assert(vs.map_values(f) =~= crate::model::show::outputs_view(vs));
        assert(sorted_spec(vs).map_values(f) =~= crate::model::show::outputs_view(sorted@));
    }
    show.patch.outputs = sorted;
}

/// Read a scene file's text. `name` stands in for the scene name when the
/// header leaves it empty.
pub fn parse_scn(text: &str, name: &str) -> (r: Result<Show, AdapterError>)
    ensures
        show_result_view(r) == parse_scn_spec(text@, name@),
{
    let cs = chars_of(text);
    let nm = chars_of(name);
    let lines = split_chars(cs.as_slice(), '\n');
    let ghost ls = views(lines@);
    let mut show = Show::default();
    show.meta.source_format = String::from_str("x32");
    show.meta.console = String::from_str("Behringer X32 / Midas M32");
    show.devices = devices();
    let mut st = ScnState { show, blocks: Vec::new(), recognised: false };
    proof {
        assert(st@.show.strips =~= Seq::<StripView>::empty());
        assert(st@.show.head_amps =~= Seq::<HeadAmpView>::empty());
        assert(st@.show.inputs =~= Seq::<InputPatchView>::empty());
        assert(st@.show.outputs =~= Seq::<OutputPatchView>::empty());
        assert(st@.show.diagnostics =~= Seq::<DiagnosticView>::empty());
        assert(st@.show.scenes =~= Seq::<crate::model::show::SceneView>::empty());
        assert(st@.blocks =~= Seq::<Seq<char>>::empty());
        assert(st@ == scn_init());
        assert(ls.take(0) =~= Seq::<Seq<char>>::empty());
    }
    let mut i: usize = 0;
    while i < lines.len()
        invariant
            i <= lines@.len(),
            ls == views(lines@),
            ls == split_spec(text@, '\n'),
            st@ == scn_fold(ls.take(i as int), name@),
            nm@ == name@,
        decreases lines@.len() - i,
    {
        proof {
            assert(ls.take(i + 1).drop_last() =~= ls.take(i as int));
            assert(ls.take(i + 1).last() == lines@[i as int]@);
        }
        line_exec(&mut st, i, lines[i].as_slice(), nm.as_slice());
        i = i + 1;
    }
    proof {
        assert(ls.take(i as int) =~= ls);
    }
    let ScnState { show, blocks, recognised } = st;
    let mut show = show;
    build_input_patch(&mut show, &blocks);
    resolve_head_amp_sockets(&mut show);
    if !recognised {
        return Err(
            AdapterError::Parse {
                adapter: "x32",
                message: String::from_str(
                    "no recognised scene paths found — this does not look like a scene file",
                ),
            },
        );
    }
    sort_strips(&mut show);
    sort_outputs(&mut show);
    Ok(show)
}


// ---------------------------------------------------------------------------
// The adapter
// ---------------------------------------------------------------------------

/// The head of a file that sniffing looks at: the text of at most its first
/// 4096 bytes, cut to 2048 characters.
pub open spec fn scn_head(bytes: Seq<u8>) -> Seq<char> {
    let b = if bytes.len() <= 4096 {
        bytes
    } else {
        bytes.take(4096)
    };
    let t = lossy_utf8(b);
    if t.len() <= 2048 {
        t
    } else {
        t.take(2048)
    }
}

/// How many lines start with `/`.
pub open spec fn slash_lines(ls: Seq<Seq<char>>) -> nat
    decreases ls.len(),
{
    if ls.len() == 0 {
        0
    } else {
        slash_lines(ls.drop_last()) + if ls.last().len() > 0 && ls.last()[0] == '/' {
            1nat
        } else {
            0nat
        }
    }
}

pub open spec fn contains_text(s: Seq<char>, n: Seq<char>) -> bool {
    exists|i: int| occurs_at(s, n, i)
}

/// Strong: a header, three or more path lines and an X32 path; weak: the
/// extension and the path lines without the rest.
pub open spec fn x32_sniff_spec(files: Seq<super::ShowFile>) -> Confidence {
    if files.len() == 0 {
        Confidence::No
    } else {
        let head = scn_head(files[0].bytes@);
        let has_header = head.len() > 0 && head[0] == '#';
        let has_paths = slash_lines(split_spec(head, '\n')) >= 3;
        let x32_paths = contains_text(head, "/config/"@) || contains_text(head, "/ch/"@);
        if has_header && has_paths && x32_paths {
            Confidence::Strong
        } else if extension_spec(files[0].path@) == "scn"@ && has_paths {
            Confidence::Weak
        } else {
            Confidence::No
        }
    }
}

pub open spec fn x32_parse_spec(files: Seq<super::ShowFile>, name: Seq<char>) -> Result<ShowView, AdapterErrorView> {
    if files.len() == 0 {
        Err(AdapterErrorView::Unrecognised)
    } else {
        parse_scn_spec(lossy_utf8(files[0].bytes@), name)
    }
}

fn count_slash_lines(ls: &Vec<Vec<char>>) -> (r: usize)
    ensures
        r == slash_lines(views(ls@)),
{
    let ghost v = views(ls@);
    let mut c: usize = 0;
    let mut i: usize = 0;
    proof {
        assert(v.take(0) =~= Seq::<Seq<char>>::empty());
    }
    while i < ls.len()
        invariant
            i <= ls@.len(),
            v == views(ls@),
            c == slash_lines(v.take(i as int)),
            c <= i,
        decreases ls@.len() - i,
    {
        proof {
            assert(v.take(i + 1).drop_last() =~= v.take(i as int));
            assert(v.take(i + 1).last() == ls@[i as int]@);
        }
        if ls[i].len() > 0 && ls[i][0] == '/' {
            c = c + 1;
        }
        i = i + 1;
    }
    proof {
        assert(v.take(i as int) =~= v);
    }
    c
}

pub struct X32Adapter;

impl ShowAdapter for X32Adapter {
    fn id(&self) -> (r: &'static str)
        ensures
            r@ == "x32"@,
    {
        "x32"
    }

    fn display_name(&self) -> (r: &'static str)
        ensures
            r@ == "Behringer X32 / Midas M32 scene"@,
    {
        "Behringer X32 / Midas M32 scene"
    }

    fn extensions(&self) -> (r: &'static [&'static str])
        ensures
            r@.map_values(|e: &str| e@) == seq!["scn"@],
    {
        let r: &'static [&'static str] = &["scn"];
        proof {
            assert(r@.map_values(|e: &str| e@) =~= seq!["scn"@]);
        }
        r
    }

    fn sniff(&self, input: &ShowInput) -> (r: Confidence)
        ensures
            r == x32_sniff_spec(input.files@),
    {
        let file = match input.primary() {
            Some(f) => f,
            None => return Confidence::No,
        };
        let n = if file.bytes.len() <= 4096 {
            file.bytes.len()
        } else {
            4096
        };
        let b = slice_prefix(file.bytes.as_slice(), n);
        let t = utf8_lossy(b);
        let tc = chars_of(t.as_str());
        let m = if tc.len() <= 2048 {
            tc.len()
        } else {
            2048
        };
        let head = slice_vec(tc.as_slice(), 0, m);
        proof {
            if file.bytes@.len() <= 4096 {
                assert(b@ =~= file.bytes@);
            }
            if tc@.len() <= 2048 {
                assert(head@ =~= tc@);
            }
            assert(head@ == scn_head(file.bytes@));
        }
        let has_header = head.len() > 0 && head[0] == '#';
        let lines = split_chars(head.as_slice(), '\n');
        let has_paths = count_slash_lines(&lines) >= 3;
        let c1 = chars_of("/config/");
        let c2 = chars_of("/ch/");
        let x32_paths = crate::lex::contains_chars(head.as_slice(), c1.as_slice())
            || crate::lex::contains_chars(head.as_slice(), c2.as_slice());
        if has_header && has_paths && x32_paths {
            Confidence::Strong
        } else {
            let ext = file.extension();
            let ec = chars_of(ext.as_str());
            if eq_str(ec.as_slice(), "scn") && has_paths {
                Confidence::Weak
            } else {
                Confidence::No
            }
        }
    }

    fn parse(&self, input: &ShowInput) -> (r: Result<Show, AdapterError>)
        ensures
            show_result_view(r) == x32_parse_spec(input.files@, input.name@),
    {
        let file = match input.primary() {
            Some(f) => f,
            None => return Err(AdapterError::Unrecognised),
        };
        let text = file.text();
        parse_scn(text.as_str(), input.name.as_str())
    }
}

// ---------------------------------------------------------------------------
// Laws
// ---------------------------------------------------------------------------

/// A scene keeps a head amp only where the input patch uses its connector:
/// the console stores all 128, and only the ones that feed something matter.
pub proof fn law_head_amps_only_on_patched_connectors(text: Seq<char>, name: Seq<char>)
    ensures
        match parse_scn_spec(text, name) {
            Ok(sv) => forall|i: int| 0 <= i < sv.head_amps.len() ==> socket_used(sv.inputs, #[trigger] sv.head_amps[i].socket),
            Err(_) => true,
        },
{
    let st = scn_fold(split_spec(text, '\n'), name);
    if st.recognised {
        let pre = input_patch_spec(st.show, st.blocks);
        let p = |h: HeadAmpView| socket_used(pre.inputs, h.socket);
        let le = |a: HeadAmpView, b: HeadAmpView| socket_le(a.socket, b.socket);
        let f = pre.head_amps.filter(p);
        let s = sort_by(f, le);
        lemma_sort_by_multiset(f, le);
        broadcast use vstd::seq_lib::group_filter_ensures;
        assert forall|i: int| 0 <= i < s.len() implies socket_used(pre.inputs, #[trigger] s[i].socket) by {
            assert(s.to_multiset().count(s[i]) > 0) by {
                vstd::seq_lib::to_multiset_contains(s, s[i]);
            }
            vstd::seq_lib::to_multiset_contains(f, s[i]);
            let j = choose|j: int| 0 <= j < f.len() && f[j] == s[i];
            assert(p(f[j]));
        }
    }
}

/// Connector order is total: any two connectors are ordered one way or the
/// other.
proof fn lemma_socket_le_total(a: SocketView, b: SocketView)
    ensures
        socket_le(a, b) || socket_le(b, a),
{
    if a.device != b.device {
        lemma_seq_lt_total(a.device, b.device);
    }
}

/// Connector order is transitive.
proof fn lemma_socket_le_trans(a: SocketView, b: SocketView, c: SocketView)
    requires
        socket_le(a, b),
        socket_le(b, c),
    ensures
        socket_le(a, c),
{
    if seq_lt(a.device, b.device) && seq_lt(b.device, c.device) {
        lemma_seq_lt_trans(a.device, b.device, c.device);
    }
}

/// A scene keeps exactly the head amps it stores on connectors its input
/// patch uses, none invented and none dropped, in connector order; its
/// strips come in strip order and its outputs in connector order.
pub proof fn law_scene_keeps_used_head_amps_in_order(text: Seq<char>, name: Seq<char>)
    ensures
        match parse_scn_spec(text, name) {
            Ok(sv) => {
                let st = scn_fold(split_spec(text, '\n'), name);
                let pre = input_patch_spec(st.show, st.blocks);
                &&& sv.inputs == pre.inputs
                &&& sv.head_amps.to_multiset() == pre.head_amps.filter(
                    |h: HeadAmpView| socket_used(pre.inputs, h.socket),
                ).to_multiset()
                &&& forall|i: int, j: int|
                    0 <= i < j < sv.head_amps.len() ==> socket_le(
                        #[trigger] sv.head_amps[i].socket,
                        #[trigger] sv.head_amps[j].socket,
                    )
                &&& forall|i: int, j: int|
                    0 <= i < j < sv.strips.len() ==> strip_id_le(#[trigger] sv.strips[i].id, #[trigger] sv.strips[j].id)
                &&& forall|i: int, j: int|
                    0 <= i < j < sv.outputs.len() ==> socket_le(
                        #[trigger] sv.outputs[i].socket,
                        #[trigger] sv.outputs[j].socket,
                    )
            },
            Err(_) => true,
        },
{
    let st = scn_fold(split_spec(text, '\n'), name);
    if st.recognised {
        let pre = input_patch_spec(st.show, st.blocks);
        let p = |h: HeadAmpView| socket_used(pre.inputs, h.socket);
        let hle = |a: HeadAmpView, b: HeadAmpView| socket_le(a.socket, b.socket);
        let sle = |a: StripView, b: StripView| strip_id_le(a.id, b.id);
        let ole = |a: OutputPatchView, b: OutputPatchView| socket_le(a.socket, b.socket);
        assert forall|a: HeadAmpView, b: HeadAmpView| #[trigger] hle(a, b) || hle(b, a) by {
            lemma_socket_le_total(a.socket, b.socket);
        }
        assert forall|a: HeadAmpView, b: HeadAmpView, c: HeadAmpView|
            #[trigger] hle(a, b) && #[trigger] hle(b, c) implies hle(a, c) by {
            lemma_socket_le_trans(a.socket, b.socket, c.socket);
        }
        assert forall|a: OutputPatchView, b: OutputPatchView| #[trigger] ole(a, b) || ole(b, a) by {
            lemma_socket_le_total(a.socket, b.socket);
        }
        assert forall|a: OutputPatchView, b: OutputPatchView, c: OutputPatchView|
            #[trigger] ole(a, b) && #[trigger] ole(b, c) implies ole(a, c) by {
            lemma_socket_le_trans(a.socket, b.socket, c.socket);
        }
        assert forall|a: StripView, b: StripView| #[trigger] sle(a, b) || sle(b, a) by {}
        assert forall|a: StripView, b: StripView, c: StripView|
            #[trigger] sle(a, b) && #[trigger] sle(b, c) implies sle(a, c) by {}
        let f = pre.head_amps.filter(p);
        lemma_sort_by_multiset(f, hle);
        lemma_sort_by_sorted(f, hle);
        let sv = head_amp_spec(pre);
        lemma_sort_by_sorted(sv.strips, sle);
        lemma_sort_by_sorted(sv.outputs, ole);
        let hs = sort_by(f, hle);
        assert forall|i: int, j: int| 0 <= i < j < hs.len() implies socket_le(
            #[trigger] hs[i].socket,
            #[trigger] hs[j].socket,
        ) by {
            assert(hle(hs[i], hs[j]));
        }
        let ss = sort_by(sv.strips, sle);
        assert forall|i: int, j: int| 0 <= i < j < ss.len() implies strip_id_le(#[trigger] ss[i].id, #[trigger] ss[j].id) by {
            assert(sle(ss[i], ss[j]));
        }
        let os = sort_by(sv.outputs, ole);
        assert forall|i: int, j: int| 0 <= i < j < os.len() implies socket_le(
            #[trigger] os[i].socket,
            #[trigger] os[j].socket,
        ) by {
            assert(ole(os[i], os[j]));
        }
    }
}

/// An input-signal code from 33 to 40 names the aux input numbered `code - 32`, and a code
/// from 41 to 48 names the effects return numbered `code - 40`: code 33 is "Aux In 1",
/// code 40 "Aux In 8", code 41 "FX Return 1" and code 48 "FX Return 8".
pub proof fn law_aux_inputs_then_fx_returns(n: u16)
    ensures
        33 <= n <= 40 ==> input_signal_spec(n) == SignalView::Named(
            "Aux In "@ + dec((n - 32) as nat),
        ),
        41 <= n <= 48 ==> input_signal_spec(n) == SignalView::Named(
            "FX Return "@ + dec((n - 40) as nat),
        ),
        input_signal_spec(33) == SignalView::Named("Aux In 1"@),
        input_signal_spec(40) == SignalView::Named("Aux In 8"@),
        input_signal_spec(41) == SignalView::Named("FX Return 1"@),
        input_signal_spec(48) == SignalView::Named("FX Return 8"@),
{
    reveal_strlit("Aux In ");
    reveal_strlit("Aux In 1");
    reveal_strlit("Aux In 8");
    reveal_strlit("FX Return ");
    reveal_strlit("FX Return 1");
    reveal_strlit("FX Return 8");
    assert(dec(1) =~= seq!['1']);
    assert(dec(8) =~= seq!['8']);
    assert("Aux In "@ + dec(1) =~= "Aux In 1"@);
    assert("Aux In "@ + dec(8) =~= "Aux In 8"@);
    assert("FX Return "@ + dec(1) =~= "FX Return 1"@);
    assert("FX Return "@ + dec(8) =~= "FX Return 8"@);
}

} // verus!
