//! What the browser build hands back: a JSON summary of the show and a
//! buffer of records.
//!
//! The buffer is laid out as a little-endian `u32` holding the length of
//! everything after it, then records, each a `u32` kind, a `u32` name length
//! and the name's UTF-8 bytes, a `u32` body length and the body.

use vstd::prelude::*;

use crate::formats::yamaha::{hex2, push_hex2};
use crate::model::show::{DiagnosticView, InputPatchView, ShowView};
use crate::model::signal::severity_text;
use crate::model::Show;
use crate::text::{chars_of, dec, push_char, push_dec, push_str};
use vstd::utf8::encode_utf8;

verus! {

/// A human-readable error; no other records follow.
pub const KIND_ERROR: u32 = 0;
/// A JSON summary for the page to display.
pub const KIND_SUMMARY: u32 = 1;
/// The PFX interchange XML.
pub const KIND_XML: u32 = 2;
/// A generated PDF.
pub const KIND_PDF: u32 = 3;
/// Something went wrong but the run still produced output.
pub const KIND_WARNING: u32 = 4;

// ---------------------------------------------------------------------------
// JSON
// ---------------------------------------------------------------------------

/// One character inside a JSON string.
pub open spec fn json_char(c: char) -> Seq<char> {
    if c == '"' {
        seq!['\\', '"']
    } else if c == '\\' {
        seq!['\\', '\\']
    } else if c == '\n' {
        seq!['\\', 'n']
    } else if c == '\r' {
        seq!['\\', 'r']
    } else if c == '\t' {
        seq!['\\', 't']
    } else if (c as u32) < 0x20 {
        seq!['\\', 'u', '0', '0'] + hex2(c as u8)
    } else {
        seq![c]
    }
}

/// A string's body as a JSON string literal.
pub open spec fn json_escape_spec(s: Seq<char>) -> Seq<char>
    decreases s.len(),
{
    if s.len() == 0 {
        Seq::empty()
    } else {
        json_escape_spec(s.drop_last()) + json_char(s.last())
    }
}

fn push_json_char(out: &mut String, c: char)
    ensures
        final(out)@ == old(out)@ + json_char(c),
{
    let ghost start = out@;
    if c == '"' {
        push_char(out, '\\');
        push_char(out, '"');
    } else if c == '\\' {
        push_char(out, '\\');
        push_char(out, '\\');
    } else if c == '\n' {
        push_char(out, '\\');
        push_char(out, 'n');
    } else if c == '\r' {
        push_char(out, '\\');
        push_char(out, 'r');
    } else if c == '\t' {
        push_char(out, '\\');
        push_char(out, 't');
    } else if (c as u32) < 0x20 {
        push_char(out, '\\');
        push_char(out, 'u');
        push_char(out, '0');
        push_char(out, '0');
        push_hex2(out, c as u8);
    } else {
        push_char(out, c);
    }
    proof {
        assert(out@ =~= start + json_char(c));
    }
}

fn push_json(out: &mut String, s: &str)
    ensures
        final(out)@ == old(out)@ + json_escape_spec(s@),
{
    let cs = chars_of(s);
    let ghost start = out@;
    let mut i: usize = 0;
    proof {
        assert(start + json_escape_spec(cs@.take(0)) =~= start);
    }
    while i < cs.len()
        invariant
            i <= cs@.len(),
            cs@ == s@,
            out@ == start + json_escape_spec(cs@.take(i as int)),
        decreases cs@.len() - i,
    {
        push_json_char(out, cs[i]);
        proof {
            assert(cs@.take(i + 1).drop_last() =~= cs@.take(i as int));
            assert(out@ =~= start + json_escape_spec(cs@.take(i + 1)));
        }
        i = i + 1;
    }
    proof {
        assert(cs@.take(i as int) =~= cs@);
    }
}

/// Escape a string for embedding in JSON.
pub fn json_escape(s: &str) -> (r: String)
    ensures
        r@ == json_escape_spec(s@),
{
    let mut out = String::new();
    push_json(&mut out, s);
    proof {
        assert(out@ =~= json_escape_spec(s@));
    }
    out
}

/// How many inputs reach the console from a connector.
pub open spec fn routed_count(inputs: Seq<InputPatchView>) -> nat
    decreases inputs.len(),
{
    if inputs.len() == 0 {
        0
    } else {
        routed_count(inputs.drop_last()) + if inputs.last().socket is Some { 1nat } else { 0nat }
    }
}

/// How many inputs reach a channel.
pub open spec fn reaching_count(inputs: Seq<InputPatchView>) -> nat
    decreases inputs.len(),
{
    if inputs.len() == 0 {
        0
    } else {
        reaching_count(inputs.drop_last()) + if inputs.last().strip is Some { 1nat } else { 0nat }
    }
}

pub open spec fn diagnostic_json(d: DiagnosticView) -> Seq<char> {
    "{\"severity\":\""@ + severity_text(d.severity) + "\",\"locus\":\""@ + json_escape_spec(d.locus)
        + "\",\"message\":\""@ + json_escape_spec(d.message) + "\"}"@
}

/// The diagnostics as JSON objects separated by commas.
pub open spec fn diagnostics_json(ds: Seq<DiagnosticView>) -> Seq<char>
    decreases ds.len(),
{
    if ds.len() == 0 {
        Seq::empty()
    } else if ds.len() == 1 {
        diagnostic_json(ds[0])
    } else {
        diagnostics_json(ds.drop_last()) + ","@ + diagnostic_json(ds.last())
    }
}

/// The JSON the page renders its summary from.
pub open spec fn summary_spec(s: ShowView, format: Seq<char>) -> Seq<char> {
    "{\"name\":\""@ + json_escape_spec(s.meta.name) + "\",\"console\":\""@ + json_escape_spec(
        s.meta.console,
    ) + "\",\"format\":\""@ + json_escape_spec(format) + "\",\"version\":\""@ + json_escape_spec(
        match s.meta.format_version {
            Some(v) => v,
            None => Seq::empty(),
        },
    ) + "\",\"strips\":"@ + dec(s.strips.len()) + ",\"devices\":"@ + dec(s.devices.len())
        + ",\"slots\":"@ + dec(s.inputs.len()) + ",\"routed\":"@ + dec(routed_count(s.inputs))
        + ",\"reaching\":"@ + dec(reaching_count(s.inputs)) + ",\"outputs\":"@ + dec(s.outputs.len())
        + ",\"headAmps\":"@ + dec(s.head_amps.len()) + ",\"diagnostics\":["@ + diagnostics_json(
        s.diagnostics,
    ) + "]}"@
}

pub(crate) fn counts(show: &Show) -> (r: (usize, usize))
    ensures
        r.0 == routed_count(show@.inputs),
        r.1 == reaching_count(show@.inputs),
{
    let ghost ins = show@.inputs;
    let mut routed: usize = 0;
    let mut reaching: usize = 0;
    let mut i: usize = 0;
    while i < show.patch.inputs.len()
        invariant
            i <= show.patch.inputs@.len(),
            ins == show@.inputs,
            routed == routed_count(ins.take(i as int)),
            reaching == reaching_count(ins.take(i as int)),
            routed <= i,
            reaching <= i,
        decreases show.patch.inputs@.len() - i,
    {
        proof {
            assert(ins.take(i + 1).drop_last() =~= ins.take(i as int));
            assert(ins[i as int] == show.patch.inputs@[i as int]@);
        }
        if show.patch.inputs[i].socket.is_some() {
            routed = routed + 1;
        }
        if show.patch.inputs[i].strip.is_some() {
            reaching = reaching + 1;
        }
        i = i + 1;
    }
    proof {
        assert(ins.take(i as int) =~= ins);
    }
    (routed, reaching)
}

fn push_diagnostics(out: &mut String, show: &Show)
    ensures
        final(out)@ == old(out)@ + diagnostics_json(show@.diagnostics),
{
    let ghost ds = show@.diagnostics;
    let ghost start = out@;
    let mut i: usize = 0;
    proof {
        assert(start + diagnostics_json(ds.take(0)) =~= start);
    }
    while i < show.diagnostics.len()
        invariant
            i <= show.diagnostics@.len(),
            ds == show@.diagnostics,
            out@ == start + diagnostics_json(ds.take(i as int)),
        decreases show.diagnostics@.len() - i,
    {
        let ghost before = out@;
        let d = &show.diagnostics[i];
        proof {
            assert(ds[i as int] == d@);
            assert(ds.take(i + 1).drop_last() =~= ds.take(i as int));
        }
        if i > 0 {
            push_str(out, ",");
        }
        push_str(out, "{\"severity\":\"");
        push_str(out, d.severity.as_str());
        push_str(out, "\",\"locus\":\"");
        push_json(out, d.locus.as_str());
        push_str(out, "\",\"message\":\"");
        push_json(out, d.message.as_str());
        push_str(out, "\"}");
        proof {
            if i == 0 {
                assert(ds.take(1) =~= seq![ds[0]]);
                assert(out@ =~= before + diagnostic_json(d@));
            } else {
                assert(out@ =~= before + ","@ + diagnostic_json(d@));
            }
            assert(out@ =~= start + diagnostics_json(ds.take(i + 1)));
        }
        i = i + 1;
    }
    proof {
        assert(ds.take(i as int) =~= ds);
    }
}

/// Build the JSON the page renders its summary from.
pub fn summary_json(show: &Show, format: &str) -> (r: String)
    ensures
        r@ == summary_spec(show@, format@),
{
    let (routed, reaching) = counts(show);
    let mut out = String::new();
    push_str(&mut out, "{\"name\":\"");
    push_json(&mut out, show.meta.name.as_str());
    push_str(&mut out, "\",\"console\":\"");
    push_json(&mut out, show.meta.console.as_str());
    push_str(&mut out, "\",\"format\":\"");
    push_json(&mut out, format);
    push_str(&mut out, "\",\"version\":\"");
    match &show.meta.format_version {
        Some(v) => push_json(&mut out, v.as_str()),
        None => push_json(&mut out, ""),
    }
    push_str(&mut out, "\",\"strips\":");
    push_dec(&mut out, show.strips.len() as u64);
    push_str(&mut out, ",\"devices\":");
    push_dec(&mut out, show.devices.len() as u64);
    push_str(&mut out, ",\"slots\":");
    push_dec(&mut out, show.patch.inputs.len() as u64);
    push_str(&mut out, ",\"routed\":");
    push_dec(&mut out, routed as u64);
    push_str(&mut out, ",\"reaching\":");
    push_dec(&mut out, reaching as u64);
    push_str(&mut out, ",\"outputs\":");
    push_dec(&mut out, show.patch.outputs.len() as u64);
    push_str(&mut out, ",\"headAmps\":");
    push_dec(&mut out, show.head_amps.len() as u64);
    push_str(&mut out, ",\"diagnostics\":[");
    push_diagnostics(&mut out, show);
    push_str(&mut out, "]}");
    proof {
        reveal_strlit("");
        assert(out@ =~= summary_spec(show@, format@));
    }
    out
}

// ---------------------------------------------------------------------------
// The result buffer
// ---------------------------------------------------------------------------

/// A `u32` as four little-endian bytes.
pub open spec fn le32(v: u32) -> Seq<u8> {
    seq![(v % 256) as u8, ((v / 256) % 256) as u8, ((v / 65536) % 256) as u8, (v / 16777216) as u8]
}

/// One record: kind, name, body.
pub open spec fn record_bytes(kind: u32, name: Seq<char>, body: Seq<u8>) -> Seq<u8> {
    le32(kind) + le32(encode_utf8(name).len() as u32) + encode_utf8(name) + le32(body.len() as u32)
        + body
}

/// The records of a result, after its length prefix.
pub struct ResultWriter {
    buf: Vec<u8>,
}

impl View for ResultWriter {
    type V = Seq<u8>;

    /// The records written so far.
    closed spec fn view(&self) -> Seq<u8> {
        self.buf@.skip(4)
    }
}

fn push_le32(v: &mut Vec<u8>, x: u32)
    ensures
        final(v)@ == old(v)@ + le32(x),
{
    v.push((x % 256) as u8);
    v.push(((x / 256) % 256) as u8);
    v.push(((x / 65536) % 256) as u8);
    v.push((x / 16777216) as u8);
    proof {
        assert(final(v)@ =~= old(v)@ + le32(x));
    }
}

fn push_bytes(v: &mut Vec<u8>, b: &[u8])
    ensures
        final(v)@ == old(v)@ + b@,
{
    let ghost start = v@;
    let mut i: usize = 0;
    while i < b.len()
        invariant
            i <= b@.len(),
            v@ == start + b@.take(i as int),
        decreases b@.len() - i,
    {
        v.push(b[i]);
        i = i + 1;
        proof {
            assert(v@ =~= start + b@.take(i as int));
        }
    }
    proof {
        assert(b@.take(i as int) =~= b@);
    }
}

impl ResultWriter {
    #[verifier::type_invariant]
    spec fn prefixed(&self) -> bool {
        self.buf@.len() >= 4
    }

    /// An empty result, with room for its length prefix.
    pub fn new() -> (w: ResultWriter)
        ensures
            w@ == Seq::<u8>::empty(),
    {
        let mut buf: Vec<u8> = Vec::new();
        buf.push(0);
        buf.push(0);
        buf.push(0);
        buf.push(0);
        let w = ResultWriter { buf };
        proof {
            assert(w.buf@.skip(4) =~= Seq::<u8>::empty());
        }
        w
    }

    /// Append one record.
    pub fn record(&mut self, kind: u32, name: &str, body: &[u8])
        ensures
            final(self)@ == old(self)@ + record_bytes(kind, name@, body@),
    {
        proof {
            use_type_invariant(&*self);
        }
        let ghost before = self.buf@;
        let nb = name.as_bytes();
        let mut buf: Vec<u8> = Vec::new();
        push_le32(&mut buf, 0);
        std::mem::swap(&mut buf, &mut self.buf);
        push_le32(&mut buf, kind);
        push_le32(&mut buf, nb.len() as u32);
        push_bytes(&mut buf, nb);
        push_le32(&mut buf, body.len() as u32);
        push_bytes(&mut buf, body);
        proof {
            assert(buf@ =~= before + record_bytes(kind, name@, body@));
            assert(buf@.skip(4) =~= before.skip(4) + record_bytes(kind, name@, body@));
        }
        self.buf = buf;
    }

    /// The finished buffer: the length prefix, then the records.
    pub fn finish(self) -> (r: Vec<u8>)
        ensures
            r@ == le32(self@.len() as u32) + self@,
    {
        proof {
            use_type_invariant(&self);
        }
        let n = (self.buf.len() - 4) as u32;
        let mut out: Vec<u8> = Vec::new();
        push_le32(&mut out, n);
        let mut i: usize = 4;
        let ghost prefix = out@;
        while i < self.buf.len()
            invariant
                4 <= i <= self.buf@.len(),
                out@ == prefix + self.buf@.subrange(4, i as int),
            decreases self.buf@.len() - i,
        {
            out.push(self.buf[i]);
            i = i + 1;
            proof {
                assert(out@ =~= prefix + self.buf@.subrange(4, i as int));
            }
        }
        proof {
            assert(self.buf@.subrange(4, i as int) =~= self@);
        }
        out
    }
}

/// A result holding one error record and nothing else.
pub fn error_result(message: &str) -> (r: Vec<u8>)
    ensures
        r@ == le32(record_bytes(KIND_ERROR, "error"@, encode_utf8(message@)).len() as u32) + record_bytes(
            KIND_ERROR,
            "error"@,
            encode_utf8(message@),
        ),
{
    let mut w = ResultWriter::new();
    w.record(KIND_ERROR, "error", message.as_bytes());
    proof {
        assert(Seq::<u8>::empty() + record_bytes(KIND_ERROR, "error"@, encode_utf8(message@))
            =~= record_bytes(KIND_ERROR, "error"@, encode_utf8(message@)));
    }
    w.finish()
}

// ---------------------------------------------------------------------------
// Laws
// ---------------------------------------------------------------------------

pub open spec fn hex_val(c: char) -> int {
    if '0' <= c && c <= '9' {
        c as int - 48
    } else if 'a' <= c && c <= 'f' {
        c as int - 87
    } else if 'A' <= c && c <= 'F' {
        c as int - 55
    } else {
        0
    }
}

/// The character a one-letter JSON escape stands for.
pub open spec fn unescaped(e: char) -> char {
    if e == 'n' {
        '\n'
    } else if e == 'r' {
        '\r'
    } else if e == 't' {
        '\t'
    } else {
        e
    }
}

/// How a JSON reader decodes the body of a string.
pub open spec fn json_unescape(t: Seq<char>) -> Seq<char>
    decreases t.len(),
{
    if t.len() == 0 {
        Seq::empty()
    } else if t[0] == '\\' && t.len() >= 2 {
        if t[1] == 'u' && t.len() >= 6 {
            let v = 4096 * hex_val(t[2]) + 256 * hex_val(t[3]) + 16 * hex_val(t[4]) + hex_val(t[5]);
            seq![(v as u32) as char] + json_unescape(t.skip(6))
        } else {
            seq![unescaped(t[1])] + json_unescape(t.skip(2))
        }
    } else {
        seq![t[0]] + json_unescape(t.skip(1))
    }
}

proof fn lemma_escape_front(s: Seq<char>)
    requires
        s.len() > 0,
    ensures
        json_escape_spec(s) == json_char(s[0]) + json_escape_spec(s.drop_first()),
    decreases s.len(),
{
    if s.len() == 1 {
        assert(s.drop_last() =~= Seq::<char>::empty());
        assert(s.drop_first() =~= Seq::<char>::empty());
        assert(json_escape_spec(s.drop_last()) =~= Seq::<char>::empty());
        assert(json_escape_spec(s.drop_first()) =~= Seq::<char>::empty());
        assert(json_escape_spec(s) =~= json_char(s[0]));
    } else {
        lemma_escape_front(s.drop_last());
        assert(s.drop_last().drop_first() =~= s.drop_first().drop_last());
        assert(s.drop_first().last() == s.last());
        assert(s.drop_last()[0] == s[0]);
        assert(json_escape_spec(s) =~= json_char(s[0]) + json_escape_spec(s.drop_first()));
    }
}

proof fn lemma_unescape_char(c: char, rest: Seq<char>)
    ensures
        json_unescape(json_char(c) + rest) == seq![c] + json_unescape(rest),
{
    let t = json_char(c) + rest;
    if c == '"' || c == '\\' || c == '\n' || c == '\r' || c == '\t' {
        assert(t.skip(2) =~= rest);
    } else if (c as u32) < 0x20 {
        let b = c as u8;
        assert(t.skip(6) =~= rest);
        assert(t[4] == hex2(b)[0] && t[5] == hex2(b)[1]);
        assert(hex_val(t[2]) == 0 && hex_val(t[3]) == 0);
        assert(hex_val(t[4]) == b / 16);
        assert(hex_val(t[5]) == b % 16);
    } else {
        assert(t.skip(1) =~= rest);
    }
}

/// JSON escaping loses nothing: a JSON reader decodes the escaped text back
/// to exactly the same characters, whatever a show name holds.
pub proof fn law_json_escape_round_trips(s: Seq<char>)
    ensures
        json_unescape(json_escape_spec(s)) == s,
    decreases s.len(),
{
    if s.len() == 0 {
        assert(json_escape_spec(s) =~= Seq::<char>::empty());
    } else {
        lemma_escape_front(s);
        law_json_escape_round_trips(s.drop_first());
        lemma_unescape_char(s[0], json_escape_spec(s.drop_first()));
        assert(seq![s[0]] + s.drop_first() =~= s);
    }
}

} // verus!
