//! Strip identities, signal references, taps and severities.

use vstd::prelude::*;

use super::{
    law_socket_round_trip, lemma_dec_has_no, lemma_index_of_char_prefix,
    lemma_last_index_of_char_suffix, socket_from_text, socket_text, split_first_colon,
    split_once_char, SocketRef, SocketView,
};
use crate::text::{
    chars_of, dec, eq_str, last_index_of_char, lemma_parse_dec, parse_u16, parse_u16_spec,
    push_char, push_dec, push_str, rfind_char, slice_vec, string_of,
};

verus! {

// ---------------------------------------------------------------------------
// Strip kinds and identities
// ---------------------------------------------------------------------------

/// What kind of mix strip this is.
///
/// Kept coarse on purpose. Consoles disagree wildly on the group/bus/aux
/// distinction, so PFX records the *role* and leaves vendor naming to `label`.
#[derive(Debug, Clone, Copy, PartialEq, Eq, Hash, PartialOrd, Ord, Structural)]
pub enum StripKind {
    /// Mic/line input channel.
    Input,
    /// Stereo/aux return fed from playback or an external source.
    AuxIn,
    /// Return from an internal effect.
    FxReturn,
    /// Mix bus — aux send or subgroup.
    Bus,
    /// Matrix.
    Matrix,
    /// Main L/R.
    Main,
    /// Main mono / centre.
    Mono,
    /// DCA / VCA.
    Dca,
    MuteGroup,
}

pub open spec fn kind_text(k: StripKind) -> Seq<char> {
    match k {
        StripKind::Input => "input"@,
        StripKind::AuxIn => "auxin"@,
        StripKind::FxReturn => "fxreturn"@,
        StripKind::Bus => "bus"@,
        StripKind::Matrix => "matrix"@,
        StripKind::Main => "main"@,
        StripKind::Mono => "mono"@,
        StripKind::Dca => "dca"@,
        StripKind::MuteGroup => "mutegroup"@,
    }
}

pub open spec fn kind_from_text(s: Seq<char>) -> Option<StripKind> {
    if s == "input"@ {
        Some(StripKind::Input)
    } else if s == "auxin"@ {
        Some(StripKind::AuxIn)
    } else if s == "fxreturn"@ {
        Some(StripKind::FxReturn)
    } else if s == "bus"@ {
        Some(StripKind::Bus)
    } else if s == "matrix"@ {
        Some(StripKind::Matrix)
    } else if s == "main"@ {
        Some(StripKind::Main)
    } else if s == "mono"@ {
        Some(StripKind::Mono)
    } else if s == "dca"@ {
        Some(StripKind::Dca)
    } else if s == "mutegroup"@ {
        Some(StripKind::MuteGroup)
    } else {
        None
    }
}

/// Declaration order, which is the order `derive(Ord)` gives.
pub open spec fn kind_rank(k: StripKind) -> u32 {
    match k {
        StripKind::Input => 0,
        StripKind::AuxIn => 1,
        StripKind::FxReturn => 2,
        StripKind::Bus => 3,
        StripKind::Matrix => 4,
        StripKind::Main => 5,
        StripKind::Mono => 6,
        StripKind::Dca => 7,
        StripKind::MuteGroup => 8,
    }
}

impl StripKind {
    pub fn as_str(self) -> (r: &'static str)
        ensures
            r@ == kind_text(self),
    {
        match self {
            StripKind::Input => "input",
            StripKind::AuxIn => "auxin",
            StripKind::FxReturn => "fxreturn",
            StripKind::Bus => "bus",
            StripKind::Matrix => "matrix",
            StripKind::Main => "main",
            StripKind::Mono => "mono",
            StripKind::Dca => "dca",
            StripKind::MuteGroup => "mutegroup",
        }
    }

    pub fn parse(s: &str) -> (r: Option<StripKind>)
        ensures
            r == kind_from_text(s@),
    {
        let cs = chars_of(s);
        Self::parse_chars(cs.as_slice())
    }

    pub fn parse_chars(c: &[char]) -> (r: Option<StripKind>)
        ensures
            r == kind_from_text(c@),
    {
        if eq_str(c, "input") {
            Some(StripKind::Input)
        } else if eq_str(c, "auxin") {
            Some(StripKind::AuxIn)
        } else if eq_str(c, "fxreturn") {
            Some(StripKind::FxReturn)
        } else if eq_str(c, "bus") {
            Some(StripKind::Bus)
        } else if eq_str(c, "matrix") {
            Some(StripKind::Matrix)
        } else if eq_str(c, "main") {
            Some(StripKind::Main)
        } else if eq_str(c, "mono") {
            Some(StripKind::Mono)
        } else if eq_str(c, "dca") {
            Some(StripKind::Dca)
        } else if eq_str(c, "mutegroup") {
            Some(StripKind::MuteGroup)
        } else {
            None
        }
    }

    pub fn rank(self) -> (r: u32)
        ensures
            r == kind_rank(self),
    {
        match self {
            StripKind::Input => 0,
            StripKind::AuxIn => 1,
            StripKind::FxReturn => 2,
            StripKind::Bus => 3,
            StripKind::Matrix => 4,
            StripKind::Main => 5,
            StripKind::Mono => 6,
            StripKind::Dca => 7,
            StripKind::MuteGroup => 8,
        }
    }
}

pub open spec fn kind_literals_known() -> bool {
    &&& "input"@ =~= seq!['i', 'n', 'p', 'u', 't']
    &&& "auxin"@ =~= seq!['a', 'u', 'x', 'i', 'n']
    &&& "fxreturn"@ =~= seq!['f', 'x', 'r', 'e', 't', 'u', 'r', 'n']
    &&& "bus"@ =~= seq!['b', 'u', 's']
    &&& "matrix"@ =~= seq!['m', 'a', 't', 'r', 'i', 'x']
    &&& "main"@ =~= seq!['m', 'a', 'i', 'n']
    &&& "mono"@ =~= seq!['m', 'o', 'n', 'o']
    &&& "dca"@ =~= seq!['d', 'c', 'a']
    &&& "mutegroup"@ =~= seq!['m', 'u', 't', 'e', 'g', 'r', 'o', 'u', 'p']
}

pub proof fn lemma_kind_literals()
    ensures
        kind_literals_known(),
{
    reveal_strlit("input");
    reveal_strlit("auxin");
    reveal_strlit("fxreturn");
    reveal_strlit("bus");
    reveal_strlit("matrix");
    reveal_strlit("main");
    reveal_strlit("mono");
    reveal_strlit("dca");
    reveal_strlit("mutegroup");
}

/// Parsing the text of a strip kind gives the kind back.
pub proof fn law_kind_round_trip(k: StripKind)
    ensures
        kind_from_text(kind_text(k)) == Some(k),
        !kind_text(k).contains('/'),
        !kind_text(k).contains(':'),
{
    lemma_kind_literals();
    let t = kind_text(k);
    assert(forall|i: int| 0 <= i < t.len() ==> 'a' <= #[trigger] t[i] <= 'z');
}

/// Identity of a strip: its kind plus its 1-based number on the surface.
#[derive(Debug, Clone, Copy, PartialEq, Eq, Hash, PartialOrd, Ord, Structural)]
pub struct StripId {
    pub kind: StripKind,
    pub index: u16,
}

pub open spec fn strip_id_text(id: StripId) -> Seq<char> {
    kind_text(id.kind) + seq!['/'] + dec(id.index as nat)
}

/// `StripId::parse`: split at the last slash.
pub open spec fn strip_id_from_text(s: Seq<char>) -> Option<StripId> {
    match last_index_of_char(s, '/') {
        None => None,
        Some(i) => match (kind_from_text(s.take(i)), parse_u16_spec(s.skip(i + 1))) {
            (Some(kind), Some(index)) => Some(StripId { kind, index }),
            _ => None,
        },
    }
}

/// The order `derive(Ord)` gives: kind, then number.
pub open spec fn strip_id_le(a: StripId, b: StripId) -> bool {
    kind_rank(a.kind) < kind_rank(b.kind) || (a.kind == b.kind && a.index <= b.index)
}

impl StripId {
    pub fn new(kind: StripKind, index: u16) -> (r: StripId)
        ensures
            r == (StripId { kind, index }),
    {
        StripId { kind, index }
    }

    /// The `kind/index` form.
    pub fn to_string(&self) -> (r: String)
        ensures
            r@ == strip_id_text(*self),
    {
        let mut s = String::from_str(self.kind.as_str());
        push_char(&mut s, '/');
        push_dec(&mut s, self.index as u64);
        proof {
            assert(s@ =~= strip_id_text(*self));
        }
        s
    }

    pub fn parse(s: &str) -> (r: Option<StripId>)
        ensures
            r == strip_id_from_text(s@),
    {
        let cs = chars_of(s);
        Self::parse_chars(cs.as_slice())
    }

    pub fn parse_chars(s: &[char]) -> (r: Option<StripId>)
        ensures
            r == strip_id_from_text(s@),
    {
        let n = s.len();
        let i = match rfind_char(s, '/') {
            Some(i) => i,
            None => return None,
        };
        let head = slice_vec(s, 0, i);
        let tail = slice_vec(s, i + 1, n);
        proof {
            assert(head@ =~= s@.take(i as int));
            assert(tail@ =~= s@.skip(i + 1));
        }
        let kind = match StripKind::parse_chars(head.as_slice()) {
            Some(k) => k,
            None => return None,
        };
        let index = match parse_u16(tail.as_slice()) {
            Some(v) => v,
            None => return None,
        };
        Some(StripId { kind, index })
    }

    /// `self <= other` in the derived order.
    pub fn le(&self, other: &StripId) -> (r: bool)
        ensures
            r == strip_id_le(*self, *other),
    {
        let a = self.kind.rank();
        let b = other.kind.rank();
        a < b || (self.kind == other.kind && self.index <= other.index)
    }
}

/// The text form of a strip id parses back to the same id.
#[verifier::rlimit(50)]
pub proof fn law_strip_id_round_trip(id: StripId)
    ensures
        strip_id_from_text(strip_id_text(id)) == Some(id),
{
    let k = kind_text(id.kind);
    let n = dec(id.index as nat);
    let t = strip_id_text(id);
    assert(last_index_of_char(t, '/') == Some(k.len() as int)) by {
        lemma_dec_has_no(id.index as nat, '/');
        assert(t =~= k.push('/') + n);
        lemma_last_index_of_char_suffix(k, n, '/');
    }
    assert(kind_from_text(t.take(k.len() as int)) == Some(id.kind)) by {
        assert(t.take(k.len() as int) =~= k);
        law_kind_round_trip(id.kind);
    }
    assert(parse_u16_spec(t.skip(k.len() as int + 1)) == Some(id.index)) by {
        assert(t.skip(k.len() as int + 1) =~= n);
        lemma_parse_dec(id.index as nat, 0xFFFF);
    }
}

// ---------------------------------------------------------------------------
// Signals
// ---------------------------------------------------------------------------

/// Where a signal comes from.
///
/// `InputSlot` is the load-bearing variant: most consoles put a re-patchable
/// indirection between the physical connector and the channel, and collapsing
/// that away would make the patch list a guess. PatchFerret keeps both the slot
/// and the socket it currently resolves to.
#[derive(Debug, PartialEq)]
pub enum SignalRef {
    /// Nothing patched.
    Off,
    /// Console input slot number (1-based), before channel assignment.
    InputSlot(u16),
    /// A physical connector.
    Socket(SocketRef),
    /// A tap off another strip.
    Strip(StripId),
    /// Understood as a name but not resolvable to the above.
    Named(String),
}

pub enum SignalView {
    Off,
    InputSlot(u16),
    Socket(SocketView),
    Strip(StripId),
    Named(Seq<char>),
}

impl View for SignalRef {
    type V = SignalView;

    open spec fn view(&self) -> SignalView {
        match self {
            SignalRef::Off => SignalView::Off,
            SignalRef::InputSlot(n) => SignalView::InputSlot(*n),
            SignalRef::Socket(s) => SignalView::Socket(s@),
            SignalRef::Strip(id) => SignalView::Strip(*id),
            SignalRef::Named(n) => SignalView::Named(n@),
        }
    }
}

impl Clone for SignalRef {
    fn clone(&self) -> (r: SignalRef)
        ensures
            r@ == self@,
    {
        match self {
            SignalRef::Off => SignalRef::Off,
            SignalRef::InputSlot(n) => SignalRef::InputSlot(*n),
            SignalRef::Socket(s) => SignalRef::Socket(s.clone()),
            SignalRef::Strip(id) => SignalRef::Strip(*id),
            SignalRef::Named(n) => SignalRef::Named(n.clone()),
        }
    }
}

pub open spec fn signal_text(r: SignalView) -> Seq<char> {
    match r {
        SignalView::Off => "off"@,
        SignalView::InputSlot(n) => "slot:"@ + dec(n as nat),
        SignalView::Socket(s) => "socket:"@ + socket_text(s),
        SignalView::Strip(id) => "strip:"@ + strip_id_text(id),
        SignalView::Named(n) => "named:"@ + n,
    }
}

pub open spec fn signal_from_text(s: Seq<char>) -> SignalView {
    match split_first_colon(s) {
        Some((k, v)) => if k == "slot"@ {
            match parse_u16_spec(v) {
                Some(n) => SignalView::InputSlot(n),
                None => SignalView::Off,
            }
        } else if k == "socket"@ {
            match socket_from_text(v) {
                Some(sv) => SignalView::Socket(sv),
                None => SignalView::Off,
            }
        } else if k == "strip"@ {
            match strip_id_from_text(v) {
                Some(id) => SignalView::Strip(id),
                None => SignalView::Off,
            }
        } else if k == "named"@ {
            SignalView::Named(v)
        } else {
            SignalView::Off
        },
        None => SignalView::Off,
    }
}

impl SignalRef {
    pub fn as_str(&self) -> (r: String)
        ensures
            r@ == signal_text(self@),
    {
        match self {
            SignalRef::Off => String::from_str("off"),
            SignalRef::InputSlot(n) => {
                let mut s = String::from_str("slot:");
                push_dec(&mut s, *n as u64);
                s
            },
            SignalRef::Socket(sock) => {
                let mut s = String::from_str("socket:");
                let t = sock.to_string();
                push_str(&mut s, t.as_str());
                s
            },
            SignalRef::Strip(id) => {
                let mut s = String::from_str("strip:");
                let t = id.to_string();
                push_str(&mut s, t.as_str());
                s
            },
            SignalRef::Named(n) => {
                let mut s = String::from_str("named:");
                push_str(&mut s, n.as_str());
                s
            },
        }
    }

    pub fn parse(s: &str) -> (r: SignalRef)
        ensures
            r@ == signal_from_text(s@),
    {
        let cs = chars_of(s);
        match split_once_char(cs.as_slice(), ':') {
            Some((k, v)) => {
                if eq_str(k.as_slice(), "slot") {
                    match parse_u16(v.as_slice()) {
                        Some(n) => SignalRef::InputSlot(n),
                        None => SignalRef::Off,
                    }
                } else if eq_str(k.as_slice(), "socket") {
                    match SocketRef::parse_chars(v.as_slice()) {
                        Some(sock) => SignalRef::Socket(sock),
                        None => SignalRef::Off,
                    }
                } else if eq_str(k.as_slice(), "strip") {
                    match StripId::parse_chars(v.as_slice()) {
                        Some(id) => SignalRef::Strip(id),
                        None => SignalRef::Off,
                    }
                } else if eq_str(k.as_slice(), "named") {
                    SignalRef::Named(string_of(v.as_slice()))
                } else {
                    SignalRef::Off
                }
            },
            None => SignalRef::Off,
        }
    }

    pub fn is_named(&self) -> (r: bool)
        ensures
            r == (self@ is Named),
    {
        match self {
            SignalRef::Named(_) => true,
            _ => false,
        }
    }

    pub fn is_off(&self) -> (r: bool)
        ensures
            r == (self@ is Off),
    {
        match self {
            SignalRef::Off => true,
            _ => false,
        }
    }
}

pub open spec fn signal_literals_known() -> bool {
    &&& "off"@ =~= seq!['o', 'f', 'f']
    &&& "slot:"@ =~= seq!['s', 'l', 'o', 't', ':']
    &&& "slot"@ =~= seq!['s', 'l', 'o', 't']
    &&& "socket:"@ =~= seq!['s', 'o', 'c', 'k', 'e', 't', ':']
    &&& "socket"@ =~= seq!['s', 'o', 'c', 'k', 'e', 't']
    &&& "strip:"@ =~= seq!['s', 't', 'r', 'i', 'p', ':']
    &&& "strip"@ =~= seq!['s', 't', 'r', 'i', 'p']
    &&& "named:"@ =~= seq!['n', 'a', 'm', 'e', 'd', ':']
    &&& "named"@ =~= seq!['n', 'a', 'm', 'e', 'd']
}

pub proof fn lemma_signal_literals()
    ensures
        signal_literals_known(),
{
    reveal_strlit("off");
    reveal_strlit("slot:");
    reveal_strlit("slot");
    reveal_strlit("socket:");
    reveal_strlit("socket");
    reveal_strlit("strip:");
    reveal_strlit("strip");
    reveal_strlit("named:");
    reveal_strlit("named");
}

/// Splitting `key:rest` at its first colon, where `key` has none.
proof fn lemma_split_tagged(key: Seq<char>, rest: Seq<char>)
    requires
        !key.contains(':'),
    ensures
        split_first_colon(key.push(':') + rest) == Some((key, rest)),
{
    lemma_index_of_char_prefix(key, rest, ':');
    let t = key.push(':') + rest;
    assert(t.take(key.len() as int) =~= key);
    assert(t.skip(key.len() as int + 1) =~= rest);
}

/// The text form of a signal reference parses back to the same reference.
#[verifier::rlimit(50)]
pub proof fn law_signal_round_trip(r: SignalView)
    ensures
        signal_from_text(signal_text(r)) == r,
{
    lemma_signal_literals();
    match r {
        SignalView::Off => {
            let t = "off"@;
            assert(!t.contains(':')) by {
                assert(forall|i: int| 0 <= i < t.len() ==> #[trigger] t[i] != ':');
            }
            crate::text::lemma_no_char_index_none(t, ':');
        },
        SignalView::InputSlot(n) => {
            assert(!"slot"@.contains(':'));
            assert(signal_text(r) =~= "slot"@.push(':') + dec(n as nat));
            lemma_split_tagged("slot"@, dec(n as nat));
            lemma_parse_dec(n as nat, 0xFFFF);
        },
        SignalView::Socket(sv) => {
            assert(!"socket"@.contains(':'));
            assert(signal_text(r) =~= "socket"@.push(':') + socket_text(sv));
            lemma_split_tagged("socket"@, socket_text(sv));
            law_socket_round_trip(sv);
        },
        SignalView::Strip(id) => {
            assert(!"strip"@.contains(':'));
            assert(signal_text(r) =~= "strip"@.push(':') + strip_id_text(id));
            lemma_split_tagged("strip"@, strip_id_text(id));
            law_strip_id_round_trip(id);
        },
        SignalView::Named(n) => {
            assert(!"named"@.contains(':'));
            assert(signal_text(r) =~= "named"@.push(':') + n);
            lemma_split_tagged("named"@, n);
        },
    }
}

// ---------------------------------------------------------------------------
// Taps and severities
// ---------------------------------------------------------------------------

/// Where in a strip's signal path an output is tapped.
#[derive(Debug, Clone, Copy, PartialEq, Eq, Structural)]
pub enum Tap {
    PreEq,
    PostEq,
    PreFader,
    PostFader,
    Unknown,
}

pub open spec fn tap_text(t: Tap) -> Seq<char> {
    match t {
        Tap::PreEq => "pre-eq"@,
        Tap::PostEq => "post-eq"@,
        Tap::PreFader => "pre-fader"@,
        Tap::PostFader => "post-fader"@,
        Tap::Unknown => "unknown"@,
    }
}

pub open spec fn tap_from_text(s: Seq<char>) -> Tap {
    if s == "pre-eq"@ {
        Tap::PreEq
    } else if s == "post-eq"@ {
        Tap::PostEq
    } else if s == "pre-fader"@ {
        Tap::PreFader
    } else if s == "post-fader"@ {
        Tap::PostFader
    } else {
        Tap::Unknown
    }
}

impl Tap {
    pub fn as_str(self) -> (r: &'static str)
        ensures
            r@ == tap_text(self),
    {
        match self {
            Tap::PreEq => "pre-eq",
            Tap::PostEq => "post-eq",
            Tap::PreFader => "pre-fader",
            Tap::PostFader => "post-fader",
            Tap::Unknown => "unknown",
        }
    }

    pub fn parse(s: &str) -> (r: Tap)
        ensures
            r == tap_from_text(s@),
    {
        let cs = chars_of(s);
        let c = cs.as_slice();
        if eq_str(c, "pre-eq") {
            Tap::PreEq
        } else if eq_str(c, "post-eq") {
            Tap::PostEq
        } else if eq_str(c, "pre-fader") {
            Tap::PreFader
        } else if eq_str(c, "post-fader") {
            Tap::PostFader
        } else {
            Tap::Unknown
        }
    }
}

/// Parsing the text of a tap gives the tap back.
pub proof fn law_tap_round_trip(t: Tap)
    ensures
        tap_from_text(tap_text(t)) == t,
{
    reveal_strlit("pre-eq");
    reveal_strlit("post-eq");
    reveal_strlit("pre-fader");
    reveal_strlit("post-fader");
    reveal_strlit("unknown");
    assert("pre-eq"@.len() == 6 && "post-eq"@.len() == 7 && "pre-fader"@.len() == 9);
    assert("post-fader"@.len() == 10 && "unknown"@.len() == 7);
    assert("post-eq"@[0] != "unknown"@[0]);
}

/// A tap before the fader is written "pre-fader" and one after it "post-fader", and each
/// of these texts reads back as its own tap; in general a tap's text begins with "pre-"
/// exactly when the tap is taken before its stage (EQ or fader).
pub proof fn law_tap_texts_name_their_stage(t: Tap)
    ensures
        tap_text(Tap::PreFader) == "pre-fader"@,
        tap_text(Tap::PostFader) == "post-fader"@,
        tap_text(Tap::PreEq) == "pre-eq"@,
        tap_text(Tap::PostEq) == "post-eq"@,
        tap_from_text("pre-fader"@) == Tap::PreFader,
        tap_from_text("post-fader"@) == Tap::PostFader,
        tap_from_text("pre-eq"@) == Tap::PreEq,
        tap_from_text("post-eq"@) == Tap::PostEq,
        (tap_text(t).len() >= 4 && tap_text(t).subrange(0, 4) == "pre-"@) <==> (t
            == Tap::PreEq || t == Tap::PreFader),
{
    reveal_strlit("pre-");
    reveal_strlit("pre-eq");
    reveal_strlit("post-eq");
    reveal_strlit("pre-fader");
    reveal_strlit("post-fader");
    reveal_strlit("unknown");
    law_tap_round_trip(Tap::PreEq);
    law_tap_round_trip(Tap::PostEq);
    law_tap_round_trip(Tap::PreFader);
    law_tap_round_trip(Tap::PostFader);
    let x = tap_text(t);
    match t {
        Tap::PreEq => {
            assert(x.subrange(0, 4) =~= "pre-"@);
        },
        Tap::PreFader => {
            assert(x.subrange(0, 4) =~= "pre-"@);
        },
        _ => {
            assert(x.len() >= 4 ==> x.subrange(0, 4)[1] != "pre-"@[1]);
        },
    }
}

#[derive(Debug, Clone, Copy, PartialEq, Eq, Structural)]
pub enum Severity {
    /// Understood, but PFX has no field for it — will not survive conversion.
    Unmodelled,
    /// Recognised but the value made no sense.
    Suspect,
    /// Not recognised at all.
    Unknown,
}

pub open spec fn severity_text(s: Severity) -> Seq<char> {
    match s {
        Severity::Unmodelled => "unmodelled"@,
        Severity::Suspect => "suspect"@,
        Severity::Unknown => "unknown"@,
    }
}

pub open spec fn severity_from_text(s: Seq<char>) -> Severity {
    if s == "unmodelled"@ {
        Severity::Unmodelled
    } else if s == "suspect"@ {
        Severity::Suspect
    } else {
        Severity::Unknown
    }
}

impl Severity {
    pub fn as_str(self) -> (r: &'static str)
        ensures
            r@ == severity_text(self),
    {
        match self {
            Severity::Unmodelled => "unmodelled",
            Severity::Suspect => "suspect",
            Severity::Unknown => "unknown",
        }
    }

    pub fn parse(s: &str) -> (r: Severity)
        ensures
            r == severity_from_text(s@),
    {
        let cs = chars_of(s);
        if eq_str(cs.as_slice(), "unmodelled") {
            Severity::Unmodelled
        } else if eq_str(cs.as_slice(), "suspect") {
            Severity::Suspect
        } else {
            Severity::Unknown
        }
    }
}

/// Parsing the text of a severity gives the severity back.
pub proof fn law_severity_round_trip(s: Severity)
    ensures
        severity_from_text(severity_text(s)) == s,
{
    reveal_strlit("unmodelled");
    reveal_strlit("suspect");
    reveal_strlit("unknown");
    assert("unmodelled"@.len() == 10 && "suspect"@.len() == 7 && "unknown"@.len() == 7);
    assert("suspect"@[0] != "unknown"@[0]);
}

} // verus!
