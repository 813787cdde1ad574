//! PFX — the PatchFerret eXchange model.
//!
//! A console-neutral description of a mixing console show file. Every format
//! adapter parses its native show file into this model; every report reads
//! only this model.
//!
//! The model is deliberately *lossy in a declared way*: anything an adapter
//! understood but this model cannot express is recorded as a [`Diagnostic`]
//! rather than silently dropped.
//!
//! Level values (head-amp gain, fader position) are kept as the decimal text
//! the show file holds; turning that text into a number is left to the
//! caller, so nothing here depends on floating point.

pub mod job;
pub mod profile;
pub mod show;
pub mod xml;
pub mod signal;

pub use show::{
    Device, Diagnostic, HeadAmp, InputPatch, OutputPatch, Patch, Scene, Show, ShowMeta, Strip,
};
pub use job::{JobInfo, Logo};
pub use signal::{Severity, SignalRef, StripId, StripKind, Tap};

use vstd::prelude::*;

use crate::text::{
    chars_lt, seq_lt, chars_of, dec, eq_str, find_char, index_of_char, is_digit, last_index_of_char, lemma_dec_digits,
    lemma_parse_dec, parse_u16, parse_u16_spec, push_char, push_dec, push_str, rfind_char,
    slice_vec, string_of,
};

verus! {

// ---------------------------------------------------------------------------
// Direction
// ---------------------------------------------------------------------------

/// Signal direction, from the console's point of view.
#[derive(Debug, Clone, Copy, PartialEq, Eq, Hash, PartialOrd, Ord, Structural)]
pub enum Direction {
    In,
    Out,
}

pub open spec fn direction_text(d: Direction) -> Seq<char> {
    match d {
        Direction::In => "in"@,
        Direction::Out => "out"@,
    }
}

pub open spec fn direction_from_text(s: Seq<char>) -> Option<Direction> {
    if s == "in"@ {
        Some(Direction::In)
    } else if s == "out"@ {
        Some(Direction::Out)
    } else {
        None
    }
}

impl Direction {
    pub fn as_str(self) -> (r: &'static str)
        ensures
            r@ == direction_text(self),
    {
        match self {
            Direction::In => "in",
            Direction::Out => "out",
        }
    }

    pub fn parse(s: &str) -> (r: Option<Direction>)
        ensures
            r == direction_from_text(s@),
    {
        let cs = chars_of(s);
        Self::parse_chars(cs.as_slice())
    }

    pub fn parse_chars(s: &[char]) -> (r: Option<Direction>)
        ensures
            r == direction_from_text(s@),
    {
        if eq_str(s, "in") {
            Some(Direction::In)
        } else if eq_str(s, "out") {
            Some(Direction::Out)
        } else {
            None
        }
    }
}

/// Parsing the text of a direction gives the direction back.
pub proof fn law_direction_round_trip(d: Direction)
    ensures
        direction_from_text(direction_text(d)) == Some(d),
        !direction_text(d).contains('/'),
        !direction_text(d).contains(':'),
{
    reveal_strlit("in");
    reveal_strlit("out");
    assert("in"@.len() == 2);
    assert("out"@.len() == 3);
    assert("in"@ != "out"@);
    if d == Direction::In {
        assert(!"in"@.contains('/'));
        assert(!"in"@.contains(':'));
    } else {
        assert(!"out"@.contains('/'));
        assert(!"out"@.contains(':'));
    }
}

// ---------------------------------------------------------------------------
// Transport
// ---------------------------------------------------------------------------

/// How a device is attached to the console.
///
/// This is the physical/transport layer, not the connector type — an AES50
/// stagebox and a Dante card both carry XLR-originated signals, but a patch
/// list has to distinguish them because they fail differently and are cabled
/// differently.
#[derive(Debug, PartialEq, Eq, Hash)]
pub enum Transport {
    /// Connectors on the console surface itself.
    Local,
    Aes50A,
    Aes50B,
    Aes50C,
    /// Expansion card slot (Dante, MADI, USB, …) — the text names the card.
    Card(String),
    Dante,
    Madi,
    /// Allen & Heath SLink / dSNAKE.
    SLink,
    /// Behringer Ultranet personal-monitor bus.
    Ultranet,
    /// USB / SD recording and playback.
    Recorder,
    /// Not a physical connector: internal FX slots, oscillator, talkback.
    Internal,
    Other(String),
}

/// A [`Transport`] with its texts as character sequences.
pub enum TransportView {
    Local,
    Aes50A,
    Aes50B,
    Aes50C,
    Card(Seq<char>),
    Dante,
    Madi,
    SLink,
    Ultranet,
    Recorder,
    Internal,
    Other(Seq<char>),
}

impl View for Transport {
    type V = TransportView;

    open spec fn view(&self) -> TransportView {
        match self {
            Transport::Local => TransportView::Local,
            Transport::Aes50A => TransportView::Aes50A,
            Transport::Aes50B => TransportView::Aes50B,
            Transport::Aes50C => TransportView::Aes50C,
            Transport::Card(c) => TransportView::Card(c@),
            Transport::Dante => TransportView::Dante,
            Transport::Madi => TransportView::Madi,
            Transport::SLink => TransportView::SLink,
            Transport::Ultranet => TransportView::Ultranet,
            Transport::Recorder => TransportView::Recorder,
            Transport::Internal => TransportView::Internal,
            Transport::Other(o) => TransportView::Other(o@),
        }
    }
}

impl Clone for Transport {
    fn clone(&self) -> (r: Transport)
        ensures
            r@ == self@,
    {
        match self {
            Transport::Local => Transport::Local,
            Transport::Aes50A => Transport::Aes50A,
            Transport::Aes50B => Transport::Aes50B,
            Transport::Aes50C => Transport::Aes50C,
            Transport::Card(c) => Transport::Card(c.clone()),
            Transport::Dante => Transport::Dante,
            Transport::Madi => Transport::Madi,
            Transport::SLink => Transport::SLink,
            Transport::Ultranet => Transport::Ultranet,
            Transport::Recorder => Transport::Recorder,
            Transport::Internal => Transport::Internal,
            Transport::Other(o) => Transport::Other(o.clone()),
        }
    }
}

pub open spec fn transport_text(t: TransportView) -> Seq<char> {
    match t {
        TransportView::Local => "local"@,
        TransportView::Aes50A => "aes50a"@,
        TransportView::Aes50B => "aes50b"@,
        TransportView::Aes50C => "aes50c"@,
        TransportView::Card(c) => "card:"@ + c,
        TransportView::Dante => "dante"@,
        TransportView::Madi => "madi"@,
        TransportView::SLink => "slink"@,
        TransportView::Ultranet => "ultranet"@,
        TransportView::Recorder => "recorder"@,
        TransportView::Internal => "internal"@,
        TransportView::Other(o) => "other:"@ + o,
    }
}

/// `str::split_once(':')`: the text before and after the first colon.
pub open spec fn split_first_colon(s: Seq<char>) -> Option<(Seq<char>, Seq<char>)> {
    match index_of_char(s, ':') {
        Some(i) => Some((s.take(i), s.skip(i + 1))),
        None => None,
    }
}

pub open spec fn transport_from_text(s: Seq<char>) -> TransportView {
    if s == "local"@ {
        TransportView::Local
    } else if s == "aes50a"@ {
        TransportView::Aes50A
    } else if s == "aes50b"@ {
        TransportView::Aes50B
    } else if s == "aes50c"@ {
        TransportView::Aes50C
    } else if s == "dante"@ {
        TransportView::Dante
    } else if s == "madi"@ {
        TransportView::Madi
    } else if s == "slink"@ {
        TransportView::SLink
    } else if s == "ultranet"@ {
        TransportView::Ultranet
    } else if s == "recorder"@ {
        TransportView::Recorder
    } else if s == "internal"@ {
        TransportView::Internal
    } else {
        match split_first_colon(s) {
            Some((k, v)) => if k == "card"@ {
                TransportView::Card(v)
            } else if k == "other"@ {
                TransportView::Other(v)
            } else {
                TransportView::Other(s)
            },
            None => TransportView::Other(s),
        }
    }
}

/// Split a character slice at its first `c`.
pub fn split_once_char(s: &[char], c: char) -> (r: Option<(Vec<char>, Vec<char>)>)
    ensures
        match r {
            Some((a, b)) => index_of_char(s@, c) is Some && a@ == s@.take(index_of_char(s@, c)->0)
                && b@ == s@.skip(index_of_char(s@, c)->0 + 1),
            None => index_of_char(s@, c) is None,
        },
{
    match find_char(s, c) {
        Some(i) => {
            let n = s.len();
            assert(i < n);
            let a = slice_vec(s, 0, i);
            let b = slice_vec(s, i + 1, n);
            proof {
                assert(a@ =~= s@.take(i as int));
                assert(b@ =~= s@.skip(i + 1));
            }
            Some((a, b))
        },
        None => None,
    }
}

impl Transport {
    pub fn as_str(&self) -> (r: String)
        ensures
            r@ == transport_text(self@),
    {
        match self {
            Transport::Local => String::from_str("local"),
            Transport::Aes50A => String::from_str("aes50a"),
            Transport::Aes50B => String::from_str("aes50b"),
            Transport::Aes50C => String::from_str("aes50c"),
            Transport::Card(c) => {
                let mut s = String::from_str("card:");
                push_str(&mut s, c.as_str());
                s
            },
            Transport::Dante => String::from_str("dante"),
            Transport::Madi => String::from_str("madi"),
            Transport::SLink => String::from_str("slink"),
            Transport::Ultranet => String::from_str("ultranet"),
            Transport::Recorder => String::from_str("recorder"),
            Transport::Internal => String::from_str("internal"),
            Transport::Other(o) => {
                let mut s = String::from_str("other:");
                push_str(&mut s, o.as_str());
                s
            },
        }
    }

    pub fn parse(s: &str) -> (r: Transport)
        ensures
            r@ == transport_from_text(s@),
    {
        let cs = chars_of(s);
        let c = cs.as_slice();
        if eq_str(c, "local") {
            Transport::Local
        } else if eq_str(c, "aes50a") {
            Transport::Aes50A
        } else if eq_str(c, "aes50b") {
            Transport::Aes50B
        } else if eq_str(c, "aes50c") {
            Transport::Aes50C
        } else if eq_str(c, "dante") {
            Transport::Dante
        } else if eq_str(c, "madi") {
            Transport::Madi
        } else if eq_str(c, "slink") {
            Transport::SLink
        } else if eq_str(c, "ultranet") {
            Transport::Ultranet
        } else if eq_str(c, "recorder") {
            Transport::Recorder
        } else if eq_str(c, "internal") {
            Transport::Internal
        } else {
            match split_once_char(c, ':') {
                Some((k, v)) => {
                    if eq_str(k.as_slice(), "card") {
                        Transport::Card(string_of(v.as_slice()))
                    } else if eq_str(k.as_slice(), "other") {
                        Transport::Other(string_of(v.as_slice()))
                    } else {
                        Transport::Other(string_of(c))
                    }
                },
                None => Transport::Other(string_of(c)),
            }
        }
    }
}

pub proof fn lemma_index_of_char_prefix(p: Seq<char>, rest: Seq<char>, c: char)
    requires
        !p.contains(c),
    ensures
        index_of_char(p.push(c) + rest, c) == Some(p.len() as int),
{
    reveal(index_of_char);
    let s = p.push(c) + rest;
    assert(s[p.len() as int] == c);
    assert(s.contains(c));
    let k = choose|i: int| 0 <= i < s.len() && s[i] == c && forall|j: int| 0 <= j < i ==> s[j] != c;
    if k < p.len() {
        assert(s[k] == p[k]);
        assert(p.contains(c));
    } else if k > p.len() {
    }
}

pub open spec fn transport_literals_distinct() -> bool {
    &&& "local"@.len() == 5 && "local"@[0] == 'l' && !"local"@.contains(':')
    &&& "aes50a"@.len() == 6 && "aes50a"@[0] == 'a' && "aes50a"@[5] == 'a' && !"aes50a"@.contains(':')
    &&& "aes50b"@.len() == 6 && "aes50b"@[0] == 'a' && "aes50b"@[5] == 'b' && !"aes50b"@.contains(':')
    &&& "aes50c"@.len() == 6 && "aes50c"@[0] == 'a' && "aes50c"@[5] == 'c' && !"aes50c"@.contains(':')
    &&& "dante"@.len() == 5 && "dante"@[0] == 'd' && !"dante"@.contains(':')
    &&& "madi"@.len() == 4 && "madi"@[0] == 'm' && !"madi"@.contains(':')
    &&& "slink"@.len() == 5 && "slink"@[0] == 's' && !"slink"@.contains(':')
    &&& "ultranet"@.len() == 8 && "ultranet"@[0] == 'u' && !"ultranet"@.contains(':')
    &&& "recorder"@.len() == 8 && "recorder"@[0] == 'r' && !"recorder"@.contains(':')
    &&& "internal"@.len() == 8 && "internal"@[0] == 'i' && !"internal"@.contains(':')
    &&& "card:"@ == "card"@.push(':') && !"card"@.contains(':') && "card"@.len() == 4
    &&& "other:"@ == "other"@.push(':') && !"other"@.contains(':') && "other"@.len() == 5
}

proof fn lemma_transport_literals()
    ensures
        transport_literals_distinct(),
{
    reveal_strlit("local");
    reveal_strlit("aes50a");
    reveal_strlit("aes50b");
    reveal_strlit("aes50c");
    reveal_strlit("dante");
    reveal_strlit("madi");
    reveal_strlit("slink");
    reveal_strlit("ultranet");
    reveal_strlit("recorder");
    reveal_strlit("internal");
    reveal_strlit("card:");
    reveal_strlit("card");
    reveal_strlit("other:");
    reveal_strlit("other");
    assert("card:"@ =~= "card"@.push(':'));
    assert("other:"@ =~= "other"@.push(':'));
}

/// Parsing the text of a transport gives the transport back.
pub proof fn law_transport_round_trip(t: TransportView)
    ensures
        transport_from_text(transport_text(t)) == t,
{
    lemma_transport_literals();
    match t {
        TransportView::Card(c) => {
            let s = "card:"@ + c;
            lemma_index_of_char_prefix("card"@, c, ':');
            assert(s[4] == ':');
            assert(s.contains(':'));
            assert(s.take(4) =~= "card"@);
            assert(s.skip(5) =~= c);
        },
        TransportView::Other(o) => {
            let s = "other:"@ + o;
            lemma_index_of_char_prefix("other"@, o, ':');
            assert(s[5] == ':');
            assert(s.contains(':'));
            assert(s.take(5) =~= "other"@);
            assert(s.skip(6) =~= o);
            assert("other"@[0] != "card"@[0]) by {
                reveal_strlit("other");
                reveal_strlit("card");
            }
        },
        _ => {},
    }
}

// ---------------------------------------------------------------------------
// SocketRef
// ---------------------------------------------------------------------------

/// A physical connector on a [`Device`].
///
/// `index` is 1-based, matching what is silkscreened on the box rather than any
/// internal numbering — every adapter is responsible for that conversion.
#[derive(Debug, PartialEq, Eq, Hash, PartialOrd, Ord)]
pub struct SocketRef {
    pub device: String,
    pub dir: Direction,
    pub index: u16,
}

pub struct SocketView {
    pub device: Seq<char>,
    pub dir: Direction,
    pub index: u16,
}

impl View for SocketRef {
    type V = SocketView;

    open spec fn view(&self) -> SocketView {
        SocketView { device: self.device@, dir: self.dir, index: self.index }
    }
}

impl Clone for SocketRef {
    fn clone(&self) -> (r: SocketRef)
        ensures
            r@ == self@,
    {
        SocketRef { device: self.device.clone(), dir: self.dir, index: self.index }
    }
}

/// The `device/dir/index` text form.
pub open spec fn socket_text(s: SocketView) -> Seq<char> {
    s.device + seq!['/'] + direction_text(s.dir) + seq!['/'] + dec(s.index as nat)
}

/// `SocketRef::parse`: split at the last two slashes.
pub open spec fn socket_from_text(s: Seq<char>) -> Option<SocketView> {
    match last_index_of_char(s, '/') {
        None => None,
        Some(i) => match last_index_of_char(s.take(i), '/') {
            None => None,
            Some(j) => match (parse_u16_spec(s.skip(i + 1)), direction_from_text(s.subrange(j + 1, i))) {
                (Some(index), Some(dir)) => Some(SocketView { device: s.take(j), dir, index }),
                _ => None,
            },
        },
    }
}

impl SocketRef {
    pub fn new(device: &str, dir: Direction, index: u16) -> (r: SocketRef)
        ensures
            r@ == (SocketView { device: device@, dir, index }),
    {
        SocketRef { device: device.to_owned(), dir, index }
    }

    /// The `device/dir/index` form.
    pub fn to_string(&self) -> (r: String)
        ensures
            r@ == socket_text(self@),
    {
        let mut s = self.device.clone();
        push_char(&mut s, '/');
        push_str(&mut s, self.dir.as_str());
        push_char(&mut s, '/');
        push_dec(&mut s, self.index as u64);
        proof {
            assert(s@ =~= socket_text(self@));
        }
        s
    }

    /// Parse the `device/dir/index` form written by [`SocketRef::to_string`].
    pub fn parse(s: &str) -> (r: Option<SocketRef>)
        ensures
            match r {
                Some(v) => socket_from_text(s@) == Some(v@),
                None => socket_from_text(s@) is None,
            },
    {
        let cs = chars_of(s);
        Self::parse_chars(cs.as_slice())
    }

    pub fn parse_chars(s: &[char]) -> (r: Option<SocketRef>)
        ensures
            match r {
                Some(v) => socket_from_text(s@) == Some(v@),
                None => socket_from_text(s@) is None,
            },
    {
        let n = s.len();
        let i = match rfind_char(s, '/') {
            Some(i) => i,
            None => return None,
        };
        let head = slice_vec(s, 0, i);
        let j = match rfind_char(head.as_slice(), '/') {
            Some(j) => j,
            None => {
                proof {
                    assert(head@ =~= s@.take(i as int));
                }
                return None;
            },
        };
        let tail = slice_vec(s, i + 1, n);
        let dtext = slice_vec(s, j + 1, i);
        let dev = slice_vec(s, 0, j);
        proof {
            assert(head@ =~= s@.take(i as int));
            assert(tail@ =~= s@.skip(i + 1));
            assert(dev@ =~= s@.take(j as int));
        }
        let index = match parse_u16(tail.as_slice()) {
            Some(v) => v,
            None => return None,
        };
        let dir = match Direction::parse_chars(dtext.as_slice()) {
            Some(d) => d,
            None => return None,
        };
        Some(SocketRef { device: string_of(dev.as_slice()), dir, index })
    }

    /// Same connector: equal device, direction and index.
    pub fn same(&self, other: &SocketRef) -> (r: bool)
        ensures
            r == (self@ == other@),
    {
        self.device == other.device && self.dir == other.dir && self.index == other.index
    }
}

pub open spec fn direction_rank(d: Direction) -> u8 {
    match d {
        Direction::In => 0,
        Direction::Out => 1,
    }
}

/// The order `derive(Ord)` gives connectors: device name, then direction,
/// then number.
pub open spec fn socket_le(a: SocketView, b: SocketView) -> bool {
    ||| seq_lt(a.device, b.device)
    ||| (a.device == b.device && (direction_rank(a.dir) < direction_rank(b.dir) || (a.dir
        == b.dir && a.index <= b.index)))
}

impl SocketRef {
    /// `self <= other` in the derived order.
    pub fn le(&self, other: &SocketRef) -> (r: bool)
        ensures
            r == socket_le(self@, other@),
    {
        let a = chars_of(self.device.as_str());
        let b = chars_of(other.device.as_str());
        if chars_lt(a.as_slice(), b.as_slice()) {
            return true;
        }
        if self.device != other.device {
            return false;
        }
        let ra: u8 = match self.dir {
            Direction::In => 0,
            Direction::Out => 1,
        };
        let rb: u8 = match other.dir {
            Direction::In => 0,
            Direction::Out => 1,
        };
        ra < rb || (self.dir == other.dir && self.index <= other.index)
    }
}

pub proof fn lemma_last_index_of_char_suffix(p: Seq<char>, rest: Seq<char>, c: char)
    requires
        !rest.contains(c),
    ensures
        last_index_of_char(p.push(c) + rest, c) == Some(p.len() as int),
{
    reveal(last_index_of_char);
    let s = p.push(c) + rest;
    assert(s[p.len() as int] == c);
    assert(s.contains(c));
    let k = choose|i: int| 0 <= i < s.len() && s[i] == c && forall|j: int| i < j < s.len() ==> s[j] != c;
    if k < p.len() {
    } else if k > p.len() {
        assert(s[k] == rest[k - p.len() - 1]);
        assert(rest.contains(c));
    }
}

pub proof fn lemma_dec_has_no(n: nat, c: char)
    requires
        !is_digit(c),
    ensures
        !dec(n).contains(c),
{
    lemma_dec_digits(n);
    if dec(n).contains(c) {
        let k = choose|k: int| 0 <= k < dec(n).len() && dec(n)[k] == c;
        assert(is_digit(dec(n)[k]));
    }
}

/// The text form of a connector parses back to the same connector.
#[verifier::rlimit(50)]
pub proof fn law_socket_round_trip(s: SocketView)
    ensures
        socket_from_text(socket_text(s)) == Some(s),
{
    let t = socket_text(s);
    let d = direction_text(s.dir);
    let n = dec(s.index as nat);
    let p1 = s.device + seq!['/'] + d;
    let i = p1.len() as int;
    let j = s.device.len() as int;
    assert(last_index_of_char(t, '/') == Some(i)) by {
        lemma_dec_has_no(s.index as nat, '/');
        assert(t =~= p1.push('/') + n);
        lemma_last_index_of_char_suffix(p1, n, '/');
    }
    assert(last_index_of_char(t.take(i), '/') == Some(j)) by {
        law_direction_round_trip(s.dir);
        assert(t.take(i) =~= s.device.push('/') + d);
        lemma_last_index_of_char_suffix(s.device, d, '/');
    }
    assert(parse_u16_spec(t.skip(i + 1)) == Some(s.index)) by {
        assert(t.skip(i + 1) =~= n);
        lemma_parse_dec(s.index as nat, 0xFFFF);
    }
    assert(direction_from_text(t.subrange(j + 1, i)) == Some(s.dir)) by {
        assert(t.subrange(j + 1, i) =~= d);
        law_direction_round_trip(s.dir);
    }
    assert(t.take(i).take(j) =~= s.device);
    assert(t.take(j) =~= s.device);
}

} // verus!
