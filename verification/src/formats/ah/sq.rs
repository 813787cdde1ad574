//! Allen & Heath SQ — `NVDATA.DAT` and `SCENE*.DAT`.
//!
//! No container: flat, fixed-size 128 KiB NVRAM images. An SQ show is a folder
//! of them.
//!
//! # The patch is in NVDATA, not the scene
//!
//! Changing a patch point moves bytes in `NVDATA.DAT` and leaves `SCENE001.DAT`
//! byte-identical. The input patch is global setup, exactly as it is on
//! Avantis, where it lives only in the live-state scene.
//!
//! # Provenance
//!
//! Located by controlled diff as an SQ-7: moving Ip3 from Local socket 3 to
//! Local socket 10 changed exactly five bytes — one patch byte and a four-byte
//! checksum at the end of the file.

use vstd::prelude::*;

use crate::formats::{
    file_name_spec, same_file_name, AdapterError, AdapterErrorView, Confidence,
    ShowAdapter, ShowFile, ShowInput,
};
use crate::lex::{trim_end_seq, trim_end_seq_vec};
use crate::model::show::{
    blank_strip, diagnostic, DeviceView, DiagnosticView, InputPatchView, ShowMetaView, ShowView,
    StripView,
};
use crate::model::{
    Device, Diagnostic, Direction, InputPatch, Severity, Show, SocketRef, SocketView, Strip,
    StripId, StripKind, Transport, TransportView,
};
use crate::text::{
    chars_of, dec, first_match, lemma_first_match_at, lemma_first_match_none, push_dec, push_str,
    string_of,
};

verus! {

/// Every SQ NVRAM image is exactly this size.
pub const IMAGE_LEN: usize = 131_072;

/// Bytes between one input channel's record and the next.
pub const CHANNEL_STRIDE: usize = 336;

/// Input channels on the frame this was established on (an SQ-7 lists
/// Ip1–Ip40 before its stereo inputs).
pub const INPUT_CHANNELS: usize = 40;

/// Does this look like an SQ NVRAM image? Byte 0 is a type tag — `0xB5` on
/// NVDATA and `0xA1` on a scene — so the test leaves it out.
pub open spec fn looks_like_image_spec(d: Seq<u8>) -> bool {
    &&& d.len() == IMAGE_LEN
    &&& d[1] == 0x00
    &&& d[2] == 0xFE
    &&& forall|i: int| 3 <= i < 12 ==> #[trigger] d[i] == 0xFF
    &&& d[12] == 0x01 && d[13] == 0x06 && d[14] == 0x00 && d[15] == 0x01
}

pub fn looks_like_image(d: &[u8]) -> (r: bool)
    ensures
        r == looks_like_image_spec(d@),
{
    if d.len() != IMAGE_LEN || d[1] != 0x00 || d[2] != 0xFE {
        return false;
    }
    let mut i: usize = 3;
    while i < 12
        invariant
            3 <= i <= 12,
            d@.len() == IMAGE_LEN,
            forall|j: int| 3 <= j < i ==> #[trigger] d@[j] == 0xFF,
        decreases 12 - i,
    {
        if d[i] != 0xFF {
            return false;
        }
        i = i + 1;
    }
    d[12] == 0x01 && d[13] == 0x06 && d[14] == 0x00 && d[15] == 0x01
}

pub open spec fn nvdata_tagged(f: ShowFile) -> bool {
    looks_like_image_spec(f.bytes@) && f.bytes@[0] == 0xB5
}

/// The NVDATA image out of whatever was handed over: the file called
/// `NVDATA.DAT` if it is an image, else the first image tagged as NVDATA.
pub open spec fn nvdata_named(files: Seq<ShowFile>) -> Option<Seq<u8>> {
    match first_match(files, |f: ShowFile| same_file_name(f, "NVDATA.DAT"@)) {
        Some(i) => if looks_like_image_spec(files[i].bytes@) {
            Some(files[i].bytes@)
        } else {
            None
        },
        None => None,
    }
}

pub open spec fn nvdata_spec(files: Seq<ShowFile>) -> Option<Seq<u8>> {
    match nvdata_named(files) {
        Some(b) => Some(b),
        None => match first_match(files, |f: ShowFile| nvdata_tagged(f)) {
            Some(j) => Some(files[j].bytes@),
            None => None,
        },
    }
}

pub fn nvdata(input: &ShowInput) -> (r: Option<Vec<u8>>)
    ensures
        match nvdata_spec(input.files@) {
            Some(b) => r is Some && r->0@ == b,
            None => r is None,
        },
{
    let found = input.find("NVDATA.DAT");
    proof {
        let name = "NVDATA.DAT";
        crate::text::lemma_first_match_same(
            input.files@,
            |f: ShowFile| same_file_name(f, name@),
            input.files@,
            |f: ShowFile| same_file_name(f, "NVDATA.DAT"@),
        );
    }
    match found {
        Some(f) => {
            if looks_like_image(f.bytes.as_slice()) {
                proof {
                    let i = first_match(input.files@, |f: ShowFile| same_file_name(f, "NVDATA.DAT"@)).unwrap();
                    assert(input.files@[i].bytes@ == f.bytes@);
                    assert(nvdata_spec(input.files@) == Some(f.bytes@));
                }
                return Some(vstd::slice::slice_to_vec(f.bytes.as_slice()));
            }
        },
        None => {},
    }
    let mut j: usize = 0;
    proof {
        assert(nvdata_named(input.files@) is None);
    }
    while j < input.files.len()
        invariant
            j <= input.files@.len(),
            nvdata_named(input.files@) is None,
            forall|k: int| 0 <= k < j ==> !nvdata_tagged(#[trigger] input.files@[k]),
        decreases input.files@.len() - j,
    {
        let f = &input.files[j];
        if looks_like_image(f.bytes.as_slice()) && f.bytes[0] == 0xB5 {
            proof {
                lemma_first_match_at(input.files@, |f: ShowFile| nvdata_tagged(f), j as int);
            }
            return Some(vstd::slice::slice_to_vec(f.bytes.as_slice()));
        }
        j = j + 1;
    }
    proof {
        lemma_first_match_none(input.files@, |f: ShowFile| nvdata_tagged(f));
    }
    None
}

/// A patch field at `i`: `FF FF FF` before it, `00` after it and `FE` two
/// further on; the byte between is the patched flag.
pub open spec fn is_hit(d: Seq<u8>, i: int) -> bool {
    d[i - 3] == 0xFF && d[i - 2] == 0xFF && d[i - 1] == 0xFF && d[i + 1] == 0x00 && d[i + 3] == 0xFE
}

/// Signature matches at `3 <= i < n`, in order.
pub open spec fn hits_upto(d: Seq<u8>, n: int) -> Seq<int>
    decreases n,
{
    if n <= 3 {
        Seq::empty()
    } else {
        hits_upto(d, n - 1) + if is_hit(d, n - 1) {
            seq![n - 1]
        } else {
            Seq::<int>::empty()
        }
    }
}

/// Every signature match the scan considers.
pub open spec fn hits_spec(d: Seq<u8>) -> Seq<int> {
    hits_upto(d, if d.len() >= 4 { d.len() - 4 } else { 0 })
}

/// Longest run so far, and the run in progress.
pub open spec fn best_fold(hs: Seq<int>) -> (Seq<int>, Seq<int>)
    decreases hs.len(),
{
    if hs.len() == 0 {
        (Seq::empty(), Seq::empty())
    } else {
        let (best, run) = best_fold(hs.drop_last());
        let h = hs.last();
        if run.len() > 0 && h - run.last() == CHANNEL_STRIDE {
            (best, run.push(h))
        } else if run.len() > best.len() {
            (run, seq![h])
        } else {
            (best, seq![h])
        }
    }
}

/// The longest run of matches spaced exactly one record apart; the first of
/// several equally long.
pub open spec fn best_run(hs: Seq<int>) -> Seq<int> {
    let (best, run) = best_fold(hs);
    if run.len() > best.len() {
        run
    } else {
        best
    }
}

pub open spec fn first_of(s: Seq<int>) -> Option<int> {
    if s.len() > 0 {
        Some(s[0])
    } else {
        None
    }
}

/// Runs of two or more that do not start where the longest does, and the run
/// in progress.
pub open spec fn others_fold(hs: Seq<int>, best: Seq<int>) -> (nat, Seq<int>)
    decreases hs.len(),
{
    if hs.len() == 0 {
        (0, Seq::empty())
    } else {
        let (c, run) = others_fold(hs.drop_last(), best);
        let h = hs.last();
        if run.len() > 0 && h - run.last() == CHANNEL_STRIDE {
            (c, run.push(h))
        } else {
            (c + if run.len() > 1 && first_of(run) != first_of(best) { 1nat } else { 0nat }, seq![h])
        }
    }
}

pub open spec fn other_runs(hs: Seq<int>, best: Seq<int>) -> nat {
    let (c, run) = others_fold(hs, best);
    c + if run.len() > 1 && first_of(run) != first_of(best) { 1nat } else { 0nat }
}

/// The input channels' patch-byte offsets (the first 40 of the longest run),
/// and how many other runs were left alone — one more when the longest ran on
/// past the input channels.
pub open spec fn patch_offsets_spec(d: Seq<u8>) -> (Seq<int>, nat) {
    let hs = hits_spec(d);
    let best = best_run(hs);
    let over = best.len() > INPUT_CHANNELS;
    (
        if over { best.take(INPUT_CHANNELS as int) } else { best },
        other_runs(hs, best) + if over { 1nat } else { 0nat },
    )
}

pub open spec fn usize_view(v: Seq<usize>) -> Seq<int> {
    v.map_values(|x: usize| x as int)
}

fn find_hits(d: &[u8]) -> (r: Vec<usize>)
    ensures
        usize_view(r@) == hits_spec(d@),
        forall|k: int| 0 <= k < r@.len() ==> 3 <= #[trigger] r@[k] && r@[k] + 4 <= d@.len(),
        r@.len() + 4 <= usize::MAX,
{
    let n: usize = if d.len() >= 4 {
        d.len() - 4
    } else {
        0
    };
    let mut hits: Vec<usize> = Vec::new();
    let mut i: usize = 3;
    proof {
        assert(usize_view(hits@) =~= hits_upto(d@, 3));
    }
    while i < n
        invariant
            3 <= i,
            n == (if d@.len() >= 4 { d@.len() - 4 } else { 0 }),
            i <= n || n < 3,
            n < 3 ==> i == 3,
            hits@.len() <= i,
            usize_view(hits@) == hits_upto(d@, i as int),
            forall|k: int| 0 <= k < hits@.len() ==> 3 <= #[trigger] hits@[k] && hits@[k] + 4 <= d@.len(),
        decreases n - i,
    {
        let ghost before = usize_view(hits@);
        if d[i - 3] == 0xFF && d[i - 2] == 0xFF && d[i - 1] == 0xFF && d[i + 1] == 0x00 && d[i + 3]
            == 0xFE {
            hits.push(i);
            proof {
                assert(usize_view(hits@) =~= before.push(i as int));
            }
        }
        proof {
            assert(hits_upto(d@, i + 1) == hits_upto(d@, i as int) + if is_hit(d@, i as int) {
                seq![i as int]
            } else {
                Seq::<int>::empty()
            });
            assert(usize_view(hits@) =~= hits_upto(d@, i + 1));
        }
        i = i + 1;
    }
    proof {
        if n >= 3 {
            assert(i == n);
        } else {
            assert(hits_upto(d@, n as int) =~= Seq::<int>::empty());
            assert(hits_upto(d@, i as int) =~= Seq::<int>::empty()) by {
                assert(i == 3);
            }
        }
    }
    hits
}

/// Offsets of every input channel's patch byte, plus how many other candidate
/// runs were seen.
///
/// A real image has several runs — a default SQ-7 has one of 32 and four short
/// ones carrying other tables — so taking the longest is what separates the
/// input channels from its neighbours.
pub fn patch_offsets(d: &[u8]) -> (r: (Vec<usize>, usize))
    ensures
        (usize_view(r.0@), r.1 as nat) == patch_offsets_spec(d@),
        forall|k: int| 0 <= k < r.0@.len() ==> #[trigger] r.0@[k] + 4 <= d@.len(),
{
    let hits = find_hits(d);
    let ghost hs = usize_view(hits@);
    let mut best: Vec<usize> = Vec::new();
    let mut run: Vec<usize> = Vec::new();
    let mut k: usize = 0;
    proof {
        assert(hs.take(0) =~= Seq::<int>::empty());
    }
    while k < hits.len()
        invariant
            k <= hits@.len(),
            hs == usize_view(hits@),
            (usize_view(best@), usize_view(run@)) == best_fold(hs.take(k as int)),
            forall|j: int| 0 <= j < best@.len() ==> exists|m: int| 0 <= m < hits@.len() && #[trigger] best@[j] == hits@[m],
            forall|j: int| 0 <= j < run@.len() ==> exists|m: int| 0 <= m < hits@.len() && #[trigger] run@[j] == hits@[m],
            forall|j: int| 0 <= j < hits@.len() ==> #[trigger] hits@[j] + 4 <= d@.len(),
        decreases hits@.len() - k,
    {
        let h = hits[k];
        proof {
            assert(hs.take(k + 1).drop_last() =~= hs.take(k as int));
            assert(hs.take(k + 1).last() == h as int);
        }
        let ghost bv = usize_view(best@);
        let ghost rv = usize_view(run@);
        let cont = run.len() > 0 && h >= run[run.len() - 1] && h - run[run.len() - 1] == CHANNEL_STRIDE;
        proof {
            if run@.len() > 0 {
                assert(rv.last() == run@[run@.len() - 1] as int);
            }
        }
        if cont {
            run.push(h);
            proof {
                assert(usize_view(run@) =~= rv.push(h as int));
            }
        } else {
            if run.len() > best.len() {
                best = run;
            }
            run = Vec::new();
            run.push(h);
            proof {
                assert(usize_view(run@) =~= seq![h as int]);
            }
        }
        k = k + 1;
    }
    proof {
        assert(hs.take(k as int) =~= hs);
    }
    if run.len() > best.len() {
        best = run;
    }
    let ghost bestv = usize_view(best@);
    let others = count_other_runs(&hits, &best);
    let over = best.len() > INPUT_CHANNELS;
    if over {
        best.truncate(INPUT_CHANNELS);
        proof {
            assert(usize_view(best@) =~= bestv.take(INPUT_CHANNELS as int));
        }
    }
    let total = if over {
        others + 1
    } else {
        others
    };
    (best, total)
}

fn count_other_runs(hits: &Vec<usize>, best: &Vec<usize>) -> (r: usize)
    requires
        hits@.len() + 4 <= usize::MAX,
    ensures
        r as nat == other_runs(usize_view(hits@), usize_view(best@)),
        r <= hits@.len() + 1,
{
    let ghost hs = usize_view(hits@);
    let ghost bv = usize_view(best@);
    let bf: Option<usize> = if best.len() > 0 {
        Some(best[0])
    } else {
        None
    };
    let mut c: usize = 0;
    let mut run: Vec<usize> = Vec::new();
    let mut k: usize = 0;
    proof {
        assert(hs.take(0) =~= Seq::<int>::empty());
        assert(usize_view(run@) =~= Seq::<int>::empty());
    }
    while k < hits.len()
        invariant
            k <= hits@.len(),
            hs == usize_view(hits@),
            bv == usize_view(best@),
            match bf {
                Some(b) => first_of(bv) == Some(b as int),
                None => first_of(bv) is None,
            },
            (c as nat, usize_view(run@)) == others_fold(hs.take(k as int), bv),
            c <= k,
            run@.len() <= k,
        decreases hits@.len() - k,
    {
        let h = hits[k];
        proof {
            assert(hs.take(k + 1).drop_last() =~= hs.take(k as int));
            assert(hs.take(k + 1).last() == h as int);
            if run@.len() > 0 {
                assert(usize_view(run@).last() == run@[run@.len() - 1] as int);
                assert(usize_view(run@)[0] == run@[0] as int);
            }
        }
        let ghost rv = usize_view(run@);
        let cont = run.len() > 0 && h >= run[run.len() - 1] && h - run[run.len() - 1] == CHANNEL_STRIDE;
        if cont {
            run.push(h);
            proof {
                assert(usize_view(run@) =~= rv.push(h as int));
            }
        } else {
            let differs = match bf {
                Some(b) => run.len() == 0 || run[0] != b,
                None => true,
            };
            if run.len() > 1 && differs {
                c = c + 1;
            }
            run = Vec::new();
            run.push(h);
            proof {
                assert(usize_view(run@) =~= seq![h as int]);
            }
        }
        k = k + 1;
    }
    proof {
        assert(hs.take(k as int) =~= hs);
        if run@.len() > 0 {
            assert(usize_view(run@)[0] == run@[0] as int);
        }
    }
    let differs = match bf {
        Some(b) => run.len() == 0 || run[0] != b,
        None => true,
    };
    if run.len() > 1 && differs {
        c + 1
    } else {
        c
    }
}


// ---------------------------------------------------------------------------
// The show
// ---------------------------------------------------------------------------

/// Why an image is not read as NVDATA.
#[derive(Debug, PartialEq, Eq, Structural)]
pub enum SqError {
    NoRecords,
}

impl SqError {
    pub fn message(&self) -> (r: String)
        ensures
            r@ == "no input channel records found — this does not look like SQ NVDATA"@,
    {
        String::from_str("no input channel records found — this does not look like SQ NVDATA")
    }
}

pub open spec fn sq_devices() -> Seq<DeviceView> {
    seq![
        DeviceView {
            id: "input"@,
            label: "Input socket (class not decoded)"@,
            model: None,
            transport: TransportView::Other("sq-input"@),
            inputs: 48,
            outputs: 0,
        },
    ]
}

/// The socket class is deliberately left vague: it genuinely is not known.
pub fn devices() -> (r: Vec<Device>)
    ensures
        crate::model::show::devices_view(r@) == sq_devices(),
{
    let v = vec![
        Device::new(
            "input",
            "Input socket (class not decoded)",
            Transport::Other(String::from_str("sq-input")),
            48,
            0,
        ),
    ];
    proof {
        assert(crate::model::show::devices_view(v@) =~= sq_devices());
    }
    v
}

/// The byte two past the patch field says whether the channel is patched.
pub open spec fn sq_patched(d: Seq<u8>, off: int) -> bool {
    off + 2 < d.len() && d[off + 2] == 0x01
}

/// The field is a 0-based socket index; connectors are numbered from 1.
pub open spec fn sq_row(d: Seq<u8>, offs: Seq<int>, i: int) -> InputPatchView {
    InputPatchView {
        slot: (i + 1) as u16,
        block_label: Seq::empty(),
        socket: if sq_patched(d, offs[i]) {
            Some(SocketView { device: "input"@, dir: Direction::In, index: (d[offs[i]] + 1) as u16 })
        } else {
            None
        },
        strip: Some(StripId { kind: StripKind::Input, index: (i + 1) as u16 }),
    }
}

pub open spec fn unpatched_count(d: Seq<u8>, offs: Seq<int>) -> nat
    decreases offs.len(),
{
    if offs.len() == 0 {
        0
    } else {
        unpatched_count(d, offs.drop_last()) + if sq_patched(d, offs.last()) { 0nat } else { 1nat }
    }
}

pub open spec fn sq_count_message(n: nat, unpatched: nat, others: nat) -> Seq<char> {
    dec(n) + " input channel records were read ("@ + dec(unpatched)
        + " of them unpatched), taken from the start of the longest run at the 336-byte record stride"@
        + (if others > 0 {
        ", with "@ + dec(others) + " shorter run(s) elsewhere left alone as other tables"@
    } else {
        Seq::empty()
    })
        + ". The run itself is longer and continues into stereo inputs and mix objects, which share the stride; nothing in the file marks the boundary, so the input-channel count is taken from an SQ-7's Setup page rather than derived. A frame with a different count will read wrong here"@
}

pub open spec fn sq_class_note() -> DiagnosticView {
    diagnostic(
        Severity::Unknown,
        "NVDATA input channel records"@,
        "the patch field gives a socket NUMBER but not which socket block it belongs to — an SQ can take inputs from Local, SLink, USB or an I/O port, and only a Local patch has been observed. Connector numbers below are right; whether they are Local sockets is an assumption this tool has not verified"@,
    )
}

pub open spec fn sq_unmodelled_note() -> DiagnosticView {
    diagnostic(
        Severity::Unmodelled,
        "NVDATA.DAT"@,
        "PFX carries the input patch only; channel names, preamp gain and phantom, bus sends and processing are all inside the same record and none are decoded yet"@,
    )
}

pub open spec fn sq_meta(name: Seq<char>) -> ShowMetaView {
    ShowMetaView {
        name: trim_end_seq(trim_end_seq(file_name_spec(name), ".DAT"@), ".dat"@),
        note: None,
        source_format: "allen-heath-sq"@,
        console: "Allen & Heath SQ"@,
        format_version: None,
    }
}

/// What an NVDATA image reads as.
pub open spec fn parse_nvdata_spec(d: Seq<u8>, name: Seq<char>) -> Result<ShowView, SqError> {
    let (offs, others) = patch_offsets_spec(d);
    if offs.len() == 0 {
        Err(SqError::NoRecords)
    } else {
        Ok(
            ShowView {
                meta: sq_meta(name),
                devices: sq_devices(),
                head_amps: Seq::empty(),
                strips: Seq::new(offs.len(), |i: int| blank_strip(StripId { kind: StripKind::Input, index: (i + 1) as u16 })),
                inputs: Seq::new(offs.len(), |i: int| sq_row(d, offs, i)),
                outputs: Seq::empty(),
                scenes: Seq::empty(),
                diagnostics: seq![
                    sq_class_note(),
                    diagnostic(
                        Severity::Suspect,
                        "NVDATA.DAT"@,
                        sq_count_message(offs.len(), unpatched_count(d, offs), others),
                    ),
                    sq_unmodelled_note(),
                ],
            },
        )
    }
}

/// The show's name: the base name without a `.DAT` extension.
fn show_name(name: &str) -> (r: String)
    ensures
        r@ == sq_meta(name@).name,
{
    let nc = chars_of(name);
    let nlen = nc.len();
    let base = match crate::text::rfind_char(nc.as_slice(), '/') {
        Some(i) => {
            assert(i < nlen);
            crate::text::slice_vec(nc.as_slice(), i + 1, nlen)
        },
        None => nc.clone(),
    };
    proof {
        match crate::text::last_index_of_char(name@, '/') {
            Some(i) => {
                assert(base@ =~= name@.skip(i + 1));
            },
            None => {
                assert(base@ =~= name@);
            },
        }
    }
    let upper = chars_of(".DAT");
    let lower = chars_of(".dat");
    proof {
        reveal_strlit(".DAT");
        reveal_strlit(".dat");
    }
    let t1 = trim_end_seq_vec(base.as_slice(), upper.as_slice());
    let t2 = trim_end_seq_vec(t1.as_slice(), lower.as_slice());
    string_of(t2.as_slice())
}

fn count_message(n: usize, unpatched: usize, others: usize) -> (r: String)
    ensures
        r@ == sq_count_message(n as nat, unpatched as nat, others as nat),
{
    let mut m = String::new();
    push_dec(&mut m, n as u64);
    push_str(&mut m, " input channel records were read (");
    push_dec(&mut m, unpatched as u64);
    push_str(
        &mut m,
        " of them unpatched), taken from the start of the longest run at the 336-byte record stride",
    );
    if others > 0 {
        push_str(&mut m, ", with ");
        push_dec(&mut m, others as u64);
        push_str(&mut m, " shorter run(s) elsewhere left alone as other tables");
    }
    push_str(
        &mut m,
        ". The run itself is longer and continues into stereo inputs and mix objects, which share the stride; nothing in the file marks the boundary, so the input-channel count is taken from an SQ-7's Setup page rather than derived. A frame with a different count will read wrong here",
    );
    proof {
        if others > 0 {
            assert(m@ =~= sq_count_message(n as nat, unpatched as nat, others as nat));
        } else {
            assert(m@ =~= sq_count_message(n as nat, unpatched as nat, others as nat));
        }
    }
    m
}

/// Read an NVDATA image.
#[verifier::rlimit(40)]
pub fn parse_nvdata(d: &[u8], name: &str) -> (r: Result<Show, SqError>)
    ensures
        match r {
            Ok(s) => parse_nvdata_spec(d@, name@) == Ok::<ShowView, SqError>(s@),
            Err(e) => parse_nvdata_spec(d@, name@) == Err::<ShowView, SqError>(e),
        },
{
    let (offsets, other_runs) = patch_offsets(d);
    let ghost offs = usize_view(offsets@);
    if offsets.len() == 0 {
        return Err(SqError::NoRecords);
    }
    let mut show = Show::default();
    show.meta.source_format = String::from_str("allen-heath-sq");
    show.meta.console = String::from_str("Allen & Heath SQ");
    show.meta.name = show_name(name);
    show.devices = devices();
    let ghost s0 = show@;
    let mut unpatched: usize = 0;
    let mut i: usize = 0;
    proof {
        assert(s0.meta == sq_meta(name@));
        assert(s0.devices == sq_devices());
        assert(s0.head_amps =~= Seq::<crate::model::show::HeadAmpView>::empty());
        assert(s0.outputs =~= Seq::<crate::model::show::OutputPatchView>::empty());
        assert(s0.scenes =~= Seq::<crate::model::show::SceneView>::empty());
        assert(s0.diagnostics =~= Seq::<DiagnosticView>::empty());
        assert(s0.strips =~= Seq::<StripView>::empty());
        assert(s0.inputs =~= Seq::<InputPatchView>::empty());
        assert(Seq::new(0, |j: int| blank_strip(StripId { kind: StripKind::Input, index: (j + 1) as u16 })) =~= Seq::<StripView>::empty());
        assert(Seq::new(0, |j: int| sq_row(d@, offs, j)) =~= Seq::<InputPatchView>::empty());
        assert(offs.take(0) =~= Seq::<int>::empty());
    }
    while i < offsets.len()
        invariant
            i <= offsets@.len(),
            offsets@.len() <= INPUT_CHANNELS,
            offs == usize_view(offsets@),
            forall|k: int| 0 <= k < offsets@.len() ==> #[trigger] offsets@[k] + 4 <= d@.len(),
            unpatched <= i,
            unpatched == unpatched_count(d@, offs.take(i as int)),
            show@ == s0.with_strips(
                Seq::new(i as nat, |j: int| blank_strip(StripId { kind: StripKind::Input, index: (j + 1) as u16 })),
            ).with_inputs(Seq::new(i as nat, |j: int| sq_row(d@, offs, j))),
        decreases offsets@.len() - i,
    {
        let ch = (i + 1) as u16;
        show.push_strip(Strip::new(StripId::new(StripKind::Input, ch)));
        let off = offsets[i];
        proof {
            assert(off + 4 <= d@.len());
            assert(offs[i as int] == off as int);
            assert(offs.take(i + 1).drop_last() =~= offs.take(i as int));
        }
        let patched = off <= d.len() && d.len() - off > 2 && d[off + 2] == 0x01;
        if !patched {
            unpatched = unpatched + 1;
        }
        let socket = if patched {
            Some(SocketRef::new("input", Direction::In, d[off] as u16 + 1))
        } else {
            None
        };
        let row = InputPatch {
            slot: ch,
            block_label: String::new(),
            socket,
            strip: Some(StripId::new(StripKind::Input, ch)),
        };
        proof {
            assert(row@ == sq_row(d@, offs, i as int));
        }
        show.push_input(row);
        i = i + 1;
        proof {
            assert(Seq::new(i as nat, |j: int| blank_strip(StripId { kind: StripKind::Input, index: (j + 1) as u16 })) =~= Seq::new((i - 1) as nat, |j: int| blank_strip(StripId { kind: StripKind::Input, index: (j + 1) as u16 })).push(blank_strip(StripId { kind: StripKind::Input, index: ((i - 1) + 1) as u16 })));
            assert(Seq::new(i as nat, |j: int| sq_row(d@, offs, j)) =~= Seq::new((i - 1) as nat, |j: int| sq_row(d@, offs, j)).push(sq_row(d@, offs, i - 1)));
        }
    }
    proof {
        assert(offs.take(i as int) =~= offs);
    }
    show.push_diagnostic(
        Diagnostic::new(
            Severity::Unknown,
            String::from_str("NVDATA input channel records"),
            String::from_str(
                "the patch field gives a socket NUMBER but not which socket block it belongs to — an SQ can take inputs from Local, SLink, USB or an I/O port, and only a Local patch has been observed. Connector numbers below are right; whether they are Local sockets is an assumption this tool has not verified",
            ),
        ),
    );
    show.push_diagnostic(
        Diagnostic::new(
            Severity::Suspect,
            String::from_str("NVDATA.DAT"),
            count_message(offsets.len(), unpatched, other_runs),
        ),
    );
    show.push_diagnostic(
        Diagnostic::new(
            Severity::Unmodelled,
            String::from_str("NVDATA.DAT"),
            String::from_str(
                "PFX carries the input patch only; channel names, preamp gain and phantom, bus sends and processing are all inside the same record and none are decoded yet",
            ),
        ),
    );
    proof {
        assert(show@.diagnostics =~= seq![
            sq_class_note(),
            diagnostic(
                Severity::Suspect,
                "NVDATA.DAT"@,
                sq_count_message(offs.len(), unpatched_count(d@, offs), other_runs as nat),
            ),
            sq_unmodelled_note(),
        ]);
    }
    Ok(show)
}

// ---------------------------------------------------------------------------
// The adapter
// ---------------------------------------------------------------------------

pub open spec fn sq_parse_spec(files: Seq<ShowFile>, name: Seq<char>) -> Result<ShowView, AdapterErrorView> {
    match nvdata_spec(files) {
        None => Err(AdapterErrorView::Unrecognised),
        Some(data) => match parse_nvdata_spec(data, name) {
            Ok(sv) => Ok(sv),
            Err(_) => Err(
                AdapterErrorView::Parse {
                    adapter: "allen-heath-sq"@,
                    message: "no input channel records found — this does not look like SQ NVDATA"@,
                },
            ),
        },
    }
}

pub struct SqAdapter;

impl ShowAdapter for SqAdapter {
    fn id(&self) -> (r: &'static str)
        ensures
            r@ == "allen-heath-sq"@,
    {
        "allen-heath-sq"
    }

    fn display_name(&self) -> (r: &'static str)
        ensures
            r@ == "Allen & Heath SQ show (NVDATA.DAT)"@,
    {
        "Allen & Heath SQ show (NVDATA.DAT)"
    }

    fn extensions(&self) -> (r: &'static [&'static str])
        ensures
            r@.map_values(|e: &str| e@) == seq!["dat"@],
    {
        let r: &'static [&'static str] = &["dat"];
        proof {
            assert(r@.map_values(|e: &str| e@) =~= seq!["dat"@]);
        }
        r
    }

    fn sniff(&self, input: &ShowInput) -> (r: Confidence)
        ensures
            r == (if nvdata_spec(input.files@) is Some { Confidence::Strong } else { Confidence::No }),
    {
        match nvdata(input) {
            Some(_) => Confidence::Strong,
            None => Confidence::No,
        }
    }

    fn parse(&self, input: &ShowInput) -> (r: Result<Show, AdapterError>)
        ensures
            crate::formats::x32::show_result_view(r) == sq_parse_spec(input.files@, input.name@),
    {
        let data = match nvdata(input) {
            Some(d) => d,
            None => return Err(AdapterError::Unrecognised),
        };
        match parse_nvdata(data.as_slice(), input.name.as_str()) {
            Ok(s) => Ok(s),
            Err(e) => Err(AdapterError::Parse { adapter: "allen-heath-sq", message: e.message() }),
        }
    }
}

/// Every channel record found gets a row, in order, patched or not: row `i`
/// is slot `i + 1` feeding input channel `i + 1`, its connector present
/// exactly when the record says it is patched. There are at most as many
/// rows as input channels, and none at all is an error.
pub proof fn law_every_channel_record_gets_a_row(d: Seq<u8>, name: Seq<char>)
    ensures
        match parse_nvdata_spec(d, name) {
            Ok(sv) => {
                let offs = patch_offsets_spec(d).0;
                &&& 0 < offs.len() <= INPUT_CHANNELS
                &&& sv.inputs.len() == offs.len()
                &&& sv.strips.len() == offs.len()
                &&& forall|i: int|
                    0 <= i < offs.len() ==> {
                        &&& (#[trigger] sv.inputs[i]).slot == i + 1
                        &&& sv.inputs[i].strip == Some(StripId { kind: StripKind::Input, index: (i + 1) as u16 })
                        &&& (sv.inputs[i].socket is Some <==> sq_patched(d, offs[i]))
                    }
            },
            Err(e) => e == SqError::NoRecords && patch_offsets_spec(d).0.len() == 0,
        },
{
}

} // verus!
