//! The `#YAMAHA MBDF…` container.
//!
//! Yamaha wraps console data in one container across the modern range. Several
//! subtypes exist, distinguished by the magic:
//!
//! ```text
//! #YAMAHA MBDFScene        scenes      .dm3s .tfs
//! #YAMAHA MBDFPreset       presets     .tfp .dm7p
//! #YAMAHA MBDFArchive      firmware update packages
//! #YAMAHA MBDFBackup       list backups
//! #YAMAHA MBDFUserAccount  user accounts
//! ```
//!
//! Only Scene and Preset are handled here; the Archive subtype has a different
//! record layout and is a firmware concern, not a show-file one.
//!
//! A container is a 0x48-byte header, then records, each a 36-byte header
//! (`#MMS FIELD` tag, name, big-endian target and payload lengths), the target
//! bytes and the payload, padded to a 4-byte boundary; `#END` closes it.

use vstd::prelude::*;

use super::{YamahaError, YamahaErrorView};
use crate::text::{
    bytes_eq_str, bytes_match, chars_of, cstr, first_match, lemma_first_match_at,
    lemma_first_match_none, lossy_utf8, slice_range, until_nul,
};

verus! {

/// A NUL-terminated field, decoded lossily.
pub open spec fn cstr_spec(b: Seq<u8>) -> Seq<char> {
    lossy_utf8(until_nul(b))
}

/// Big-endian 32-bit word at `at`.
pub open spec fn be_u32_spec(d: Seq<u8>, at: int) -> u32 {
    (d[at] * 0x1000000 + d[at + 1] * 0x10000 + d[at + 2] * 0x100 + d[at + 3]) as u32
}

/// The big-endian word at `at`, if four bytes are there.
pub fn be_u32(b: &[u8], at: usize) -> (r: Option<u32>)
    ensures
        match r {
            Some(v) => at + 4 <= b@.len() && v == be_u32_spec(b@, at as int),
            None => at + 4 > b@.len(),
        },
{
    if at > b.len() || b.len() - at < 4 {
        return None;
    }
    let v: u32 = (b[at] as u32) * 0x1000000 + (b[at + 1] as u32) * 0x10000 + (b[at + 2] as u32)
        * 0x100 + b[at + 3] as u32;
    Some(v)
}

/// The bytes `b[from..to]`, copied.
pub fn copy_range(b: &[u8], from: usize, to: usize) -> (r: Vec<u8>)
    requires
        from <= to <= b@.len(),
    ensures
        r@ == b@.subrange(from as int, to as int),
{
    vstd::slice::slice_to_vec(slice_range(b, from, to))
}

/// One `#MMS FIELD` record.
#[derive(Debug, Clone)]
pub struct Record {
    /// Field name — `Scene`, `Mixing`, `Process`, `FX`, …
    pub name: String,
    /// Target sub-header, e.g. `CH\0\0\0\0\0\x1f` on a per-channel preset.
    pub target: Vec<u8>,
    pub payload: Vec<u8>,
}

pub struct RecordView {
    pub name: Seq<char>,
    pub target: Seq<u8>,
    pub payload: Seq<u8>,
}

impl View for Record {
    type V = RecordView;

    open spec fn view(&self) -> RecordView {
        RecordView { name: self.name@, target: self.target@, payload: self.payload@ }
    }
}

/// A parsed MBDF container.
#[derive(Debug, Clone)]
pub struct Container {
    /// Text after `#YAMAHA MBDF` — `Scene`, `Preset`, …
    pub subtype: String,
    /// Model string, e.g. `DM3`, `TF`, `DM7`.
    pub model: String,
    /// Version word, verbatim. Not decoded.
    pub version: [u8; 4],
    pub records: Vec<Record>,
}

pub struct ContainerView {
    pub subtype: Seq<char>,
    pub model: Seq<char>,
    pub version: Seq<u8>,
    pub records: Seq<RecordView>,
}

pub open spec fn records_view(r: Seq<Record>) -> Seq<RecordView> {
    r.map_values(|x: Record| x@)
}

impl View for Container {
    type V = ContainerView;

    open spec fn view(&self) -> ContainerView {
        ContainerView {
            subtype: self.subtype@,
            model: self.model@,
            version: self.version@,
            records: records_view(self.records@),
        }
    }
}

/// Where the next record starts: the end of this one, rounded up to a
/// multiple of four.
pub open spec fn round4(n: int) -> int {
    if n % 4 == 0 {
        n
    } else {
        n + 4 - n % 4
    }
}

/// The records from `off` on, after `recs`.
pub open spec fn walk_records(d: Seq<u8>, off: int, recs: Seq<RecordView>) -> Result<Seq<RecordView>, YamahaErrorView>
    decreases d.len() - off,
{
    if off < 0 || off + 12 > d.len() {
        Err(YamahaErrorView::Truncated("no #END record"@))
    } else {
        let tag = cstr_spec(d.subrange(off, off + 12));
        if tag == "#END"@ {
            Ok(recs)
        } else if off + 36 > d.len() {
            Err(YamahaErrorView::Truncated("record header"@))
        } else if tag != "#MMS FIELD"@ {
            Err(YamahaErrorView::BadRecord(tag))
        } else {
            let extra = be_u32_spec(d, off + 24);
            let plen = be_u32_spec(d, off + 28);
            let pstart = off + 36 + extra;
            let pend = pstart + plen;
            if pstart > usize::MAX || pend > usize::MAX {
                Err(YamahaErrorView::Truncated("record"@))
            } else if pend > d.len() {
                Err(YamahaErrorView::Truncated("payload"@))
            } else if round4(pend) + 12 > d.len() {
                Err(YamahaErrorView::Truncated("no #END record"@))
            } else {
                walk_records(
                    d,
                    round4(pend),
                    recs.push(
                        RecordView {
                            name: cstr_spec(d.subrange(off + 12, off + 24)),
                            target: d.subrange(off + 36, pstart),
                            payload: d.subrange(pstart, pend),
                        },
                    ),
                )
            }
        }
    }
}

pub open spec fn looks_like_spec(d: Seq<u8>) -> bool {
    d.len() >= 12 && bytes_match(d.take(12), "#YAMAHA MBDF"@)
}

/// What a container's bytes read as.
#[verifier::opaque]
pub open spec fn container_spec(d: Seq<u8>) -> Result<ContainerView, YamahaErrorView> {
    if !looks_like_spec(d) {
        Err(YamahaErrorView::NotMbdf)
    } else if d.len() < 0x48 {
        Err(YamahaErrorView::Truncated("header"@))
    } else {
        let magic = cstr_spec(d.take(0x18));
        match walk_records(d, 0x48, Seq::empty()) {
            Err(e) => Err(e),
            Ok(records) => Ok(
                ContainerView {
                    subtype: if magic.len() >= 12 && magic.take(12) == "#YAMAHA MBDF"@ {
                        magic.skip(12)
                    } else {
                        Seq::empty()
                    },
                    model: cstr_spec(d.subrange(0x24, 0x34)),
                    version: d.subrange(0x34, 0x38),
                    records,
                },
            ),
        }
    }
}

pub open spec fn container_result_view(r: Result<Container, YamahaError>) -> Result<ContainerView, YamahaErrorView> {
    match r {
        Ok(c) => Ok(c@),
        Err(e) => Err(e@),
    }
}

impl Container {
    /// Cheap check used for format sniffing, total on arbitrary bytes.
    pub fn looks_like(data: &[u8]) -> (r: bool)
        ensures
            r == looks_like_spec(data@),
    {
        if data.len() < 12 {
            return false;
        }
        let head = slice_range(data, 0, 12);
        proof {
            assert(head@ =~= data@.take(12));
        }
        bytes_eq_str(head, "#YAMAHA MBDF")
    }

    pub fn parse(data: &[u8]) -> (r: Result<Container, YamahaError>)
        ensures
            container_result_view(r) == container_spec(data@),
    {
        reveal(container_spec);
        if !Self::looks_like(data) {
            return Err(YamahaError::NotMbdf);
        }
        if data.len() < 0x48 {
            return Err(YamahaError::Truncated("header"));
        }
        let magic = cstr(slice_range(data, 0, 0x18));
        proof {
            assert(data@.subrange(0, 0x18) =~= data@.take(0x18));
        }
        let mc = chars_of(magic.as_str());
        let subtype = if mc.len() >= 12 && crate::text::starts_with(
            mc.as_slice(),
            chars_of("#YAMAHA MBDF").as_slice(),
        ) {
            let t = crate::text::slice_vec(mc.as_slice(), 12, mc.len());
            crate::text::string_of(t.as_slice())
        } else {
            String::new()
        };
        let model = cstr(slice_range(data, 0x24, 0x34));
        let version: [u8; 4] = [data[0x34], data[0x35], data[0x36], data[0x37]];
        proof {
            assert(version@ =~= data@.subrange(0x34, 0x38));
        }
        let mut records: Vec<Record> = Vec::new();
        let mut off: usize = 0x48;
        let ghost magic_v = cstr_spec(data@.take(0x18));
        proof {
            assert(records_view(records@) =~= Seq::<RecordView>::empty());
        }
        loop
            invariant
                off >= 0x48,
                looks_like_spec(data@),
                data@.len() >= 0x48,
                magic_v == cstr_spec(data@.take(0x18)),
                subtype@ == (if magic_v.len() >= 12 && magic_v.take(12) == "#YAMAHA MBDF"@ {
                    magic_v.skip(12)
                } else {
                    Seq::empty()
                }),
                model@ == cstr_spec(data@.subrange(0x24, 0x34)),
                version@ == data@.subrange(0x34, 0x38),
                walk_records(data@, off as int, records_view(records@)) == walk_records(
                    data@,
                    0x48,
                    Seq::empty(),
                ),
            decreases data@.len() - off,
        {
            proof {
                reveal(container_spec);
            }
            if off > data.len() || data.len() - off < 12 {
                return Err(YamahaError::Truncated("no #END record"));
            }
            let tag = cstr(slice_range(data, off, off + 12));
            let tc = chars_of(tag.as_str());
            if crate::text::eq_str(tc.as_slice(), "#END") {
                let ghost recs = records_view(records@);
                return Ok(Container { subtype, model, version, records });
            }
            if data.len() - off < 36 {
                return Err(YamahaError::Truncated("record header"));
            }
            if !crate::text::eq_str(tc.as_slice(), "#MMS FIELD") {
                return Err(YamahaError::BadRecord(tag));
            }
            let name = cstr(slice_range(data, off + 12, off + 24));
            let extra = match be_u32(data, off + 24) {
                Some(v) => v,
                None => return Err(YamahaError::Truncated("record header")),
            };
            let plen = match be_u32(data, off + 28) {
                Some(v) => v,
                None => return Err(YamahaError::Truncated("record header")),
            };
            let pstart = match (off + 36).checked_add(extra as usize) {
                Some(v) => v,
                None => return Err(YamahaError::Truncated("record")),
            };
            let pend = match pstart.checked_add(plen as usize) {
                Some(v) => v,
                None => return Err(YamahaError::Truncated("record")),
            };
            if pend > data.len() {
                return Err(YamahaError::Truncated("payload"));
            }
            let rec = Record {
                name,
                target: copy_range(data, off + 36, pstart),
                payload: copy_range(data, pstart, pend),
            };
            let ghost before = records_view(records@);
            records.push(rec);
            proof {
                assert(records_view(records@) =~= before.push(rec@));
            }
            if data.len() - pend < 12 {
                proof {
                    assert(round4(pend as int) + 12 > data@.len());
                }
                return Err(YamahaError::Truncated("no #END record"));
            }
            off = if pend % 4 == 0 {
                pend
            } else {
                pend + (4 - pend % 4)
            };
        }
    }

    /// The first record with this name.
    pub fn record(&self, name: &str) -> (r: Option<&Record>)
        ensures
            match first_match(self.records@, |x: Record| x.name@ == name@) {
                Some(i) => r == Some(&self.records@[i]),
                None => r is None,
            },
    {
        let want = chars_of(name);
        let mut i: usize = 0;
        while i < self.records.len()
            invariant
                i <= self.records@.len(),
                want@ == name@,
                forall|j: int| 0 <= j < i ==> self.records@[j].name@ != name@,
            decreases self.records@.len() - i,
        {
            let n = chars_of(self.records[i].name.as_str());
            if crate::text::eq_chars(n.as_slice(), want.as_slice()) {
                proof {
                    lemma_first_match_at(self.records@, |x: Record| x.name@ == name@, i as int);
                }
                return Some(&self.records[i]);
            }
            i = i + 1;
        }
        proof {
            lemma_first_match_none(self.records@, |x: Record| x.name@ == name@);
        }
        None
    }
}

/// Walking the records never says the bytes are not a container.
proof fn lemma_walk_not_mbdf(d: Seq<u8>, off: int, recs: Seq<RecordView>)
    ensures
        walk_records(d, off, recs) != Err::<Seq<RecordView>, YamahaErrorView>(YamahaErrorView::NotMbdf),
    decreases d.len() - off,
{
    if off >= 0 && off + 12 <= d.len() {
        let tag = cstr_spec(d.subrange(off, off + 12));
        if tag != "#END"@ && off + 36 <= d.len() && tag == "#MMS FIELD"@ {
            let extra = be_u32_spec(d, off + 24);
            let plen = be_u32_spec(d, off + 28);
            let pend = off + 36 + extra + plen;
            if off + 36 + extra <= usize::MAX && pend <= usize::MAX && pend <= d.len() && round4(pend) + 12 <= d.len() {
                lemma_walk_not_mbdf(
                    d,
                    round4(pend),
                    recs.push(
                        RecordView {
                            name: cstr_spec(d.subrange(off + 12, off + 24)),
                            target: d.subrange(off + 36, off + 36 + extra),
                            payload: d.subrange(off + 36 + extra, pend),
                        },
                    ),
                );
            }
        }
    }
}

/// Bytes are refused as not a container exactly when they do not open with
/// the container's signature.
pub proof fn law_not_a_container_exactly_without_the_signature(d: Seq<u8>)
    ensures
        (container_spec(d) == Err::<ContainerView, YamahaErrorView>(YamahaErrorView::NotMbdf)) == !looks_like_spec(d),
{
    reveal(container_spec);
    lemma_walk_not_mbdf(d, 0x48, Seq::empty());
}

} // verus!
