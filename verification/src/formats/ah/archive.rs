//! gzip and tar, enough to open an Allen & Heath show.
//!
//! An A&H show is a gzipped tar whose `Scenes/` entries are themselves gzipped
//! tars, so both layers are needed and the tar reader has to be re-entrant.
//!
//! The gzip *header* and the tar format are read here — both are small and
//! entirely specified. Only the DEFLATE stream is delegated, to
//! `miniz_oxide`.

use vstd::prelude::*;

use super::{AhError, AhErrorView};
use crate::formats::yamaha::mbdf::copy_range;
use crate::formats::yamaha::mms::{le_u16_spec, u16le};
use crate::lex::{lower_vec, trim_char};
use crate::text::{index_of_byte, is_ws, nul_position, slice_range, trim, trim_vec};

verus! {

pub const TAR_BLOCK: usize = 512;

/// What `miniz_oxide::inflate::decompress_to_vec` makes of a raw DEFLATE
/// stream: the inflated bytes, or nothing when the stream is not valid.
pub uninterp spec fn inflated(data: Seq<u8>) -> Option<Seq<u8>>;

/// `miniz_oxide::inflate::decompress_to_vec`, its error reduced to `None`.
#[verifier::external_body]
fn inflate(data: &[u8]) -> (r: Option<Vec<u8>>)
    ensures
        match r {
            Some(v) => inflated(data@) == Some(v@),
            None => inflated(data@) is None,
        },
{
    match miniz_oxide::inflate::decompress_to_vec(data) {
        Ok(v) => Some(v),
        Err(_) => None,
    }
}

/// Skip a NUL-terminated header string starting at `at`.
pub open spec fn skip_cstring(d: Seq<u8>, at: int) -> Option<int> {
    if at > d.len() {
        None
    } else {
        match index_of_byte(d.skip(at), 0) {
            Some(end) => Some(at + end + 1),
            None => None,
        }
    }
}

/// Where the DEFLATE body starts, after the optional header fields the flags
/// announce.
pub open spec fn gzip_body_start(d: Seq<u8>) -> Result<int, AhErrorView> {
    let flags = d[3];
    let at1: int = if flags & 0x04 != 0 {
        if 10 + 2 > d.len() {
            -1
        } else {
            12 + le_u16_spec(d, 10)
        }
    } else {
        10
    };
    if at1 < 0 {
        Err(AhErrorView::Truncated("gzip FEXTRA"@))
    } else {
        let at2 = if flags & 0x08 != 0 {
            skip_cstring(d, at1)
        } else {
            Some(at1)
        };
        match at2 {
            None => Err(AhErrorView::Truncated("gzip header string"@)),
            Some(a2) => {
                let at3 = if flags & 0x10 != 0 {
                    skip_cstring(d, a2)
                } else {
                    Some(a2)
                };
                match at3 {
                    None => Err(AhErrorView::Truncated("gzip header string"@)),
                    Some(a3) => if flags & 0x02 != 0 {
                        if a3 + 2 > usize::MAX {
                            Err(AhErrorView::Truncated("gzip FHCRC"@))
                        } else {
                            Ok(a3 + 2)
                        }
                    } else {
                        Ok(a3)
                    },
                }
            },
        }
    }
}

/// What a gzip member inflates to.
pub open spec fn gunzip_spec(d: Seq<u8>) -> Result<Seq<u8>, AhErrorView> {
    if d.len() < 18 || d[0] != 0x1F || d[1] != 0x8B {
        Err(AhErrorView::NotGzip)
    } else if d[2] != 8 {
        Err(AhErrorView::Unsupported("gzip compression method is not DEFLATE"@))
    } else {
        match gzip_body_start(d) {
            Err(e) => Err(e),
            Ok(at) => {
                let end = d.len() - 8;
                if at > end {
                    Err(AhErrorView::Truncated("gzip body"@))
                } else {
                    match inflated(d.subrange(at, end)) {
                        Some(v) => Ok(v),
                        None => Err(AhErrorView::Inflate),
                    }
                }
            },
        }
    }
}

pub open spec fn bytes_result_view(r: Result<Vec<u8>, AhError>) -> Result<Seq<u8>, AhErrorView> {
    match r {
        Ok(v) => Ok(v@),
        Err(e) => Err(e@),
    }
}

fn skip_cstring_exec(d: &[u8], at: usize) -> (r: Option<usize>)
    ensures
        match r {
            Some(v) => skip_cstring(d@, at as int) == Some(v as int),
            None => skip_cstring(d@, at as int) is None,
        },
{
    if at > d.len() {
        return None;
    }
    let rest = slice_range(d, at, d.len());
    proof {
        assert(rest@ =~= d@.skip(at as int));
    }
    match nul_position(rest) {
        Some(end) => Some(at + end + 1),
        None => None,
    }
}

/// Where the DEFLATE body starts.
#[verifier::rlimit(40)]
fn body_start(data: &[u8]) -> (r: Result<usize, AhError>)
    requires
        data@.len() >= 18,
    ensures
        match r {
            Ok(a) => gzip_body_start(data@) == Ok::<int, AhErrorView>(a as int),
            Err(e) => gzip_body_start(data@) == Err::<int, AhErrorView>(e@),
        },
{
    let flags = data[3];
    let mut at: usize = 10;
    if flags & 0x04 != 0 {
        let len = match u16le(data, 10) {
            Some(v) => v,
            None => return Err(AhError::Truncated("gzip FEXTRA")),
        };
        at = 12 + len as usize;
    }
    if flags & 0x08 != 0 {
        at = match skip_cstring_exec(data, at) {
            Some(v) => v,
            None => return Err(AhError::Truncated("gzip header string")),
        };
    }
    if flags & 0x10 != 0 {
        at = match skip_cstring_exec(data, at) {
            Some(v) => v,
            None => return Err(AhError::Truncated("gzip header string")),
        };
    }
    if flags & 0x02 != 0 {
        if at > usize::MAX - 2 {
            return Err(AhError::Truncated("gzip FHCRC"));
        }
        at = at + 2;
    }
    Ok(at)
}

/// Decompress a gzip member and return the inflated bytes.
pub fn gunzip(data: &[u8]) -> (r: Result<Vec<u8>, AhError>)
    ensures
        bytes_result_view(r) == gunzip_spec(data@),
{
    if data.len() < 18 || data[0] != 0x1F || data[1] != 0x8B {
        return Err(AhError::NotGzip);
    }
    if data[2] != 8 {
        return Err(AhError::Unsupported("gzip compression method is not DEFLATE"));
    }
    let at = match body_start(data) {
        Ok(a) => a,
        Err(e) => return Err(e),
    };
    let end = data.len() - 8;
    if at > end {
        return Err(AhError::Truncated("gzip body"));
    }
    match inflate(slice_range(data, at, end)) {
        Some(v) => Ok(v),
        None => Err(AhError::Inflate),
    }
}

/// One file inside a tar.
#[derive(Debug, Clone)]
pub struct Entry {
    pub path: String,
    pub data: Vec<u8>,
}

pub struct EntryView {
    pub path: Seq<char>,
    pub data: Seq<u8>,
}

impl View for Entry {
    type V = EntryView;

    open spec fn view(&self) -> EntryView {
        EntryView { path: self.path@, data: self.data@ }
    }
}

pub open spec fn entries_view(v: Seq<Entry>) -> Seq<EntryView> {
    v.map_values(|e: Entry| e@)
}

/// Bytes read as characters one for one (`b as char`).
pub open spec fn latin1(b: Seq<u8>) -> Seq<char> {
    b.map_values(|x: u8| x as char)
}

/// The leading bytes up to the first that `stop` rejects.
pub open spec fn run_len(b: Seq<u8>, stop_space: bool) -> nat
    decreases b.len(),
{
    if b.len() > 0 && b[0] != 0 && !(stop_space && b[0] == 0x20) {
        1 + run_len(b.drop_first(), stop_space)
    } else {
        0
    }
}

pub proof fn lemma_run_len(b: Seq<u8>, stop_space: bool, n: int)
    requires
        0 <= n <= b.len(),
        forall|i: int| 0 <= i < n ==> #[trigger] b[i] != 0 && !(stop_space && b[i] == 0x20),
        n < b.len() ==> (b[n] == 0 || (stop_space && b[n] == 0x20)),
    ensures
        run_len(b, stop_space) == n,
    decreases b.len(),
{
    if n > 0 {
        assert forall|i: int| 0 <= i < n - 1 implies #[trigger] b.drop_first()[i] != 0 && !(stop_space && b.drop_first()[i] == 0x20) by {
            assert(b.drop_first()[i] == b[i + 1]);
        }
        if n - 1 < b.len() - 1 {
            assert(b.drop_first()[n - 1] == b[n]);
        }
        lemma_run_len(b.drop_first(), stop_space, n - 1);
    }
}

fn run_len_exec(b: &[u8], stop_space: bool) -> (r: usize)
    ensures
        r == run_len(b@, stop_space),
        r <= b@.len(),
{
    let mut i: usize = 0;
    while i < b.len() && b[i] != 0 && !(stop_space && b[i] == 0x20)
        invariant
            i <= b@.len(),
            forall|j: int| 0 <= j < i ==> #[trigger] b@[j] != 0 && !(stop_space && b@[j] == 0x20),
        decreases b@.len() - i,
    {
        i = i + 1;
    }
    proof {
        lemma_run_len(b@, stop_space, i as int);
    }
    i
}

/// The first `n` bytes, read as characters one for one.
pub(crate) fn latin1_of(b: &[u8], n: usize) -> (r: String)
    requires
        n <= b@.len(),
    ensures
        r@ == latin1(b@.take(n as int)),
{
    latin1_string(b, n)
}

fn latin1_string(b: &[u8], n: usize) -> (r: String)
    requires
        n <= b@.len(),
    ensures
        r@ == latin1(b@.take(n as int)),
{
    let mut s = String::new();
    let mut i: usize = 0;
    while i < n
        invariant
            i <= n,
            n <= b@.len(),
            s@ == latin1(b@.take(i as int)),
        decreases n - i,
    {
        crate::text::push_char(&mut s, b[i] as char);
        i = i + 1;
        proof {
            assert(s@ =~= latin1(b@.take(i as int)));
        }
    }
    s
}

pub open spec fn is_octal(c: char) -> bool {
    '0' <= c && c <= '7'
}

/// Value of a run of octal digits.
pub open spec fn octal_value(s: Seq<char>) -> nat
    decreases s.len(),
{
    if s.len() == 0 {
        0
    } else {
        octal_value(s.drop_last()) * 8 + ((s.last() as u32) - ('0' as u32)) as nat
    }
}

pub open spec fn all_octal(s: Seq<char>) -> bool {
    forall|i: int| 0 <= i < s.len() ==> is_octal(#[trigger] s[i])
}

/// What `u64::from_str_radix(t, 8)` accepts: an optional `+`, then at least
/// one octal digit, the value fitting in 64 bits.
pub open spec fn radix8_spec(t: Seq<char>) -> Option<u64> {
    let d = if t.len() > 0 && t[0] == '+' {
        t.drop_first()
    } else {
        t
    };
    if d.len() > 0 && all_octal(d) && octal_value(d) <= 0xFFFF_FFFF_FFFF_FFFF {
        Some(octal_value(d) as u64)
    } else {
        None
    }
}

/// A tar numeric field: octal text up to the first NUL or space, surrounding
/// whitespace ignored; an empty field reads as zero.
pub open spec fn octal_spec(field: Seq<u8>) -> Option<u64> {
    let s = latin1(field.take(run_len(field, true) as int));
    if s.len() == 0 {
        Some(0)
    } else {
        radix8_spec(trim(s))
    }
}

proof fn lemma_octal_grows(s: Seq<char>, k: int)
    requires
        0 <= k <= s.len(),
        all_octal(s),
    ensures
        octal_value(s.take(k)) <= octal_value(s),
    decreases s.len() - k,
{
    if k < s.len() {
        lemma_octal_grows(s, k + 1);
        assert(s.take(k + 1).drop_last() =~= s.take(k));
        assert(is_octal(s[k]));
    } else {
        assert(s.take(k) =~= s);
    }
}

fn radix8(t: &[char]) -> (r: Option<u64>)
    ensures
        r == radix8_spec(t@),
{
    let start: usize = if t.len() > 0 && t[0] == '+' {
        1
    } else {
        0
    };
    let ghost d = if t@.len() > 0 && t@[0] == '+' {
        t@.drop_first()
    } else {
        t@
    };
    assert(d =~= t@.skip(start as int));
    if start >= t.len() {
        return None;
    }
    let mut v: u64 = 0;
    let mut i = start;
    while i < t.len()
        invariant
            start <= i <= t@.len(),
            start < t@.len(),
            d == t@.skip(start as int),
            d == (if t@.len() > 0 && t@[0] == '+' { t@.drop_first() } else { t@ }),
            all_octal(d.take(i - start)),
            v == octal_value(d.take(i - start)),
        decreases t@.len() - i,
    {
        let c = t[i];
        if !('0' <= c && c <= '7') {
            proof {
                assert(d[i - start] == c);
                assert(!is_octal(d[i - start]));
                assert(!all_octal(d));
                assert(radix8_spec(t@) is None);
            }
            return None;
        }
        let dv = (c as u64) - ('0' as u64);
        proof {
            let tk = d.take(i + 1 - start);
            assert(tk.drop_last() =~= d.take(i - start));
            assert(tk.last() == c);
            assert(octal_value(tk) == v * 8 + dv);
            assert forall|j: int| 0 <= j < tk.len() implies is_octal(#[trigger] tk[j]) by {
                if j < tk.len() - 1 {
                    assert(tk[j] == d.take(i - start)[j]);
                }
            }
        }
        if v > (0xFFFF_FFFF_FFFF_FFFF - dv) / 8 {
            proof {
                assert(v * 8 + dv > 0xFFFF_FFFF_FFFF_FFFF) by (nonlinear_arith)
                    requires
                        v > (0xFFFF_FFFF_FFFF_FFFF - dv) / 8,
                        dv <= 7,
                ;
                if all_octal(d) {
                    lemma_octal_grows(d, i + 1 - start);
                }
                assert(radix8_spec(t@) is None);
            }
            return None;
        }
        v = v * 8 + dv;
        i = i + 1;
    }
    proof {
        assert(d.take(i - start) =~= d);
    }
    Some(v)
}

/// Read a tar numeric field.
pub fn octal(field: &[u8]) -> (r: Option<u64>)
    ensures
        r == octal_spec(field@),
{
    let n = run_len_exec(field, true);
    let s = latin1_string(field, n);
    if s.as_str().is_empty() {
        return Some(0);
    }
    let cs = crate::text::chars_of(s.as_str());
    let t = trim_vec(cs.as_slice());
    radix8(t.as_slice())
}

/// Whether every byte is zero.
pub open spec fn all_zero(b: Seq<u8>) -> bool {
    forall|i: int| 0 <= i < b.len() ==> #[trigger] b[i] == 0
}

fn all_zero_exec(b: &[u8]) -> (r: bool)
    ensures
        r == all_zero(b@),
{
    let mut i: usize = 0;
    while i < b.len()
        invariant
            i <= b@.len(),
            forall|j: int| 0 <= j < i ==> #[trigger] b@[j] == 0,
        decreases b@.len() - i,
    {
        if b[i] != 0 {
            return false;
        }
        i = i + 1;
    }
    true
}

/// Bytes to the end of the block holding the last byte of an entry.
pub open spec fn padded(size: int) -> int {
    if size % 512 == 0 {
        size
    } else {
        size + 512 - size % 512
    }
}

/// The entries from `at` on, after `out`. Directories and metadata entries
/// are skipped; an all-zero block ends the archive.
pub open spec fn tar_walk(d: Seq<u8>, at: int, out: Seq<EntryView>) -> Result<Seq<EntryView>, AhErrorView>
    decreases d.len() - at,
{
    if at < 0 || at + 512 > d.len() {
        Ok(out)
    } else {
        let header = d.subrange(at, at + 512);
        if all_zero(header) {
            Ok(out)
        } else {
            let name = latin1(header.take(run_len(header.take(100), false) as int));
            match octal_spec(header.subrange(124, 136)) {
                None => Err(AhErrorView::Truncated("tar size field"@)),
                Some(size64) => {
                    let size = size64 as usize;
                    let start = at + 512;
                    if start + size > usize::MAX {
                        Err(AhErrorView::Truncated("tar entry"@))
                    } else if start + size > d.len() {
                        Err(AhErrorView::Truncated("tar entry runs past end of archive"@))
                    } else {
                        let typeflag = header[156];
                        let keep = (typeflag == 0x30 || typeflag == 0) && !(name.len() > 0
                            && name.last() == '/');
                        let out2 = if keep {
                            out.push(EntryView { path: name, data: d.subrange(start, start + size) })
                        } else {
                            out
                        };
                        let next = start + padded(size as int);
                        if next + 512 > d.len() {
                            Ok(out2)
                        } else {
                            tar_walk(d, next, out2)
                        }
                    }
                },
            }
        }
    }
}

pub open spec fn entries_result_view(r: Result<Vec<Entry>, AhError>) -> Result<Seq<EntryView>, AhErrorView> {
    match r {
        Ok(v) => Ok(entries_view(v@)),
        Err(e) => Err(e@),
    }
}

/// Read a tar archive. Directories and metadata entries are skipped.
pub fn untar(data: &[u8]) -> (r: Result<Vec<Entry>, AhError>)
    ensures
        entries_result_view(r) == tar_walk(data@, 0, Seq::empty()),
{
    let mut out: Vec<Entry> = Vec::new();
    let mut at: usize = 0;
    proof {
        assert(entries_view(out@) =~= Seq::<EntryView>::empty());
    }
    loop
        invariant
            at <= data@.len(),
            tar_walk(data@, at as int, entries_view(out@)) == tar_walk(data@, 0, Seq::empty()),
        decreases data@.len() - at,
    {
        if data.len() - at < TAR_BLOCK {
            return Ok(out);
        }
        let header = slice_range(data, at, at + TAR_BLOCK);
        if all_zero_exec(header) {
            return Ok(out);
        }
        let name_field = slice_range(header, 0, 100);
        let nl = run_len_exec(name_field, false);
        proof {
            assert(name_field@ =~= header@.take(100));
        }
        let name = latin1_string(header, nl);
        proof {
            assert(header@.take(nl as int) =~= name_field@.take(nl as int));
        }
        let size64 = match octal(slice_range(header, 124, 136)) {
            Some(v) => v,
            None => return Err(AhError::Truncated("tar size field")),
        };
        let size = size64 as usize;
        let start = at + TAR_BLOCK;
        if size > usize::MAX - start {
            return Err(AhError::Truncated("tar entry"));
        }
        let end = start + size;
        if end > data.len() {
            return Err(AhError::Truncated("tar entry runs past end of archive"));
        }
        let typeflag = header[156];
        let nc = crate::text::chars_of(name.as_str());
        let dir = nc.len() > 0 && nc[nc.len() - 1] == '/';
        if (typeflag == 0x30 || typeflag == 0) && !dir {
            let e = Entry { path: name, data: copy_range(data, start, end) };
            let ghost before = entries_view(out@);
            out.push(e);
            proof {
                assert(entries_view(out@) =~= before.push(e@));
            }
        }
        if data.len() - end < TAR_BLOCK {
            proof {
                assert(end + padded(size as int) - size + 512 > data@.len());
            }
            return Ok(out);
        }
        let next = if size % TAR_BLOCK == 0 {
            end
        } else {
            end + (TAR_BLOCK - size % TAR_BLOCK)
        };
        if data.len() - next < TAR_BLOCK {
            return Ok(out);
        }
        at = next;
    }
}

/// Decompress and untar in one step.
pub fn open(data: &[u8]) -> (r: Result<Vec<Entry>, AhError>)
    ensures
        entries_result_view(r) == match gunzip_spec(data@) {
            Err(e) => Err(e),
            Ok(t) => tar_walk(t, 0, Seq::empty()),
        },
{
    let t = match gunzip(data) {
        Ok(t) => t,
        Err(e) => return Err(e),
    };
    untar(t.as_slice())
}

} // verus!
