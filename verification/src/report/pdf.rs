//! The text side of the PDF writer: the three standard fonts the reports
//! use, their glyph advances, and how a string becomes a PDF literal string
//! in WinAnsiEncoding.

use vstd::prelude::*;

use crate::lex::{join_spec, push_joined, string_views};
use crate::text::{chars_of, dec, push_char, push_dec, push_str};
use vstd::utf8::encode_utf8;

verus! {

#[derive(Debug, Clone, Copy, PartialEq, Eq, Structural)]
pub enum Font {
    Regular,
    Bold,
    Mono,
}

pub open spec fn font_resource(f: Font) -> Seq<char> {
    match f {
        Font::Regular => "F1"@,
        Font::Bold => "F2"@,
        Font::Mono => "F3"@,
    }
}

pub open spec fn font_base(f: Font) -> Seq<char> {
    match f {
        Font::Regular => "Helvetica"@,
        Font::Bold => "Helvetica-Bold"@,
        Font::Mono => "Courier"@,
    }
}

/// Helvetica advances for the printable ASCII characters, from the space on.
pub open spec fn helvetica_widths() -> Seq<u16> {
    seq![
        278u16, 278, 355, 556, 556, 889, 667, 191, 333, 333, 389, 584, 278, 333, 278, 278,
        556, 556, 556, 556, 556, 556, 556, 556, 556, 556, 278, 278, 584, 584, 584, 556,
        1015, 667, 667, 722, 722, 667, 611, 778, 722, 278, 500, 667, 556, 833, 722, 778,
        667, 778, 722, 667, 611, 722, 667, 944, 667, 667, 611, 278, 278, 278, 469, 556,
        333, 556, 556, 500, 556, 556, 278, 556, 556, 222, 222, 500, 222, 833, 556, 556,
        556, 556, 333, 500, 278, 556, 500, 722, 500, 500, 500, 334, 260, 334, 584,
    ]
}

/// Helvetica-Bold advances for the printable ASCII characters.
pub open spec fn helvetica_bold_widths() -> Seq<u16> {
    seq![
        278u16, 333, 474, 556, 556, 889, 722, 238, 333, 333, 389, 584, 278, 333, 278, 278,
        556, 556, 556, 556, 556, 556, 556, 556, 556, 556, 333, 333, 584, 584, 584, 611,
        975, 722, 722, 722, 722, 667, 611, 778, 722, 278, 556, 722, 611, 833, 722, 778,
        667, 778, 722, 667, 611, 722, 667, 944, 667, 667, 611, 333, 278, 333, 584, 556,
        333, 556, 611, 556, 611, 556, 333, 611, 611, 278, 278, 556, 278, 889, 611, 611,
        611, 611, 389, 556, 333, 611, 556, 778, 556, 556, 500, 389, 280, 389, 584,
    ]
}

/// The advance of a printable ASCII character (code 32 to 126).
pub open spec fn ascii_width(f: Font, i: int) -> u16 {
    match f {
        Font::Bold => helvetica_bold_widths()[i - 32],
        _ => helvetica_widths()[i - 32],
    }
}

/// Glyph advance in units of 1/1000 em. Outside printable ASCII only the
/// punctuation the reports emit has its real advance; anything else is
/// measured as `?`.
pub open spec fn glyph_width(f: Font, c: char) -> u16 {
    if f == Font::Mono {
        600
    } else if 32 <= c as int && (c as int) < 127 {
        ascii_width(f, c as int)
    } else if c == '\u{2014}' || c == '\u{2026}' {
        1000
    } else if c == '\u{2013}' {
        556
    } else if c == '\u{2018}' || c == '\u{2019}' {
        222
    } else if c == '\u{201C}' || c == '\u{201D}' {
        333
    } else if c == '\u{2022}' {
        350
    } else if c == '\u{00B7}' {
        278
    } else {
        ascii_width(f, 63)
    }
}

fn ascii_width_exec(f: Font, i: usize) -> (r: u16)
    requires
        32 <= i < 127,
    ensures
        r == ascii_width(f, i as int),
{
    match f {
        Font::Bold => {
            let t: [u16; 95] = [
                278, 333, 474, 556, 556, 889, 722, 238, 333, 333, 389, 584, 278, 333, 278, 278,
                556, 556, 556, 556, 556, 556, 556, 556, 556, 556, 333, 333, 584, 584, 584, 611,
                975, 722, 722, 722, 722, 667, 611, 778, 722, 278, 556, 722, 611, 833, 722, 778,
                667, 778, 722, 667, 611, 722, 667, 944, 667, 667, 611, 333, 278, 333, 584, 556,
                333, 556, 611, 556, 611, 556, 333, 611, 611, 278, 278, 556, 278, 889, 611, 611,
                611, 611, 389, 556, 333, 611, 556, 778, 556, 556, 500, 389, 280, 389, 584,
            ];
            proof {
                assert(t@ =~= helvetica_bold_widths());
            }
            t[i - 32]
        },
        _ => {
            let t: [u16; 95] = [
                278, 278, 355, 556, 556, 889, 667, 191, 333, 333, 389, 584, 278, 333, 278, 278,
                556, 556, 556, 556, 556, 556, 556, 556, 556, 556, 278, 278, 584, 584, 584, 556,
                1015, 667, 667, 722, 722, 667, 611, 778, 722, 278, 500, 667, 556, 833, 722, 778,
                667, 778, 722, 667, 611, 722, 667, 944, 667, 667, 611, 278, 278, 278, 469, 556,
                333, 556, 556, 500, 556, 556, 278, 556, 556, 222, 222, 500, 222, 833, 556, 556,
                556, 556, 333, 500, 278, 556, 500, 722, 500, 500, 500, 334, 260, 334, 584,
            ];
            proof {
                assert(t@ =~= helvetica_widths());
            }
            t[i - 32]
        },
    }
}

impl Font {
    /// The font's name in a page's resource dictionary.
    pub fn resource(self) -> (r: &'static str)
        ensures
            r@ == font_resource(self),
    {
        match self {
            Font::Regular => "F1",
            Font::Bold => "F2",
            Font::Mono => "F3",
        }
    }

    /// The standard font it is.
    pub fn base_font(self) -> (r: &'static str)
        ensures
            r@ == font_base(self),
    {
        match self {
            Font::Regular => "Helvetica",
            Font::Bold => "Helvetica-Bold",
            Font::Mono => "Courier",
        }
    }

    /// Glyph advance for `c` in units of 1/1000 em.
    pub fn width(self, c: char) -> (r: u16)
        ensures
            r == glyph_width(self, c),
    {
        if let Font::Mono = self {
            return 600;
        }
        let i = c as u32;
        if 32 <= i && i < 127 {
            return ascii_width_exec(self, i as usize);
        }
        if c == '\u{2014}' || c == '\u{2026}' {
            1000
        } else if c == '\u{2013}' {
            556
        } else if c == '\u{2018}' || c == '\u{2019}' {
            222
        } else if c == '\u{201C}' || c == '\u{201D}' {
            333
        } else if c == '\u{2022}' {
            350
        } else if c == '\u{00B7}' {
            278
        } else {
            ascii_width_exec(self, 63)
        }
    }
}

/// WinAnsiEncoding's 0x80–0x9F block, which is not Latin-1.
pub open spec fn winansi_spec(c: char) -> Option<u8> {
    if c == '\u{20AC}' {
        Some(0x80u8)
    } else if c == '\u{201A}' {
        Some(0x82u8)
    } else if c == '\u{0192}' {
        Some(0x83u8)
    } else if c == '\u{201E}' {
        Some(0x84u8)
    } else if c == '\u{2026}' {
        Some(0x85u8)
    } else if c == '\u{2020}' {
        Some(0x86u8)
    } else if c == '\u{2021}' {
        Some(0x87u8)
    } else if c == '\u{02C6}' {
        Some(0x88u8)
    } else if c == '\u{2030}' {
        Some(0x89u8)
    } else if c == '\u{0160}' {
        Some(0x8Au8)
    } else if c == '\u{2039}' {
        Some(0x8Bu8)
    } else if c == '\u{0152}' {
        Some(0x8Cu8)
    } else if c == '\u{017D}' {
        Some(0x8Eu8)
    } else if c == '\u{2018}' {
        Some(0x91u8)
    } else if c == '\u{2019}' {
        Some(0x92u8)
    } else if c == '\u{201C}' {
        Some(0x93u8)
    } else if c == '\u{201D}' {
        Some(0x94u8)
    } else if c == '\u{2022}' {
        Some(0x95u8)
    } else if c == '\u{2013}' {
        Some(0x96u8)
    } else if c == '\u{2014}' {
        Some(0x97u8)
    } else if c == '\u{02DC}' {
        Some(0x98u8)
    } else if c == '\u{2122}' {
        Some(0x99u8)
    } else if c == '\u{0161}' {
        Some(0x9Au8)
    } else if c == '\u{203A}' {
        Some(0x9Bu8)
    } else if c == '\u{0153}' {
        Some(0x9Cu8)
    } else if c == '\u{017E}' {
        Some(0x9Eu8)
    } else if c == '\u{0178}' {
        Some(0x9Fu8)
    } else {
        None
    }
}

/// The WinAnsi code of a character from the 0x80–0x9F block.
pub fn winansi_high(c: char) -> (r: Option<u8>)
    ensures
        r == winansi_spec(c),
{
    if c == '\u{20AC}' {
        Some(0x80)
    } else if c == '\u{201A}' {
        Some(0x82)
    } else if c == '\u{0192}' {
        Some(0x83)
    } else if c == '\u{201E}' {
        Some(0x84)
    } else if c == '\u{2026}' {
        Some(0x85)
    } else if c == '\u{2020}' {
        Some(0x86)
    } else if c == '\u{2021}' {
        Some(0x87)
    } else if c == '\u{02C6}' {
        Some(0x88)
    } else if c == '\u{2030}' {
        Some(0x89)
    } else if c == '\u{0160}' {
        Some(0x8A)
    } else if c == '\u{2039}' {
        Some(0x8B)
    } else if c == '\u{0152}' {
        Some(0x8C)
    } else if c == '\u{017D}' {
        Some(0x8E)
    } else if c == '\u{2018}' {
        Some(0x91)
    } else if c == '\u{2019}' {
        Some(0x92)
    } else if c == '\u{201C}' {
        Some(0x93)
    } else if c == '\u{201D}' {
        Some(0x94)
    } else if c == '\u{2022}' {
        Some(0x95)
    } else if c == '\u{2013}' {
        Some(0x96)
    } else if c == '\u{2014}' {
        Some(0x97)
    } else if c == '\u{02DC}' {
        Some(0x98)
    } else if c == '\u{2122}' {
        Some(0x99)
    } else if c == '\u{0161}' {
        Some(0x9A)
    } else if c == '\u{203A}' {
        Some(0x9B)
    } else if c == '\u{0153}' {
        Some(0x9C)
    } else if c == '\u{017E}' {
        Some(0x9E)
    } else if c == '\u{0178}' {
        Some(0x9F)
    } else {
        None
    }
}

pub open spec fn oct_digit(d: int) -> char {
    (d + 48) as char
}

/// A byte as a backslash and three octal digits.
pub open spec fn octal_escape(n: int) -> Seq<char> {
    seq!['\\', oct_digit(n / 64), oct_digit((n / 8) % 8), oct_digit(n % 8)]
}

/// One character of a PDF literal string.
pub open spec fn escape_char(c: char) -> Seq<char> {
    if c == '(' {
        seq!['\\', '(']
    } else if c == ')' {
        seq!['\\', ')']
    } else if c == '\\' {
        seq!['\\', '\\']
    } else if (c as u32) < 32 {
        seq![' ']
    } else if (c as u32) < 127 {
        seq![c]
    } else {
        match winansi_spec(c) {
            Some(b) => octal_escape(b as int),
            None => if (c as u32) <= 255 {
                octal_escape(c as int)
            } else {
                seq!['?']
            },
        }
    }
}

/// A string as the body of a PDF literal string.
pub open spec fn escape_spec(s: Seq<char>) -> Seq<char>
    decreases s.len(),
{
    if s.len() == 0 {
        Seq::empty()
    } else {
        escape_spec(s.drop_last()) + escape_char(s.last())
    }
}

fn push_octal(out: &mut String, n: u32)
    requires
        n <= 255,
    ensures
        final(out)@ == old(out)@ + octal_escape(n as int),
{
    push_char(out, '\\');
    push_char(out, ((n / 64) as u8 + 48) as char);
    push_char(out, (((n / 8) % 8) as u8 + 48) as char);
    push_char(out, ((n % 8) as u8 + 48) as char);
    proof {
        assert(final(out)@ =~= old(out)@ + octal_escape(n as int));
    }
}

fn push_escaped_char(out: &mut String, c: char)
    ensures
        final(out)@ == old(out)@ + escape_char(c),
{
    let ghost start = out@;
    if c == '(' {
        push_str(out, "\\(");
    } else if c == ')' {
        push_str(out, "\\)");
    } else if c == '\\' {
        push_str(out, "\\\\");
    } else if (c as u32) < 32 {
        push_char(out, ' ');
    } else if (c as u32) < 127 {
        push_char(out, c);
    } else {
        match winansi_high(c) {
            Some(b) => push_octal(out, b as u32),
            None => if (c as u32) <= 255 {
                push_octal(out, c as u32);
            } else {
                push_char(out, '?');
            },
        }
    }
    proof {
        reveal_strlit("\\(");
        reveal_strlit("\\)");
        reveal_strlit("\\\\");
        assert(out@ =~= start + escape_char(c));
    }
}

/// Escape a string for a PDF literal string, transliterating to WinAnsi:
/// the delimiters and the backslash are escaped, control characters become
/// spaces, WinAnsi's own high block and Latin-1 become octal escapes, and
/// anything beyond becomes `?`, so no channel name can corrupt the file.
pub fn escape(s: &str) -> (r: String)
    ensures
        r@ == escape_spec(s@),
{
    let cs = chars_of(s);
    let mut out = String::new();
    let mut i: usize = 0;
    while i < cs.len()
        invariant
            i <= cs@.len(),
            cs@ == s@,
            out@ == escape_spec(cs@.take(i as int)),
        decreases cs@.len() - i,
    {
        push_escaped_char(&mut out, cs[i]);
        proof {
            assert(cs@.take(i + 1).drop_last() =~= cs@.take(i as int));
        }
        i = i + 1;
    }
    proof {
        assert(cs@.take(i as int) =~= cs@);
    }
    out
}

pub open spec fn all_ascii(s: Seq<char>) -> bool {
    forall|i: int| 0 <= i < s.len() ==> (#[trigger] s[i]) as u32 <= 126
}

proof fn lemma_escape_char_ascii(c: char)
    ensures
        all_ascii(escape_char(c)),
{
    let e = escape_char(c);
    if (c as u32) >= 127 {
        match winansi_spec(c) {
            Some(b) => {
                assert(0x80 <= b <= 0x9F);
                assert(e =~= octal_escape(b as int));
            },
            None => {},
        }
    }
}

/// Whatever a channel is called, its escaped text is printable ASCII: no
/// character outside WinAnsi can corrupt the file.
pub proof fn law_escaped_text_is_ascii(s: Seq<char>)
    ensures
        all_ascii(escape_spec(s)),
    decreases s.len(),
{
    if s.len() > 0 {
        law_escaped_text_is_ascii(s.drop_last());
        lemma_escape_char_ascii(s.last());
        let a = escape_spec(s.drop_last());
        let b = escape_char(s.last());
        assert forall|i: int| 0 <= i < (a + b).len() implies (#[trigger] (a + b)[i]) as u32 <= 126 by {
            if i < a.len() {
                assert((a + b)[i] == a[i]);
            } else {
                assert((a + b)[i] == b[i - a.len()]);
            }
        }
    }
}

// ---------------------------------------------------------------------------
// The file
// ---------------------------------------------------------------------------

/// A finished page: its size as the MediaBox states it ("W H", in points)
/// and its content stream.
pub struct PageStream {
    pub size: String,
    pub ops: String,
}

pub open spec fn streams_view(v: Seq<PageStream>) -> Seq<(Seq<char>, Seq<char>)> {
    v.map_values(|p: PageStream| (p.size@, p.ops@))
}

/// An empty A4 portrait page, for a document nobody added a page to.
pub open spec fn blank_page() -> (Seq<char>, Seq<char>) {
    ("595.276 841.890"@, Seq::empty())
}

pub open spec fn kid(i: nat) -> Seq<char> {
    dec(6 + 2 * i) + " 0 R"@
}

/// The page objects' references, in order.
pub open spec fn kids(n: nat) -> Seq<Seq<char>>
    decreases n,
{
    if n == 0 {
        Seq::empty()
    } else {
        kids((n - 1) as nat).push(kid((n - 1) as nat))
    }
}

pub open spec fn catalog_object() -> Seq<char> {
    "<< /Type /Catalog /Pages 2 0 R >>"@
}

pub open spec fn pages_object(n: nat) -> Seq<char> {
    "<< /Type /Pages /Count "@ + dec(n) + " /Kids ["@ + join_spec(kids(n), " "@) + "] >>"@
}

pub open spec fn font_object(f: Font) -> Seq<char> {
    "<< /Type /Font /Subtype /Type1 /BaseFont /"@ + font_base(f) + " /Encoding /WinAnsiEncoding >>"@
}

pub open spec fn resources() -> Seq<char> {
    "<< /Font << /F1 3 0 R /F2 4 0 R /F3 5 0 R >> >>"@
}

pub open spec fn page_object(i: nat, size: Seq<char>) -> Seq<char> {
    "<< /Type /Page /Parent 2 0 R /MediaBox [0 0 "@ + size + "] /Resources "@ + resources()
        + " /Contents "@ + dec(6 + 2 * i + 1) + " 0 R >>"@
}

pub open spec fn content_object(ops: Seq<char>) -> Seq<char> {
    "<< /Length "@ + dec(encode_utf8(ops).len()) + " >>\nstream\n"@ + ops + "\nendstream"@
}

/// Each page's two objects, in page order.
pub open spec fn page_objects(ps: Seq<(Seq<char>, Seq<char>)>) -> Seq<Seq<char>>
    decreases ps.len(),
{
    if ps.len() == 0 {
        Seq::empty()
    } else {
        let k = (ps.len() - 1) as nat;
        page_objects(ps.drop_last()) + seq![page_object(k, ps.last().0), content_object(ps.last().1)]
    }
}

pub open spec fn info_object(title: Seq<char>) -> Seq<char> {
    "<< /Title ("@ + escape_spec(title) + ") /Producer (PatchFerret) /Creator (PatchFerret) >>"@
}

pub open spec fn with_a_page(ps: Seq<(Seq<char>, Seq<char>)>) -> Seq<(Seq<char>, Seq<char>)> {
    if ps.len() == 0 {
        seq![blank_page()]
    } else {
        ps
    }
}

/// The bodies of the document's objects, numbered from 1: the catalog, the
/// page tree, the three fonts, two objects per page, and the info object.
pub open spec fn objects_spec(title: Seq<char>, pages: Seq<(Seq<char>, Seq<char>)>) -> Seq<Seq<char>> {
    let ps = with_a_page(pages);
    seq![catalog_object(), pages_object(ps.len())] + seq![
        font_object(Font::Regular),
        font_object(Font::Bold),
        font_object(Font::Mono),
    ] + page_objects(ps) + seq![info_object(title)]
}

/// Text as bytes, one per character; what Latin-1 cannot hold becomes `?`.
pub open spec fn latin1_bytes(s: Seq<char>) -> Seq<u8> {
    s.map_values(|c: char| if (c as u32) < 256 { (c as u32) as u8 } else { 63u8 })
}

pub open spec fn object_text(i: nat, body: Seq<char>) -> Seq<char> {
    dec(i + 1) + " 0 obj\n"@ + body + "\nendobj\n"@
}

/// The header line and the binary marker comment.
pub open spec fn pdf_head() -> Seq<u8> {
    latin1_bytes("%PDF-1.4\n"@) + seq![0x25u8, 0xE2, 0xE3, 0xCF, 0xD3, 0x0A]
}

/// The objects as they stand in the file, in order.
pub open spec fn objects_bytes(objs: Seq<Seq<char>>) -> Seq<u8>
    decreases objs.len(),
{
    if objs.len() == 0 {
        Seq::empty()
    } else {
        objects_bytes(objs.drop_last()) + latin1_bytes(
            object_text((objs.len() - 1) as nat, objs.last()),
        )
    }
}

/// Where object `i` (counting from 0) begins in the file.
pub open spec fn object_offset(objs: Seq<Seq<char>>, i: int) -> nat {
    pdf_head().len() + objects_bytes(objs.take(i)).len()
}

/// A number as at least ten digits, zero-filled.
pub open spec fn pad10(n: nat) -> Seq<char> {
    if dec(n).len() < 10 {
        Seq::new((10 - dec(n).len()) as nat, |i: int| '0') + dec(n)
    } else {
        dec(n)
    }
}

/// The cross-reference entries of the first `k` objects.
pub open spec fn xref_entries(objs: Seq<Seq<char>>, k: nat) -> Seq<char>
    decreases k,
{
    if k == 0 {
        Seq::empty()
    } else {
        xref_entries(objs, (k - 1) as nat) + pad10(object_offset(objs, k - 1)) + " 00000 n \n"@
    }
}

pub open spec fn xref_text(objs: Seq<Seq<char>>) -> Seq<char> {
    "xref\n0 "@ + dec(objs.len() + 1) + "\n0000000000 65535 f \n"@ + xref_entries(objs, objs.len())
}

pub open spec fn trailer_text(objs: Seq<Seq<char>>, xref_at: nat) -> Seq<char> {
    "trailer\n<< /Size "@ + dec(objs.len() + 1) + " /Root 1 0 R /Info "@ + dec(objs.len())
        + " 0 R >>\nstartxref\n"@ + dec(xref_at) + "\n%%EOF\n"@
}

/// The bytes of a whole PDF file.
pub open spec fn pdf_file(objs: Seq<Seq<char>>) -> Seq<u8> {
    let body = pdf_head() + objects_bytes(objs);
    body + latin1_bytes(xref_text(objs)) + latin1_bytes(trailer_text(objs, body.len()))
}

fn push_latin1(out: &mut Vec<u8>, s: &str)
    ensures
        final(out)@ == old(out)@ + latin1_bytes(s@),
{
    let cs = chars_of(s);
    let ghost start = out@;
    let mut i: usize = 0;
    while i < cs.len()
        invariant
            i <= cs@.len(),
            cs@ == s@,
            out@ == start + latin1_bytes(cs@.take(i as int)),
        decreases cs@.len() - i,
    {
        let c = cs[i];
        let b: u8 = if (c as u32) < 256 {
            (c as u32) as u8
        } else {
            63
        };
        out.push(b);
        i = i + 1;
        proof {
            assert(out@ =~= start + latin1_bytes(cs@.take(i as int)));
        }
    }
    proof {
        assert(cs@.take(i as int) =~= cs@);
    }
}

fn dec_text(n: u64) -> (r: String)
    ensures
        r@ == dec(n as nat),
{
    let mut s = String::new();
    push_dec(&mut s, n);
    proof {
        assert(s@ =~= dec(n as nat));
    }
    s
}

fn pad10_text(n: u64) -> (r: String)
    ensures
        r@ == pad10(n as nat),
{
    let d = dec_text(n);
    let k = chars_of(d.as_str()).len();
    let mut s = String::new();
    let mut z: usize = k;
    while z < 10
        invariant
            k <= z <= 10 || (k >= 10 && z == k),
            k == dec(n as nat).len(),
            s@ == Seq::new((z - k) as nat, |i: int| '0'),
        decreases 10 - z,
    {
        push_char(&mut s, '0');
        z = z + 1;
        proof {
            assert(s@ =~= Seq::new((z - k) as nat, |i: int| '0'));
        }
    }
    push_str(&mut s, d.as_str());
    proof {
        if k < 10 {
            assert(s@ =~= pad10(n as nat));
        } else {
            assert(s@ =~= dec(n as nat));
        }
    }
    s
}

fn kids_text(n: usize) -> (r: String)
    requires
        n <= 0x1000_0000,
    ensures
        r@ == join_spec(kids(n as nat), " "@),
{
    let mut parts: Vec<String> = Vec::new();
    let mut i: usize = 0;
    while i < n
        invariant
            i <= n <= 0x1000_0000,
            string_views(parts@) == kids(i as nat),
        decreases n - i,
    {
        let mut k = dec_text((6 + 2 * i) as u64);
        push_str(&mut k, " 0 R");
        let ghost before = parts@;
        parts.push(k);
        proof {
            assert(string_views(parts@) =~= string_views(before).push(k@));
            assert(k@ =~= kid(i as nat));
        }
        i = i + 1;
    }
    let mut out = String::new();
    push_joined(&mut out, parts.as_slice(), " ");
    proof {
        assert(out@ =~= join_spec(kids(n as nat), " "@));
    }
    out
}

fn push_text(objs: &mut Vec<String>, t: String)
    ensures
        string_views(final(objs)@) == string_views(old(objs)@).push(t@),
{
    let ghost before = objs@;
    objs.push(t);
    proof {
        assert(string_views(objs@) =~= string_views(before).push(t@));
    }
}

fn font_object_text(f: Font) -> (r: String)
    ensures
        r@ == font_object(f),
{
    let mut s = String::from_str("<< /Type /Font /Subtype /Type1 /BaseFont /");
    push_str(&mut s, f.base_font());
    push_str(&mut s, " /Encoding /WinAnsiEncoding >>");
    proof {
        assert(s@ =~= font_object(f));
    }
    s
}

fn page_object_text(i: usize, size: &str) -> (r: String)
    requires
        i <= 0x1000_0000,
    ensures
        r@ == page_object(i as nat, size@),
{
    let mut s = String::from_str("<< /Type /Page /Parent 2 0 R /MediaBox [0 0 ");
    push_str(&mut s, size);
    push_str(&mut s, "] /Resources ");
    push_str(&mut s, "<< /Font << /F1 3 0 R /F2 4 0 R /F3 5 0 R >> >>");
    push_str(&mut s, " /Contents ");
    push_dec(&mut s, (6 + 2 * i + 1) as u64);
    push_str(&mut s, " 0 R >>");
    proof {
        assert(s@ =~= page_object(i as nat, size@));
    }
    s
}

fn content_object_text(ops: &str) -> (r: String)
    ensures
        r@ == content_object(ops@),
{
    let mut s = String::from_str("<< /Length ");
    let n = ops.as_bytes().len();
    push_dec(&mut s, n as u64);
    push_str(&mut s, " >>\nstream\n");
    push_str(&mut s, ops);
    push_str(&mut s, "\nendstream");
    proof {
        assert(s@ =~= content_object(ops@));
    }
    s
}

/// The bodies of a document's objects.
pub fn objects(title: &str, pages: &[PageStream]) -> (r: Vec<String>)
    requires
        pages@.len() <= 0x1000_0000,
    ensures
        string_views(r@) == objects_spec(title@, streams_view(pages@)),
{
    let ghost ps = with_a_page(streams_view(pages@));
    let n = if pages.len() == 0 {
        1
    } else {
        pages.len()
    };
    let mut objs: Vec<String> = Vec::new();
    push_text(&mut objs, String::from_str("<< /Type /Catalog /Pages 2 0 R >>"));
    let mut p = String::from_str("<< /Type /Pages /Count ");
    push_dec(&mut p, n as u64);
    push_str(&mut p, " /Kids [");
    let k = kids_text(n);
    push_str(&mut p, k.as_str());
    push_str(&mut p, "] >>");
    proof {
        assert(p@ =~= pages_object(ps.len()));
    }
    push_text(&mut objs, p);
    push_text(&mut objs, font_object_text(Font::Regular));
    push_text(&mut objs, font_object_text(Font::Bold));
    push_text(&mut objs, font_object_text(Font::Mono));
    let ghost head = string_views(objs@);
    if pages.len() == 0 {
        push_text(&mut objs, page_object_text(0, "595.276 841.890"));
        push_text(&mut objs, content_object_text(""));
        proof {
            reveal_strlit("");
            assert(""@ =~= Seq::<char>::empty());
            assert(ps =~= seq![blank_page()]);
            assert(ps.drop_last() =~= Seq::<(Seq<char>, Seq<char>)>::empty());
            assert(page_objects(ps.drop_last()) =~= Seq::<Seq<char>>::empty());
            assert(page_objects(ps) =~= seq![page_object(0, "595.276 841.890"@), content_object(""@)]);
            assert(string_views(objs@) =~= head + page_objects(ps));
        }
    } else {
        let mut i: usize = 0;
        while i < pages.len()
            invariant
                i <= pages@.len() <= 0x1000_0000,
                pages@.len() > 0,
                ps == streams_view(pages@),
                string_views(objs@) == head + page_objects(ps.take(i as int)),
            decreases pages@.len() - i,
        {
            let pg = &pages[i];
            proof {
                assert(ps[i as int] == (pg.size@, pg.ops@));
                assert(ps.take(i + 1).drop_last() =~= ps.take(i as int));
            }
            push_text(&mut objs, page_object_text(i, pg.size.as_str()));
            push_text(&mut objs, content_object_text(pg.ops.as_str()));
            i = i + 1;
            proof {
                assert(string_views(objs@) =~= head + page_objects(ps.take(i as int)));
            }
        }
        proof {
            assert(ps.take(i as int) =~= ps);
        }
    }
    let mut info = String::from_str("<< /Title (");
    let t = escape(title);
    push_str(&mut info, t.as_str());
    push_str(&mut info, ") /Producer (PatchFerret) /Creator (PatchFerret) >>");
    proof {
        assert(info@ =~= info_object(title@));
    }
    push_text(&mut objs, info);
    proof {
        assert(string_views(objs@) =~= objects_spec(title@, streams_view(pages@)));
    }
    objs
}

/// Lay the objects out as a PDF file: header, numbered objects, a
/// cross-reference table of their byte offsets, and the trailer.
pub fn assemble(objs: &Vec<String>) -> (r: Vec<u8>)
    requires
        objs@.len() < 0x1000_0000,
    ensures
        r@ == pdf_file(string_views(objs@)),
{
    let ghost ov = string_views(objs@);
    let mut out: Vec<u8> = Vec::new();
    push_latin1(&mut out, "%PDF-1.4\n");
    out.push(0x25);
    out.push(0xE2);
    out.push(0xE3);
    out.push(0xCF);
    out.push(0xD3);
    out.push(0x0A);
    proof {
        assert(out@ =~= pdf_head());
    }
    let mut offsets: Vec<usize> = Vec::new();
    let mut i: usize = 0;
    while i < objs.len()
        invariant
            i <= objs@.len() < 0x1000_0000,
            ov == string_views(objs@),
            out@ == pdf_head() + objects_bytes(ov.take(i as int)),
            offsets@.len() == i,
            forall|j: int| 0 <= j < i ==> #[trigger] offsets@[j] == object_offset(ov, j),
        decreases objs@.len() - i,
    {
        proof {
            assert(ov.take(i + 1).drop_last() =~= ov.take(i as int));
            assert(ov.take(i as int).take(i as int) =~= ov.take(i as int));
        }
        offsets.push(out.len());
        let mut t = dec_text((i + 1) as u64);
        push_str(&mut t, " 0 obj\n");
        push_str(&mut t, objs[i].as_str());
        push_str(&mut t, "\nendobj\n");
        proof {
            assert(t@ =~= object_text(i as nat, ov[i as int]));
        }
        push_latin1(&mut out, t.as_str());
        i = i + 1;
        proof {
            assert(out@ =~= pdf_head() + objects_bytes(ov.take(i as int)));
            assert forall|j: int| 0 <= j < i implies #[trigger] offsets@[j] == object_offset(ov, j) by {
                if j < i - 1 {
                    assert(ov.take(j) =~= ov.take(i as int).take(j));
                }
            }
        }
    }
    proof {
        assert(ov.take(i as int) =~= ov);
    }
    let xref_at = out.len();
    let mut x = String::from_str("xref\n0 ");
    push_dec(&mut x, (objs.len() + 1) as u64);
    push_str(&mut x, "\n0000000000 65535 f \n");
    let ghost xh = x@;
    let mut k: usize = 0;
    while k < offsets.len()
        invariant
            k <= offsets@.len(),
            offsets@.len() == ov.len(),
            forall|j: int| 0 <= j < ov.len() ==> #[trigger] offsets@[j] == object_offset(ov, j),
            x@ == xh + xref_entries(ov, k as nat),
        decreases offsets@.len() - k,
    {
        let p = pad10_text(offsets[k] as u64);
        push_str(&mut x, p.as_str());
        push_str(&mut x, " 00000 n \n");
        k = k + 1;
        proof {
            assert(x@ =~= xh + xref_entries(ov, k as nat));
        }
    }
    proof {
        assert(x@ =~= xref_text(ov));
    }
    push_latin1(&mut out, x.as_str());
    let mut tr = String::from_str("trailer\n<< /Size ");
    push_dec(&mut tr, (objs.len() + 1) as u64);
    push_str(&mut tr, " /Root 1 0 R /Info ");
    push_dec(&mut tr, objs.len() as u64);
    push_str(&mut tr, " 0 R >>\nstartxref\n");
    push_dec(&mut tr, xref_at as u64);
    push_str(&mut tr, "\n%%EOF\n");
    proof {
        assert(tr@ =~= trailer_text(ov, (pdf_head() + objects_bytes(ov)).len()));
    }
    push_latin1(&mut out, tr.as_str());
    proof {
        assert(out@ =~= pdf_file(ov));
    }
    out
}

proof fn lemma_objects_prefix(objs: Seq<Seq<char>>, k: int)
    requires
        0 <= k <= objs.len(),
    ensures
        objects_bytes(objs.take(k)).len() <= objects_bytes(objs).len(),
        objects_bytes(objs).take(objects_bytes(objs.take(k)).len() as int) == objects_bytes(objs.take(k)),
    decreases objs.len(),
{
    if k == objs.len() {
        assert(objs.take(k) =~= objs);
        assert(objects_bytes(objs).take(objects_bytes(objs).len() as int) =~= objects_bytes(objs));
    } else {
        let d = objs.drop_last();
        lemma_objects_prefix(d, k);
        assert(d.take(k) =~= objs.take(k));
        let a = objects_bytes(d);
        let b = latin1_bytes(object_text((objs.len() - 1) as nat, objs.last()));
        assert(objects_bytes(objs) == a + b);
        assert((a + b).take(objects_bytes(objs.take(k)).len() as int) =~= a.take(
            objects_bytes(objs.take(k)).len() as int,
        ));
    }
}

/// Every entry of the cross-reference table points at its object: the
/// bytes at object `i`'s recorded offset are that object, number and all.
pub proof fn law_xref_offsets_point_at_objects(objs: Seq<Seq<char>>, i: int)
    requires
        0 <= i < objs.len(),
    ensures
        ({
            let o = object_offset(objs, i) as int;
            let t = latin1_bytes(object_text(i as nat, objs[i]));
            pdf_file(objs).subrange(o, o + t.len()) == t
        }),
{
    let o = object_offset(objs, i) as int;
    let t = latin1_bytes(object_text(i as nat, objs[i]));
    let pre = objects_bytes(objs.take(i));
    assert(objs.take(i + 1).drop_last() =~= objs.take(i));
    assert(objs.take(i + 1).last() == objs[i]);
    assert(objects_bytes(objs.take(i + 1)) == pre + t);
    lemma_objects_prefix(objs, i + 1);
    let all = objects_bytes(objs);
    assert(all.take((pre + t).len() as int) == pre + t);
    let h = pdf_head();
    let body = h + all;
    let file = pdf_file(objs);
    assert(file == body + latin1_bytes(xref_text(objs)) + latin1_bytes(trailer_text(objs, body.len())));
    assert forall|j: int| 0 <= j < t.len() implies file.subrange(o, o + t.len())[j] == t[j] by {
        assert(file[o + j] == body[o + j]);
        assert(body[o + j] == all[pre.len() + j]);
        assert(all[pre.len() + j] == all.take((pre + t).len() as int)[pre.len() + j]);
        assert((pre + t)[pre.len() + j] == t[j]);
    }
    assert(file.subrange(o, o + t.len()) =~= t);
}

} // verus!
