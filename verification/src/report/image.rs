//! Embedding a logo into a PDF without decoding it.
//!
//! Both supported formats pass their compressed data straight through to a
//! PDF image XObject, because PDF speaks both codecs natively:
//!
//! - JPEG goes to `/DCTDecode` verbatim; only the SOF marker is read, for the
//!   dimensions and the component count.
//! - PNG goes to `/FlateDecode` with a PNG predictor: the IDAT chunks
//!   concatenated are already a valid PDF stream.
//!
//! PNGs with an alpha channel and interlaced PNGs are refused with a reason:
//! both would need the pixels decoded.

use vstd::prelude::*;

use crate::formats::yamaha::mbdf::copy_range;
use crate::text::{bytes_eq_str, bytes_match, dec, push_char, push_dec, push_str, slice_range};

verus! {

/// A logo prepared for embedding.
#[derive(Debug, Clone, PartialEq)]
pub struct Image {
    pub width: u32,
    pub height: u32,
    /// PDF colour space, as written into the XObject dictionary.
    pub colour_space: String,
    pub bits_per_component: u8,
    /// PDF filter name.
    pub filter: &'static str,
    /// `/DecodeParms` dictionary body, if the filter needs one.
    pub decode_parms: Option<String>,
    /// Stream payload, already in the filter's encoding.
    pub data: Vec<u8>,
}

pub struct ImageView {
    pub width: u32,
    pub height: u32,
    pub colour_space: Seq<char>,
    pub bits_per_component: u8,
    pub filter: Seq<char>,
    pub decode_parms: Option<Seq<char>>,
    pub data: Seq<u8>,
}

impl View for Image {
    type V = ImageView;

    open spec fn view(&self) -> ImageView {
        ImageView {
            width: self.width,
            height: self.height,
            colour_space: self.colour_space@,
            bits_per_component: self.bits_per_component,
            filter: self.filter@,
            decode_parms: match self.decode_parms {
                Some(p) => Some(p@),
                None => None,
            },
            data: self.data@,
        }
    }
}

#[derive(Debug, Clone, PartialEq, Eq)]
pub enum ImageError {
    Unrecognised,
    Truncated,
    /// Understood, but cannot be embedded without decoding pixels.
    Unsupported(&'static str),
}

pub enum ImageErrorView {
    Unrecognised,
    Truncated,
    Unsupported(Seq<char>),
}

impl View for ImageError {
    type V = ImageErrorView;

    open spec fn view(&self) -> ImageErrorView {
        match self {
            ImageError::Unrecognised => ImageErrorView::Unrecognised,
            ImageError::Truncated => ImageErrorView::Truncated,
            ImageError::Unsupported(w) => ImageErrorView::Unsupported(w@),
        }
    }
}

pub open spec fn image_error_text(e: ImageErrorView) -> Seq<char> {
    match e {
        ImageErrorView::Unrecognised => "not a JPEG or PNG image"@,
        ImageErrorView::Truncated => "image data is truncated"@,
        ImageErrorView::Unsupported(w) => w,
    }
}

impl ImageError {
    /// The error as a sentence.
    pub fn message(&self) -> (r: String)
        ensures
            r@ == image_error_text(self@),
    {
        match self {
            ImageError::Unrecognised => String::from_str("not a JPEG or PNG image"),
            ImageError::Truncated => String::from_str("image data is truncated"),
            ImageError::Unsupported(w) => String::from_str(w),
        }
    }
}

pub open spec fn image_result_view(r: Result<Image, ImageError>) -> Result<ImageView, ImageErrorView> {
    match r {
        Ok(i) => Ok(i@),
        Err(e) => Err(e@),
    }
}

// ---------------------------------------------------------------------------
// JPEG
// ---------------------------------------------------------------------------

pub open spec fn be16(b: Seq<u8>, at: int) -> int {
    b[at] * 256 + b[at + 1]
}

/// Markers that stand alone, with no length field.
pub open spec fn standalone_marker(m: u8) -> bool {
    m == 0xD8 || m == 0x01 || (0xD0 <= m && m <= 0xD7)
}

/// Any start-of-frame marker but the arithmetic-coded and hierarchical ones.
pub open spec fn is_sof(m: u8) -> bool {
    0xC0 <= m && m <= 0xCF && m != 0xC4 && m != 0xC8 && m != 0xCC
}

pub open spec fn jpeg_colour(components: u8) -> Option<Seq<char>> {
    if components == 1 {
        Some("/DeviceGray"@)
    } else if components == 3 {
        Some("/DeviceRGB"@)
    } else if components == 4 {
        Some("/DeviceCMYK"@)
    } else {
        None
    }
}

/// The image a JPEG start-of-frame segment at `i`, `len` bytes long, describes.
pub open spec fn jpeg_sof(b: Seq<u8>, i: int, len: int) -> Result<ImageView, ImageErrorView> {
    if len - 2 < 6 {
        Err(ImageErrorView::Truncated)
    } else {
        let seg = b.subrange(i + 4, i + 2 + len);
        let height = be16(seg, 1);
        let width = be16(seg, 3);
        match jpeg_colour(seg[5]) {
            None => Err(ImageErrorView::Unsupported("unsupported JPEG component count"@)),
            Some(cs) => if width == 0 || height == 0 {
                Err(ImageErrorView::Unsupported("JPEG reports a zero dimension"@))
            } else {
                Ok(
                    ImageView {
                        width: width as u32,
                        height: height as u32,
                        colour_space: cs,
                        bits_per_component: seg[0],
                        filter: "/DCTDecode"@,
                        decode_parms: None,
                        data: b,
                    },
                )
            },
        }
    }
}

/// Walk the JPEG's marker segments from `i` to its start of frame.
pub open spec fn jpeg_scan(b: Seq<u8>, i: int) -> Result<ImageView, ImageErrorView>
    decreases b.len() - i,
{
    if i < 0 || i + 3 >= b.len() {
        Err(ImageErrorView::Truncated)
    } else if b[i] != 0xFF {
        jpeg_scan(b, i + 1)
    } else if standalone_marker(b[i + 1]) {
        jpeg_scan(b, i + 2)
    } else {
        let len = be16(b, i + 2);
        if len < 2 || i + 2 + len > b.len() {
            Err(ImageErrorView::Truncated)
        } else if is_sof(b[i + 1]) {
            jpeg_sof(b, i, len)
        } else {
            jpeg_scan(b, i + 2 + len)
        }
    }
}

fn jpeg_frame(bytes: &[u8], i: usize, len: usize) -> (r: Result<Image, ImageError>)
    requires
        2 <= len,
        i + 2 + len <= bytes@.len(),
    ensures
        image_result_view(r) == jpeg_sof(bytes@, i as int, len as int),
{
    let n = bytes.len();
    if len - 2 < 6 {
        return Err(ImageError::Truncated);
    }
    let seg = slice_range(bytes, i + 4, i + 2 + len);
    let bpc = seg[0];
    let height = (seg[1] as u32) * 256 + seg[2] as u32;
    let width = (seg[3] as u32) * 256 + seg[4] as u32;
    let colour_space = if seg[5] == 1 {
        "/DeviceGray"
    } else if seg[5] == 3 {
        "/DeviceRGB"
    } else if seg[5] == 4 {
        "/DeviceCMYK"
    } else {
        return Err(ImageError::Unsupported("unsupported JPEG component count"));
    };
    if width == 0 || height == 0 {
        return Err(ImageError::Unsupported("JPEG reports a zero dimension"));
    }
    let data = copy_range(bytes, 0, bytes.len());
    proof {
        assert(bytes@.subrange(0, bytes@.len() as int) =~= bytes@);
    }
    Ok(
        Image {
            width,
            height,
            colour_space: String::from_str(colour_space),
            bits_per_component: bpc,
            filter: "/DCTDecode",
            decode_parms: None,
            data,
        },
    )
}

/// Read a JPEG's SOF segment for dimensions and component count.
fn jpeg(bytes: &[u8]) -> (r: Result<Image, ImageError>)
    requires
        bytes@.len() >= 2,
    ensures
        image_result_view(r) == jpeg_scan(bytes@, 2),
{
    let mut i: usize = 2;
    while i < bytes.len() && bytes.len() - i > 3
        invariant
            2 <= i <= bytes@.len(),
            jpeg_scan(bytes@, i as int) == jpeg_scan(bytes@, 2),
        decreases bytes@.len() - i,
    {
        if bytes[i] != 0xFF {
            i = i + 1;
        } else {
            let marker = bytes[i + 1];
            if marker == 0xD8 || marker == 0x01 || (0xD0 <= marker && marker <= 0xD7) {
                i = i + 2;
            } else {
                let len = (bytes[i + 2] as usize) * 256 + bytes[i + 3] as usize;
                if len < 2 || len > bytes.len() - i - 2 {
                    return Err(ImageError::Truncated);
                }
                if 0xC0 <= marker && marker <= 0xCF && marker != 0xC4 && marker != 0xC8 && marker
                    != 0xCC {
                    return jpeg_frame(bytes, i, len);
                }
                i = i + 2 + len;
            }
        }
    }
    Err(ImageError::Truncated)
}

// ---------------------------------------------------------------------------
// PNG
// ---------------------------------------------------------------------------

pub open spec fn be32(b: Seq<u8>, at: int) -> int {
    b[at] * 0x1000000 + b[at + 1] * 0x10000 + b[at + 2] * 0x100 + b[at + 3]
}

/// What the chunk walk has gathered so far.
pub struct PngScan {
    pub width: u32,
    pub height: u32,
    pub bit_depth: u8,
    pub colour_type: u8,
    pub idat: Seq<u8>,
    pub palette: Option<Seq<u8>>,
    pub seen_ihdr: bool,
}

pub open spec fn png_start() -> PngScan {
    PngScan {
        width: 0,
        height: 0,
        bit_depth: 0,
        colour_type: 0,
        idat: Seq::empty(),
        palette: None,
        seen_ihdr: false,
    }
}

pub open spec fn interlace_message() -> Seq<char> {
    "interlaced PNG cannot be embedded without decoding; save it non-interlaced or use a JPEG"@
}

pub open spec fn alpha_message() -> Seq<char> {
    "PNG has an alpha channel, which needs the pixels decoded to build a soft mask; use a JPEG or a PNG without transparency"@
}

/// Walk the chunks from `i`: IHDR gives the geometry, PLTE the palette,
/// IDAT the data; IEND ends the walk.
pub open spec fn png_scan(b: Seq<u8>, i: int, st: PngScan) -> Result<PngScan, ImageErrorView>
    decreases b.len() - i,
{
    if i < 0 || i + 8 > b.len() {
        Ok(st)
    } else {
        let len = be32(b, i);
        let kind = b.subrange(i + 4, i + 8);
        let start = i + 8;
        let end = start + len;
        if end + 4 > b.len() {
            Err(ImageErrorView::Truncated)
        } else {
            let body = b.subrange(start, end);
            if bytes_match(kind, "IHDR"@) {
                if body.len() < 13 {
                    Err(ImageErrorView::Truncated)
                } else if body[12] != 0 {
                    Err(ImageErrorView::Unsupported(interlace_message()))
                } else {
                    png_scan(
                        b,
                        end + 4,
                        PngScan {
                            width: be32(body, 0) as u32,
                            height: be32(body, 4) as u32,
                            bit_depth: body[8],
                            colour_type: body[9],
                            seen_ihdr: true,
                            ..st
                        },
                    )
                }
            } else if bytes_match(kind, "PLTE"@) {
                png_scan(b, end + 4, PngScan { palette: Some(body), ..st })
            } else if bytes_match(kind, "IDAT"@) {
                png_scan(b, end + 4, PngScan { idat: st.idat + body, ..st })
            } else if bytes_match(kind, "IEND"@) {
                Ok(st)
            } else {
                png_scan(b, end + 4, st)
            }
        }
    }
}

pub open spec fn hex_upper_digit(d: int) -> char {
    if d < 10 {
        (d + 48) as char
    } else {
        (d + 55) as char
    }
}

/// Every byte as two upper-case hexadecimal digits.
pub open spec fn hex_upper(b: Seq<u8>) -> Seq<char>
    decreases b.len(),
{
    if b.len() == 0 {
        Seq::empty()
    } else {
        hex_upper(b.drop_last()) + seq![
            hex_upper_digit((b.last() / 16) as int),
            hex_upper_digit((b.last() % 16) as int),
        ]
    }
}

/// The `/DecodeParms` of a predicted Flate stream.
pub open spec fn predictor_parms(colours: nat, bit_depth: u8, width: u32) -> Seq<char> {
    "<< /Predictor 15 /Colors "@ + dec(colours) + " /BitsPerComponent "@ + dec(bit_depth as nat)
        + " /Columns "@ + dec(width as nat) + " >>"@
}

/// An indexed colour space with its palette inline.
pub open spec fn indexed_space(pal: Seq<u8>) -> Seq<char> {
    "[/Indexed /DeviceRGB "@ + dec((pal.len() / 3 - 1) as nat) + " <"@ + hex_upper(pal) + ">]"@
}

pub open spec fn flate_image(st: PngScan, space: Seq<char>, colours: nat) -> ImageView {
    ImageView {
        width: st.width,
        height: st.height,
        colour_space: space,
        bits_per_component: st.bit_depth,
        filter: "/FlateDecode"@,
        decode_parms: Some(predictor_parms(colours, st.bit_depth, st.width)),
        data: st.idat,
    }
}

/// The image the gathered chunks describe.
pub open spec fn png_finish(st: PngScan) -> Result<ImageView, ImageErrorView> {
    if !st.seen_ihdr || st.width == 0 || st.height == 0 || st.idat.len() == 0 {
        Err(ImageErrorView::Truncated)
    } else if st.colour_type == 0 {
        Ok(flate_image(st, "/DeviceGray"@, 1))
    } else if st.colour_type == 2 {
        Ok(flate_image(st, "/DeviceRGB"@, 3))
    } else if st.colour_type == 3 {
        match st.palette {
            None => Err(ImageErrorView::Truncated),
            Some(pal) => if pal.len() / 3 == 0 {
                Err(ImageErrorView::Truncated)
            } else {
                Ok(flate_image(st, indexed_space(pal), 1))
            },
        }
    } else if st.colour_type == 4 || st.colour_type == 6 {
        Err(ImageErrorView::Unsupported(alpha_message()))
    } else {
        Err(ImageErrorView::Unsupported("unknown PNG colour type"@))
    }
}

pub open spec fn png_spec(b: Seq<u8>) -> Result<ImageView, ImageErrorView> {
    match png_scan(b, 8, png_start()) {
        Err(e) => Err(e),
        Ok(st) => png_finish(st),
    }
}

fn be32_at(b: &[u8], at: usize) -> (r: u32)
    requires
        at + 4 <= b@.len(),
    ensures
        r == be32(b@, at as int),
{
    (b[at] as u32) * 0x1000000 + (b[at + 1] as u32) * 0x10000 + (b[at + 2] as u32) * 0x100
        + b[at + 3] as u32
}

fn hex_upper_digit_exec(d: u8) -> (c: char)
    requires
        d < 16,
    ensures
        c == hex_upper_digit(d as int),
{
    if d < 10 {
        (d + 48) as char
    } else {
        (d + 55) as char
    }
}

fn push_hex_upper(s: &mut String, b: &[u8])
    ensures
        final(s)@ == old(s)@ + hex_upper(b@),
{
    let mut i: usize = 0;
    while i < b.len()
        invariant
            i <= b@.len(),
            s@ == old(s)@ + hex_upper(b@.take(i as int)),
        decreases b@.len() - i,
    {
        push_char(s, hex_upper_digit_exec(b[i] / 16));
        push_char(s, hex_upper_digit_exec(b[i] % 16));
        proof {
            let t = b@.take(i + 1);
            assert(t.drop_last() =~= b@.take(i as int));
            assert(s@ =~= old(s)@ + hex_upper(t));
        }
        i = i + 1;
    }
    proof {
        assert(b@.take(i as int) =~= b@);
    }
}

fn predictor_parms_exec(colours: u64, bit_depth: u8, width: u32) -> (r: String)
    ensures
        r@ == predictor_parms(colours as nat, bit_depth, width),
{
    let mut s = String::new();
    push_str(&mut s, "<< /Predictor 15 /Colors ");
    push_dec(&mut s, colours);
    push_str(&mut s, " /BitsPerComponent ");
    push_dec(&mut s, bit_depth as u64);
    push_str(&mut s, " /Columns ");
    push_dec(&mut s, width as u64);
    push_str(&mut s, " >>");
    proof {
        assert(s@ =~= predictor_parms(colours as nat, bit_depth, width));
    }
    s
}

pub open spec fn opt_bytes(o: Option<Vec<u8>>) -> Option<Seq<u8>> {
    match o {
        Some(v) => Some(v@),
        None => None,
    }
}

pub open spec fn scan_state(
    width: u32,
    height: u32,
    bit_depth: u8,
    colour_type: u8,
    idat: Seq<u8>,
    palette: Option<Seq<u8>>,
    seen: bool,
) -> PngScan {
    PngScan { width, height, bit_depth, colour_type, idat, palette, seen_ihdr: seen }
}

fn png_image(
    width: u32,
    height: u32,
    bit_depth: u8,
    colour_type: u8,
    idat: Vec<u8>,
    palette: Option<Vec<u8>>,
    seen: bool,
) -> (r: Result<Image, ImageError>)
    ensures
        image_result_view(r) == png_finish(
            scan_state(width, height, bit_depth, colour_type, idat@, opt_bytes(palette), seen),
        ),
{
    if !seen || width == 0 || height == 0 || idat.len() == 0 {
        return Err(ImageError::Truncated);
    }
    let (space, colours) = if colour_type == 0 {
        (String::from_str("/DeviceGray"), 1u64)
    } else if colour_type == 2 {
        (String::from_str("/DeviceRGB"), 3u64)
    } else if colour_type == 3 {
        let pal = match palette {
            Some(p) => p,
            None => return Err(ImageError::Truncated),
        };
        let n = pal.len() / 3;
        if n == 0 {
            return Err(ImageError::Truncated);
        }
        let mut space = String::new();
        push_str(&mut space, "[/Indexed /DeviceRGB ");
        push_dec(&mut space, (n - 1) as u64);
        push_str(&mut space, " <");
        push_hex_upper(&mut space, pal.as_slice());
        push_str(&mut space, ">]");
        proof {
            assert(space@ =~= indexed_space(pal@));
        }
        (space, 1u64)
    } else if colour_type == 4 || colour_type == 6 {
        return Err(
            ImageError::Unsupported(
                "PNG has an alpha channel, which needs the pixels decoded to build a soft mask; use a JPEG or a PNG without transparency",
            ),
        );
    } else {
        return Err(ImageError::Unsupported("unknown PNG colour type"));
    };
    let parms = predictor_parms_exec(colours, bit_depth, width);
    Ok(
        Image {
            width,
            height,
            colour_space: space,
            bits_per_component: bit_depth,
            filter: "/FlateDecode",
            decode_parms: Some(parms),
            data: idat,
        },
    )
}

/// Concatenate a PNG's IDAT chunks and describe them as a Flate stream.
fn png(bytes: &[u8]) -> (r: Result<Image, ImageError>)
    requires
        bytes@.len() >= 8,
    ensures
        image_result_view(r) == png_spec(bytes@),
{
    let mut i: usize = 8;
    let mut width: u32 = 0;
    let mut height: u32 = 0;
    let mut bit_depth: u8 = 0;
    let mut colour_type: u8 = 0;
    let mut idat: Vec<u8> = Vec::new();
    let mut palette: Option<Vec<u8>> = None;
    let mut seen = false;
    let mut done = false;
    proof {
        assert(scan_state(0, 0, 0, 0, idat@, None, false) == png_start());
    }
    while !done && i <= bytes.len() && bytes.len() - i >= 8
        invariant
            i <= bytes@.len() || done,
            !done ==> png_scan(
                bytes@,
                i as int,
                scan_state(width, height, bit_depth, colour_type, idat@, opt_bytes(palette), seen),
            ) == png_scan(bytes@, 8, png_start()),
            done ==> png_scan(bytes@, 8, png_start()) == Ok::<PngScan, ImageErrorView>(
                scan_state(width, height, bit_depth, colour_type, idat@, opt_bytes(palette), seen),
            ),
        decreases bytes@.len() - i + (if done { 0int } else { 1int }),
    {
        let len = be32_at(bytes, i) as usize;
        let start = i + 8;
        if bytes.len() - start < 4 || len > bytes.len() - start - 4 {
            return Err(ImageError::Truncated);
        }
        let end = start + len;
        let kind = slice_range(bytes, i + 4, i + 8);
        let body = slice_range(bytes, start, end);
        if bytes_eq_str(kind, "IHDR") {
            if body.len() < 13 {
                return Err(ImageError::Truncated);
            }
            if body[12] != 0 {
                return Err(
                    ImageError::Unsupported(
                        "interlaced PNG cannot be embedded without decoding; save it non-interlaced or use a JPEG",
                    ),
                );
            }
            width = be32_at(body, 0);
            height = be32_at(body, 4);
            bit_depth = body[8];
            colour_type = body[9];
            seen = true;
        } else if bytes_eq_str(kind, "PLTE") {
            palette = Some(copy_range(body, 0, body.len()));
            proof {
                assert(body@.subrange(0, body@.len() as int) =~= body@);
            }
        } else if bytes_eq_str(kind, "IDAT") {
            let ghost before = idat@;
            let mut k: usize = 0;
            while k < body.len()
                invariant
                    k <= body@.len(),
                    idat@ == before + body@.take(k as int),
                decreases body@.len() - k,
            {
                idat.push(body[k]);
                k = k + 1;
                proof {
                    assert(idat@ =~= before + body@.take(k as int));
                }
            }
            proof {
                assert(body@.take(k as int) =~= body@);
            }
        } else if bytes_eq_str(kind, "IEND") {
            done = true;
        }
        i = end + 4;
    }
    if !done {
        proof {
            assert(png_scan(
                bytes@,
                i as int,
                scan_state(width, height, bit_depth, colour_type, idat@, opt_bytes(palette), seen),
            ) == Ok::<PngScan, ImageErrorView>(
                scan_state(width, height, bit_depth, colour_type, idat@, opt_bytes(palette), seen),
            ));
        }
    }
    png_image(width, height, bit_depth, colour_type, idat, palette, seen)
}

/// The JPEG signature.
pub open spec fn is_jpeg(b: Seq<u8>) -> bool {
    b.len() >= 2 && b[0] == 0xFF && b[1] == 0xD8
}

/// The PNG signature.
pub open spec fn is_png(b: Seq<u8>) -> bool {
    b.len() >= 8 && b[0] == 0x89 && b[1] == 0x50 && b[2] == 0x4E && b[3] == 0x47 && b[4] == 0x0D
        && b[5] == 0x0A && b[6] == 0x1A && b[7] == 0x0A
}

/// What a logo file reads as.
pub open spec fn parse_image_spec(b: Seq<u8>) -> Result<ImageView, ImageErrorView> {
    if is_jpeg(b) {
        jpeg_scan(b, 2)
    } else if is_png(b) {
        png_spec(b)
    } else {
        Err(ImageErrorView::Unrecognised)
    }
}

impl Image {
    /// Read a JPEG or PNG for embedding, without decoding its pixels.
    pub fn parse(bytes: &[u8]) -> (r: Result<Image, ImageError>)
        ensures
            image_result_view(r) == parse_image_spec(bytes@),
    {
        if bytes.len() >= 2 && bytes[0] == 0xFF && bytes[1] == 0xD8 {
            jpeg(bytes)
        } else if bytes.len() >= 8 && bytes[0] == 0x89 && bytes[1] == 0x50 && bytes[2] == 0x4E
            && bytes[3] == 0x47 && bytes[4] == 0x0D && bytes[5] == 0x0A && bytes[6] == 0x1A
            && bytes[7] == 0x0A {
            png(bytes)
        } else {
            Err(ImageError::Unrecognised)
        }
    }
}

proof fn lemma_jpeg_scan(b: Seq<u8>, i: int)
    ensures
        match jpeg_scan(b, i) {
            Ok(img) => img.data == b && img.filter == "/DCTDecode"@ && img.width > 0 && img.height > 0
                && img.decode_parms is None,
            Err(_) => true,
        },
    decreases b.len() - i,
{
    if i < 0 || i + 3 >= b.len() {
    } else if b[i] != 0xFF {
        lemma_jpeg_scan(b, i + 1);
    } else if standalone_marker(b[i + 1]) {
        lemma_jpeg_scan(b, i + 2);
    } else {
        let len = be16(b, i + 2);
        if len < 2 || i + 2 + len > b.len() {
        } else if is_sof(b[i + 1]) {
            if len - 2 >= 6 {
                let seg = b.subrange(i + 4, i + 2 + len);
                assert(0 <= be16(seg, 1) < 0x10000);
                assert(0 <= be16(seg, 3) < 0x10000);
            }
        } else {
            lemma_jpeg_scan(b, i + 2 + len);
        }
    }
}

/// An image that parses always has both dimensions, so its aspect ratio is
/// defined. No pixels are decoded: a JPEG is embedded byte for byte under
/// `/DCTDecode`, and a PNG's IDAT data under `/FlateDecode` with a predictor.
pub proof fn law_parsed_images_have_area_and_pass_through(b: Seq<u8>)
    ensures
        match parse_image_spec(b) {
            Ok(img) => {
                &&& img.width > 0 && img.height > 0
                &&& is_jpeg(b) ==> img.data == b && img.filter == "/DCTDecode"@
                &&& !is_jpeg(b) ==> img.filter == "/FlateDecode"@ && img.decode_parms is Some
                    && img.data.len() > 0
            },
            Err(_) => true,
        },
{
    if is_jpeg(b) {
        lemma_jpeg_scan(b, 2);
    }
}

} // verus!
