use patchferret::model::{
    Device, Diagnostic, Direction, HeadAmp, InputPatch, OutputPatch, Severity, Show, SignalRef, SocketRef,
    Strip, StripId, StripKind, Tap, Transport,
};
use patchferret::report::image::{Image, ImageError};
use patchferret::report::patch_list::{connector_kind, device_label, input_row, output_row, output_source};
use patchferret::report::pdf::{escape, winansi_high, Font};
use patchferret::report::sheet::{device_rows, fidelity_tag, patch_summary, strip_inventory};
use patchferret::report::{slug, xml_file_name};
use patchferret::report::topology::{input_nodes, ranges};
use patchferret::web::{error_result, json_escape, summary_json, ResultWriter, KIND_ERROR, KIND_PDF};

fn fake_jpeg(w: u16, h: u16, components: u8) -> Vec<u8> {
    let mut v = vec![0xFF, 0xD8];
    let seg_len: u16 = 8 + 3 * (components as u16 - 1);
    v.extend_from_slice(&[0xFF, 0xC0]);
    v.extend_from_slice(&seg_len.to_be_bytes());
    v.push(8);
    v.extend_from_slice(&h.to_be_bytes());
    v.extend_from_slice(&w.to_be_bytes());
    v.push(components);
    for c in 0..components {
        v.extend_from_slice(&[c + 1, 0x11, 0]);
    }
    v.extend_from_slice(&[0xFF, 0xD9]);
    v
}

fn png_chunk(kind: &[u8], body: &[u8]) -> Vec<u8> {
    let mut v = (body.len() as u32).to_be_bytes().to_vec();
    v.extend_from_slice(kind);
    v.extend_from_slice(body);
    v.extend_from_slice(&[0, 0, 0, 0]);
    v
}

fn fake_png(w: u32, h: u32, colour_type: u8, interlace: u8) -> Vec<u8> {
    let mut ihdr = Vec::new();
    ihdr.extend_from_slice(&w.to_be_bytes());
    ihdr.extend_from_slice(&h.to_be_bytes());
    ihdr.extend_from_slice(&[8, colour_type, 0, 0, interlace]);
    let mut v = vec![0x89, b'P', b'N', b'G', 0x0D, 0x0A, 0x1A, 0x0A];
    v.extend_from_slice(&png_chunk(b"IHDR", &ihdr));
    if colour_type == 3 {
        v.extend_from_slice(&png_chunk(b"PLTE", &[255, 0, 0, 0, 255, 0]));
    }
    v.extend_from_slice(&png_chunk(b"IDAT", &[0x78, 0x9C, 0x00]));
    v.extend_from_slice(&png_chunk(b"IEND", &[]));
    v
}

#[test]
fn reads_jpeg_dimensions_and_colour_space() {
    let img = Image::parse(&fake_jpeg(640, 480, 3)).expect("jpeg");
    assert_eq!((img.width, img.height), (640, 480));
    assert_eq!(img.colour_space, "/DeviceRGB");
    assert_eq!(img.filter, "/DCTDecode");
    assert_eq!(img.data.len(), fake_jpeg(640, 480, 3).len());
}

#[test]
fn reads_greyscale_and_cmyk_jpeg() {
    assert_eq!(Image::parse(&fake_jpeg(8, 8, 1)).unwrap().colour_space, "/DeviceGray");
    assert_eq!(Image::parse(&fake_jpeg(8, 8, 4)).unwrap().colour_space, "/DeviceCMYK");
}

#[test]
fn reads_png_rgb_and_sets_a_predictor() {
    let img = Image::parse(&fake_png(100, 50, 2, 0)).expect("png");
    assert_eq!((img.width, img.height), (100, 50));
    assert_eq!(img.filter, "/FlateDecode");
    let parms = img.decode_parms.unwrap();
    assert!(parms.contains("/Predictor 15"), "{parms}");
    assert!(parms.contains("/Colors 3"), "{parms}");
    assert!(parms.contains("/Columns 100"), "{parms}");
}

#[test]
fn reads_indexed_png_with_its_palette() {
    let img = Image::parse(&fake_png(4, 4, 3, 0)).expect("indexed png");
    assert!(img.colour_space.starts_with("[/Indexed /DeviceRGB 1 <"), "{}", img.colour_space);
    assert_eq!(img.colour_space, "[/Indexed /DeviceRGB 1 <FF000000FF00>]");
}

#[test]
fn refuses_alpha_png_with_a_reason() {
    for ct in [4u8, 6] {
        match Image::parse(&fake_png(10, 10, ct, 0)) {
            Err(ImageError::Unsupported(why)) => assert!(why.contains("alpha")),
            other => panic!("expected an alpha refusal, got {other:?}"),
        }
    }
}

#[test]
fn refuses_interlaced_png() {
    match Image::parse(&fake_png(10, 10, 2, 1)) {
        Err(ImageError::Unsupported(why)) => assert!(why.contains("interlaced")),
        other => panic!("expected an interlace refusal, got {other:?}"),
    }
}

#[test]
fn rejects_other_formats_and_junk() {
    assert_eq!(Image::parse(b"GIF89a").unwrap_err(), ImageError::Unrecognised);
    assert_eq!(Image::parse(b"").unwrap_err(), ImageError::Unrecognised);
    assert_eq!(ImageError::Unrecognised.message(), "not a JPEG or PNG image");
}

#[test]
fn truncated_images_do_not_panic() {
    let j = fake_jpeg(64, 64, 3);
    let p = fake_png(64, 64, 2, 0);
    for cut in 0..j.len() {
        let _ = Image::parse(&j[..cut]);
    }
    for cut in 0..p.len() {
        let _ = Image::parse(&p[..cut]);
    }
}

#[test]
fn a_zero_sized_jpeg_is_refused() {
    match Image::parse(&fake_jpeg(0, 10, 3)) {
        Err(ImageError::Unsupported(why)) => assert!(why.contains("zero dimension")),
        other => panic!("expected a refusal, got {other:?}"),
    }
    assert_eq!(Image::parse(&fake_jpeg(4, 4, 2)).unwrap_err(), ImageError::Unsupported("unsupported JPEG component count"));
}

#[test]
fn slugs_are_filesystem_safe() {
    assert_eq!(slug("General 1.2.2"), "general-1-2-2");
    assert_eq!(slug("  ../etc/passwd  "), "etc-passwd");
    assert_eq!(slug(""), "show");
    assert_eq!(slug("!!!"), "show");
    assert!(!slug("a/b\\c:d").contains(['/', '\\', ':']));
}

#[test]
fn slugs_are_length_capped() {
    assert!(slug(&"x".repeat(500)).len() <= 48);
    assert_eq!(slug(&"x".repeat(500)).len(), 48);
}

#[test]
fn escapes_pdf_string_delimiters() {
    assert_eq!(escape("a(b)c\\d"), "a\\(b\\)c\\\\d");
}

#[test]
fn em_dash_maps_into_winansi_not_a_question_mark() {
    let out = escape("—");
    assert_eq!(out, "\\227");
    assert!(!out.contains('?'));
    assert_eq!(escape("…"), "\\205");
}

#[test]
fn transliterates_beyond_latin1() {
    let out = escape("日本 Café");
    assert!(out.is_ascii() || out.contains("\\3"));
    assert!(!out.contains('日'));
    assert_eq!(out, "?? Caf\\351");
}

#[test]
fn control_characters_become_spaces() {
    assert_eq!(escape("a\tb"), "a b");
    assert_eq!(winansi_high('€'), Some(0x80));
    assert_eq!(winansi_high('a'), None);
}

#[test]
fn glyph_widths_come_from_the_font_tables() {
    assert_eq!(Font::Mono.width('i'), 600);
    assert_eq!(Font::Regular.width('i'), 222);
    assert_eq!(Font::Regular.width('W'), 944);
    assert_eq!(Font::Bold.width('i'), 278);
    assert_eq!(Font::Regular.width('—'), 1000);
    assert_eq!(Font::Regular.width('日'), Font::Regular.width('?'));
    assert_eq!(Font::Bold.resource(), "F2");
    assert_eq!(Font::Mono.base_font(), "Courier");
}

#[test]
fn collapses_contiguous_ranges() {
    assert_eq!(ranges(vec![1, 2, 3, 4]), "1-4");
    assert_eq!(ranges(vec![1, 3]), "1, 3");
    assert_eq!(ranges(vec![5]), "5");
    assert_eq!(ranges(vec![]), "");
}

#[test]
fn deduplicates_and_sorts_before_collapsing() {
    assert_eq!(ranges(vec![3, 1, 2, 2, 3]), "1-3");
}

#[test]
fn abbreviates_very_fragmented_ranges() {
    let out = ranges(vec![1, 3, 5, 7, 9]);
    assert!(out.contains("more"), "expected abbreviation, got {out}");
    assert_eq!(out, "1, 3, +3 more");
}

fn small_show() -> Show {
    let mut show = Show::default();
    show.devices.push(Device::new("local", "Console local I/O", Transport::Local, 32, 16));
    show.devices.push(Device::new("a", "Stage box", Transport::Aes50A, 48, 48));
    for (dev, i) in [("local", 1u16), ("a", 1), ("a", 2), ("a", 3)] {
        show.patch.inputs.push(InputPatch {
            slot: i,
            block_label: String::new(),
            socket: Some(SocketRef::new(dev, Direction::In, i)),
            strip: None,
        });
    }
    show
}

#[test]
fn topology_nodes_put_the_busiest_device_first() {
    let nodes = input_nodes(&small_show());
    assert_eq!(nodes.len(), 2);
    assert_eq!(nodes[0].label, "Stage box");
    assert_eq!(nodes[0].used, 3);
    assert_eq!(nodes[0].ranges, "1-3");
    assert_eq!(nodes[1].used, 1);
    assert_eq!(nodes[1].capacity, 32);
}

#[test]
fn connectors_are_named_after_their_device() {
    let mut show = small_show();
    show.devices.push(Device::new("usb", "Recorder", Transport::Recorder, 32, 32));
    assert_eq!(connector_kind(&show, &SocketRef::new("usb", Direction::In, 1)), "Track");
    assert_eq!(connector_kind(&show, &SocketRef::new("local", Direction::Out, 1)), "Out");
    assert_eq!(connector_kind(&show, &SocketRef::new("nowhere", Direction::In, 1)), "In");
}

#[test]
fn json_escaping_survives_hostile_names() {
    assert_eq!(json_escape(r#"a"b\c"#), r#"a\"b\\c"#);
    assert_eq!(json_escape("line\nbreak"), "line\\nbreak");
    assert_eq!(json_escape("\u{1}"), "\\u0001");
}

#[test]
fn the_summary_counts_the_patch() {
    let mut show = small_show();
    show.meta.name = "Q\"".to_string();
    show.diagnostics.push(Diagnostic::new(Severity::Unknown, "x".to_string(), "y".to_string()));
    let json = summary_json(&show, "X32");
    assert!(json.starts_with("{\"name\":\"Q\\\"\",\"console\":\"\",\"format\":\"X32\",\"version\":\"\""));
    assert!(json.contains("\"slots\":4,\"routed\":4,\"reaching\":0"));
    assert!(json.ends_with("\"diagnostics\":[{\"severity\":\"unknown\",\"locus\":\"x\",\"message\":\"y\"}]}"));
}

#[test]
fn results_carry_a_length_prefix_and_records() {
    let mut w = ResultWriter::new();
    w.record(KIND_PDF, "a.pdf", b"%PDF");
    let bytes = w.finish();
    assert_eq!(&bytes[..4], &(bytes.len() as u32 - 4).to_le_bytes());
    assert_eq!(&bytes[4..8], &KIND_PDF.to_le_bytes());
    assert_eq!(&bytes[8..12], &5u32.to_le_bytes());
    assert_eq!(&bytes[12..17], b"a.pdf");
    assert_eq!(&bytes[17..21], &4u32.to_le_bytes());
    assert_eq!(&bytes[21..], b"%PDF");
    let e = error_result("bad");
    assert_eq!(&e[4..8], &KIND_ERROR.to_le_bytes());
    assert!(e.ends_with(b"bad"));
}

use patchferret::report::pdf::{assemble, objects, PageStream};

fn document(title: &str, pages: Vec<PageStream>) -> Vec<u8> {
    assemble(&objects(title, &pages))
}

fn a4(ops: &str) -> PageStream {
    PageStream { size: "595.276 841.890".to_string(), ops: ops.to_string() }
}

#[test]
fn produces_a_parseable_header_and_trailer() {
    let bytes = document("Test", vec![a4("BT /F1 12.00 Tf 50.00 791.89 Td (Hello) Tj ET\n")]);
    assert!(bytes.starts_with(b"%PDF-1.4"));
    assert!(bytes.ends_with(b"%%EOF\n"));
    let s = String::from_utf8_lossy(&bytes);
    assert!(s.contains("/Type /Catalog"));
    assert!(s.contains("startxref"));
}

#[test]
fn xref_offsets_point_at_their_objects() {
    let bytes = document("Offsets", vec![a4("")]);
    let tail = bytes.windows(9).rposition(|w| w == b"startxref").expect("startxref present");
    let xref_start: usize = String::from_utf8_lossy(&bytes[tail + 9..])
        .trim()
        .lines()
        .next()
        .unwrap()
        .parse()
        .unwrap();
    assert_eq!(&bytes[xref_start..xref_start + 4], b"xref");
    let table = String::from_utf8_lossy(&bytes[xref_start..]).into_owned();
    let mut checked = 0;
    for (i, line) in table.lines().skip(2).enumerate() {
        let Some(off) = line.split_whitespace().next() else { break };
        let Ok(off) = off.parse::<usize>() else { break };
        if off == 0 {
            continue;
        }
        checked += 1;
        let expected = format!("{} 0 obj", i);
        assert!(
            bytes[off..].starts_with(expected.as_bytes()),
            "xref entry {} points at {:?}",
            i + 1,
            String::from_utf8_lossy(&bytes[off..(off + 20).min(bytes.len())])
        );
    }
    assert!(checked >= 6, "only {checked} xref entries were verified");
}

#[test]
fn empty_document_still_emits_one_page() {
    let bytes = document("Empty", vec![]);
    let s = String::from_utf8_lossy(&bytes);
    assert!(s.contains("/Count 1"));
    assert!(s.contains("/MediaBox [0 0 595.276 841.890]"));
}

#[test]
fn a_title_beyond_latin1_does_not_corrupt_the_file() {
    let bytes = document("Caf\u{e9} \u{65e5}", vec![a4(""), a4("")]);
    let s = String::from_utf8_lossy(&bytes);
    assert!(s.contains("/Count 2 /Kids [6 0 R 8 0 R]"));
    assert!(s.contains("/Title (Caf\\351 ?)"));
}

#[test]
fn exchange_file_name_keeps_letters_and_digits_only() {
    assert_eq!(xml_file_name("Sunday Service 2"), "Sunday-Service-2.pfx.xml");
    assert_eq!(xml_file_name("  ../Main Mix!  "), "Main-Mix.pfx.xml");
    assert_eq!(xml_file_name("a--b"), "a--b.pfx.xml");
    assert_eq!(xml_file_name("!!!"), ".pfx.xml");
    assert_eq!(xml_file_name("Café"), "Caf.pfx.xml");
}

fn patched_show() -> Show {
    let mut show = small_show();
    let mut s = Strip::new(StripId::new(StripKind::Input, 1));
    s.name = "Kick".to_string();
    s.muted = true;
    s.fader_db = Some("-3.5".to_string());
    show.strips.push(s);
    show.strips.push(Strip::new(StripId::new(StripKind::Bus, 2)));
    show.patch.inputs[0].strip = Some(StripId::new(StripKind::Input, 1));
    show.patch.inputs[0].block_label = "IN1-8".to_string();
    show.head_amps.push(HeadAmp {
        socket: SocketRef::new("local", Direction::In, 1),
        gain_db: Some("32.0".to_string()),
        phantom: true,
        pad: false,
        polarity_invert: false,
    });
    show
}

#[test]
fn a_patched_slot_traces_connector_preamp_and_channel() {
    let show = patched_show();
    let rows = show.patched_inputs();
    let (patch, strip) = rows[0];
    let row = input_row(&show, patch, strip);
    assert_eq!(row.slot, "1");
    assert_eq!(row.connector, "In 1");
    assert_eq!(row.device, "Console local I/O");
    assert_eq!(row.gain.as_deref(), Some("32.0"));
    assert_eq!(row.phantom, "ON");
    assert_eq!(row.channel, "1");
    assert_eq!(row.name, "Kick");
    assert_eq!(row.mute, "MUTE");
    assert_eq!(row.fader.as_deref(), Some("-3.5"));
    assert_eq!(row.block, "IN1-8");
}

#[test]
fn unpatched_and_unrouted_slots_are_labelled_not_omitted() {
    let mut show = patched_show();
    show.patch.inputs.push(InputPatch { slot: 9, block_label: String::new(), socket: None, strip: None });
    let rows = show.patched_inputs();
    assert_eq!(rows.len(), 5);
    let (patch, strip) = rows[1];
    let row = input_row(&show, patch, strip);
    assert_eq!(row.connector, "In 1");
    assert_eq!(row.device, "Stage box");
    assert_eq!(row.gain, None);
    assert_eq!(row.phantom, "\u{2014}");
    assert_eq!(row.channel, "\u{2014}");
    assert_eq!(row.name, "not patched");
    assert_eq!(row.mute, "");
    assert_eq!(row.fader, None);
    let (patch, strip) = rows[4];
    let row = input_row(&show, patch, strip);
    assert_eq!(row.slot, "9");
    assert_eq!(row.connector, "unrouted");
    assert_eq!(row.device, "\u{2014}");
}

#[test]
fn devices_the_show_does_not_list_are_named_by_id() {
    let show = small_show();
    assert_eq!(device_label(&show, "a"), "Stage box");
    assert_eq!(device_label(&show, "card"), "card");
}

#[test]
fn output_sources_name_the_strip_where_it_has_a_name() {
    let show = patched_show();
    let out = |source: SignalRef, tap: Tap| OutputPatch {
        socket: SocketRef::new("local", Direction::Out, 4),
        source,
        tap,
        source_label: "Ch 1".to_string(),
    };
    let named = out(SignalRef::Strip(StripId::new(StripKind::Input, 1)), Tap::PreEq);
    assert_eq!(output_source(&show, &named), "Ch 1 (Kick)");
    let unnamed = out(SignalRef::Strip(StripId::new(StripKind::Bus, 2)), Tap::PostFader);
    assert_eq!(output_source(&show, &unnamed), "Ch 1");
    let missing = out(SignalRef::Strip(StripId::new(StripKind::Matrix, 1)), Tap::Unknown);
    assert_eq!(output_source(&show, &missing), "Ch 1");
    assert_eq!(output_source(&show, &out(SignalRef::Off, Tap::Unknown)), "\u{2014}");
    assert_eq!(output_source(&show, &out(SignalRef::InputSlot(3), Tap::Unknown)), "Ch 1");

    let row = output_row(&show, &named);
    assert_eq!(row.connector, "Out 4");
    assert_eq!(row.device, "Console local I/O");
    assert_eq!(row.tap, "pre-eq");
    assert_eq!(output_row(&show, &missing).tap, "");
}

#[test]
fn the_inventory_lists_only_kinds_the_show_has() {
    let mut show = patched_show();
    show.strips.push(Strip::new(StripId::new(StripKind::Input, 2)));
    show.strips.push(Strip::new(StripId::new(StripKind::Main, 1)));
    let rows = strip_inventory(&show);
    assert_eq!(rows.len(), 2);
    assert_eq!(rows[0].label, "Input channels");
    assert_eq!(rows[0].present, 2);
    assert_eq!(rows[0].named, 1);
    assert_eq!(rows[1].label, "Mix buses");
    assert_eq!(rows[1].present, 1);
    assert_eq!(rows[1].named, 0);
    assert!(strip_inventory(&Show::default()).is_empty());
}

#[test]
fn the_device_table_skips_devices_nothing_uses() {
    let mut show = small_show();
    show.devices.push(Device::new("spare", "Spare box", Transport::Dante, 16, 16));
    show.devices.push(Device::new("mon", "Monitors", Transport::Ultranet, 0, 16));
    show.patch.outputs.push(OutputPatch {
        socket: SocketRef::new("mon", Direction::Out, 1),
        source: SignalRef::Off,
        tap: Tap::Unknown,
        source_label: String::new(),
    });
    let rows = device_rows(&show);
    assert_eq!(rows.len(), 3);
    assert_eq!(rows[0].label, "Console local I/O");
    assert_eq!(rows[0].transport, "local");
    assert_eq!(rows[0].patched_in, 1);
    assert_eq!(rows[1].label, "Stage box");
    assert_eq!(rows[1].patched_in, 3);
    assert_eq!(rows[1].inputs, 48);
    assert_eq!(rows[2].label, "Monitors");
    assert_eq!(rows[2].patched_in, 0);
    assert_eq!(rows[2].outputs, 16);
}

#[test]
fn the_patch_summary_counts_slots_connectors_and_phantom() {
    let mut show = patched_show();
    show.patch.inputs.push(InputPatch { slot: 9, block_label: String::new(), socket: None, strip: None });
    let s = patch_summary(&show);
    assert_eq!(s.slots, 5);
    assert_eq!(s.routed, 4);
    assert_eq!(s.reaching, 1);
    assert_eq!(s.outputs, 0);
    assert_eq!(s.phantom, 1);
    assert_eq!(fidelity_tag(Severity::Unmodelled), "UNMODELLED");
    assert_eq!(fidelity_tag(Severity::Suspect), "SUSPECT");
    assert_eq!(fidelity_tag(Severity::Unknown), "UNKNOWN");
}

#[test]
fn every_slot_is_listed_once_in_slot_order() {
    let mut show = Show::default();
    for slot in [3u16, 1, 2, 1] {
        show.patch.inputs.push(InputPatch { slot, block_label: format!("b{slot}"), socket: None, strip: None });
    }
    show.patch.inputs[3].block_label = "second".to_string();
    let rows = show.patched_inputs();
    let slots: Vec<u16> = rows.iter().map(|(p, _)| p.slot).collect();
    assert_eq!(slots, vec![1, 1, 2, 3]);
    assert_eq!(rows[0].0.block_label, "b1");
    assert_eq!(rows[1].0.block_label, "second");
    for (p, s) in rows {
        assert_eq!(input_row(&show, p, s).name, "not patched");
    }
}
