use patchferret::formats::ah::{parse_show, source_device, AhError, AllenHeathAdapter};
use patchferret::formats::yamaha::mms::TYPE_STRING;
use patchferret::formats::yamaha::{decode_patch, parse_container, YamahaAdapter};
use patchferret::formats::{detect, parse_auto, Confidence, Format, ShowAdapter, ShowInput};
use patchferret::model::{Direction, SocketRef, StripId, StripKind};

const CHANNEL_MAPPER: &[u8] = b"Channel Mapper";

fn tar(files: &[(&str, &[u8])]) -> Vec<u8> {
    let mut out = Vec::new();
    for (name, body) in files {
        let mut h = [0u8; 512];
        h[..name.len()].copy_from_slice(name.as_bytes());
        let size = format!("{:011o}\0", body.len());
        h[124..124 + size.len()].copy_from_slice(size.as_bytes());
        h[156] = b'0';
        out.extend_from_slice(&h);
        out.extend_from_slice(body);
        while out.len() % 512 != 0 {
            out.push(0);
        }
    }
    out.extend_from_slice(&[0u8; 1024]);
    out
}

fn gzip(data: &[u8]) -> Vec<u8> {
    let mut out = vec![0x1F, 0x8B, 8, 0, 0, 0, 0, 0, 0, 3];
    out.extend_from_slice(&miniz_oxide::deflate::compress_to_vec(data, 6));
    out.extend_from_slice(&0u32.to_le_bytes());
    out.extend_from_slice(&(data.len() as u32).to_le_bytes());
    out
}

/// A show archive around a synthetic scene blob.
fn show_archive(scene: &[u8]) -> Vec<u8> {
    let inner = gzip(&tar(&[("StageBoxScene65535.dat", scene)]));
    gzip(&tar(&[
        ("Show/InputConfig/InputConfig.dat", b"1\n0\n"),
        ("Show/Scenes/StageBoxScene65535.tar.gz", &inner),
    ]))
}

/// A scene naming its input channels, with a Channel Mapper table.
fn ah_scene(entries: &[(u8, u16)]) -> Vec<u8> {
    let mut v = Vec::new();
    v.extend_from_slice(b"\x01\x01Avantis\0\0\0\0");
    for i in 1..=entries.len() {
        v.extend_from_slice(format!("Parametric EQ, Input Channel {i:02}").as_bytes());
        v.push(0);
    }
    v.extend_from_slice(CHANNEL_MAPPER);
    v.extend_from_slice(&[0x00, 0x02]);
    for (ty, idx) in entries {
        v.push(*ty);
        v.extend_from_slice(&idx.to_be_bytes());
    }
    v
}

#[test]
fn parses_the_patch_out_of_the_live_scene() {
    let raw = show_archive(&ah_scene(&[(0x00, 0), (0x03, 1), (0x03, 2), (0x03, 3)]));
    let show = parse_show(&raw, "FOH.tar.gz").expect("parse");
    assert_eq!(show.meta.console, "Allen & Heath");
    assert!(show.diagnostics.iter().any(|d| d.message.contains("does not state which console")));
    assert_eq!(show.strips_of(StripKind::Input).len(), 4);
    assert_eq!(show.patch.inputs.len(), 4);
    assert_eq!(show.patch.inputs[0].socket, Some(SocketRef::new("local", Direction::In, 1)));
    assert_eq!(show.patch.inputs[1].socket, Some(SocketRef::new("slink", Direction::In, 2)));
    assert_eq!(show.patch.inputs[3].socket, Some(SocketRef::new("slink", Direction::In, 4)));
    assert_eq!(show.patch.inputs[3].strip, Some(StripId::new(StripKind::Input, 4)));
}

#[test]
fn an_unconfirmed_source_type_is_diagnosed_not_guessed() {
    assert_eq!(source_device(0x00), Some("local"));
    assert_eq!(source_device(0x03), Some("slink"));
    assert_eq!(source_device(0x07), None);
    let raw = show_archive(&ah_scene(&[(0x07, 5), (0x03, 1)]));
    let show = parse_show(&raw, "x.tar.gz").unwrap();
    assert_eq!(show.patch.inputs[0].socket, None);
    assert!(show.diagnostics.iter().any(|d| d.message.contains("outside the two confirmed codes")));
}

#[test]
fn a_show_without_a_channel_mapper_says_so() {
    let mut s = ah_scene(&[(0x03, 0)]);
    let at = s.windows(CHANNEL_MAPPER.len()).position(|w| w == CHANNEL_MAPPER).unwrap();
    s[at..at + CHANNEL_MAPPER.len()].fill(b'.');
    let show = parse_show(&show_archive(&s), "x.tar.gz").unwrap();
    assert!(show.patch.inputs.is_empty());
    assert!(show.diagnostics.iter().any(|d| d.message.contains("no Channel Mapper")));
}

#[test]
fn counts_strips_from_the_block_labels() {
    let mut s = ah_scene(&[(0x03, 0)]);
    s.extend_from_slice(b"Compressor, Mono Aux Channel 06\0");
    s.extend_from_slice(b"Compressor, Mono Aux Channel 03\0");
    let show = parse_show(&show_archive(&s), "x.tar.gz").unwrap();
    assert_eq!(show.strips_of(StripKind::Bus).len(), 6);
}

#[test]
fn a_show_with_no_live_scene_is_an_error() {
    let raw = {
        let mut h = [0u8; 512];
        h[.."Show/Other.dat".len()].copy_from_slice(b"Show/Other.dat");
        h[124..135].copy_from_slice(b"00000000004");
        h[156] = b'0';
        let mut t = h.to_vec();
        t.extend_from_slice(b"data");
        t.resize(1024, 0);
        t.extend_from_slice(&[0u8; 1024]);
        gzip(&t)
    };
    assert!(matches!(parse_show(&raw, "x"), Err(AhError::Truncated(_))));
}

#[test]
fn sniffing_rejects_unrelated_gzip() {
    let a = AllenHeathAdapter;
    let plain_gz = gzip(b"hello");
    assert_eq!(a.sniff(&ShowInput::single("x.gz", plain_gz)), Confidence::No);
    assert_eq!(
        a.sniff(&ShowInput::single("FOH.tar.gz", show_archive(&ah_scene(&[(0x03, 0)])))),
        Confidence::Strong
    );
}

#[test]
fn mod_arbitrary_bytes_do_not_panic() {
    for junk in [&b""[..], &b"\x1f\x8b"[..], &[0xFFu8; 64][..]] {
        let _ = parse_show(junk, "junk");
    }
}

#[test]
fn an_archive_without_a_show_directory_is_not_a_show() {
    let raw = gzip(&tar(&[("Other/file.dat", b"x")]));
    assert!(matches!(parse_show(&raw, "x"), Err(AhError::NotAShow)));
    assert!(matches!(parse_show(b"plain", "x"), Err(AhError::NotGzip)));
}

// --- Yamaha scenes ---

fn container(subtype: &str, model: &str, records: &[(&str, &[u8], &[u8])]) -> Vec<u8> {
    let mut out = vec![0u8; 0x48];
    let magic = format!("#YAMAHA MBDF{subtype}");
    out[..magic.len()].copy_from_slice(magic.as_bytes());
    out[0x18..0x1C].copy_from_slice(&0x24u32.to_be_bytes());
    out[0x24..0x24 + model.len()].copy_from_slice(model.as_bytes());
    out[0x34..0x38].copy_from_slice(&[0x56, 0x04, 0x02, 0x00]);
    for (name, target, payload) in records {
        let mut hdr = vec![0u8; 36];
        hdr[..10].copy_from_slice(b"#MMS FIELD");
        hdr[12..12 + name.len()].copy_from_slice(name.as_bytes());
        hdr[24..28].copy_from_slice(&(target.len() as u32).to_be_bytes());
        hdr[28..32].copy_from_slice(&(payload.len() as u32).to_be_bytes());
        out.extend_from_slice(&hdr);
        out.extend_from_slice(target);
        out.extend_from_slice(payload);
        while out.len() % 4 != 0 {
            out.push(0);
        }
    }
    let mut end = vec![0u8; 36];
    end[..4].copy_from_slice(b"#END");
    out.extend_from_slice(&end);
    out
}

fn col(name: &str, offset: u32, datasize: u32, arraysize: u32) -> Vec<u8> {
    let mut r = vec![0u8; 48];
    r[..3].copy_from_slice(b"COL");
    r[3] = b'0';
    r[4..4 + name.len()].copy_from_slice(name.as_bytes());
    r[36..40].copy_from_slice(&offset.to_le_bytes());
    r[40..44].copy_from_slice(&datasize.to_le_bytes());
    r[44..48].copy_from_slice(&arraysize.to_le_bytes());
    r
}

fn pr(name: &str, type_code: u8, size: u16, arraysize: u16) -> Vec<u8> {
    let mut r = vec![0u8; 32];
    r[..3].copy_from_slice(b"PR ");
    r[3] = type_code;
    r[4..6].copy_from_slice(&size.to_le_bytes());
    r[6..8].copy_from_slice(&arraysize.to_le_bytes());
    r[8..8 + name.len()].copy_from_slice(name.as_bytes());
    r
}

fn payload(function: &str, schema: Vec<Vec<u8>>, values: &[u8]) -> Vec<u8> {
    let mut out = vec![0u8; 44];
    out[..7].copy_from_slice(b"MMSXLIT");
    out[8..8 + function.len()].copy_from_slice(function.as_bytes());
    for r in schema {
        out.extend_from_slice(&r);
    }
    out.extend_from_slice(values);
    out
}

/// A synthetic two-channel DM3-shaped scene.
pub fn yamaha_scene() -> Vec<u8> {
    let schema = vec![
        col("Mixing", 0, 24, 1),
        col("InputChannel", 0, 12, 2),
        col("Label", 0, 8, 1),
        pr("Name", TYPE_STRING, 8, 1),
        col("Patch", 8, 4, 1),
        pr("Source", 0x02, 4, 1),
    ];
    let mut values = Vec::new();
    values.extend_from_slice(b"Kick\0\0\0\0");
    values.extend_from_slice(&0x0140_0000u32.to_le_bytes());
    values.extend_from_slice(b"Snare\0\0\0");
    values.extend_from_slice(&0x0140_0004u32.to_le_bytes());
    let p = payload("Mixing", schema, &values);
    container("Scene", "DM3", &[("Mixing", b"", &p)])
}

#[test]
fn parses_a_scene_into_strips_and_a_patch() {
    let show = parse_container(&yamaha_scene()).expect("parse");
    assert_eq!(show.meta.console, "Yamaha DM3");
    assert_eq!(show.strips_of(StripKind::Input).len(), 2);
    assert_eq!(show.strip(StripId::new(StripKind::Input, 1)).unwrap().name, "Kick");
    assert_eq!(show.strip(StripId::new(StripKind::Input, 2)).unwrap().name, "Snare");
}

#[test]
fn patch_resolves_the_connector_index_from_the_word() {
    let show = parse_container(&yamaha_scene()).unwrap();
    let rows = &show.patch.inputs;
    assert_eq!(rows.len(), 2);
    assert_eq!(rows[0].socket, Some(SocketRef::new("local", Direction::In, 1)));
    assert_eq!(rows[1].socket, Some(SocketRef::new("local", Direction::In, 5)));
    assert_eq!(rows[1].strip, Some(StripId::new(StripKind::Input, 2)));
}

#[test]
fn unknown_port_type_is_diagnosed_not_guessed() {
    assert_eq!(decode_patch(0x0140_0000), Some(("local", 1)));
    assert_eq!(decode_patch(0x0160_0001), Some(("stereo-in", 2)));
    assert_eq!(decode_patch(0xDEAD_0000), None);
    let schema = vec![
        col("Mixing", 0, 12, 1),
        col("InputChannel", 0, 12, 1),
        col("Label", 0, 8, 1),
        pr("Name", TYPE_STRING, 8, 1),
        col("Patch", 8, 4, 1),
        pr("Source", 0x02, 4, 1),
    ];
    let mut values = b"Odd\0\0\0\0\0".to_vec();
    values.extend_from_slice(&0xDEAD_0000u32.to_le_bytes());
    let raw = container("Scene", "DM3", &[("Mixing", b"", &payload("Mixing", schema, &values))]);
    let show = parse_container(&raw).unwrap();
    assert_eq!(show.patch.inputs[0].socket, None);
    assert!(show.diagnostics.iter().any(|d| d.message.contains("port-type code is not one")));
}

#[test]
fn finds_a_patch_parameter_under_a_different_name() {
    let schema = vec![
        col("Mixing", 0, 9, 1),
        col("InputChannel", 0, 9, 1),
        col("Label", 0, 8, 1),
        pr("Name", TYPE_STRING, 8, 1),
        col("Patch", 8, 1, 1),
        pr("Select", 0x02, 1, 1),
    ];
    let values = b"Vox\0\0\0\0\0\x00".to_vec();
    let raw = container("Scene", "TF", &[("Mixing", b"", &payload("Mixing", schema, &values))]);
    let show = parse_container(&raw).unwrap();
    assert_eq!(show.strip(StripId::new(StripKind::Input, 1)).unwrap().name, "Vox");
    assert_eq!(show.patch.inputs[0].socket, None);
    let d = show
        .diagnostics
        .iter()
        .find(|d| d.locus.contains("Patch/Select"))
        .expect("no diagnostic for the unresolved narrow patch field");
    assert!(d.message.contains("1 byte"), "{}", d.message);
}

#[test]
fn a_preset_says_it_is_not_a_scene() {
    let raw = container("Preset", "TF", &[("Process", b"CH\0\0\0\0\0\x01", b"x")]);
    let show = parse_container(&raw).unwrap();
    assert!(show.diagnostics.iter().any(|d| d.message.contains("channel preset, not a scene")));
}

#[test]
fn a_container_without_mixing_is_reported_not_silently_empty() {
    let raw = container("Scene", "DM3", &[("FX", b"", b"data")]);
    let show = parse_container(&raw).unwrap();
    assert!(show.strips.is_empty());
    assert!(show.diagnostics.iter().any(|d| d.message.contains("no Mixing record")));
}

#[test]
fn sniffing_rejects_other_formats() {
    let a = YamahaAdapter;
    assert_eq!(a.sniff(&ShowInput::single("x.scn", b"#2.7# \"S\"".to_vec())), Confidence::No);
    assert_eq!(a.sniff(&ShowInput::single("x.dm3s", yamaha_scene())), Confidence::Strong);
}

#[test]
fn mod_round_trips_through_pfx_xml() {
    let show = parse_container(&yamaha_scene()).unwrap();
    let events = patchferret::model::xml::to_events(&show);
    let xml = patchferret::model::xml::write_events(&events).unwrap();
    assert_eq!(patchferret::model::xml::from_xml(&xml).unwrap(), show);
}

#[test]
fn an_allen_heath_show_round_trips_through_pfx_xml() {
    let raw = show_archive(&ah_scene(&[(0x00, 0), (0x03, 1)]));
    let show = parse_show(&raw, "FOH.tar.gz").unwrap();
    let events = patchferret::model::xml::to_events(&show);
    assert_eq!(patchferret::model::xml::from_events(&events).unwrap(), show);
    let xml = patchferret::model::xml::write_events(&events).unwrap();
    assert_eq!(patchferret::model::xml::from_xml(&xml).unwrap(), show);
}

#[test]
fn show_file_text_is_decoded_lossily_and_names_come_from_the_path() {
    let f = patchferret::formats::ShowFile::new("scenes/Main Mix.SCN", vec![b'C', b'a', b'f', 0xE9, b'!']);
    assert_eq!(f.text(), "Caf\u{FFFD}!");
    assert_eq!(f.file_name(), "Main Mix.SCN");
    assert_eq!(f.extension(), "scn");
    assert_eq!(
        patchferret::formats::ShowFile::new("a.bin", b"plain".to_vec()).text(),
        "plain"
    );
}

#[test]
fn unrecognised_input_is_an_error_not_a_panic() {
    let input = ShowInput::single("random.bin", vec![0xff, 0x00, 0xfe, 0x7f]);
    assert!(matches!(parse_auto(&input), Err(patchferret::formats::AdapterError::Unrecognised)));
}

#[test]
fn sniffing_empty_input_does_not_panic() {
    let input = ShowInput::bundle("empty", vec![]);
    for a in patchferret::formats::adapters() {
        assert_eq!(a.sniff(&input), Confidence::No, "{} sniffed an empty bundle", a.id());
    }
}

#[test]
fn adapter_ids_are_unique() {
    let mut ids: Vec<_> = patchferret::formats::adapters().iter().map(|a| a.id()).collect();
    ids.sort_unstable();
    let before = ids.len();
    ids.dedup();
    assert_eq!(before, ids.len(), "duplicate adapter id");
}

#[test]
fn detection_picks_the_format_that_claims_the_input() {
    let input = ShowInput::single("x.dm3s", yamaha_scene());
    let (f, c) = detect(&input).expect("detected");
    assert_eq!(f, Format::Yamaha);
    assert_eq!(c, Confidence::Strong);
    assert_eq!(f.id(), "yamaha-mms");
    assert_eq!(parse_auto(&input).unwrap(), parse_container(&yamaha_scene()).unwrap());
    let scn = ShowInput::single(
        "a.scn",
        b"#2.7# \"Gig\" \"\" %000000000 1\n/ch/01/config \"A\" 1 RD 1\n/ch/02/config \"B\" 1 RD 2\n/ch/03/config \"C\" 1 RD 3\n".to_vec(),
    );
    assert_eq!(detect(&scn).map(|(f, _)| f), Some(Format::X32));
    assert_eq!(detect(&ShowInput::single("junk", vec![1, 2, 3])), None);
}

#[test]
fn every_format_names_its_extensions() {
    assert_eq!(Format::X32.extensions(), &["scn"]);
    assert_eq!(Format::Yamaha.extensions(), &["dm3s", "dm7s", "tfs", "dm3p", "dm7p", "tfp"]);
    assert_eq!(Format::AllenHeath.extensions(), &["tar.gz", "gz"]);
    assert_eq!(Format::Sq.extensions(), &["dat"]);
    assert_eq!(Format::Clf.extensions(), &["clf"]);
    assert_eq!(Format::Clf.display_name(), "Yamaha CL / QL console file");
}

#[test]
fn files_are_found_by_base_name_whatever_the_case() {
    let input = ShowInput::bundle(
        "show",
        vec![
            patchferret::formats::ShowFile::new("SCENE001.DAT", vec![1]),
            patchferret::formats::ShowFile::new("CurrentShow/NVDATA.DAT", vec![2]),
        ],
    );
    assert_eq!(input.find("nvdata.dat").map(|f| f.bytes.clone()), Some(vec![2]));
    assert_eq!(input.find("Scene001.dat").map(|f| f.bytes.clone()), Some(vec![1]));
    assert!(input.find("CurrentShow/NVDATA.DAT").is_none());
}
