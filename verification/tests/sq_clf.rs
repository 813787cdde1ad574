use patchferret::formats::ah::sq::{
    looks_like_image, parse_nvdata, SqAdapter, CHANNEL_STRIDE, IMAGE_LEN, INPUT_CHANNELS,
};
use patchferret::formats::yamaha::clf::{
    decode_source, parse_clf, product, ClfAdapter, ClfError, CHANNELS, PATCH_TABLE, PRODUCT_AT,
};
use patchferret::formats::{Confidence, ShowAdapter, ShowFile, ShowInput};
use patchferret::model::{Direction, Severity, Show, SocketRef, StripId, StripKind};

const SIG_BEFORE: [u8; 3] = [0xFF, 0xFF, 0xFF];
const SIG_AFTER_0: u8 = 0x00;
const SIG_AFTER_2: u8 = 0xFE;

fn image_flagged(tag: u8, patch: &[(u8, bool)]) -> Vec<u8> {
    let mut d = vec![0u8; IMAGE_LEN];
    d[0] = tag;
    d[1] = 0x00;
    d[2] = 0xFE;
    for b in d[3..12].iter_mut() {
        *b = 0xFF;
    }
    d[0x0C..0x10].copy_from_slice(&[0x01, 0x06, 0x00, 0x01]);
    let base = 0x38C;
    for (i, &(v, on)) in patch.iter().enumerate() {
        let at = base + i * CHANNEL_STRIDE;
        d[at - 3..at].copy_from_slice(&SIG_BEFORE);
        d[at] = v;
        d[at + 1] = SIG_AFTER_0;
        d[at + 2] = if on { 0x01 } else { 0x00 };
        d[at + 3] = SIG_AFTER_2;
    }
    d
}

fn image(tag: u8, patch: &[u8]) -> Vec<u8> {
    let flagged: Vec<(u8, bool)> = patch.iter().map(|&v| (v, true)).collect();
    image_flagged(tag, &flagged)
}

fn show_of(patch: &[u8]) -> Show {
    parse_nvdata(&image(0xB5, patch), "NVDATA.DAT").expect("parse")
}

#[test]
fn reads_a_default_one_to_one_patch() {
    let show = show_of(&[0, 1, 2, 3, 4, 5, 6, 7]);
    assert_eq!(show.patch.inputs.len(), 8);
    assert_eq!(show.patch.inputs[0].socket, Some(SocketRef::new("input", Direction::In, 1)));
    assert_eq!(show.patch.inputs[7].socket, Some(SocketRef::new("input", Direction::In, 8)));
    assert_eq!(show.strips_of(StripKind::Input).len(), 8);
}

#[test]
fn reads_the_patch_change_the_diff_was_built_on() {
    let show = show_of(&[0, 1, 9, 3]);
    assert_eq!(show.patch.inputs[2].socket, Some(SocketRef::new("input", Direction::In, 10)));
    assert_eq!(show.patch.inputs[2].strip, Some(StripId::new(StripKind::Input, 3)));
}

#[test]
fn an_unpatched_channel_still_gets_a_row() {
    let show = parse_nvdata(
        &image_flagged(0xB5, &[(0, true), (1, true), (0, false), (3, true)]),
        "NVDATA.DAT",
    )
    .unwrap();
    assert_eq!(show.patch.inputs.len(), 4, "an unpatched channel was dropped");
    assert_eq!(show.patch.inputs[2].socket, None, "unpatched channel invented a socket");
    assert_eq!(show.patch.inputs[2].strip, Some(StripId::new(StripKind::Input, 3)));
    assert_eq!(show.patch.inputs[3].socket, Some(SocketRef::new("input", Direction::In, 4)));
    assert!(show.diagnostics.iter().any(|d| d.message.contains("1 of them unpatched")));
}

#[test]
fn stops_at_the_input_channels_rather_than_running_into_other_objects() {
    let many: Vec<(u8, bool)> = (0..80u8).map(|i| (i, true)).collect();
    let show = parse_nvdata(&image_flagged(0xB5, &many), "NVDATA.DAT").unwrap();
    assert_eq!(show.patch.inputs.len(), INPUT_CHANNELS);
    assert!(show.diagnostics.iter().any(|d| d.message.contains("taken from an SQ-7")));
}

#[test]
fn says_it_does_not_know_the_socket_class() {
    let show = show_of(&[0, 1, 2]);
    assert!(show.diagnostics.iter().any(|d| d.message.contains("not which socket block")));
}

#[test]
fn ignores_an_isolated_signature_match() {
    let mut d = image(0xB5, &[0, 1, 2, 3]);
    let stray = 0x1F000;
    d[stray - 3..stray].copy_from_slice(&SIG_BEFORE);
    d[stray] = 0x7F;
    d[stray + 1] = SIG_AFTER_0;
    d[stray + 2] = 0x01;
    d[stray + 3] = SIG_AFTER_2;
    let show = parse_nvdata(&d, "NVDATA.DAT").unwrap();
    assert_eq!(show.patch.inputs.len(), 4, "the stray match was counted as a channel");
}

#[test]
fn rejects_anything_that_is_not_an_sq_image() {
    assert!(!looks_like_image(&[]));
    assert!(!looks_like_image(&vec![0u8; IMAGE_LEN]));
    let mut d = image(0xB5, &[0]);
    d.pop();
    assert!(!looks_like_image(&d));
}

#[test]
fn a_scene_image_alone_is_not_a_source_of_patch() {
    let scene = image(0xA1, &[]);
    let input = ShowInput::single("SCENE001.DAT", scene);
    assert_eq!(SqAdapter.sniff(&input), Confidence::No);
}

#[test]
fn finds_nvdata_inside_a_show_folder() {
    let files = vec![
        ShowFile::new("SCENE001.DAT", image(0xA1, &[])),
        ShowFile::new("NVDATA.DAT", image(0xB5, &[0, 1, 2])),
    ];
    let input = ShowInput::bundle("MyShow", files);
    assert_eq!(SqAdapter.sniff(&input), Confidence::Strong);
    let show = SqAdapter.parse(&input).unwrap();
    assert_eq!(show.patch.inputs.len(), 3);
}

#[test]
fn sq_arbitrary_bytes_do_not_panic() {
    for len in [0usize, 1, 1024, IMAGE_LEN] {
        let _ = parse_nvdata(&vec![0xABu8; len], "x");
    }
}

#[test]
fn an_image_without_records_is_an_error() {
    assert!(parse_nvdata(&image(0xB5, &[]), "NVDATA.DAT").is_err());
}

// --- CL/QL console files ---

fn clf(product_str: &str, table: &[u8]) -> Vec<u8> {
    let mut d = vec![0u8; PATCH_TABLE + CHANNELS + 64];
    d[..8].copy_from_slice(&[0x01, 0, 0, 0, 0, 0, 0, 0x28]);
    d[PRODUCT_AT..PRODUCT_AT + product_str.len()].copy_from_slice(product_str.as_bytes());
    d[PATCH_TABLE..PATCH_TABLE + table.len()].copy_from_slice(table);
    d
}

fn default_table() -> Vec<u8> {
    let mut t = Vec::new();
    for n in 1..=32u8 {
        t.push(if n <= 8 { 0x40 + n } else { 0xC0 + (n - 8) });
    }
    t.extend(1..=32u8);
    t
}

#[test]
fn decodes_the_real_default_table() {
    let show = parse_clf(&clf("QL [OSX, 5.8.1.27]", &default_table()), "show.CLF").unwrap();
    assert_eq!(show.meta.console, "Yamaha QL");
    assert_eq!(show.patch.inputs.len(), 64);
    assert_eq!(show.patch.inputs[0].socket, Some(SocketRef::new("local", Direction::In, 1)));
    assert_eq!(show.patch.inputs[7].socket, Some(SocketRef::new("local", Direction::In, 8)));
    assert_eq!(show.patch.inputs[8].socket, Some(SocketRef::new("local", Direction::In, 9)));
    assert_eq!(show.patch.inputs[31].socket, Some(SocketRef::new("local", Direction::In, 32)));
    assert_eq!(show.patch.inputs[32].socket, Some(SocketRef::new("dante", Direction::In, 1)));
    assert_eq!(show.patch.inputs[63].socket, Some(SocketRef::new("dante", Direction::In, 32)));
}

#[test]
fn the_input_bank_split_is_not_a_linear_formula() {
    assert_eq!(decode_source(0x44), Some(("local", 4)));
    assert_eq!(decode_source(0xC4), Some(("local", 12)));
    assert_eq!(decode_source(0x4C), None);
}

#[test]
fn dante_and_unpatched_decode_as_expected() {
    assert_eq!(decode_source(0x01), Some(("dante", 1)));
    assert_eq!(decode_source(0x40), Some(("dante", 64)));
    assert_eq!(decode_source(0x00), None);
}

#[test]
fn reads_the_two_changes_the_diffs_were_built_on() {
    let mut t = default_table();
    t[3] = 0x01;
    t[11] = 0x02;
    let show = parse_clf(&clf("QL [OSX, 5.8.1.27]", &t), "x.CLF").unwrap();
    assert_eq!(show.patch.inputs[3].socket, Some(SocketRef::new("dante", Direction::In, 1)));
    assert_eq!(show.patch.inputs[11].socket, Some(SocketRef::new("dante", Direction::In, 2)));
}

#[test]
fn refuses_to_report_a_patch_when_the_offset_points_at_nonsense() {
    let table = vec![0x7Fu8; CHANNELS];
    let show = parse_clf(&clf("QL [OSX, 5.8.1.27]", &table), "x.CLF").unwrap();
    assert!(show.patch.inputs.is_empty());
    assert!(show
        .diagnostics
        .iter()
        .any(|d| d.severity == Severity::Suspect && d.message.contains("probably not the table")));
}

#[test]
fn a_mostly_valid_table_with_a_few_unknowns_is_still_read() {
    let mut t = default_table();
    t[0] = 0x90;
    let show = parse_clf(&clf("QL [OSX, 5.8.1.27]", &t), "x.CLF").unwrap();
    assert_eq!(show.patch.inputs.len(), 64);
    assert_eq!(show.patch.inputs[0].socket, None);
    assert!(show.diagnostics.iter().any(|d| d.message.contains("outside the ranges confirmed")));
}

#[test]
fn accepts_a_cl_file_and_names_it() {
    let show = parse_clf(&clf("CL [OSX, 5.8.1.27]", &default_table()), "x.CLF").unwrap();
    assert_eq!(show.meta.console, "Yamaha CL");
}

#[test]
fn rejects_other_formats() {
    assert_eq!(parse_clf(b"", "x").unwrap_err(), ClfError::NotClf);
    assert_eq!(parse_clf(&vec![0u8; 200_000], "x").unwrap_err(), ClfError::NotClf);
    let mut mbdf = vec![0u8; 200];
    mbdf[..18].copy_from_slice(b"#YAMAHA MBDFScene\0");
    assert_eq!(parse_clf(&mbdf, "x").unwrap_err(), ClfError::NotClf);
}

#[test]
fn a_truncated_file_reports_rather_than_panicking() {
    let full = clf("QL [OSX, 5.8.1.27]", &default_table());
    let show = parse_clf(&full[..PATCH_TABLE + 4], "x.CLF").unwrap();
    assert!(show.patch.inputs.is_empty());
    assert!(show.diagnostics.iter().any(|d| d.message.contains("ends before")));
    for cut in (0..full.len()).step_by(4096) {
        let _ = parse_clf(&full[..cut], "x");
    }
}

#[test]
fn the_product_string_is_read_from_the_header() {
    let d = clf("QL [OSX, 5.8.1.27]", &default_table());
    assert_eq!(product(&d).as_deref(), Some("QL [OSX, 5.8.1.27]"));
    let input = ShowInput::single("show.CLF", d);
    assert_eq!(ClfAdapter.sniff(&input), Confidence::Strong);
    assert_eq!(ClfError::NotClf.message(), "not a CL/QL console file");
}
