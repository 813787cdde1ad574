use patchferret::formats::x32::{
    decode_input_signal, decode_output_signal, decode_tap, headamp_socket, parse_scn,
    resolve_input_block, tokenise, X32Adapter,
};
use patchferret::formats::{Confidence, ShowAdapter, ShowInput};
use patchferret::model::{Direction, Severity, Show, SignalRef, SocketRef, StripId, StripKind, Tap};

const HEADER: &str = "#2.7# \"Test Show\" \"\" %000000000 1";

fn parse(body: &str) -> Show {
    parse_scn(&format!("{HEADER}\n{body}"), "test.scn").expect("parse")
}

fn level(t: &Option<String>) -> Option<f32> {
    t.as_deref().map(|v| v.trim().parse::<f32>().expect("a level"))
}

#[test]
fn tokenises_quoted_names_with_spaces() {
    let t = tokenise(r#"/ch/01/config "Lead Vox L" 1 CY 5"#);
    assert_eq!(t, vec!["/ch/01/config", "Lead Vox L", "1", "CY", "5"]);
}

#[test]
fn tokenises_empty_quoted_string_as_a_token() {
    let t = tokenise(r#"/ch/03/config "" 1 WHi 3"#);
    assert_eq!(t, vec!["/ch/03/config", "", "1", "WHi", "3"]);
}

#[test]
fn reads_header_name_and_version() {
    let show = parse("/ch/01/config \"Kick\" 1 CY 1");
    assert_eq!(show.meta.name, "Test Show");
    assert_eq!(show.meta.format_version.as_deref(), Some("2.7"));
}

#[test]
fn resolves_routing_block_names() {
    let a = resolve_input_block("A9-16").unwrap();
    assert_eq!((a.device, a.start), ("aes50a", 9));
    let l = resolve_input_block("IN1-8").unwrap();
    assert_eq!((l.device, l.start), ("local", 1));
    let c = resolve_input_block("CARD25-32").unwrap();
    assert_eq!((c.device, c.start), ("card", 25));
    assert!(resolve_input_block("NONSENSE").is_none());
}

#[test]
fn composes_connector_to_channel_through_the_slot_indirection() {
    let show = parse(
        "/config/routing/IN A1-8 A9-16 A17-24 B1-8 AUX1-4\n\
         /ch/01/config \"Kick\" 1 CY 5",
    );
    let row = show.patch.inputs.iter().find(|p| p.slot == 5).unwrap();
    assert_eq!(row.socket, Some(SocketRef::new("aes50a", Direction::In, 5)));
    assert_eq!(row.strip, Some(StripId::new(StripKind::Input, 1)));
    let slot1 = show.patch.inputs.iter().find(|p| p.slot == 1).unwrap();
    assert_eq!(slot1.strip, None, "slot 1 should feed nothing in this show");
}

#[test]
fn second_routing_block_offsets_connectors_correctly() {
    let show = parse(
        "/config/routing/IN A1-8 B17-24 A17-24 B1-8 AUX1-4\n\
         /ch/01/config \"X\" 1 CY 9",
    );
    let row = show.patch.inputs.iter().find(|p| p.slot == 9).unwrap();
    assert_eq!(row.socket, Some(SocketRef::new("aes50b", Direction::In, 17)));
}

#[test]
fn head_amp_indices_split_across_local_and_both_links() {
    assert_eq!(headamp_socket(0), Some(SocketRef::new("local", Direction::In, 1)));
    assert_eq!(headamp_socket(31), Some(SocketRef::new("local", Direction::In, 32)));
    assert_eq!(headamp_socket(32), Some(SocketRef::new("aes50a", Direction::In, 1)));
    assert_eq!(headamp_socket(79), Some(SocketRef::new("aes50a", Direction::In, 48)));
    assert_eq!(headamp_socket(80), Some(SocketRef::new("aes50b", Direction::In, 1)));
    assert_eq!(headamp_socket(127), Some(SocketRef::new("aes50b", Direction::In, 48)));
    assert_eq!(headamp_socket(128), None);
}

#[test]
fn output_enumeration_never_exceeds_the_consoles_matrix_count() {
    for n in 0..=57u16 {
        if let (SignalRef::Strip(id), _) = decode_output_signal(n) {
            if id.kind == StripKind::Matrix {
                assert!(id.index >= 1 && id.index <= 6, "{n} decoded to matrix {}", id.index);
            }
            if id.kind == StripKind::Bus {
                assert!(id.index >= 1 && id.index <= 16, "{n} decoded to bus {}", id.index);
            }
            if id.kind == StripKind::Input {
                assert!(id.index >= 1 && id.index <= 32, "{n} decoded to ch {}", id.index);
            }
        }
    }
}

#[test]
fn ultranet_port_one_decodes_to_channel_one_direct() {
    let (source, label) = decode_output_signal(26);
    assert_eq!(source, SignalRef::Strip(StripId::new(StripKind::Input, 1)));
    assert_eq!(label, "Ch 1 direct");
}

#[test]
fn unknown_output_source_is_diagnosed_not_guessed() {
    let show = parse("/outputs/main/01 200 PRE OFF");
    assert!(matches!(show.patch.outputs[0].source, SignalRef::Named(_)));
    assert!(show.diagnostics.iter().any(|d| d.severity == Severity::Unknown));
}

#[test]
fn out_of_range_strip_index_is_diagnosed() {
    let show = parse("/ch/99/config \"Nope\" 1 CY 1");
    assert!(show.strips.is_empty());
    assert!(show.diagnostics.iter().any(|d| d.severity == Severity::Suspect));
}

#[test]
fn missing_input_routing_is_diagnosed_rather_than_assumed() {
    let show = parse("/ch/01/config \"Kick\" 1 CY 1");
    assert!(show.patch.inputs.is_empty());
    assert!(show.diagnostics.iter().any(|d| d.message.contains("no input routing found")));
}

#[test]
fn unused_head_amps_are_dropped() {
    let show = parse(
        "/config/routing/IN A1-8 A9-16 A17-24 B1-8 AUX1-4\n\
         /headamp/032 +12.0 ON\n\
         /headamp/000 +5.0 ON",
    );
    assert_eq!(show.head_amps.len(), 1);
    assert_eq!(show.head_amps[0].socket, SocketRef::new("aes50a", Direction::In, 1));
    assert_eq!(level(&show.head_amps[0].gain_db), Some(12.0));
    assert!(show.head_amps[0].phantom);
}

#[test]
fn empty_file_is_an_error() {
    assert!(parse_scn(HEADER, "empty.scn").is_err());
}

#[test]
fn x32_arbitrary_bytes_do_not_panic() {
    let junk: String = (0u8..=255).map(|b| b as char).collect();
    let _ = parse_scn(&junk, "junk.scn");
    let _ = parse_scn("/ch//config\n/////\n/headamp/\n#", "odd.scn");
}

#[test]
fn input_signals_decode_to_slots_and_returns() {
    assert_eq!(decode_input_signal(0), SignalRef::Off);
    assert_eq!(decode_input_signal(1), SignalRef::InputSlot(1));
    assert_eq!(decode_input_signal(32), SignalRef::InputSlot(32));
}

#[test]
fn taps_decode_from_their_tokens() {
    assert_eq!(decode_tap("PRE"), Tap::PreFader);
    assert_eq!(decode_tap("POST"), Tap::PostFader);
    assert_eq!(decode_tap("whatever"), Tap::Unknown);
}

#[test]
fn the_adapter_sniffs_a_scene_header() {
    let body = "/ch/01/config \"K\" 1 CY 1\n/ch/02/config \"S\" 1 CY 2\n/ch/03/config \"H\" 1 CY 3";
    let input = ShowInput::single("a.scn", format!("{HEADER}\n{body}").into_bytes());
    assert_eq!(X32Adapter.sniff(&input), Confidence::Strong);
    let other = ShowInput::single("a.txt", b"hello".to_vec());
    assert_eq!(X32Adapter.sniff(&other), Confidence::No);
}

#[test]
fn strip_names_and_sources_are_read() {
    let show = parse("/config/routing/IN A1-8 A9-16 A17-24 B1-8 AUX1-4\n/ch/02/config \"Snare\" 1 CY 2");
    let s = show.strip(StripId::new(StripKind::Input, 2)).expect("strip");
    assert_eq!(s.name, "Snare");
    assert_eq!(s.source, SignalRef::InputSlot(2));
}
