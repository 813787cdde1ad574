use patchferret::model::profile::{all, by_id, x32};
use patchferret::model::{
    Direction, JobInfo, Logo, Severity, Show, SignalRef, SocketRef, StripId, StripKind, Tap,
    Transport,
};

#[test]
fn empty_by_default() {
    assert!(JobInfo::default().is_empty());
}

#[test]
fn parses_a_sidecar() {
    let (job, logo) = JobInfo::parse_sidecar(
        "# a comment\n\
         Event: Summer Live 2026\n\
         Date: 12-14 Sept\n\
         Artist: The Something Band\n\
         Venue: Old Granada Studios\n\
         Production: Stoatworks\n\
         Engineer: A. Sargeant\n\
         Contact: a@example.com\n\
         logo: /tmp/logo.jpg\n",
    );
    assert_eq!(job.event.as_deref(), Some("Summer Live 2026"));
    assert_eq!(job.date.as_deref(), Some("12-14 Sept"));
    assert_eq!(job.artist.as_deref(), Some("The Something Band"));
    assert_eq!(job.engineer_contact.as_deref(), Some("a@example.com"));
    assert_eq!(logo.as_deref(), Some("/tmp/logo.jpg"));
    assert!(!job.is_empty());
}

#[test]
fn unknown_keys_become_custom_fields() {
    let (job, _) = JobInfo::parse_sidecar("Truck call: 0600\nRider rev: C\n");
    assert_eq!(
        job.custom,
        vec![
            ("Truck call".to_string(), "0600".to_string()),
            ("Rider rev".to_string(), "C".to_string())
        ]
    );
}

#[test]
fn key_spelling_is_forgiving() {
    for key in ["Engineer", "sound engineer", "FOH", "operator", "SOUND-ENGINEER"] {
        let (job, _) = JobInfo::parse_sidecar(&format!("{key}: Sam\n"));
        assert_eq!(job.engineer.as_deref(), Some("Sam"), "key {key:?} not recognised");
    }
}

#[test]
fn a_value_containing_a_colon_survives() {
    let (job, _) =
        JobInfo::parse_sidecar("Contact: 07700 900000, sam@example.com\nDate: 19:30 doors\n");
    assert_eq!(job.date.as_deref(), Some("19:30 doors"));
    assert!(job.engineer_contact.as_deref().unwrap().contains("@"));
}

#[test]
fn blank_values_clear_rather_than_printing_empty_rows() {
    let (job, _) = JobInfo::parse_sidecar("Event:   \nVenue: Hall\n");
    assert_eq!(job.event, None);
    assert_eq!(job.venue.as_deref(), Some("Hall"));
    assert_eq!(job.fields().len(), 1);
}

#[test]
fn overrides_fall_back_to_the_parsed_show() {
    let mut job = JobInfo::default();
    assert_eq!(job.console_or("Yamaha DM3"), "Yamaha DM3");
    assert_eq!(job.firmware_or(Some("52020007")), Some("52020007"));
    job.console = Some("DM3 (spare)".into());
    assert_eq!(job.console_or("Yamaha DM3"), "DM3 (spare)");
}

#[test]
fn malformed_lines_are_skipped_not_fatal() {
    let (job, _) = JobInfo::parse_sidecar("no colon here\n\n#comment\nVenue: Hall\n");
    assert_eq!(job.venue.as_deref(), Some("Hall"));
}

#[test]
fn setting_a_custom_label_twice_replaces_its_value() {
    let mut job = JobInfo::default();
    assert!(job.set("Truck call", "0600"));
    assert!(job.set("Truck call", " 0700 "));
    assert_eq!(job.custom, vec![("Truck call".to_string(), "0700".to_string())]);
    assert!(!job.set("logo", "x.png"));
    assert!(job.set("Firmware", "V5"));
    assert_eq!(job.firmware_or(Some("V4")), Some("V5"));
}

#[test]
fn fields_come_out_in_print_order() {
    let (job, _) = JobInfo::parse_sidecar("Contact: c\nDate: d\nVenue: v\n");
    assert_eq!(job.fields(), vec![("Date", "d"), ("Venue", "v"), ("Contact", "c")]);
    let logo = Logo::new(vec![1, 2, 3]);
    assert_eq!(logo.bytes, vec![1, 2, 3]);
}

#[test]
fn socket_ref_round_trips_through_string() {
    let s = SocketRef::new("aes50a", Direction::In, 17);
    assert_eq!(SocketRef::parse(&s.to_string()), Some(s));
}

#[test]
fn text_forms_round_trip() {
    let id = StripId::new(StripKind::Matrix, 6);
    assert_eq!(StripId::parse(&id.to_string()), Some(id));
    let sig = SignalRef::Strip(StripId::new(StripKind::Bus, 4));
    assert_eq!(SignalRef::parse(&sig.as_str()), sig);
    assert_eq!(Tap::parse(Tap::PreFader.as_str()), Tap::PreFader);
    assert_eq!(Severity::parse(Severity::Suspect.as_str()), Severity::Suspect);
    let t = Transport::Card("X-UF".to_string());
    assert_eq!(Transport::parse(&t.as_str()), t);
    assert_eq!(Direction::parse("out"), Some(Direction::Out));
}

#[test]
fn the_x32_profile_matches_the_published_figures() {
    let p = x32();
    assert_eq!(p.id, "x32");
    assert_eq!(p.capacity(StripKind::Input), 32);
    assert_eq!(p.capacity(StripKind::Matrix), 6);
    assert_eq!(p.capacity(StripKind::Mono), 1);
    assert_eq!(p.devices.len(), 4);
    assert_eq!(p.devices[3].transport, Transport::Card("X-UF".to_string()));
    assert_eq!(all().len(), 1);
    assert_eq!(by_id("x32").map(|p| p.model), Some("X32".to_string()));
    assert!(by_id("dm3").is_none());
}

#[test]
fn an_empty_show_has_no_patch() {
    let show = Show::default();
    assert!(show.patched_inputs().is_empty());
    assert!(show.device("local").is_none());
}
