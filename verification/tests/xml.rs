use patchferret::model::xml::{from_events, from_xml, to_events, write_events, PfxError, XmlError, XmlEvent};
use patchferret::model::{
    Device, Diagnostic, Direction, HeadAmp, InputPatch, OutputPatch, Scene, Severity, Show,
    ShowMeta, SignalRef, SocketRef, Strip, StripId, StripKind, Tap, Transport,
};

fn sample() -> Show {
    let mut show = Show::default();
    show.meta = ShowMeta {
        name: "Round Trip".into(),
        note: Some("a note".into()),
        source_format: "x32".into(),
        console: "Behringer X32".into(),
        format_version: Some("2.7".into()),
    };
    show.devices.push(Device::new("local", "Console local I/O", Transport::Local, 32, 16));
    let mut card = Device::new("card", "Card", Transport::Card("X-UF".into()), 32, 32);
    card.model = Some("X-UF".into());
    show.devices.push(card);
    show.head_amps.push(HeadAmp {
        socket: SocketRef::new("local", Direction::In, 3),
        gain_db: Some("24.5".into()),
        phantom: true,
        pad: false,
        polarity_invert: true,
    });
    let mut s = Strip::new(StripId::new(StripKind::Input, 1));
    s.name = "Kick".into();
    s.source = SignalRef::InputSlot(1);
    s.fader_db = Some("-3.5".into());
    s.muted = true;
    s.colour = Some("RD".into());
    s.linked_to = Some(StripId::new(StripKind::Input, 2));
    show.strips.push(s);
    show.patch.inputs.push(InputPatch {
        slot: 1,
        block_label: "A1-8".into(),
        socket: Some(SocketRef::new("aes50a", Direction::In, 1)),
        strip: Some(StripId::new(StripKind::Input, 1)),
    });
    show.patch.outputs.push(OutputPatch {
        socket: SocketRef::new("local", Direction::Out, 1),
        source: SignalRef::Strip(StripId::new(StripKind::Bus, 4)),
        tap: Tap::PreFader,
        source_label: "Bus 4".into(),
    });
    show.scenes.push(Scene { index: 0, name: "Opening".into(), note: None });
    show.diagnostics.push(Diagnostic::new(
        Severity::Unmodelled,
        "/config/talk/A".into(),
        "talkback routing is not represented in PFX".into(),
    ));
    show
}

fn to_xml(show: &Show) -> String {
    write_events(&to_events(show)).expect("serialise")
}

fn attr<'a>(e: &'a XmlEvent, key: &str) -> Option<&'a str> {
    match e {
        XmlEvent::Start(_, a) | XmlEvent::Empty(_, a) => {
            a.iter().find(|(k, _)| k == key).and_then(|(_, v)| v.as_deref())
        }
        _ => None,
    }
}

#[test]
fn events_round_trip_without_loss() {
    let show = sample();
    let events = to_events(&show);
    let parsed = from_events(&events).expect("parse");
    assert_eq!(show, parsed);
}

#[test]
fn events_round_trip_twice_identically() {
    let e1 = to_events(&sample());
    let e2 = to_events(&from_events(&e1).unwrap());
    assert_eq!(e1, e2, "serialisation is not stable across a round trip");
}

#[test]
fn events_of_an_unknown_schema_version_are_refused() {
    let mut events = to_events(&sample());
    if let XmlEvent::Start(_, attrs) = &mut events[0] {
        for (k, v) in attrs.iter_mut() {
            if k == "version" {
                *v = Some("99".into());
            }
        }
    }
    assert!(matches!(from_events(&events), Err(PfxError::Version(_))));
}

#[test]
fn events_without_a_pfx_root_are_refused() {
    let events = vec![
        XmlEvent::Start("html".into(), vec![]),
        XmlEvent::Empty("body".into(), vec![]),
        XmlEvent::End("html".into()),
    ];
    assert!(from_events(&events).is_err());
    assert_eq!(
        from_events(&events).unwrap_err().message(),
        "malformed PFX: no <pfx> root element"
    );
}

#[test]
fn event_attributes_carry_hostile_names_verbatim() {
    let mut show = Show::default();
    show.meta.name = r#"Bad & "quoted" <name>"#.into();
    let events = to_events(&show);
    assert_eq!(attr(&events[1], "name"), Some(r#"Bad & "quoted" <name>"#));
    assert_eq!(from_events(&events).unwrap().meta.name, r#"Bad & "quoted" <name>"#);
}

#[test]
fn the_document_has_the_published_shape() {
    let events = to_events(&sample());
    assert_eq!(events[0], XmlEvent::Start("pfx".into(), vec![
        ("xmlns".into(), Some("https://patchferret.stoatworks.dev/schema/1".into())),
        ("version".into(), Some("1".into())),
    ]));
    assert_eq!(attr(&events[3], "transport"), Some("local"));
    assert_eq!(attr(&events[3], "inputs"), Some("32"));
    assert_eq!(events.last(), Some(&XmlEvent::End("pfx".into())));
    let ha = events.iter().find(|e| matches!(e, XmlEvent::Empty(n, _) if n == "headamp")).unwrap();
    assert_eq!(attr(ha, "phantom"), Some("true"));
    assert_eq!(attr(ha, "pad"), None);
    assert_eq!(attr(ha, "polarity-invert"), Some("true"));
}

#[test]
fn a_headamp_without_a_socket_is_malformed() {
    let events = vec![
        XmlEvent::Start("pfx".into(), vec![]),
        XmlEvent::Empty("headamp".into(), vec![("socket".into(), Some("nonsense".into()))]),
        XmlEvent::End("pfx".into()),
    ];
    assert_eq!(
        from_events(&events),
        Err(PfxError::Malformed("headamp without valid socket".into()))
    );
}

#[test]
fn defaults_fill_missing_attributes() {
    let events = vec![
        XmlEvent::Start("pfx".into(), vec![]),
        XmlEvent::Empty("device".into(), vec![("inputs".into(), Some(" 8 ".into()))]),
        XmlEvent::Empty("in".into(), vec![]),
        XmlEvent::End("pfx".into()),
    ];
    let show = from_events(&events).unwrap();
    assert_eq!(show.devices[0].inputs, 8);
    assert_eq!(show.devices[0].transport, Transport::Other("other".into()));
    assert_eq!(show.patch.inputs[0].slot, 0);
}

#[test]
fn round_trips_without_loss() {
    let show = sample();
    let xml = to_xml(&show);
    let parsed = from_xml(&xml).expect("parse");
    assert_eq!(show, parsed);
}

#[test]
fn round_trips_twice_identically() {
    let xml1 = to_xml(&sample());
    let xml2 = to_xml(&from_xml(&xml1).unwrap());
    assert_eq!(xml1, xml2, "serialisation is not stable across a round trip");
}

#[test]
fn rejects_unknown_schema_version() {
    let xml = to_xml(&sample()).replace("version=\"1\"", "version=\"99\"");
    assert!(matches!(from_xml(&xml), Err(XmlError::Version(_))));
}

#[test]
fn rejects_non_pfx_document() {
    assert!(from_xml("<html><body/></html>").is_err());
}

#[test]
fn escapes_hostile_names() {
    let mut show = Show::default();
    show.meta.name = r#"Bad & "quoted" <name>"#.into();
    let xml = to_xml(&show);
    assert!(!xml.contains(r#""quoted" <name>"#));
    assert_eq!(from_xml(&xml).unwrap().meta.name, r#"Bad & "quoted" <name>"#);
}

#[test]
fn the_text_opens_with_a_declaration_and_the_root() {
    let xml = to_xml(&Show::default());
    assert!(xml.starts_with("<?xml version=\"1.0\" encoding=\"UTF-8\"?>\n<pfx xmlns=\"https://patchferret.stoatworks.dev/schema/1\" version=\"1\">"));
    assert!(xml.ends_with("</pfx>"));
    assert!(xml.contains("\n  <show "));
}

#[test]
fn text_that_is_not_xml_is_an_xml_error() {
    assert!(matches!(from_xml("<pfx version=\"1\"></other>"), Err(XmlError::Xml(_))));
    assert!(matches!(from_xml(""), Err(XmlError::Malformed(m)) if m == "no <pfx> root element"));
}

#[test]
fn a_diagnostic_message_is_read_from_its_text() {
    let xml = "<pfx version=\"1\"><diagnostics><diagnostic severity=\"suspect\" locus=\"/x\">  a &amp; b  </diagnostic></diagnostics></pfx>";
    let show = from_xml(xml).unwrap();
    assert_eq!(show.diagnostics.len(), 1);
    assert_eq!(show.diagnostics[0].severity, Severity::Suspect);
    assert_eq!(show.diagnostics[0].message, "a & b");
}
