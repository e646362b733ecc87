use aircraft_loader::encode_aircraft_json;
use aircraft_loader::parse_aircraft_json;
use aircraft_loader::start;
use aircraft_loader::step;
use aircraft_loader::to_documents;
use aircraft_loader::Aircraft;
use aircraft_loader::ParseError;
use aircraft_loader::RunAction;
use aircraft_loader::RunError;
use aircraft_loader::RunEvent;
use aircraft_loader::RunState;

fn record(icao: &str, iata: &str, desc: &str) -> Aircraft {
    Aircraft {
        icao_code: icao.to_string(),
        iata_code: iata.to_string(),
        description: desc.to_string(),
    }
}

fn assert_uuid_shape(id: &str) {
    let chars: Vec<char> = id.chars().collect();
    assert_eq!(chars.len(), 36);
    for (i, c) in chars.iter().enumerate() {
        if i == 8 || i == 13 || i == 18 || i == 23 {
            assert_eq!(*c, '-');
        } else {
            assert!(c.is_ascii_hexdigit() && !c.is_ascii_uppercase());
        }
    }
    assert_eq!(chars[14], '4');
}

#[test]
fn single_record_example() {
    let text = r#"[{"icaoCode":"A320","iataCode":"32N","description":"Airbus A320"}]"#;
    let recs = parse_aircraft_json(text).unwrap();
    assert_eq!(recs.len(), 1);
    assert_eq!(recs[0].icao_code, "A320");
    assert_eq!(recs[0].iata_code, "32N");
    assert_eq!(recs[0].description, "Airbus A320");
    let docs = to_documents(&recs);
    assert_eq!(docs.len(), 1);
    assert_eq!(docs[0].icao_code, "A320");
    assert_eq!(docs[0].iata_code, "32N");
    assert_eq!(docs[0].description, "Airbus A320");
    assert_uuid_shape(&docs[0].id);
}

#[test]
fn empty_array_is_a_noop_write() {
    let recs = parse_aircraft_json("[]").unwrap();
    assert_eq!(recs.len(), 0);
    let docs = to_documents(&recs);
    assert_eq!(docs.len(), 0);
    // through the pipeline: zero documents are submitted, without error
    let (_s0, a0) = start();
    assert!(matches!(a0, RunAction::ReadFile));
    let (s1, a1) = step(RunState::Init, RunEvent::FileRead(Some("[]".to_string())));
    assert!(matches!(s1, RunState::Parsed(_)));
    assert!(matches!(a1, RunAction::Connect));
    // a run with zero records ends cleanly without asking for an insert
    let (s2, a2) = step(s1, RunEvent::ConnectResult(true));
    assert!(matches!(s2, RunState::Done));
    assert!(matches!(a2, RunAction::Stop));
}

#[test]
fn n_records_give_n_documents_with_fields_verbatim() {
    let text = r#"[
        {"icaoCode":"A320","iataCode":"32N","description":"Airbus A320"},
        {"icaoCode":"B738","iataCode":"73H","description":"Boeing 737-800"},
        {"icaoCode":"E190","iataCode":"E90","description":"Embraer 190"}
    ]"#;
    let recs = parse_aircraft_json(text).unwrap();
    assert_eq!(recs.len(), 3);
    assert_eq!(recs[1].icao_code, "B738");
    assert_eq!(recs[2].description, "Embraer 190");
    let docs = to_documents(&recs);
    assert_eq!(docs.len(), 3);
    for (d, r) in docs.iter().zip(recs.iter()) {
        assert_eq!(d.icao_code, r.icao_code);
        assert_eq!(d.iata_code, r.iata_code);
        assert_eq!(d.description, r.description);
        assert_uuid_shape(&d.id);
    }
}

#[test]
fn identifiers_are_pairwise_distinct() {
    let recs: Vec<Aircraft> = (0..100).map(|i| record("A", "B", &format!("r{}", i))).collect();
    let docs = to_documents(&recs);
    assert_eq!(docs.len(), 100);
    for i in 0..docs.len() {
        for j in 0..i {
            assert_ne!(docs[i].id, docs[j].id);
        }
    }
}

#[test]
fn round_trip_preserves_field_values() {
    let recs = vec![
        record("A320", "32N", "Airbus A320"),
        record("qu\"ote", "back\\slash", "line\nbreak\ttab"),
        record("", "", ""),
        record("ctrl\u{0001}char", "bell\u{0007}", "caf\u{00e9} ✈ 機 \u{1F680}"),
    ];
    let text = encode_aircraft_json(&recs);
    let back = parse_aircraft_json(&text).unwrap();
    assert_eq!(back.len(), recs.len());
    for (b, r) in back.iter().zip(recs.iter()) {
        assert_eq!(b.icao_code, r.icao_code);
        assert_eq!(b.iata_code, r.iata_code);
        assert_eq!(b.description, r.description);
    }
}

#[test]
fn encoding_is_canonical() {
    let recs = vec![record("A320", "32N", "Airbus A320")];
    assert_eq!(
        encode_aircraft_json(&recs),
        r#"[{"icaoCode":"A320","iataCode":"32N","description":"Airbus A320"}]"#
    );
    assert_eq!(encode_aircraft_json(&Vec::new()), "[]");
}

#[test]
fn missing_field_fails_before_any_connection() {
    let text = r#"[
        {"icaoCode":"A320","iataCode":"32N","description":"ok"},
        {"icaoCode":"B738","iataCode":"73H"}
    ]"#;
    assert!(parse_aircraft_json(text).is_err());
    let (s, a) = step(RunState::Init, RunEvent::FileRead(Some(text.to_string())));
    assert!(matches!(s, RunState::Failed(RunError::Parse)));
    // the run stops here: no connect action is ever produced
    assert!(matches!(a, RunAction::Stop));
}

#[test]
fn unreachable_database_fails_after_parse() {
    let text = r#"[{"icaoCode":"A320","iataCode":"32N","description":"ok"}]"#;
    let (s1, a1) = step(RunState::Init, RunEvent::FileRead(Some(text.to_string())));
    // the file parses first
    assert!(matches!(s1, RunState::Parsed(_)));
    assert!(matches!(a1, RunAction::Connect));
    // then the connection fails
    let (s2, a2) = step(s1, RunEvent::ConnectResult(false));
    assert!(matches!(s2, RunState::Failed(RunError::Connect)));
    assert!(matches!(a2, RunAction::Stop));
}

#[test]
fn unreadable_file_fails_the_run() {
    let (s, a) = step(RunState::Init, RunEvent::FileRead(None));
    assert!(matches!(s, RunState::Failed(RunError::Io)));
    assert!(matches!(a, RunAction::Stop));
}

#[test]
fn rejected_insert_fails_the_run() {
    let (s, a) = step(RunState::Inserting, RunEvent::InsertResult(false));
    assert!(matches!(s, RunState::Failed(RunError::Write)));
    assert!(matches!(a, RunAction::Stop));
}

#[test]
fn extra_members_of_any_json_kind_are_ignored() {
    let text = r#"[{
        "icaoCode":"A320",
        "note":"extra string",
        "count": -12.5e+3,
        "flag": true,
        "gone": null,
        "nested": {"a": [1, 2, {"b": []}], "c": false},
        "iataCode":"32N",
        "list": ["x", {"y": "z"}],
        "description":"Airbus A320"
    }]"#;
    let recs = parse_aircraft_json(text).unwrap();
    assert_eq!(recs.len(), 1);
    assert_eq!(recs[0].icao_code, "A320");
    assert_eq!(recs[0].iata_code, "32N");
    assert_eq!(recs[0].description, "Airbus A320");
}

#[test]
fn string_escapes_decode() {
    let text = r#"[{"icaoCode":"Aé","iataCode":"\"\\\/","description":"\b\f\n\r\t"}]"#;
    let recs = parse_aircraft_json(text).unwrap();
    assert_eq!(recs[0].icao_code, "A\u{00e9}");
    assert_eq!(recs[0].iata_code, "\"\\/");
    assert_eq!(recs[0].description, "\u{0008}\u{000C}\n\r\t");
}

#[test]
fn malformed_inputs_are_rejected_whole() {
    // not an array
    assert!(parse_aircraft_json(r#"{"icaoCode":"A","iataCode":"B","description":"C"}"#).is_err());
    // not JSON at all
    assert!(parse_aircraft_json("aircraft").is_err());
    // mistyped required field
    assert!(parse_aircraft_json(r#"[{"icaoCode":5,"iataCode":"B","description":"C"}]"#).is_err());
    // duplicated required field
    assert!(parse_aircraft_json(
        r#"[{"icaoCode":"A","icaoCode":"A","iataCode":"B","description":"C"}]"#
    )
    .is_err());
    // trailing comma
    assert!(parse_aircraft_json(r#"[{"icaoCode":"A","iataCode":"B","description":"C",}]"#)
        .is_err());
    // trailing text after the array
    assert!(parse_aircraft_json(r#"[{"icaoCode":"A","iataCode":"B","description":"C"}] x"#)
        .is_err());
    // unterminated string
    assert!(parse_aircraft_json(r#"[{"icaoCode":"A","iataCode":"B","description":"C]"#).is_err());
    // lone surrogate escape
    assert!(parse_aircraft_json(r#"[{"icaoCode":"\ud800","iataCode":"B","description":"C"}]"#)
        .is_err());
    // the error carries a human-readable message
    assert_eq!(ParseError {}.message(), "cannot parse json");
}

#[test]
fn whitespace_around_tokens_is_accepted() {
    let text =
        " \n\t[ {\r\n \"icaoCode\" : \"A\" , \"iataCode\" : \"B\" , \"description\" : \"C\" } ] \n";
    let recs = parse_aircraft_json(text).unwrap();
    assert_eq!(recs.len(), 1);
    assert_eq!(recs[0].icao_code, "A");
}

#[test]
fn surrogate_pair_escapes_decode_to_supplementary_characters() {
    let text = r#"[{"icaoCode":"\uD83D\uDE00","iataCode":"\ud83d\ude80x","description":"C"}]"#;
    let recs = parse_aircraft_json(text).unwrap();
    assert_eq!(recs[0].icao_code, "\u{1F600}");
    assert_eq!(recs[0].iata_code, "\u{1F680}x");
    // a leading surrogate not followed by a trailing one is rejected
    assert!(parse_aircraft_json(r#"[{"icaoCode":"\uD83Dx","iataCode":"B","description":"C"}]"#)
        .is_err());
    assert!(parse_aircraft_json(
        r#"[{"icaoCode":"\uD83D\uD83D","iataCode":"B","description":"C"}]"#
    )
    .is_err());
}

#[test]
fn missing_connection_string_is_a_config_failure() {
    let r = aircraft_loader::resolve_connection_string(None);
    assert!(matches!(r, Err(RunError::Config)));
    let r = aircraft_loader::resolve_connection_string(Some("mongodb://localhost".to_string()));
    assert_eq!(r.unwrap(), "mongodb://localhost");
}

#[test]
fn fixed_database_and_collection_names() {
    assert_eq!(aircraft_loader::database_name(), "flights");
    assert_eq!(aircraft_loader::collection_name(), "aircraft");
}

#[test]
fn unicode_escapes_decode_to_their_scalars() {
    let text = r#"[{"icaoCode":"AB","iataCode":"é","description":"\u0001\u001F"}]"#;
    let recs = parse_aircraft_json(text).unwrap();
    assert_eq!(recs[0].icao_code, "AB");
    assert_eq!(recs[0].iata_code, "\u{00e9}");
    assert_eq!(recs[0].description, "\u{0001}\u{001F}");
}

#[test]
fn control_characters_encode_as_escapes() {
    let recs = vec![record("a\nb", "c\u{0001}d", "e\"f\\g")];
    assert_eq!(
        encode_aircraft_json(&recs),
        "[{\"icaoCode\":\"a\\nb\",\"iataCode\":\"c\\u0001d\",\"description\":\"e\\\"f\\\\g\"}]"
    );
}
