use dsl_example::parse;
use dsl_example::GenError;

const INPUT: &str = r#"
    RustBoulderDenver {
        location = "1601 Wewatta Street",
        meetings = [
            HackNSnack {
                attendees = ["Bob"],
            },
            Yells {
                topics = ["Proc Macros"],
                attendees = ["Alice"],
            },
        ]
    }
"#;

#[test]
fn test_dsl() {
    let meetup = parse(INPUT).unwrap();

    assert_eq!(meetup.location().as_str(), "1601 Wewatta Street");
    assert_eq!(meetup.meetings()[0].attendees()[0], "Bob");
    if meetup.meetings()[1].description().as_str() == "Yells" {
        let y = &meetup.meetings()[1];
        assert_eq!(y.topics().unwrap()[0], "Proc Macros");
    }
}

#[test]
fn test_dsl_structure() {
    let meetup = parse(INPUT).unwrap();

    assert_eq!(meetup.name().as_str(), "RustBoulderDenver");
    assert_eq!(meetup.meetings().len(), 2);
    assert_eq!(meetup.meetings()[0].description().as_str(), "HackNSnack");
    assert_eq!(meetup.meetings()[1].description().as_str(), "Yells");
    assert_eq!(meetup.meetings()[1].attendees().len(), 1);
    assert_eq!(meetup.meetings()[1].attendees()[0], "Alice");
}

#[test]
fn test_topics_absent_when_empty() {
    let meetup = parse(INPUT).unwrap();
    assert!(meetup.meetings()[0].topics().is_none());
    assert!(meetup.meetings()[1].topics().is_some());

    let with_empty_topics = r#"G {
        location = "L",
        meetings = [ M { attendees = ["a"], topics = [] } ]
    }"#;
    let g = parse(with_empty_topics).unwrap();
    assert!(g.meetings()[0].topics().is_none());
}

#[test]
fn test_key_order_is_free() {
    let g = parse(r#"G { meetings = [ M { topics = ["t"], attendees = ["a"] } ], location = "L" }"#)
        .unwrap();
    assert_eq!(g.location().as_str(), "L");
    assert_eq!(g.meetings()[0].attendees()[0], "a");
    assert_eq!(g.meetings()[0].topics().unwrap()[0], "t");
}

#[test]
fn test_duplicate_location_rejected() {
    let r = parse(r#"G { location = "first", location = "second", meetings = [ M { attendees = ["a"] } ] }"#);
    assert!(matches!(r, Err(GenError::GroupGrammar)));
}

#[test]
fn test_duplicate_meetings_key_rejected() {
    let r = parse(r#"G {
        location = "L",
        meetings = [ M { attendees = ["a"] } ],
        meetings = [ N { attendees = ["c"] } ]
    }"#);
    assert!(matches!(r, Err(GenError::GroupGrammar)));
}

#[test]
fn test_duplicate_attendees_key_rejected() {
    let r = parse(r#"G { location = "L", meetings = [ M { attendees = ["a"], attendees = ["b"] } ] }"#);
    assert!(matches!(r, Err(GenError::MeetingGrammar)));
}

#[test]
fn test_duplicate_topics_key_rejected() {
    let r = parse(r#"G { location = "L", meetings = [ M { attendees = ["a"], topics = ["t"], topics = ["u"] } ] }"#);
    assert!(matches!(r, Err(GenError::MeetingGrammar)));
}

#[test]
fn test_duplicate_meeting_kind_rejected() {
    let r = parse(r#"G {
        location = "L",
        meetings = [ M { attendees = ["a"] }, M { attendees = ["b"] } ]
    }"#);
    assert!(matches!(r, Err(GenError::GroupGrammar)));
}

#[test]
fn test_empty_meetings_rejected() {
    let r = parse(r#"G { location = "L", meetings = [] }"#);
    assert!(matches!(r, Err(GenError::GroupGrammar)));
}

#[test]
fn test_missing_meetings_rejected() {
    let r = parse(r#"G { location = "L" }"#);
    assert!(matches!(r, Err(GenError::GroupGrammar)));
}

#[test]
fn test_missing_location_rejected() {
    let r = parse(r#"G { meetings = [ M { attendees = ["a"] } ] }"#);
    assert!(matches!(r, Err(GenError::GroupGrammar)));
}

#[test]
fn test_empty_attendees_rejected() {
    let r = parse(r#"G { location = "L", meetings = [ M { attendees = [] } ] }"#);
    assert!(matches!(r, Err(GenError::MeetingGrammar)));
}

#[test]
fn test_missing_attendees_rejected() {
    let r = parse(r#"G { location = "L", meetings = [ M { topics = ["t"] } ] }"#);
    assert!(matches!(r, Err(GenError::MeetingGrammar)));
}

#[test]
fn test_unknown_group_key_rejected() {
    let r = parse(r#"G { venue = "L", meetings = [ M { attendees = ["a"] } ] }"#);
    assert!(matches!(r, Err(GenError::GroupGrammar)));
}

#[test]
fn test_unknown_meeting_key_rejected() {
    let r = parse(r#"G { location = "L", meetings = [ M { attendees = ["a"], speakers = ["s"] } ] }"#);
    assert!(matches!(r, Err(GenError::MeetingGrammar)));
}

#[test]
fn test_numeric_location_is_lexical_error() {
    let r = parse(r#"G { location = 42, meetings = [ M { attendees = ["a"] } ] }"#);
    assert!(matches!(r, Err(GenError::Lexical)));
}

#[test]
fn test_boolean_location_is_lexical_error() {
    let r = parse(r#"G { location = true, meetings = [ M { attendees = ["a"] } ] }"#);
    assert!(matches!(r, Err(GenError::Lexical)));
}

#[test]
fn test_numeric_attendee_is_lexical_error() {
    let r = parse(r#"G { location = "L", meetings = [ M { attendees = [42] } ] }"#);
    assert!(matches!(r, Err(GenError::Lexical)));
}

#[test]
fn test_unterminated_string_rejected() {
    let r = parse(r#"G { location = "L, meetings = [] }"#);
    assert!(r.is_err());
}

#[test]
fn test_trailing_garbage_rejected() {
    let r = parse(r#"G { location = "L", meetings = [ M { attendees = ["a"] } ] } extra"#);
    assert!(matches!(r, Err(GenError::GroupGrammar)));
}

#[test]
fn test_empty_input_rejected() {
    assert!(matches!(parse(""), Err(GenError::GroupGrammar)));
}

#[test]
fn test_error_messages() {
    assert_eq!(GenError::Lexical.message(), "Not a string literal");
    assert_eq!(
        GenError::GroupGrammar.message(),
        "Meeting should be of the form `Name { location = \"\", meetings = [] }` where meetings is not empty."
    );
    assert_eq!(
        GenError::MeetingGrammar.message(),
        "Meeting should be of the form `Type { attendees = [], topics = [] }` where topics is optional."
    );
}
