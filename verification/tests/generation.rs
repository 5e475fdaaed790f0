use dsl_example::generate;
use dsl_example::tokenize;
use dsl_example::Symbol;
use dsl_example::Token;

const MINIMAL: &str = r#"G { location = "L", meetings = [ M { attendees = ["a"] } ] }"#;

#[test]
fn test_generate_minimal_exact_output() {
    let out = generate(MINIMAL).unwrap();
    let expected = r#"pub enum GMeetings {
    M(M),
}

impl GMeetings {
    pub fn attendees(&self) -> &'static [&'static str] {
        match self {
            Self::M(v) => v.attendees(),
        }
    }
}

struct M {}

impl Default for M {
    fn default() -> Self {
        Self {}
    }
}

impl M {
    pub fn attendees(&self) -> &'static [&'static str] {
        &["a"]
    }
}

pub struct G {
    location: &'static str,
    meetings: &'static [&'static GMeetings],
}

impl G {
    pub fn location(&self) -> &'static str {
        self.location
    }
    pub fn meetings(&self) -> &'static [&'static GMeetings] {
        self.meetings
    }
}

impl Default for G {
    fn default() -> Self {
        Self {
            location: "L",
            meetings: &[
                &GMeetings::M(M::default()),
            ],
        }
    }
}
"#;
    assert_eq!(out, expected);
}

#[test]
fn test_generate_deterministic() {
    let a = generate(MINIMAL).unwrap();
    let b = generate(MINIMAL).unwrap();
    assert_eq!(a, b);

    let input = r#"RustBoulderDenver {
        location = "1601 Wewatta Street",
        meetings = [
            HackNSnack { attendees = ["Bob"] },
            Yells { topics = ["Proc Macros"], attendees = ["Alice"] }
        ]
    }"#;
    let c = generate(input).unwrap();
    let d = generate(input).unwrap();
    assert_eq!(c, d);
}

#[test]
fn test_generated_topics_accessor_iff_topics() {
    let with = generate(
        r#"G { location = "L", meetings = [ M { attendees = ["a"], topics = ["t"] } ] }"#,
    )
    .unwrap();
    assert!(with.contains("pub fn topics(&self) -> &'static [&'static str] {\n        &[\"t\"]"));

    let without = generate(MINIMAL).unwrap();
    assert!(!without.contains("pub fn topics"));
}

#[test]
fn test_generated_variant_arms_in_order() {
    let out = generate(
        r#"G {
            location = "L",
            meetings = [
                First { attendees = ["a"] },
                Second { attendees = ["b", "c"] }
            ]
        }"#,
    )
    .unwrap();
    assert!(out.contains("pub enum GMeetings {\n    First(First),\n    Second(Second),\n}"));
    assert!(out.contains("Self::First(v) => v.attendees(),\n            Self::Second(v) => v.attendees(),"));
    assert!(out.contains("&[\"b\", \"c\"]"));
    assert!(out.contains(
        "meetings: &[\n                &GMeetings::First(First::default()),\n                &GMeetings::Second(Second::default()),\n            ]"
    ));
}

#[test]
fn test_trailing_commas_do_not_matter() {
    let bare = r#"G { location = "L", meetings = [ M { attendees = ["a", "b"], topics = ["t"] } ] }"#;
    let everywhere = r#"G { location = "L", meetings = [ M { attendees = ["a", "b",], topics = ["t",], }, ], }"#;
    let a = generate(bare).unwrap();
    let b = generate(everywhere).unwrap();
    assert_eq!(a, b);
}

#[test]
fn test_trailing_comma_same_error_on_failing_body() {
    let a = generate(r#"G { location = "L" }"#);
    let b = generate(r#"G { location = "L", }"#);
    assert!(matches!(a, Err(dsl_example::GenError::GroupGrammar)));
    assert!(matches!(b, Err(dsl_example::GenError::GroupGrammar)));

    let c = generate(r#"G { location = "L", meetings = [ M { topics = ["t"] } ] }"#);
    let d = generate(r#"G { location = "L", meetings = [ M { topics = ["t"], } ] }"#);
    assert!(matches!(c, Err(dsl_example::GenError::MeetingGrammar)));
    assert!(matches!(d, Err(dsl_example::GenError::MeetingGrammar)));
}

#[test]
fn test_double_comma_rejected() {
    assert!(generate(r#"G { location = "L", meetings = [ M { attendees = ["a",, ] } ] }"#).is_err());
    assert!(generate(r#"G { location = "L",, meetings = [ M { attendees = ["a"] } ] }"#).is_err());
}

#[test]
fn test_generation_fails_without_partial_output() {
    assert!(generate(r#"G { location = "L", meetings = [] }"#).is_err());
    assert!(generate("").is_err());
}

#[test]
fn test_tokenize_basic_stream() {
    let ts = tokenize(r#"M { attendees = ["a"], n = 12 }"#).unwrap();
    assert_eq!(ts.len(), 12);
    assert!(matches!(&ts[0], Token::Ident(s) if s == "M"));
    assert!(matches!(ts[1], Token::OpenBrace));
    assert!(matches!(&ts[2], Token::Ident(s) if s == "attendees"));
    assert!(matches!(ts[3], Token::Equals));
    assert!(matches!(ts[4], Token::OpenBracket));
    assert!(matches!(&ts[5], Token::StrLit(s) if s == "a"));
    assert!(matches!(ts[6], Token::CloseBracket));
    assert!(matches!(ts[7], Token::Comma));
    assert!(matches!(&ts[8], Token::Ident(s) if s == "n"));
    assert!(matches!(ts[9], Token::Equals));
    assert!(matches!(ts[10], Token::OtherLit));
    assert!(matches!(ts[11], Token::CloseBrace));
}

#[test]
fn test_tokenize_booleans_are_literals() {
    let ts = tokenize("true false truthy").unwrap();
    assert!(matches!(ts[0], Token::OtherLit));
    assert!(matches!(ts[1], Token::OtherLit));
    assert!(matches!(&ts[2], Token::Ident(s) if s == "truthy"));
}

#[test]
fn test_tokenize_rejects_stray_character() {
    assert!(tokenize("G { @ }").is_err());
}

#[test]
fn test_symbol_matching() {
    assert!(Symbol::location().matches(&"location".to_owned()));
    assert!(Symbol::meetings().matches(&"meetings".to_owned()));
    assert!(Symbol::attendees().matches(&"attendees".to_owned()));
    assert!(Symbol::topics().matches(&"topics".to_owned()));
    assert!(!Symbol::location().matches(&"Location".to_owned()));
    assert!(!Symbol::topics().matches(&"topic".to_owned()));
}
