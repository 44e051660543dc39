use badlogvis::attribute::{Attribute, AttributeError};
use badlogvis::diag::{Error, Warning};
use badlogvis::input::JSONTopic;

#[test]
fn parses_exact_tokens() {
    assert_eq!(Attribute::from("hide"), Ok(Attribute::Hide));
    assert_eq!(Attribute::from("area"), Ok(Attribute::Area));
    assert_eq!(Attribute::from("xaxis"), Ok(Attribute::Xaxis));
    assert_eq!(Attribute::from("differentiate"), Ok(Attribute::Differentiate));
    assert_eq!(Attribute::from("zero"), Ok(Attribute::Zero));
    assert_eq!(Attribute::from("log"), Ok(Attribute::Log));
}

#[test]
fn parses_join_target() {
    assert_eq!(
        Attribute::from("join:combo"),
        Ok(Attribute::Join("combo".to_string()))
    );
}

#[test]
fn empty_join_target_is_fatal() {
    assert_eq!(Attribute::from("join:"), Err(AttributeError::EmptyJoinTarget));
}

#[test]
fn unknown_token_is_unrecognized() {
    assert_eq!(Attribute::from("bogus"), Err(AttributeError::Unrecognized));
    assert_eq!(Attribute::from("Hide"), Err(AttributeError::Unrecognized));
    assert_eq!(Attribute::from(""), Err(AttributeError::Unrecognized));
}

#[test]
fn get_attrs_drops_duplicates_and_unknowns() {
    let topic = JSONTopic {
        name: "t".to_string(),
        unit: "s".to_string(),
        attrs: vec![
            "hide".to_string(),
            "hide".to_string(),
            "bogus".to_string(),
            "join:x".to_string(),
            "join:y".to_string(),
        ],
    };
    let (attrs, warns) = topic.get_attrs().unwrap();
    assert_eq!(
        attrs,
        vec![
            Attribute::Hide,
            Attribute::Join("x".to_string()),
            Attribute::Join("y".to_string()),
        ]
    );
    assert_eq!(
        warns,
        vec![
            Warning::DuplicateAttribute { token: "hide".to_string(), topic: "t".to_string() },
            Warning::UnrecognizedAttribute { token: "bogus".to_string() },
        ]
    );
}

#[test]
fn get_attrs_escalates_empty_join() {
    let topic = JSONTopic {
        name: "t".to_string(),
        unit: String::new(),
        attrs: vec!["area".to_string(), "join:".to_string()],
    };
    assert_eq!(
        topic.get_attrs(),
        Err(Error::EmptyJoinTarget { token: "join:".to_string() })
    );
}
