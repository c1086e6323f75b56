use seatbelt::env_name::{
    is_ascii_alnum_or_underscore, is_ascii_alpha_or_underscore, is_valid_env_name, EnvName,
    InvalidEnvName,
};

#[test]
fn accepts_valid_environment_variable_names() {
    assert_eq!(
        EnvName::try_from("TOKEN".to_owned()).map(|name| name.to_string()),
        Ok("TOKEN".to_owned())
    );
    assert_eq!(
        EnvName::try_from("_TOKEN_1".to_owned()).map(|name| name.to_string()),
        Ok("_TOKEN_1".to_owned())
    );
}

#[test]
fn rejects_invalid_environment_variable_names() {
    assert_eq!(
        EnvName::try_from(String::new()).err(),
        Some(InvalidEnvName { name: String::new() })
    );
    assert_eq!(
        EnvName::try_from("1TOKEN".to_owned()).err(),
        Some(InvalidEnvName { name: "1TOKEN".to_owned() })
    );
    assert_eq!(
        EnvName::try_from("BAD-NAME".to_owned()).err(),
        Some(InvalidEnvName { name: "BAD-NAME".to_owned() })
    );
    assert_eq!(
        EnvName::try_from("BAD.NAME".to_owned()).err(),
        Some(InvalidEnvName { name: "BAD.NAME".to_owned() })
    );
}

#[test]
fn deserializes_valid_environment_variable_names() {
    let names: Vec<String> = yaml_serde::from_str("- TOKEN\n- _TOKEN_1\n").expect("YAML list parses");
    let actual = names
        .into_iter()
        .map(|name| EnvName::try_from(name).map(|name| name.to_string()))
        .collect::<Result<Vec<_>, _>>();

    assert_eq!(
        actual.map_err(|error| error.to_string()),
        Ok(vec!["TOKEN".to_owned(), "_TOKEN_1".to_owned()])
    );
}

#[test]
fn rejects_invalid_environment_variable_names_during_deserialization() {
    let names: Vec<String> = yaml_serde::from_str("- 1TOKEN\n").expect("YAML list parses");
    let result = names.into_iter().map(EnvName::try_from).collect::<Result<Vec<_>, _>>();

    assert!(result
        .err()
        .map(|error| error.to_string())
        .is_some_and(|message| message.contains("invalid environment variable name: 1TOKEN")));
}

#[test]
fn env_name_from_str_matches_try_from() {
    assert_eq!(EnvName::from_str("PATH").map(|name| name.as_str().to_owned()), Ok("PATH".to_owned()));
    assert_eq!(EnvName::from_str("A B").err().map(|error| error.name), Some("A B".to_owned()));
}

#[test]
fn env_name_invalid_message() {
    let error = EnvName::try_from("BAD-NAME".to_owned()).err().expect("name is invalid");
    assert_eq!(error.to_string(), "invalid environment variable name: BAD-NAME");
}

#[test]
fn env_name_character_classes() {
    assert!(is_valid_env_name("_"));
    assert!(is_valid_env_name("a1_B"));
    assert!(!is_valid_env_name(""));
    assert!(!is_valid_env_name("9"));
    assert!(!is_valid_env_name("é"));
    assert!(is_ascii_alpha_or_underscore('_'));
    assert!(is_ascii_alpha_or_underscore('z'));
    assert!(!is_ascii_alpha_or_underscore('0'));
    assert!(is_ascii_alnum_or_underscore('0'));
    assert!(!is_ascii_alnum_or_underscore('-'));
}
