use simpleargs::utils::add_dash_to_short_flag;
use simpleargs::utils::add_dashes_to_long_flag;
use simpleargs::utils::is_flag;
use simpleargs::utils::is_long_flag;
use simpleargs::utils::is_short_flag;
use simpleargs::utils::validate_arg_config;
use simpleargs::utils::validate_flag_config;
use simpleargs::ArgConfig;
use simpleargs::ArgType;

#[test]
fn test_alias_builders() {
    assert_eq!(add_dashes_to_long_flag("flag"), "--flag");
    assert_eq!(add_dashes_to_long_flag(""), "--");
    assert_eq!(add_dash_to_short_flag('f'), "-f");
    assert_eq!(add_dash_to_short_flag('7'), "-7");
}

#[test]
fn test_flag_shape_tests() {
    assert!(is_flag("-f"));
    assert!(is_flag("--flag"));
    assert!(!is_flag("flag"));
    assert!(!is_flag(""));
    assert!(is_short_flag("-f"));
    assert!(is_long_flag("--flag"));
    assert!(!is_long_flag("-f"));
    assert!(!is_long_flag("-"));
}

#[test]
fn test_config_validators() {
    let flag = ArgConfig {
        name: "verbose".to_string(),
        short_flag: Some('v'),
        long_flag: None,
        required: false,
        arg_type: None,
        description: "a flag".to_string(),
    };
    assert!(validate_flag_config(&flag));
    assert!(!validate_arg_config(&flag));

    let positional = ArgConfig {
        name: "posArg".to_string(),
        short_flag: None,
        long_flag: None,
        required: true,
        arg_type: Some(ArgType::String),
        description: "a positional".to_string(),
    };
    assert!(!validate_flag_config(&positional));
    assert!(validate_arg_config(&positional));
}
