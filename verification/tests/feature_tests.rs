use simpleargs::new;
use simpleargs::Arg;
use simpleargs::ArgType;
use simpleargs::ConfigError;
use simpleargs::ParseOutcome;
use simpleargs::ParseResult;
use simpleargs::Parser;
use simpleargs::ParserError;

fn args(items: &[&str]) -> Vec<String> {
    items.iter().map(|s| s.to_string()).collect()
}

fn parse_done(p: &Parser, items: &[&str]) -> ParseResult {
    match p.parse(args(items)) {
        ParseOutcome::Done(r) => r,
        other => panic!("expected a successful parse, got {:?}", other),
    }
}

fn parse_failed(p: &Parser, items: &[&str]) -> ParserError {
    match p.parse(args(items)) {
        ParseOutcome::Failed(e) => e,
        other => panic!("expected a failing parse, got {:?}", other),
    }
}

fn sample_parser() -> Parser {
    new("sample".to_string())
        .add_flag(
            "flag".to_string(),
            Some("flag".to_string()),
            Some('f'),
            true,
            Some(ArgType::String),
            "Required string flag".to_string(),
        )
        .add_flag(
            "optionalFlag".to_string(),
            Some("optionalFlag".to_string()),
            None,
            false,
            Some(ArgType::Integer),
            "Optional integer flag".to_string(),
        )
        .add_flag(
            "posArg".to_string(),
            None,
            None,
            true,
            Some(ArgType::String),
            "Required positional".to_string(),
        )
}

#[test]
fn scenario_required_flag_and_positional() {
    let p = sample_parser();
    let r = parse_done(&p, &["cmd", "--flag=hello", "world"]);
    assert!(matches!(r.get_arg("flag"), Some(Arg::String(s)) if s == "hello"));
    assert!(matches!(r.get_arg("optionalFlag"), Some(Arg::Absent)));
    assert!(matches!(r.get_arg("posArg"), Some(Arg::String(s)) if s == "world"));
}

#[test]
fn scenario_two_boolean_flags() {
    let p = new("booleans".to_string())
        .add_flag(
            "verbose".to_string(),
            Some("verbose".to_string()),
            Some('v'),
            false,
            None,
            "Verbose flag".to_string(),
        )
        .add_flag(
            "g_flag".to_string(),
            Some("g_flag".to_string()),
            None,
            false,
            None,
            "Second flag".to_string(),
        );
    let r = parse_done(&p, &["cmd", "-v", "--g_flag"]);
    assert!(matches!(r.get_arg("verbose"), Some(Arg::Boolean(true))));
    assert!(matches!(r.get_arg("g_flag"), Some(Arg::Boolean(true))));
    assert_eq!(r.get_bool_arg("verbose"), Some(true));
    assert_eq!(r.get_bool_arg("g_flag"), Some(true));
}

#[test]
fn scenario_missing_required_integer_flag() {
    let p = new("required".to_string()).add_flag(
        "integer".to_string(),
        Some("integer".to_string()),
        None,
        true,
        Some(ArgType::Integer),
        "Required integer".to_string(),
    );
    let e = parse_failed(&p, &["cmd"]);
    assert!(matches!(e, ParserError::MissingRequiredArgument(n) if n == "integer"));
}

#[test]
fn scenario_missing_required_names_first_in_declaration_order() {
    let p = new("required".to_string())
        .add_flag(
            "alpha".to_string(),
            Some("alpha".to_string()),
            None,
            true,
            Some(ArgType::String),
            "First required".to_string(),
        )
        .add_flag(
            "beta".to_string(),
            Some("beta".to_string()),
            None,
            true,
            Some(ArgType::String),
            "Second required".to_string(),
        );
    let e = parse_failed(&p, &["cmd"]);
    assert!(matches!(e, ParserError::MissingRequiredArgument(n) if n == "alpha"));
}

#[test]
fn scenario_character_flag_rejects_two_characters() {
    let p = new("chars".to_string()).add_flag(
        "character".to_string(),
        Some("character".to_string()),
        None,
        false,
        Some(ArgType::Character),
        "One character".to_string(),
    );
    let e = parse_failed(&p, &["cmd", "--character=xy"]);
    assert!(matches!(e, ParserError::TypeMismatch(ArgType::Character, s) if s == "xy"));
}

#[test]
fn scenario_too_many_positionals() {
    let p = new("positionals".to_string()).add_flag(
        "only".to_string(),
        None,
        None,
        false,
        Some(ArgType::String),
        "The only positional".to_string(),
    );
    let e = parse_failed(&p, &["cmd", "first", "second"]);
    assert!(matches!(e, ParserError::TooManyPositionalArguments(t) if t == "second"));
}

#[test]
fn help_wins_regardless_of_position_and_garbage_after_it() {
    let p = new("help".to_string()).add_flag(
        "verbose".to_string(),
        Some("verbose".to_string()),
        Some('v'),
        false,
        None,
        "Verbose flag".to_string(),
    );
    assert!(matches!(p.parse(args(&["cmd", "--help"])), ParseOutcome::Help));
    assert!(matches!(
        p.parse(args(&["cmd", "--help", "--no-such-flag", "%%%"])),
        ParseOutcome::Help
    ));
    assert!(matches!(p.parse(args(&["cmd", "-v", "--help"])), ParseOutcome::Help));
}

#[test]
fn unknown_flag_is_reported() {
    let p = sample_parser();
    let e = parse_failed(&p, &["cmd", "--nope", "x"]);
    assert!(matches!(e, ParserError::UnknownFlag(t) if t == "--nope"));
}

#[test]
fn missing_argument_value_is_reported() {
    let p = sample_parser();
    let e = parse_failed(&p, &["cmd", "--flag"]);
    assert!(matches!(e, ParserError::MissingArgumentValue(t) if t == "--flag"));
}

#[test]
fn flag_shaped_value_is_rejected() {
    let p = sample_parser();
    let e = parse_failed(&p, &["cmd", "--flag", "-oops"]);
    assert!(matches!(e, ParserError::ArgumentValueLooksLikeFlag(t) if t == "-o"));
}

#[test]
fn integer_type_mismatch_is_reported() {
    let p = sample_parser();
    let e = parse_failed(&p, &["cmd", "--flag=ok", "--optionalFlag=abc", "pos"]);
    assert!(matches!(e, ParserError::TypeMismatch(ArgType::Integer, s) if s == "abc"));
}

#[test]
fn empty_attached_value_is_a_type_mismatch_for_integers() {
    let p = sample_parser();
    let e = parse_failed(&p, &["cmd", "--flag=ok", "--optionalFlag=", "pos"]);
    assert!(matches!(e, ParserError::TypeMismatch(ArgType::Integer, s) if s == ""));
}

#[test]
fn float_type_mismatch_is_reported() {
    let p = new("floats".to_string()).add_flag(
        "ratio".to_string(),
        Some("ratio".to_string()),
        None,
        false,
        Some(ArgType::Float),
        "A float value".to_string(),
    );
    let e = parse_failed(&p, &["cmd", "--ratio=12x"]);
    assert!(matches!(e, ParserError::TypeMismatch(ArgType::Float, s) if s == "12x"));
    let r = parse_done(&p, &["cmd", "--ratio=1.5e-3"]);
    assert_eq!(r.get_float_arg("ratio").unwrap().parse::<f32>().unwrap(), 1.5e-3);
}

#[test]
fn value_syntaxes_round_trip_for_long_flags() {
    let p = sample_parser();
    let a = parse_done(&p, &["cmd", "--flag=hello", "world"]);
    let b = parse_done(&p, &["cmd", "--flag", "hello", "world"]);
    assert_eq!(r_string(&a, "flag"), r_string(&b, "flag"));
    assert_eq!(r_string(&a, "posArg"), r_string(&b, "posArg"));
}

#[test]
fn value_syntaxes_round_trip_for_short_flags() {
    let p = sample_parser();
    let a = parse_done(&p, &["cmd", "-f=hello", "world"]);
    let b = parse_done(&p, &["cmd", "-fhello", "world"]);
    let c = parse_done(&p, &["cmd", "-f", "hello", "world"]);
    assert_eq!(r_string(&a, "flag"), "hello");
    assert_eq!(r_string(&b, "flag"), "hello");
    assert_eq!(r_string(&c, "flag"), "hello");
}

fn r_string(r: &ParseResult, name: &str) -> String {
    r.get_string_arg(name).unwrap().to_string()
}

#[test]
fn repeated_flag_keeps_the_last_value() {
    let p = sample_parser();
    let r = parse_done(&p, &["cmd", "--flag=first", "--flag=second", "world"]);
    assert_eq!(r_string(&r, "flag"), "second");
}

#[test]
fn typed_getters_distinguish_kinds() {
    let p = sample_parser();
    let r = parse_done(&p, &["cmd", "--flag=hello", "--optionalFlag=7", "world"]);
    assert_eq!(r.get_integer_arg("optionalFlag"), Some(7));
    assert_eq!(r.get_bool_arg("optionalFlag"), None);
    assert_eq!(r.get_string_arg("flag"), Some("hello"));
    assert_eq!(r.get_integer_arg("flag"), None);
    assert_eq!(r.get_arg("unknown").is_none(), true);
}

#[test]
fn help_formatting_is_idempotent_and_mutates_nothing() {
    let p = sample_parser();
    let first = p.format_help();
    let second = p.format_help();
    assert_eq!(first, second);
    let r = parse_done(&p, &["cmd", "--flag=hello", "world"]);
    assert!(matches!(r.get_arg("flag"), Some(Arg::String(s)) if s == "hello"));
    assert_eq!(p.format_help(), first);
}

#[test]
fn help_text_lists_declarations() {
    let p = sample_parser();
    let text = p.format_help();
    assert!(text.contains("--flag"));
    assert!(text.contains("[--optionalFlag=<optionalFlag:Integer>]"));
    assert!(text.contains("<posArg:String>"));
    assert!(text.contains("(required)"));
    assert!(text.contains("--help"));
}

#[test]
fn config_errors_are_detected() {
    let mut p = new("bad".to_string());
    assert_eq!(
        p.try_add_flag(
            "a".to_string(),
            Some("a".to_string()),
            None,
            false,
            None,
            "first".to_string(),
        ),
        Ok(())
    );
    assert_eq!(
        p.try_add_flag(
            "a".to_string(),
            Some("other".to_string()),
            None,
            false,
            None,
            "same name".to_string(),
        ),
        Err(ConfigError::DuplicateName)
    );
    assert_eq!(
        p.try_add_flag(
            "b".to_string(),
            Some("a".to_string()),
            None,
            false,
            None,
            "same alias".to_string(),
        ),
        Err(ConfigError::DuplicateAlias)
    );
    assert_eq!(
        p.try_add_flag(
            "c".to_string(),
            None,
            None,
            false,
            None,
            "positional without a type".to_string(),
        ),
        Err(ConfigError::PositionalWithoutType)
    );
    assert_eq!(
        p.try_add_flag(
            "opt_pos".to_string(),
            None,
            None,
            false,
            Some(ArgType::String),
            "optional positional".to_string(),
        ),
        Ok(())
    );
    assert_eq!(
        p.try_add_flag(
            "req_pos".to_string(),
            None,
            None,
            true,
            Some(ArgType::String),
            "required after optional".to_string(),
        ),
        Err(ConfigError::RequiredPositionalAfterOptional)
    );
}

#[test]
fn parse_error_messages_describe_the_kind() {
    let p = sample_parser();
    let e = parse_failed(&p, &["cmd", "--nope", "x"]);
    assert_eq!(e.message(), "Flag not defined");
}
