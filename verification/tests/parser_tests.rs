use simpleargs::new;
use simpleargs::Arg;
use simpleargs::ArgType;
use simpleargs::ParseOutcome;
use simpleargs::ParseResult;
use simpleargs::Parser;

fn parse_ok(p: &Parser, args: Vec<String>) -> ParseResult {
    match p.parse(args) {
        ParseOutcome::Done(r) => r,
        other => panic!("expected a successful parse, got {:?}", other),
    }
}

#[test]
fn arg_validators_it_works() {}

// Test missing non-required flags are set appropriately
#[test]
fn test_non_required_flags() {
    let input_args: Vec<String> = vec!["command".to_string()];

    let p = new("test parser".to_string())
        .add_flag(
            "integer".to_string(),
            Some("integer".to_string()),
            None,
            false,
            Some(ArgType::Integer),
            "Test a integer".to_string(),
        )
        .add_flag(
            "float".to_string(),
            Some("float".to_string()),
            None,
            false,
            Some(ArgType::Float),
            "Test an Float".to_string(),
        )
        .add_flag(
            "character".to_string(),
            Some("character".to_string()),
            None,
            false,
            Some(ArgType::Character),
            "Test an Character".to_string(),
        )
        .add_flag(
            "string".to_string(),
            Some("string".to_string()),
            None,
            false,
            Some(ArgType::String),
            "Test an String".to_string(),
        )
        .add_flag(
            "boolean".to_string(),
            Some("boolean".to_string()),
            None,
            false,
            None,
            "Test an boolean".to_string(),
        )
        .add_flag(
            "positional_integer".to_string(),
            None,
            None,
            false,
            Some(ArgType::Integer),
            "Test an Integer".to_string(),
        );
    let r = parse_ok(&p, input_args);

    let arg_res = r.get_arg("integer");
    assert!(matches!(arg_res, Some(Arg::Absent)));

    let arg_res = r.get_arg("float");
    assert!(matches!(arg_res, Some(Arg::Absent)));

    let arg_res = r.get_arg("character");
    assert!(matches!(arg_res, Some(Arg::Absent)));

    let arg_res = r.get_arg("string");
    assert!(matches!(arg_res, Some(Arg::Absent)));

    let arg_res = r.get_arg("boolean");
    assert!(matches!(arg_res, Some(Arg::Boolean(false))));

    let arg_res = r.get_arg("positional_integer");
    assert!(matches!(arg_res, Some(Arg::Absent)));
}

/// Verify args of various types are parsed correctly
#[test]
fn test_various_arg_types() {
    let input_args: Vec<String> = vec![
        "command".to_string(),
        "--integer=50".to_string(),
        "--float=0.401".to_string(),
        "--character=x".to_string(),
        "--string=string_of_characters".to_string(),
        "--boolean".to_string(),
        "100".to_string(),
        "4.34".to_string(),
        "y".to_string(),
        "string_of_stuff".to_string(),
    ];

    let p = new("test parser".to_string())
        .add_flag(
            "integer".to_string(),
            Some("integer".to_string()),
            None,
            true,
            Some(ArgType::Integer),
            "Test an Integer".to_string(),
        )
        .add_flag(
            "float".to_string(),
            Some("float".to_string()),
            None,
            true,
            Some(ArgType::Float),
            "Test an Float".to_string(),
        )
        .add_flag(
            "character".to_string(),
            Some("character".to_string()),
            None,
            true,
            Some(ArgType::Character),
            "Test an Character".to_string(),
        )
        .add_flag(
            "string".to_string(),
            Some("string".to_string()),
            None,
            true,
            Some(ArgType::String),
            "Test an String".to_string(),
        )
        .add_flag(
            "boolean".to_string(),
            Some("boolean".to_string()),
            None,
            true,
            None,
            "Test an boolean".to_string(),
        )
        .add_flag(
            "positional_integer".to_string(),
            None,
            None,
            true,
            Some(ArgType::Integer),
            "Test an Integer".to_string(),
        )
        .add_flag(
            "positional_float".to_string(),
            None,
            None,
            true,
            Some(ArgType::Float),
            "Test an Float".to_string(),
        )
        .add_flag(
            "positional_character".to_string(),
            None,
            None,
            true,
            Some(ArgType::Character),
            "Test an Character".to_string(),
        )
        .add_flag(
            "positional_string".to_string(),
            None,
            None,
            true,
            Some(ArgType::String),
            "Test an String".to_string(),
        );
    let r = parse_ok(&p, input_args);

    let arg_res = r.get_arg("integer");
    assert!(matches!(arg_res, Some(Arg::Integer(50))));

    let arg_res = r.get_arg("float");
    assert!(matches!(arg_res, Some(Arg::Float(s)) if s == "0.401"));
    assert_eq!(r.get_float_arg("float").unwrap().parse::<f32>().unwrap(), 0.401);

    let arg_res = r.get_arg("character");
    assert!(matches!(arg_res, Some(Arg::Character('x'))));

    let arg_res = r.get_arg("string");
    assert!(matches!(arg_res, Some(Arg::String(_))));

    let arg_res = r.get_arg("boolean");
    assert!(matches!(arg_res, Some(Arg::Boolean(true))));

    let arg_res = r.get_arg("positional_integer");
    assert!(matches!(arg_res, Some(Arg::Integer(100))));

    let arg_res = r.get_arg("positional_float");
    assert!(matches!(arg_res, Some(Arg::Float(s)) if s == "4.34"));
    assert_eq!(r.get_float_arg("positional_float").unwrap().parse::<f32>().unwrap(), 4.34);

    let arg_res = r.get_arg("positional_character");
    assert!(matches!(arg_res, Some(Arg::Character('y'))));

    let arg_res = r.get_arg("positional_string");
    assert!(matches!(arg_res, Some(Arg::String(_))));
}

/// Verify we can pass boolean short and long flags correctly
#[test]
fn test_bool_flags() {
    let input_args: Vec<String> = vec![
        "command".to_string(),
        "-f".to_string(),
        "--g_flag".to_string(),
    ];

    let p = new("test parser".to_string())
        .add_flag(
            "f_flag".to_string(),
            None,
            Some('f'),
            true,
            None,
            "f_flag tests -f=f_arg_val".to_string(),
        )
        .add_flag(
            "g_flag".to_string(),
            Some("g_flag".to_string()),
            None,
            true,
            None,
            "g_flag tests -gg_arg_val".to_string(),
        );
    let r = parse_ok(&p, input_args);

    let f = r.get_arg("f_flag");
    assert!(matches!(f, Some(Arg::Boolean(true))));

    let g = r.get_arg("g_flag");
    assert!(matches!(g, Some(Arg::Boolean(true))));
}

/// Verify that we can parse long flags with arguments correctly
/// regardless of the various syntax options for passing arguments
#[test]
fn test_long_flags_with_args() {
    let input_args: Vec<String> = vec![
        "command".to_string(),
        "--f_flag=f_arg_val".to_string(),
        "--g_flag".to_string(),
        "g_arg_val".to_string(),
    ];

    let p = new("test parser".to_string())
        .add_flag(
            "f_flag".to_string(),
            Some("f_flag".to_string()),
            None,
            true,
            Some(ArgType::String),
            "f_flag tests -f=f_arg_val".to_string(),
        )
        .add_flag(
            "g_flag".to_string(),
            Some("g_flag".to_string()),
            None,
            true,
            Some(ArgType::String),
            "g_flag tests -gg_arg_val".to_string(),
        );
    let r = parse_ok(&p, input_args);

    let f_val = "f_arg_val".to_string();
    let f = r.get_arg("f_flag");
    assert!(matches!(f, Some(Arg::String(_))));
    let f = f.unwrap();
    match f {
        Arg::String(s) => {
            assert_eq!(s, &f_val);
        }
        _ => {}
    }

    let g_val = "g_arg_val".to_string();
    let g = r.get_arg("g_flag");
    assert!(matches!(g, Some(Arg::String(_))));
    let g = g.unwrap();
    match g {
        Arg::String(s) => {
            assert_eq!(s, &g_val);
        }
        _ => {}
    }
}

#[test]
/// Verify that we can parse short flags with arguments correctly
/// regardless of the various syntax options for passing arguments
fn test_short_flags_with_args() {
    let input_args: Vec<String> = vec![
        "command".to_string(),
        "-f=f_arg_val".to_string(),
        "-gg_arg_val".to_string(),
        "-h".to_string(),
        "h_arg_val".to_string(),
    ];

    let p = new("test parser".to_string())
        .add_flag(
            "f_flag".to_string(),
            None,
            Some('f'),
            true,
            Some(ArgType::String),
            "f_flag tests -f=f_arg_val".to_string(),
        )
        .add_flag(
            "g_flag".to_string(),
            None,
            Some('g'),
            true,
            Some(ArgType::String),
            "g_flag tests -gg_arg_val".to_string(),
        )
        .add_flag(
            "h_flag".to_string(),
            None,
            Some('h'),
            true,
            Some(ArgType::String),
            "h_flag tests -h h_arg_val".to_string(),
        );
    let r = parse_ok(&p, input_args);

    let f_val = "f_arg_val".to_string();
    let f = r.get_arg("f_flag");
    assert!(matches!(f, Some(Arg::String(_))));
    let f = f.unwrap();
    match f {
        Arg::String(s) => {
            assert_eq!(s, &f_val);
        }
        _ => {}
    }

    let g_val = "g_arg_val".to_string();
    let g = r.get_arg("g_flag");
    assert!(matches!(g, Some(Arg::String(_))));
    let g = g.unwrap();
    match g {
        Arg::String(s) => {
            assert_eq!(s, &g_val);
        }
        _ => {}
    }

    let h_val = "h_arg_val".to_string();
    let h = r.get_arg("h_flag");
    assert!(matches!(h, Some(Arg::String(_))));
    let h = h.unwrap();
    match h {
        Arg::String(s) => {
            assert_eq!(s, &h_val);
        }
        _ => {}
    }
}

#[test]
fn lib_it_works() {
    let args: Vec<String> = vec![
        "command".to_string(),
        "--verbose".to_string(),
        "--flag=flagvalue".to_string(),
        "posargvalue".to_string(),
    ];

    let p = new("test parser".to_string())
        .add_flag(
            "verbose".to_string(),
            Some("verbose".to_string()),
            Some('v'),
            false,
            None,
            "Flag verbose".to_string(),
        )
        .add_flag(
            "myflag".to_string(),
            Some("flag".to_string()),
            Some('f'),
            true,
            Some(ArgType::String),
            "Flag to test string".to_string(),
        )
        .add_flag(
            "optionalFlag".to_string(),
            Some("optionalFlag".to_string()),
            None,
            false,
            Some(ArgType::Integer),
            "Test optional flag".to_string(),
        )
        .add_flag(
            "posArg".to_string(),
            None,
            None,
            true,
            Some(ArgType::String),
            "Test positional argument".to_string(),
        );
    let r = parse_ok(&p, args);

    println!("{}", p.format_help());

    assert!(r.get_arg("verbose").is_some());
    assert!(r.get_arg("myflag").is_some());

    let arg = r.get_arg("optionalFlag");
    assert!(matches!(arg, Some(&Arg::Absent)));
}

#[test]
fn add_flag() {
    let parser = new("My parser".to_string()).add_flag(
        "myflag".to_string(),
        None,
        Some('c'),
        false,
        None,
        "Count chars".to_string(),
    );

    assert_eq!(parser.configs.len(), 1);
}
