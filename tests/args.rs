use cliargs::args::{Arg, ArgError, ArgSettings, CliArgs, ParseError};
use cliargs::schema::{parse_schema, SchemaError};

fn toks(words: &[&str]) -> Vec<String> {
    words.iter().map(|w| w.to_string()).collect()
}

#[test]
fn cli_args_use() {
    let cmd_line = "";
    let mut args = CliArgs::new();
    assert_eq!(args.with("--name/-n=s"), Ok(0));
    assert_eq!(args.with("--age/-a = i? ::>18"), Ok(1));
    assert_eq!(args.with("--adult=b?"), Ok(2));
    assert_eq!(args.parse(cmd_line), Err(ParseError::MissingRequiredArgument(0)));

    let name = args.get_str("--name");
    let age = args.get_int("-a");
    let is_adult = args.get_bool("--adult");
    assert_eq!(name, Ok(None));
    assert_eq!(age, Ok(Some(18)));
    assert_eq!(is_adult, Ok(None));
}

#[test]
fn line_with_all_three_kinds() {
    let mut args = CliArgs::new();
    args.with("--name/-n=s").unwrap();
    args.with("--age/-a = i? ::>18").unwrap();
    args.with("--adult=b?").unwrap();
    assert_eq!(args.parse("  --name=Ann   -a 30 --adult "), Ok(()));
    assert_eq!(args.get_str("-n"), Ok(Some("Ann")));
    assert_eq!(args.get_string("--name"), Ok(Some("Ann".to_string())));
    assert_eq!(args.get_int("--age"), Ok(Some(30)));
    assert_eq!(args.get_bool("--adult"), Ok(Some(true)));
    assert_eq!(args.unwrap_str("--name"), "Ann");
    assert_eq!(args.unwrap_string("-n"), "Ann".to_string());
    assert_eq!(args.unwrap_int("-a"), 30);
    assert!(args.unwrap_bool("--adult"));
}

#[test]
fn optional_without_default_reads_empty() {
    let mut args = CliArgs::new();
    args.with("--tag/-t=s?").unwrap();
    args.with("--level=i?").unwrap();
    assert_eq!(args.parse_tokens(&toks(&[])), Ok(()));
    assert_eq!(args.get_string_multi("--tag").unwrap().len(), 0);
    assert_eq!(args.get_int_multi("--level"), Ok(&[][..]));
    assert_eq!(args.get_int("--level"), Ok(None));
    assert_eq!(args.unwrap_int_multi("--level"), &[] as &[i32]);
}

#[test]
fn required_with_default_takes_default() {
    let mut args = CliArgs::new();
    args.with("--port=i::>80").unwrap();
    args.with("--host=s::>localhost").unwrap();
    args.with("--fast=b::>false").unwrap();
    assert_eq!(args.parse_tokens(&toks(&[])), Ok(()));
    assert_eq!(args.get_int_multi("--port"), Ok(&[80][..]));
    assert_eq!(args.unwrap_string_multi("--host"), &["localhost".to_string()][..]);
    assert_eq!(args.unwrap_bool_multi("--fast"), &[false][..]);
}

#[test]
fn required_without_default_is_missing() {
    let mut args = CliArgs::new();
    args.with("--x=i?").unwrap();
    args.with("--name=s").unwrap();
    assert_eq!(args.parse_tokens(&toks(&[])), Err(ParseError::MissingRequiredArgument(1)));
}

#[test]
fn repeated_short_key_keeps_order() {
    let mut args = CliArgs::new();
    args.with("-n=s").unwrap();
    assert_eq!(args.parse_tokens(&toks(&["-n", "Alice", "-n", "Bob"])), Ok(()));
    assert_eq!(
        args.get_string_multi("-n"),
        Ok(&["Alice".to_string(), "Bob".to_string()][..])
    );
}

#[test]
fn repeated_long_key_keeps_order() {
    let mut args = CliArgs::new();
    args.with("--n=i").unwrap();
    assert_eq!(args.parse_tokens(&toks(&["--n=3", "--n=-1", "--n=+2"])), Ok(()));
    assert_eq!(args.get_int_multi("--n"), Ok(&[3, -1, 2][..]));
}

#[test]
fn default_round_trip() {
    let mut args = CliArgs::new();
    args.with("--count=i?::>5").unwrap();
    assert_eq!(args.parse_tokens(&toks(&[])), Ok(()));
    assert_eq!(args.get_int("--count"), Ok(Some(5)));
}

#[test]
fn boolean_alias_shares_descriptor() {
    let mut args = CliArgs::new();
    args.with("--verbose/-v=b?").unwrap();
    assert_eq!(args.parse_tokens(&toks(&["-v"])), Ok(()));
    assert_eq!(args.get_bool_multi("--verbose"), Ok(&[true][..]));
    assert_eq!(args.get_bool_multi("-v"), Ok(&[true][..]));
}

#[test]
fn non_numeric_integer_is_value_type_error() {
    let mut args = CliArgs::new();
    args.with("--age=i").unwrap();
    assert_eq!(args.parse_tokens(&toks(&["--age=notanumber"])), Err(ParseError::ValueTypeError));
}

#[test]
fn out_of_range_integer_is_value_type_error() {
    let mut args = CliArgs::new();
    args.with("-a=i").unwrap();
    assert_eq!(args.parse_tokens(&toks(&["-a", "2147483648"])), Err(ParseError::ValueTypeError));
    let mut args = CliArgs::new();
    args.with("--a/-a=i").unwrap();
    assert_eq!(args.parse_tokens(&toks(&["--a=-2147483648"])), Ok(()));
    assert_eq!(args.get_int("-a"), Ok(Some(i32::MIN)));
    let mut args = CliArgs::new();
    args.with("-a=i").unwrap();
    assert_eq!(args.parse_tokens(&toks(&["-a", "-5"])), Err(ParseError::UnknownKey));
}

#[test]
fn unknown_key_stops_scan() {
    let mut args = CliArgs::new();
    args.with("-n=s?").unwrap();
    assert_eq!(args.parse_tokens(&toks(&["-x", "-n", "Bob"])), Err(ParseError::UnknownKey));
    assert_eq!(args.get_string_multi("-n").unwrap().len(), 0);
    let mut args = CliArgs::new();
    assert_eq!(args.parse_tokens(&toks(&["-x"])), Err(ParseError::UnknownKey));
    assert_eq!(args.parse_tokens(&toks(&["--x=1"])), Err(ParseError::UnknownKey));
}

#[test]
fn bare_value_is_dangling() {
    let mut args = CliArgs::new();
    assert_eq!(args.parse_tokens(&toks(&["standalone"])), Err(ParseError::DanglingValue));
}

#[test]
fn boolean_long_key_with_value_is_malformed() {
    let mut args = CliArgs::new();
    args.with("--quiet=b?").unwrap();
    assert_eq!(args.parse_tokens(&toks(&["--quiet=yes"])), Err(ParseError::MalformedArgument));
    let mut args = CliArgs::new();
    args.with("--quiet=b?").unwrap();
    assert_eq!(args.parse_tokens(&toks(&["--quiet="])), Ok(()));
    assert_eq!(args.get_bool("--quiet"), Ok(Some(true)));
}

#[test]
fn accessor_errors() {
    let mut args = CliArgs::new();
    args.with("--n=i?").unwrap();
    assert_eq!(args.parse_tokens(&toks(&[])), Ok(()));
    assert_eq!(args.get_int("--m"), Err(ArgError::WrongKey));
    assert_eq!(args.get_bool("--n"), Err(ArgError::WrongType));
    assert_eq!(args.get_str("--n"), Err(ArgError::WrongType));
    assert_eq!(args.get_string_multi("--n").unwrap_err(), ArgError::WrongType);
}

#[test]
fn schema_errors() {
    let mut args = CliArgs::new();
    assert_eq!(args.with("name=s"), Err(SchemaError));
    assert_eq!(args.with("--name"), Err(SchemaError));
    assert_eq!(args.with("--name=x"), Err(SchemaError));
    assert_eq!(args.with("--name=s!"), Err(SchemaError));
    assert_eq!(args.with("--n=i::>abc"), Err(SchemaError));
    assert_eq!(args.with("--b=b::>yes"), Err(SchemaError));
    assert_eq!(args.with("--a/b=s"), Err(SchemaError));
    assert_eq!(args.with("-=s"), Err(SchemaError));
    assert_eq!(args.with("--ok=s"), Ok(0));
}

#[test]
fn schema_parts() {
    let (l, s, a) = parse_schema(" --long / -l = i ? ::> -7 ").unwrap();
    assert_eq!(l, Some("--long".to_string()));
    assert_eq!(s, Some("-l".to_string()));
    match a {
        Arg::Int { vals, settings } => {
            assert!(vals.is_empty());
            assert!(settings.optional);
            assert_eq!(settings.default_val, Some(-7));
        }
        _ => panic!("expected an integer descriptor"),
    }
    let (l, s, a) = parse_schema("-q=s::>hi there").unwrap();
    assert_eq!(l, None);
    assert_eq!(s, Some("-q".to_string()));
    match a {
        Arg::String { settings, .. } => {
            assert!(!settings.optional);
            assert_eq!(settings.default_val, Some("hithere".to_string()));
        }
        _ => panic!("expected a text descriptor"),
    }
}

#[test]
fn settings_apply() {
    let s = ArgSettings { optional: false, default_val: Some(4) };
    let mut v: Vec<i32> = Vec::new();
    assert_eq!(s.apply(&mut v), Ok(()));
    assert_eq!(v, vec![4]);
    let mut v = vec![1, 2];
    assert_eq!(s.apply(&mut v), Ok(()));
    assert_eq!(v, vec![1, 2]);
    let s: ArgSettings<bool> = ArgSettings { optional: false, default_val: None };
    let mut v: Vec<bool> = Vec::new();
    assert_eq!(s.apply(&mut v), Err(()));
    let s: ArgSettings<String> = ArgSettings { optional: true, default_val: None };
    let mut v: Vec<String> = Vec::new();
    assert_eq!(s.apply(&mut v), Ok(()));
    assert!(v.is_empty());
}

#[test]
fn arg_apply_settings() {
    let mut a = Arg::String {
        vals: Vec::new(),
        settings: ArgSettings { optional: false, default_val: Some("d".to_string()) },
    };
    assert_eq!(a.apply_settings(), Ok(()));
    match a {
        Arg::String { vals, .. } => assert_eq!(vals, vec!["d".to_string()]),
        _ => panic!("expected a text descriptor"),
    }
    let mut b = Arg::Bool { vals: Vec::new(), settings: ArgSettings { optional: false, default_val: None } };
    assert_eq!(b.apply_settings(), Err(()));
}

#[test]
fn later_declaration_takes_shared_name() {
    let mut args = CliArgs::new();
    args.with("--a=i?").unwrap();
    args.with("--a/-b=s?").unwrap();
    assert_eq!(args.parse_tokens(&toks(&["--a=x"])), Ok(()));
    assert_eq!(args.get_str("-b"), Ok(Some("x")));
}

#[test]
fn unicode_names_and_whitespace() {
    let mut args = CliArgs::new();
    assert_eq!(args.with("--\u{e9}t\u{e9}/-a=s"), Ok(0));
    assert_eq!(args.with("--b=s?\u{A0}"), Ok(1));
    assert_eq!(args.with("--c$=s"), Err(SchemaError));
    assert_eq!(args.parse("--\u{e9}t\u{e9}=x\u{0B}-a\u{2028}y"), Ok(()));
    assert_eq!(
        args.get_string_multi("-a"),
        Ok(&["x".to_string(), "y".to_string()][..])
    );
    let mut empty = CliArgs::new();
    assert_eq!(empty.parse("\u{0B}\u{3000}"), Ok(()));
}

#[test]
fn default_settings() {
    let s: ArgSettings<i32> = Default::default();
    assert!(!s.optional);
    assert_eq!(s.default_val, None);
    let mut args = CliArgs::default();
    assert_eq!(args.parse(""), Ok(()));
    let shown = format!("{:?}", args);
    assert!(shown.contains("CliArgs"));
}
