use cliargs::typed::{ArgSettings, ArgType, CliArg, CliArgsParser};
use cliargs::{CliDataBuilder, CliStep};

#[test]
fn it_works() {
    CliStep::new(())
        .then(|_: ()| "123".to_string())
        .then(|s: String| s.parse::<u32>().unwrap())
        .end(|n| println!("n + 10 = {}", n + 10));

    let data = CliDataBuilder::new(String::new())
        .ask("q1".to_string())
        .then(|a, data| data.push_str(a))
        .ask("q2".to_string())
        .then(|a, data| data.push_str(a))
        .end();

    println!("{}", data);
    assert_eq!(data, "q: q1, d: None\nq: q2, d: None\n");
}

#[test]
fn step_chain_carries_values() {
    let mut seen = 0u32;
    CliStep::new(4u32)
        .then(|n: u32| n * 3)
        .end(|n| seen = n + 1);
    assert_eq!(seen, 13);
}

#[test]
fn builder_passes_default_to_answer() {
    let data = CliDataBuilder::new(Vec::<String>::new())
        .ask_with_default("name?".to_string(), "x\"y".to_string())
        .then(|a, data| data.push(a.to_string()))
        .end();
    assert_eq!(data, vec!["q: name?, d: Some(\"x\\\"y\")\n".to_string()]);
    let b = CliDataBuilder::new(7);
    assert!(std::ptr::eq(b.build(), &b));
    assert_eq!(b.end(), 7);
}

#[test]
fn typed_slots_unwrap() {
    let unit = CliArg::Unit(Some(()), ArgSettings { optional: true, default_value: None });
    assert_eq!(unit.unwrap_unit(), Some(&()));
    let b = CliArg::Bool(Some(true), ArgSettings { optional: false, default_value: None });
    assert_eq!(b.unwrap_bool(), Some(&true));
    let i = CliArg::Int(None, ArgSettings { optional: true, default_value: Some(3) });
    assert_eq!(i.unwrap_int(), None);
    let s = CliArg::String(Some("v".to_string()), ArgSettings { optional: false, default_value: None });
    assert_eq!(s.unwrap_string(), Some(&"v".to_string()));
}

#[test]
fn typed_parser_slots() {
    let mut p = CliArgsParser::new();
    p.with::<i32>("--n".to_string(), None)
        .with::<String>("--s".to_string(), Some(ArgSettings { optional: true, default_value: None }))
        .with::<bool>("--b".to_string(), None);
    assert_eq!(p.get::<i32>("--n"), None);
    assert_eq!(p.get::<String>("--s"), None);
    assert_eq!(p.get::<bool>("--b"), None);
    assert_eq!(p.get::<()>("--missing"), None);
    let mut q = CliArgsParser::new();
    q.with::<i32>("-k".to_string(), Some(ArgSettings { optional: true, default_value: Some(3) }));
    let d: ArgSettings<bool> = Default::default();
    assert!(!d.optional && d.default_value.is_none());
}

#[test]
fn arg_type_object_and_extract() {
    let slot = <i32 as ArgType<i32>>::object(ArgSettings { optional: false, default_value: Some(2) });
    assert_eq!(<i32 as ArgType<i32>>::extract(&slot), None);
    let filled = CliArg::Int(Some(9), ArgSettings { optional: false, default_value: None });
    assert_eq!(<i32 as ArgType<i32>>::extract(&filled), Some(&9));
    let text = CliArg::String(Some("t".to_string()), ArgSettings { optional: false, default_value: None });
    assert_eq!(<String as ArgType<String>>::extract(&text), Some(&"t".to_string()));
    let unit = <() as ArgType<()>>::object(ArgSettings { optional: true, default_value: None });
    assert_eq!(<() as ArgType<()>>::extract(&unit), None);
    let flag = <bool as ArgType<bool>>::object(ArgSettings { optional: true, default_value: None });
    assert!(matches!(flag, CliArg::Bool(None, _)));
}
