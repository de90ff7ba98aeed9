use argscan::args::Arguments;
use argscan::handlers::BoolParameter;
use argscan::handlers::EnumParameter;
use argscan::handlers::IntParameter;
use argscan::handlers::SizeParameter;
use argscan::handlers::StringParameter;
use argscan::handlers::Validator;
use argscan::handlers::ValueHandler;
use argscan::switch::Switch;

fn int_value(h: &ValueHandler) -> isize {
    match h {
        ValueHandler::Int(p) => p.get_value(),
        _ => panic!("expected an integer handler"),
    }
}

fn size_value(h: &ValueHandler) -> isize {
    match h {
        ValueHandler::Size(p) => p.get_value(),
        _ => panic!("expected a size handler"),
    }
}

fn text_value(h: &ValueHandler) -> String {
    match h {
        ValueHandler::Text(p) => p.get_value(),
        _ => panic!("expected a string handler"),
    }
}

fn choice_value(h: &ValueHandler) -> String {
    match h {
        ValueHandler::Choice(p) => p.get_value(),
        _ => panic!("expected an enumerated handler"),
    }
}

fn flag_value(h: &ValueHandler) -> bool {
    match h {
        ValueHandler::Flag(p) => p.get_value(),
        _ => panic!("expected a flag handler"),
    }
}

fn strings(items: &[&str]) -> Vec<String> {
    items.iter().map(|s| s.to_string()).collect()
}

#[test]
fn test_arguments_parser() {
    let mut handlers: Vec<ValueHandler> = vec![
        ValueHandler::Int(IntParameter::new(6379, Validator::AtLeast(1))),
        ValueHandler::Size(SizeParameter::new(1024 * 1024 * 1024, Validator::AtLeast(1))), //1G
        ValueHandler::Int(IntParameter::new(4, Validator::AtLeast(1))),
        ValueHandler::Flag(BoolParameter::new()),
        ValueHandler::Text(StringParameter::new("init")),
        ValueHandler::Choice(EnumParameter::new(vec!["value".to_string()], "init")),
    ];
    let switches = vec![
        Switch::new("port", Some('p'), None, 0),
        Switch::new("maximum_memory", Some('m'), None, 1),
        Switch::new("threads", Some('t'), None, 2),
        Switch::new("verbose", Some('v'), None, 3),
        Switch::new("test", None, Some("ss"), 4),
        Switch::new("test_enum", Some('e'), None, 5),
    ];
    let mut arguments = Arguments::new(
        "cache",
        switches,
        Some(vec!["arg1".to_string(), "arg2".to_string()]),
    );
    let result = arguments.build(
        &mut handlers,
        vec![
            "-p".to_string(),
            "3333".to_string(),
            "-m".to_string(),
            "1M".to_string(),
            "-t".to_string(),
            "12".to_string(),
            "-v".to_string(),
            "--ss".to_string(),
            "test".to_string(),
            "-e".to_string(),
            "value".to_string(),
            "arg1".to_string(),
            "arg2".to_string(),
        ],
    );
    assert!(
        result.is_ok(),
        "{}",
        result.err().map(|e| e.message()).unwrap_or("".to_string())
    );
    assert_eq!(3333, int_value(&handlers[0]));
    assert_eq!(1024 * 1024, size_value(&handlers[1]));
    assert_eq!(12, int_value(&handlers[2]));
    assert_eq!(true, flag_value(&handlers[3]));
    assert_eq!("test", text_value(&handlers[4]));
    assert_eq!("value", choice_value(&handlers[5]));
    assert_eq!(
        vec!["arg1".to_string(), "arg2".to_string()],
        arguments.get_other_arguments().clone()
    );
}

#[test]
fn int_validator_holds_after_parse() {
    let mut handlers = vec![ValueHandler::Int(IntParameter::new(10, Validator::Between(1, 100)))];
    let switches = vec![Switch::new("count", Some('c'), None, 0)];
    let mut arguments = Arguments::new("prog", switches, None);
    let result = arguments.build(&mut handlers, strings(&["-c", "42"]));
    assert!(result.is_ok());
    let v = int_value(&handlers[0]);
    assert_eq!(42, v);
    assert!(1 <= v && v <= 100);

    // a value the validator refuses is not committed
    let mut arguments = Arguments::new("prog", vec![Switch::new("count", Some('c'), None, 0)], None);
    let result = arguments.build(&mut handlers, strings(&["-c", "1000"]));
    assert!(result.is_err());
    assert_eq!("invalid count value", result.err().unwrap().message());
    assert_eq!(42, int_value(&handlers[0]));
}

#[test]
fn size_suffixes_round_trip() {
    let mut handlers = vec![ValueHandler::Size(SizeParameter::new(0, Validator::Any))];
    let run = |handlers: &mut Vec<ValueHandler>, text: &str| -> Result<(), String> {
        let switches = vec![Switch::new("mem", Some('m'), None, 0)];
        let mut arguments = Arguments::new("prog", switches, None);
        arguments
            .build(handlers, strings(&["-m", text]))
            .map_err(|e| e.message())
    };
    assert!(run(&mut handlers, "7K").is_ok());
    assert_eq!(7 * 1024, size_value(&handlers[0]));
    assert!(run(&mut handlers, "7M").is_ok());
    assert_eq!(7 * 1024 * 1024, size_value(&handlers[0]));
    assert!(run(&mut handlers, "7G").is_ok());
    assert_eq!(7 * 1024 * 1024 * 1024, size_value(&handlers[0]));
    assert!(run(&mut handlers, "7").is_ok());
    assert_eq!(7, size_value(&handlers[0]));
    assert!(run(&mut handlers, "-2K").is_ok());
    assert_eq!(-2048, size_value(&handlers[0]));
}

#[test]
fn size_bad_remainder_fails() {
    let mut handlers = vec![ValueHandler::Size(SizeParameter::new(5, Validator::Any))];
    for text in ["xK", "1x2M", "G", "", "12q", "1KM"] {
        let switches = vec![Switch::new("mem", Some('m'), None, 0)];
        let mut arguments = Arguments::new("prog", switches, None);
        let result = arguments.build(&mut handlers, strings(&["-m", text]));
        assert!(result.is_err(), "size text {:?} should be rejected", text);
        assert_eq!("invalid mem value", result.err().unwrap().message());
        assert_eq!(5, size_value(&handlers[0]));
    }
}

#[test]
fn enum_accepts_only_members() {
    let mut handlers = vec![ValueHandler::Choice(EnumParameter::new(
        strings(&["on", "off"]),
        "off",
    ))];
    let switches = vec![Switch::new("mode", Some('o'), None, 0)];
    let mut arguments = Arguments::new("prog", switches, None);
    let result = arguments.build(&mut handlers, strings(&["-o", "on"]));
    assert!(result.is_ok());
    assert_eq!("on", choice_value(&handlers[0]));

    let mut arguments = Arguments::new("prog", vec![Switch::new("mode", Some('o'), None, 0)], None);
    let result = arguments.build(&mut handlers, strings(&["-o", "ON"]));
    assert!(result.is_err());
    assert_eq!("on", choice_value(&handlers[0]));
}

#[test]
fn bool_flag_lifecycle() {
    let mut handlers = vec![ValueHandler::Flag(BoolParameter::new())];
    assert_eq!(false, flag_value(&handlers[0]));
    let switches = vec![Switch::new("verbose", Some('v'), None, 0)];
    let mut arguments = Arguments::new("prog", switches, None);
    // the token behind the bare flag is a positional, not the flag's value
    let result = arguments.build(&mut handlers, strings(&["-v", "tail"]));
    assert!(result.is_ok());
    assert_eq!(true, flag_value(&handlers[0]));
    assert_eq!(vec!["tail".to_string()], arguments.get_other_arguments().clone());
}

#[test]
fn last_occurrence_wins() {
    let mut handlers = vec![ValueHandler::Int(IntParameter::new(0, Validator::Any))];
    let switches = vec![Switch::new("port", Some('p'), None, 0)];
    let mut arguments = Arguments::new("prog", switches, None);
    let result = arguments.build(&mut handlers, strings(&["-p", "1111", "-p", "2222"]));
    assert!(result.is_ok());
    assert_eq!(2222, int_value(&handlers[0]));
}

#[test]
fn positional_order_preserved() {
    let mut handlers = vec![
        ValueHandler::Int(IntParameter::new(0, Validator::Any)),
        ValueHandler::Flag(BoolParameter::new()),
    ];
    let switches = vec![
        Switch::new("port", Some('p'), None, 0),
        Switch::new("verbose", Some('v'), None, 1),
    ];
    let mut arguments = Arguments::new("prog", switches, None);
    let result = arguments.build(
        &mut handlers,
        strings(&["first", "-p", "5", "second", "-v", "third"]),
    );
    assert!(result.is_ok());
    assert_eq!(
        strings(&["first", "second", "third"]),
        arguments.get_other_arguments().clone()
    );
}

#[test]
fn arity_check() {
    let switches = vec![Switch::new("verbose", Some('v'), None, 0)];
    let mut handlers = vec![ValueHandler::Flag(BoolParameter::new())];
    let mut arguments = Arguments::new("prog", switches, Some(strings(&["a", "b"])));
    let result = arguments.build(&mut handlers, strings(&["only-one"]));
    assert!(result.is_err());
    assert_eq!(
        "incorrect number of arguments",
        result.err().unwrap().message()
    );

    let switches = vec![Switch::new("verbose", Some('v'), None, 0)];
    let mut arguments = Arguments::new("prog", switches, Some(strings(&["a", "b"])));
    let result = arguments.build(&mut handlers, strings(&["one", "-v", "two"]));
    assert!(result.is_ok());
}

#[test]
fn missing_value_fails() {
    let mut handlers = vec![ValueHandler::Int(IntParameter::new(6379, Validator::AtLeast(1)))];
    let switches = vec![Switch::new("port", Some('p'), None, 0)];
    let mut arguments = Arguments::new("prog", switches, None);
    let result = arguments.build(&mut handlers, strings(&["-p"]));
    assert!(result.is_err());
    assert_eq!("switch value expected", result.err().unwrap().message());
    // the default was never touched
    assert_eq!(6379, int_value(&handlers[0]));
}

#[test]
fn enum_rejection_keeps_default() {
    let mut handlers = vec![ValueHandler::Choice(EnumParameter::new(
        vec!["value".to_string()],
        "init",
    ))];
    let switches = vec![Switch::new("test_enum", Some('e'), None, 0)];
    let mut arguments = Arguments::new("prog", switches, None);
    let result = arguments.build(&mut handlers, strings(&["-e", "bogus"]));
    assert!(result.is_err());
    assert_eq!("init", choice_value(&handlers[0]));
}

#[test]
fn empty_token_list() {
    let mut handlers = vec![ValueHandler::Flag(BoolParameter::new())];
    let switches = vec![Switch::new("verbose", Some('v'), None, 0)];
    let mut arguments = Arguments::new("prog", switches, None);
    let result = arguments.build(&mut handlers, Vec::new());
    assert!(result.is_ok());
    assert_eq!(false, flag_value(&handlers[0]));
    assert!(arguments.get_other_arguments().is_empty());
}

#[test]
fn unknown_and_malformed_switches() {
    let mut handlers = vec![ValueHandler::Flag(BoolParameter::new())];
    let cases: &[(&str, &str)] = &[
        ("--", "invalid ext_switch"),
        ("--nope", "unknown ext switch"),
        ("-xy", "invalid switch"),
        ("-", "invalid switch"),
        ("-x", "unknown switch"),
    ];
    for (token, message) in cases {
        let switches = vec![Switch::new("verbose", Some('v'), None, 0)];
        let mut arguments = Arguments::new("prog", switches, None);
        let result = arguments.build(&mut handlers, strings(&[token]));
        assert!(result.is_err(), "token {:?} should be rejected", token);
        assert_eq!(*message, result.err().unwrap().message());
    }
}

#[test]
fn long_switch_takes_value() {
    let mut handlers = vec![ValueHandler::Text(StringParameter::new("init"))];
    let switches = vec![Switch::new("source", Some('s'), Some("source"), 0)];
    let mut arguments = Arguments::new("prog", switches, None);
    let result = arguments.build(&mut handlers, strings(&["--source", "north"]));
    assert!(result.is_ok());
    assert_eq!("north", text_value(&handlers[0]));
}

#[test]
fn colliding_keys_use_last_registration() {
    let mut handlers = vec![
        ValueHandler::Int(IntParameter::new(0, Validator::Any)),
        ValueHandler::Int(IntParameter::new(0, Validator::Any)),
    ];
    let switches = vec![
        Switch::new("first", Some('n'), None, 0),
        Switch::new("second", Some('n'), None, 1),
    ];
    let mut arguments = Arguments::new("prog", switches, None);
    let result = arguments.build(&mut handlers, strings(&["-n", "9"]));
    assert!(result.is_ok());
    assert_eq!(0, int_value(&handlers[0]));
    assert_eq!(9, int_value(&handlers[1]));
}

#[test]
fn validator_variants() {
    let mut handlers = vec![
        ValueHandler::Int(IntParameter::new(0, Validator::Any)),
        ValueHandler::Int(IntParameter::new(0, Validator::AtMost(10))),
    ];
    let switches = vec![
        Switch::new("free", Some('f'), None, 0),
        Switch::new("capped", Some('c'), None, 1),
    ];
    let mut arguments = Arguments::new("prog", switches, None);
    let result = arguments.build(&mut handlers, strings(&["-f", "-123", "-c", "10"]));
    assert!(result.is_ok());
    assert_eq!(-123, int_value(&handlers[0]));
    assert_eq!(10, int_value(&handlers[1]));

    let switches = vec![
        Switch::new("free", Some('f'), None, 0),
        Switch::new("capped", Some('c'), None, 1),
    ];
    let mut arguments = Arguments::new("prog", switches, None);
    let result = arguments.build(&mut handlers, strings(&["-c", "11"]));
    assert!(result.is_err());
    assert_eq!("invalid capped value", result.err().unwrap().message());
}
