use argscan::args::Arguments;
use argscan::handlers::BoolParameter;
use argscan::handlers::EnumParameter;
use argscan::handlers::IntParameter;
use argscan::handlers::SizeParameter;
use argscan::handlers::StringParameter;
use argscan::handlers::Validator;
use argscan::handlers::ValueHandler;
use argscan::numtext::parse_int;
use argscan::numtext::parse_size;
use argscan::switch::Switch;

#[test]
fn parse_int_accepts_plain_decimals() {
    assert_eq!(Some(0), parse_int("0"));
    assert_eq!(Some(12345), parse_int("12345"));
    assert_eq!(Some(7), parse_int("+7"));
    assert_eq!(Some(-7), parse_int("-7"));
    assert_eq!(Some(42), parse_int("0042"));
    assert_eq!(Some(9223372036854775807), parse_int("9223372036854775807"));
    assert_eq!(Some(-9223372036854775808), parse_int("-9223372036854775808"));
}

#[test]
fn parse_int_rejects_malformed_text() {
    assert_eq!(None, parse_int(""));
    assert_eq!(None, parse_int("-"));
    assert_eq!(None, parse_int("+"));
    assert_eq!(None, parse_int("1 2"));
    assert_eq!(None, parse_int(" 12"));
    assert_eq!(None, parse_int("12a"));
    assert_eq!(None, parse_int("--5"));
    assert_eq!(None, parse_int("9223372036854775808"));
    assert_eq!(None, parse_int("-9223372036854775809"));
}

#[test]
fn parse_size_scales_by_suffix() {
    assert_eq!(Some(3 * 1024), parse_size("3K"));
    assert_eq!(Some(3 * 1024 * 1024), parse_size("3M"));
    assert_eq!(Some(3 * 1024 * 1024 * 1024), parse_size("3G"));
    assert_eq!(Some(300), parse_size("300"));
    assert_eq!(Some(-1024), parse_size("-1K"));
    assert_eq!(None, parse_size(""));
    assert_eq!(None, parse_size("K"));
    assert_eq!(None, parse_size("3KB"));
    assert_eq!(None, parse_size("9223372036854775807G"));
}

#[test]
fn value_type_labels() {
    let int_h = ValueHandler::Int(IntParameter::new(0, Validator::Any));
    let size_h = ValueHandler::Size(SizeParameter::new(0, Validator::Any));
    let text_h = ValueHandler::Text(StringParameter::new(""));
    let flag_h = ValueHandler::Flag(BoolParameter::new());
    let choice_h = ValueHandler::Choice(EnumParameter::new(
        vec!["red".to_string(), "green".to_string(), "blue".to_string()],
        "red",
    ));
    assert_eq!(" int", int_h.value_type());
    assert_eq!(" size", size_h.value_type());
    assert_eq!(" string", text_h.value_type());
    assert_eq!("", flag_h.value_type());
    assert_eq!(" red|green|blue", choice_h.value_type());
}

#[test]
fn enum_duplicate_members_collapse() {
    let choice = EnumParameter::new(
        vec!["a".to_string(), "b".to_string(), "a".to_string()],
        "a",
    );
    assert_eq!(" a|b", ValueHandler::Choice(choice).value_type());
    // acceptance is unaffected by the dropped repetition
    let mut repeated = EnumParameter::new(vec!["a".to_string(), "a".to_string()], "x");
    assert!(repeated.parse_value("a"));
    assert_eq!("a", repeated.get_value());
    assert_eq!(" a", repeated.value_type());
}

#[test]
fn switch_lines() {
    let handlers = vec![
        ValueHandler::Int(IntParameter::new(0, Validator::Any)),
        ValueHandler::Flag(BoolParameter::new()),
    ];
    let both = Switch::new("port", Some('p'), Some("port"), 0);
    assert_eq!(" -p (or --port) int - port", both.to_string(&handlers));
    let short_only = Switch::new("verbose", Some('v'), None, 1);
    assert_eq!(" -v - verbose", short_only.to_string(&handlers));
    let long_only = Switch::new("port", None, Some("port"), 0);
    assert_eq!(" --port int - port", long_only.to_string(&handlers));
}

#[test]
fn usage_block() {
    let handlers = vec![
        ValueHandler::Int(IntParameter::new(0, Validator::Any)),
        ValueHandler::Flag(BoolParameter::new()),
        ValueHandler::Text(StringParameter::new("")),
    ];
    let switches = vec![
        Switch::new("port", Some('p'), None, 0),
        Switch::new("verbose", Some('v'), None, 1),
        Switch::new("source", None, Some("src"), 2),
    ];
    let arguments = Arguments::new(
        "prog",
        switches,
        Some(vec!["input".to_string(), "output".to_string()]),
    );
    assert!(arguments.check_handlers(&handlers));
    let expected = "Usage: prog input output\n -p int - port\n -v - verbose\n --src string - source\n";
    assert_eq!(expected, arguments.usage(&handlers));
}

#[test]
fn usage_lists_dual_key_switch_twice() {
    let handlers = vec![ValueHandler::Int(IntParameter::new(0, Validator::Any))];
    let switches = vec![Switch::new("port", Some('p'), Some("port"), 0)];
    let arguments = Arguments::new("prog", switches, None);
    let expected = "Usage: prog\n -p (or --port) int - port\n -p (or --port) int - port\n";
    assert_eq!(expected, arguments.usage(&handlers));
}

#[test]
fn handler_table_check() {
    let handlers = vec![ValueHandler::Flag(BoolParameter::new())];
    let good = Arguments::new("prog", vec![Switch::new("verbose", Some('v'), None, 0)], None);
    assert!(good.check_handlers(&handlers));
    let bad = Arguments::new("prog", vec![Switch::new("verbose", Some('v'), None, 1)], None);
    assert!(!bad.check_handlers(&handlers));
}
