use dconf_rs::listing::{drop_sentinel, split_listing, trim_end};
use dconf_rs::text::{format_i32, format_numeral, parse_i32, parse_u32, strip_quotes};
use dconf_rs::{
    get_boolean, get_int, get_string, get_uint, list_dir, list_request, raw_value, read_request,
    set_boolean, set_int, set_string, set_uint, write_outcome, write_request, Action, ConfigError,
};

fn printed(text: &str) -> Option<String> {
    Some(format!("{}\n", text))
}

fn stored_value(action: dconf_rs::Invocation) -> String {
    assert_eq!(action.action, Action::Write);
    action.value.expect("a write carries a value")
}

fn strings(v: &[&str]) -> Vec<String> {
    v.iter().map(|s| s.to_string()).collect()
}

#[test]
fn boolean_round_trip() {
    for v in [true, false] {
        let written = stored_value(set_boolean("/org/example/app/flag", v));
        assert_eq!(get_boolean(&printed(&written)), Ok(v));
    }
}

#[test]
fn boolean_is_lenient() {
    assert_eq!(get_boolean(&printed("yes")), Ok(false));
    assert_eq!(get_boolean(&printed("")), Ok(false));
    assert_eq!(get_boolean(&printed("True")), Ok(false));
    assert_eq!(get_boolean(&printed("'true'")), Ok(true));
}

#[test]
fn boolean_launch_failure() {
    assert_eq!(get_boolean(&None), Err(ConfigError::Launch(Action::Read)));
}

#[test]
fn int_round_trip() {
    for n in [0, 1, -1, 42, -42, 1000, i32::MAX, i32::MIN] {
        let written = stored_value(set_int("/org/example/app/n", n));
        assert_eq!(get_int(&printed(&written)), Ok(n));
    }
}

#[test]
fn uint_round_trip() {
    for n in [0u32, 7, 10, 4096, u32::MAX] {
        let written = stored_value(set_uint("/org/example/app/n", n));
        assert_eq!(get_uint(&printed(&written)), Ok(n));
    }
}

#[test]
fn int_written_in_decimal() {
    assert_eq!(stored_value(set_int("/k", -305)), "-305");
    assert_eq!(stored_value(set_int("/k", i32::MIN)), "-2147483648");
    assert_eq!(stored_value(set_uint("/k", 4294967295)), "4294967295");
    assert_eq!(format_numeral(0), "0");
    assert_eq!(format_numeral(18446744073709551615), "18446744073709551615");
    assert_eq!(format_i32(0), "0");
}

#[test]
fn string_round_trip_hello() {
    let written = stored_value(set_string("/org/example/app/name", "hello"));
    assert_eq!(written, "'hello'");
    assert_eq!(get_string(&printed(&written)), Ok("hello".to_string()));
}

#[test]
fn string_embedded_quote_is_stripped() {
    let written = stored_value(set_string("/org/example/app/name", "it's"));
    assert_eq!(written, "'it's'");
    assert_eq!(get_string(&printed(&written)), Ok("its".to_string()));
}

#[test]
fn string_launch_failure() {
    assert_eq!(get_string(&None), Err(ConfigError::Launch(Action::Read)));
}

#[test]
fn raw_value_drops_quotes_and_line_breaks() {
    assert_eq!(raw_value("'a'\n"), "a");
    assert_eq!(raw_value("x\ny\n"), "xy");
    assert_eq!(raw_value("héllo wörld"), "héllo wörld");
    assert_eq!(raw_value(""), "");
}

#[test]
fn int_not_an_integer() {
    assert_eq!(get_int(&printed("abc")), Err(ConfigError::NotAnInteger));
    assert_ne!(get_int(&printed("abc")), Err(ConfigError::Launch(Action::Read)));
    assert_eq!(get_int(&None), Err(ConfigError::Launch(Action::Read)));
    assert_eq!(
        ConfigError::NotAnInteger.message(),
        "Value is not an integer".to_string()
    );
}

#[test]
fn int_parse_edges() {
    assert_eq!(get_int(&printed("+17")), Ok(17));
    assert_eq!(get_int(&printed("007")), Ok(7));
    assert_eq!(get_int(&printed("2147483648")), Err(ConfigError::NotAnInteger));
    assert_eq!(get_int(&printed("-2147483649")), Err(ConfigError::NotAnInteger));
    assert_eq!(get_int(&printed("")), Err(ConfigError::NotAnInteger));
    assert_eq!(get_int(&printed("-")), Err(ConfigError::NotAnInteger));
    assert_eq!(get_int(&printed("1 2")), Err(ConfigError::NotAnInteger));
    assert_eq!(get_int(&printed("int32 5")), Err(ConfigError::NotAnInteger));
    assert_eq!(parse_i32("-0"), Some(0));
    assert_eq!(parse_i32("99999999999999999999"), None);
}

#[test]
fn uint_parse_edges() {
    assert_eq!(get_uint(&printed("-1")), Err(ConfigError::NotAnInteger));
    assert_eq!(get_uint(&printed("4294967296")), Err(ConfigError::NotAnInteger));
    assert_eq!(get_uint(&printed("+3")), Ok(3));
    assert_eq!(get_uint(&None), Err(ConfigError::Launch(Action::Read)));
    assert_eq!(parse_u32("-0"), None);
    assert_eq!(parse_u32("+"), None);
}

#[test]
fn list_requires_trailing_separator() {
    let r = list_request("/org/example/app");
    assert!(matches!(r, Err(ConfigError::MissingTrailingSeparator)));
    assert!(matches!(list_request(""), Err(ConfigError::MissingTrailingSeparator)));
    assert_eq!(
        ConfigError::MissingTrailingSeparator.message(),
        "Key must end with a trailing '/'".to_string()
    );
    let ok = list_request("/org/example/app/").expect("a directory key");
    assert_eq!(ok.action, Action::List);
    assert_eq!(ok.args(), strings(&["list", "/org/example/app/"]));
}

#[test]
fn list_drops_sentinel() {
    assert_eq!(drop_sentinel(strings(&["a", "b", "list"])), strings(&["a", "b"]));
    assert_eq!(drop_sentinel(strings(&["a", "b"])), strings(&["a", "b"]));
    assert_eq!(drop_sentinel(strings(&["list", "a"])), strings(&["list", "a"]));
    assert_eq!(drop_sentinel(Vec::new()), Vec::<String>::new());
    assert_eq!(list_dir(&Some("a\nb\nlist\n".to_string())), Ok(strings(&["a", "b"])));
    assert_eq!(list_dir(&Some("a\nb\n".to_string())), Ok(strings(&["a", "b"])));
}

#[test]
fn list_output_parsing() {
    assert_eq!(split_listing("'x/'\ny\n  \n"), strings(&["x/", "y"]));
    assert_eq!(split_listing(""), strings(&[""]));
    assert_eq!(split_listing("a\n\nb"), strings(&["a", "", "b"]));
    assert_eq!(trim_end("ab \t\n\u{3000}"), "ab");
    assert_eq!(trim_end(" a"), " a");
    assert_eq!(strip_quotes("'it's'"), "its");
    assert_eq!(list_dir(&None), Err(ConfigError::Launch(Action::List)));
    assert_eq!(list_dir(&Some("list\n".to_string())), Ok(Vec::<String>::new()));
}

#[test]
fn requests_carry_arguments() {
    assert_eq!(read_request("/k").args(), strings(&["read", "/k"]));
    assert_eq!(write_request("/k", "5").args(), strings(&["write", "/k", "5"]));
    assert_eq!(set_boolean("/k", true).args(), strings(&["write", "/k", "true"]));
    assert_eq!(set_boolean("/k", false).args(), strings(&["write", "/k", "false"]));
}

#[test]
fn write_outcomes() {
    assert_eq!(write_outcome(true), Ok(()));
    assert_eq!(write_outcome(false), Err(ConfigError::Launch(Action::Write)));
    assert_eq!(ConfigError::Launch(Action::Write).message(), "Unable to set key".to_string());
    assert_eq!(ConfigError::Launch(Action::Read).message(), "Unable to get key".to_string());
    assert_eq!(ConfigError::Launch(Action::List).message(), "Unable to list key".to_string());
    assert_eq!(ConfigError::NotADouble.message(), "Value is not a double".to_string());
}
