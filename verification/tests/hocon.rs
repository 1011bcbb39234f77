use kwintool::hocon::error::Problem;
use kwintool::hocon::{parse, Error, Value};

fn string(s: &str) -> Value {
    Value::String(s.to_string())
}

fn object(entries: Vec<(&str, Value)>) -> Value {
    Value::Object(entries.into_iter().map(|(k, v)| (k.to_string(), v)).collect())
}

#[test]
fn parses_a_rule_list_without_root_braces() {
    let value = parse(
        r#"
        # a couple of rules
        rules = [
          { name = browsers, class = "google-chrome|firefox", geometry = "x17%w67%v" }
          { class = mpv, title = ipcam1, to-desktop = 2 }  // trailing comment
        ]
        "#,
    )
    .unwrap();

    assert_eq!(
        value,
        object(vec![(
            "rules",
            Value::Array(vec![
                object(vec![
                    ("name", string("browsers")),
                    ("class", string("google-chrome|firefox")),
                    ("geometry", string("x17%w67%v")),
                ]),
                object(vec![
                    ("class", string("mpv")),
                    ("title", string("ipcam1")),
                    ("to-desktop", Value::Integer(2)),
                ]),
            ]),
        )]),
    );
}

#[test]
fn supports_nested_object_shorthand_and_colon() {
    let root = parse(
        r#"
        screens {
          main:  "HDMI"
          other: "DP"
        }
        "#,
    )
    .unwrap();
    let screens = root.get("screens").unwrap();
    assert_eq!(screens.get("main"), Some(&string("HDMI")));
    assert_eq!(screens.get("other"), Some(&string("DP")));
}

#[test]
fn later_keys_override_earlier_ones() {
    let value = parse("a = 1\na = 2\n").unwrap();
    assert_eq!(value.get("a"), Some(&Value::Integer(2)));
}

#[test]
fn reports_unterminated_object() {
    let err = parse("rules = [ { class = mpv ").unwrap_err();
    assert!(err.to_string().contains("unterminated"), "{}", err.to_string());
}

#[test]
fn negative_and_bare_values_parse() {
    let item = parse("to-desktop = -1\nenabled = true\n").unwrap();
    assert_eq!(item.get("to-desktop"), Some(&Value::Integer(-1)));
    assert_eq!(item.get("enabled"), Some(&Value::Bool(true)));
}

#[test]
fn root_braces_are_optional() {
    assert_eq!(parse("{ a = 1 }").unwrap(), parse("a = 1").unwrap());
    assert_eq!(parse("").unwrap(), object(vec![]));
    assert_eq!(parse(" \n, # only a comment\n").unwrap(), object(vec![]));
}

#[test]
fn bare_values_are_typed() {
    let v = parse("a = null\nb = false\nc = 1.5e3\nd = -inf\ne = 9223372036854775808\nf = some text  \ng = +7\n").unwrap();
    assert_eq!(v.get("a"), Some(&Value::Null));
    assert_eq!(v.get("b"), Some(&Value::Bool(false)));
    assert_eq!(v.get("c"), Some(&Value::Float("1.5e3".to_string())));
    assert_eq!(v.get("d"), Some(&Value::Float("-inf".to_string())));
    assert_eq!(v.get("e"), Some(&Value::Float("9223372036854775808".to_string())));
    assert_eq!(v.get("f"), Some(&string("some text")));
    assert_eq!(v.get("g"), Some(&Value::Integer(7)));
    assert_eq!(v.get("missing"), None);
    assert_eq!(string("x").get("a"), None);
}

#[test]
fn integer_limits_and_float_grammar() {
    let v = parse("min = -9223372036854775808\nmax = 9223372036854775807\ndot = .5\nend = 5.\nbad = 1e\nnan = NaN\n").unwrap();
    assert_eq!(v.get("min"), Some(&Value::Integer(i64::MIN)));
    assert_eq!(v.get("max"), Some(&Value::Integer(i64::MAX)));
    assert_eq!(v.get("dot"), Some(&Value::Float(".5".to_string())));
    assert_eq!(v.get("end"), Some(&Value::Float("5.".to_string())));
    assert_eq!(v.get("bad"), Some(&string("1e")));
    assert_eq!(v.get("nan"), Some(&Value::Float("NaN".to_string())));
}

#[test]
fn quoted_strings_and_escapes() {
    let v = parse(r#""a b" = "x\"y\\z\/\n\t\r\b\f""#).unwrap();
    assert_eq!(v.get("a b"), Some(&string("x\"y\\z/\n\t\r\u{8}\u{c}")));
}

fn problem(text: &str) -> (Option<Problem>, usize, usize) {
    let e: Error = parse(text).unwrap_err();
    (e.problem(), e.line(), e.column())
}

#[test]
fn each_problem_is_reported_where_it_is_found() {
    assert_eq!(problem("a = 1 }"), (Some(Problem::ExpectedKey), 1, 7));
    assert_eq!(problem("{ a = 1 } x"), (Some(Problem::TrailingInput('x')), 1, 11));
    assert_eq!(problem("x = 1\n  y ! b"), (Some(Problem::ExpectedAssignment('!')), 2, 5));
    assert_eq!(problem("a\n= 1"), (Some(Problem::ExpectedAssignment('\n')), 1, 2));
    assert_eq!(problem("a  "), (Some(Problem::MissingValueAfterKey), 1, 4));
    assert_eq!(problem("a ="), (Some(Problem::ExpectedValue), 1, 4));
    assert_eq!(problem("a = [1, 2"), (Some(Problem::UnterminatedArray), 1, 10));
    assert_eq!(problem("a = [ } ]"), (Some(Problem::BraceInArray), 1, 7));
    assert_eq!(problem("a = \"x"), (Some(Problem::UnterminatedString), 1, 7));
    assert_eq!(problem("a = \"\\q\""), (Some(Problem::InvalidEscape('q')), 1, 8));
    assert_eq!(problem("a = \"\\"), (Some(Problem::UnterminatedEscape), 1, 7));
    assert_eq!(problem("a {\n b = 1\n"), (Some(Problem::UnterminatedObject), 3, 1));
}

#[test]
fn error_text_names_the_location() {
    assert_eq!(
        parse("a = [ x").unwrap_err().to_string(),
        "unterminated array: expected ']' (line 1, column 8)",
    );
    assert_eq!(
        parse("a = 1\n}").unwrap_err().to_string(),
        "expected a key (line 2, column 1)",
    );
    assert_eq!(
        parse("x = 1 ]").unwrap_err().to_string(),
        "expected a key (line 1, column 7)",
    );
    assert_eq!(
        parse("k ~").unwrap_err().to_string(),
        "expected '=', ':' or '{' after key, found '~' (line 1, column 3)",
    );
    assert_eq!(Error::msg("plain".to_string()).to_string(), "plain");
    assert_eq!(Error::msg("plain".to_string()).line(), 0);
}

#[test]
fn bare_value_may_be_empty_before_a_closing_brace() {
    let v = parse("{ a = }").unwrap();
    assert_eq!(v.get("a"), Some(&string("")));
}
