use dnsglobe::escape::{csv_field, json_string};

#[test]
fn json_string_escapes_quotes_backslashes_and_controls() {
    assert_eq!(json_string("plain"), r#""plain""#);
    assert_eq!(
        json_string(r#"v=DKIM1; p="x\y""#),
        r#""v=DKIM1; p=\"x\\y\"""#
    );
    assert_eq!(json_string("a\nb\u{1}"), r#""a\nb\u0001""#);
}

#[test]
fn csv_field_quotes_only_when_needed() {
    assert_eq!(csv_field("plain"), "plain");
    assert_eq!(csv_field("a,b"), "\"a,b\"");
    assert_eq!(csv_field("say \"hi\""), "\"say \"\"hi\"\"\"");
}

#[test]
fn json_string_escapes_each_special_character() {
    assert_eq!(json_string(""), "\"\"");
    assert_eq!(json_string("\n\r\t"), r#""\n\r\t""#);
    assert_eq!(json_string("\u{0}\u{8}\u{1f}\u{20}"), r#""\u0000\u0008\u001f ""#);
    assert_eq!(json_string("\u{7f}é·/"), "\"\u{7f}é·/\"");
}

#[test]
fn csv_field_quotes_line_breaks_and_quotes() {
    assert_eq!(csv_field(""), "");
    assert_eq!(csv_field("a\nb"), "\"a\nb\"");
    assert_eq!(csv_field("a\rb"), "\"a\rb\"");
    assert_eq!(csv_field("\""), "\"\"\"\"");
    assert_eq!(csv_field("a|b c"), "a|b c");
}
