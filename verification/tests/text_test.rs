use r_json_event_parser::json_parser::variant_with_text;
use r_json_event_parser::text::{
    latin1_string, push_decimal, quote_char_message, quote_message,
};
use r_json_event_parser::xml_text::{
    escape, holds_reserved, render_begin, render_close, render_end, render_open, render_string_value,
    render_value,
};

fn decimal(n: u32) -> String {
    let mut s = String::from("n=");
    push_decimal(&mut s, n);
    s
}

#[test]
fn decimal_digits_of_numbers() {
    assert_eq!("n=0", decimal(0));
    assert_eq!("n=7", decimal(7));
    assert_eq!("n=10", decimal(10));
    assert_eq!("n=65", decimal(65));
    assert_eq!("n=56320", decimal(56320));
    assert_eq!("n=1000000", decimal(1_000_000));
    assert_eq!("n=4294967295", decimal(u32::MAX));
}

#[test]
fn bytes_as_characters_with_the_same_codes() {
    assert_eq!("", latin1_string(&vec!()));
    assert_eq!("-1.5e-27", latin1_string(&"-1.5e-27".as_bytes().to_vec()));
    assert_eq!("\u{0}A\u{7f}\u{80}\u{e9}\u{ff}", latin1_string(&vec!(0x00, 0x41, 0x7f, 0x80, 0xe9, 0xff)));
}

#[test]
fn messages_that_quote() {
    assert_eq!("Missing exp `1.5e`", quote_message("Missing exp `", "1.5e"));
    assert_eq!("Unfinished string ``", quote_message("Unfinished string `", ""));
    assert_eq!("Unexpected char `*`", quote_char_message("Unexpected char `", '*'));
    assert_eq!("Unexpected char `\u{e9}`", quote_char_message("Unexpected char `", '\u{e9}'));
}

#[test]
fn variants_that_hold_a_text() {
    assert_eq!("String(\"a\")", variant_with_text("String(", "\"a\""));
    assert_eq!("IntValue()", variant_with_text("IntValue(", ""));
}

#[test]
fn text_without_reserved_characters_stays_as_it_is() {
    assert_eq!("", escape("".into()));
    assert_eq!("plain text ]] ] ;", escape("plain text ]] ] ;".into()));
    assert_eq!("말 😀", escape("말 😀".into()));
}

#[test]
fn text_with_a_reserved_character_goes_into_a_section() {
    assert_eq!("<![CDATA[<]]>", escape("<".into()));
    assert_eq!("<![CDATA[a>b]]>", escape("a>b".into()));
    assert_eq!("<![CDATA[a & b]]>", escape("a & b".into()));
    assert_eq!("<![CDATA[say \"hi\"]]>", escape("say \"hi\"".into()));
    assert_eq!("<![CDATA[it's]]>", escape("it's".into()));
}

#[test]
fn the_end_mark_of_a_section_is_split() {
    assert_eq!("<![CDATA[]]]]><![CDATA[>]]>", escape("]]>".into()));
    assert_eq!("<![CDATA[a]]]]><![CDATA[>b]]]]><![CDATA[>]]>", escape("a]]>b]]>".into()));
    assert_eq!("<![CDATA[]]]]]><![CDATA[>]]>", escape("]]]>".into()));
    assert_eq!("<![CDATA[]]]]><![CDATA[>>]]>", escape("]]>>".into()));
    assert_eq!("<![CDATA[]>]]>", escape("]>".into()));
}

#[test]
fn elements_of_values() {
    assert_eq!("<k>1</k>", render_value(false, false, 8, "k", "int", "1"));
    assert_eq!("<k type=\"int\">1</k>", render_value(false, true, 8, "k", "int", "1"));
    assert_eq!("        <k>1</k>\n", render_value(true, false, 8, "k", "int", "1"));
    assert_eq!(
        "    <k type=\"float\">1.5</k>\n",
        render_value(true, true, 4, "k", "float", "1.5")
    );
    assert_eq!("<k type=\"null\">null</k>\n", render_value(true, true, 0, "k", "null", "null"));
}

#[test]
fn elements_of_strings() {
    assert_eq!("<k/>", render_string_value(false, false, 4, "k", "".into()));
    assert_eq!("<k type=\"string\"/>", render_string_value(false, true, 4, "k", "".into()));
    assert_eq!("    <k/>\n", render_string_value(true, false, 4, "k", "".into()));
    assert_eq!(
        "    <k type=\"string\"/>\n",
        render_string_value(true, true, 4, "k", "".into())
    );
    assert_eq!("<k>v</k>", render_string_value(false, false, 4, "k", "v".into()));
    assert_eq!(
        "    <k type=\"string\"><![CDATA[a<b]]></k>\n",
        render_string_value(true, true, 4, "k", "a<b".into())
    );
}

#[test]
fn elements_of_containers_and_of_the_root() {
    assert_eq!("<?xml version=\"1.0\" encoding=\"utf-8\"?>\n<root>", render_open(false));
    assert_eq!("<?xml version=\"1.0\" encoding=\"utf-8\"?>\n<root>\n", render_open(true));
    assert_eq!("</root>", render_close(false));
    assert_eq!("</root>\n", render_close(true));
    assert_eq!("<li>", render_begin(false, 12, "li"));
    assert_eq!("            <li>\n", render_begin(true, 12, "li"));
    assert_eq!("</li>", render_end(false, 12, "li"));
    assert_eq!("            </li>\n", render_end(true, 12, "li"));
}

/// Reads a run of CDATA sections and gives the text that they hold.
fn sections_text(xml: &str) -> Option<String> {
    let mut text = String::new();
    let mut rest = xml;
    while !rest.is_empty() {
        rest = rest.strip_prefix("<![CDATA[")?;
        let end = rest.find("]]>")?;
        text.push_str(&rest[..end]);
        rest = &rest[end + 3..];
    }
    Some(text)
}

#[test]
fn the_sections_of_a_text_read_back_as_the_text() {
    for text in [
        "<",
        "a>b",
        "]]>",
        "]]]>",
        "]]>>",
        "]>]]>]",
        "a]]>b]]>c",
        "]]>]]>]]>",
        "x]]]]>&]]",
        "<![CDATA[inner]]>",
        "말]]>😀'",
    ] {
        assert_eq!(Some(String::from(text)), sections_text(&escape(text.into())), "{:?}", text);
    }
}

#[test]
fn texts_that_hold_a_reserved_character() {
    for text in ["<", ">", "&", "\"", "'", "a<", "말😀&é", "]]>", "plain '"] {
        assert!(holds_reserved(text), "{:?}", text);
    }
    for text in ["", "plain", "]]", "말😀é", "a=b;c", "`{}[]()"] {
        assert!(!holds_reserved(text), "{:?}", text);
    }
}
