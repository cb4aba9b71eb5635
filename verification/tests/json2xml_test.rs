use std::io::{Error, ErrorKind};

use r_json_event_parser::byte_source::ByteSource;
use r_json_event_parser::json2xml::{
    FormattedTypedXMLWrite, FormattedXMLWrite, JSON2XMLConsumer, RawXMLWrite, TypedXMLWrite,
    XMLDestination, XMLWrite,
};
use r_json_event_parser::json_lexer::ConsumeError;
use r_json_event_parser::json_parser::{
    JSONParseConsumer, JSONParseError, JSONParser, ParserToken,
};

/// Collects the text, and fails the write that would make it longer than `room` bytes.
struct Page<'a> {
    text: &'a mut String,
    room: usize,
}

impl<'a> Page<'a> {
    fn new(text: &'a mut String) -> Self {
        Page { text, room: usize::MAX }
    }
}

impl<'a> XMLDestination for Page<'a> {
    fn write_text(&mut self, text: &str) -> Result<(), Error> {
        if self.text.len() + text.len() > self.room {
            return Err(Error::from(ErrorKind::WriteZero));
        }
        self.text.push_str(text);
        Ok(())
    }
}

const PREAMBLE: &str = "<?xml version=\"1.0\" encoding=\"utf-8\"?>\n";

const SMALL: &str = "{\"a\":[1,\"x\",true,null,1.5,\"\",[2,[]],{}],\"b\":{\"c\":\"<\",\"d\":{\"e\":false}}}";

fn parse_into<C: JSONParseConsumer>(document: &str, consumer: &mut C) -> Result<(), ConsumeError> {
    let mut parser = JSONParser::new(ByteSource::new(document.as_bytes()), true);
    parser.parse(consumer)
}

fn raw(document: &str) -> (Result<(), ConsumeError>, String) {
    let mut text = String::new();
    let result = parse_into(document, &mut JSON2XMLConsumer::new_raw(Page::new(&mut text)));
    (result, text)
}

fn typed(document: &str) -> (Result<(), ConsumeError>, String) {
    let mut text = String::new();
    let result = parse_into(document, &mut JSON2XMLConsumer::new_typed(Page::new(&mut text)));
    (result, text)
}

fn formatted(document: &str) -> (Result<(), ConsumeError>, String) {
    let mut text = String::new();
    let result = parse_into(document, &mut JSON2XMLConsumer::new_formatted(Page::new(&mut text)));
    (result, text)
}

fn formatted_and_typed(document: &str) -> (Result<(), ConsumeError>, String) {
    let mut text = String::new();
    let result = parse_into(
        document,
        &mut JSON2XMLConsumer::new_formatted_and_typed(Page::new(&mut text)),
    );
    (result, text)
}

#[test]
fn json2xml_test_lex_example1() {
    let document = "{\n    \"glossary\": {\n        \"title\": \"example glossary\",\n        \"GlossDiv\": {\n            \"title\": \"S\",\n            \"GlossList\": {\n                \"GlossEntry\": {\n                    \"ID\": \"SGML\",\n                    \"SortAs\": \"SGML\",\n                    \"GlossTerm\": \"Standard Generalized Markup Language\",\n                    \"Acronym\": \"SGML\",\n                    \"Abbrev\": \"ISO 8879:1986\",\n                    \"GlossDef\": {\n                        \"para\": \"A meta-markup language, used to create markup languages such as DocBook.\",\n                        \"GlossSeeAlso\": [\n                            \"GML\",\n                            \"XML\"\n                        ]\n                    },\n                    \"GlossSee\": \"markup\"\n                }\n            }\n        }\n    }\n}\n";
    let expected = "<?xml version=\"1.0\" encoding=\"utf-8\"?>\n<root>\n    <glossary>\n        <title type=\"string\">example glossary</title>\n        <GlossDiv>\n            <title type=\"string\">S</title>\n            <GlossList>\n                <GlossEntry>\n                    <ID type=\"string\">SGML</ID>\n                    <SortAs type=\"string\">SGML</SortAs>\n                    <GlossTerm type=\"string\">Standard Generalized Markup Language</GlossTerm>\n                    <Acronym type=\"string\">SGML</Acronym>\n                    <Abbrev type=\"string\">ISO 8879:1986</Abbrev>\n                    <GlossDef>\n                        <para type=\"string\">A meta-markup language, used to create markup languages such as DocBook.</para>\n                        <GlossSeeAlso>\n                            <li type=\"string\">GML</li>\n                            <li type=\"string\">XML</li>\n                        </GlossSeeAlso>\n                    </GlossDef>\n                    <GlossSee type=\"string\">markup</GlossSee>\n                </GlossEntry>\n            </GlossList>\n        </GlossDiv>\n    </glossary>\n</root>\n";
    let (result, text) = formatted_and_typed(document);
    assert_eq!(Ok(()), result);
    assert_eq!(expected, text);
}

#[test]
fn the_end_mark_of_a_section_in_a_typed_document() {
    let (result, text) = typed("{\"x\":\"]]>\"}");
    assert_eq!(Ok(()), result);
    assert_eq!(
        format!(
            "{}<root>{}</root>",
            PREAMBLE, "<x type=\"string\"><![CDATA[]]]]><![CDATA[>]]></x>"
        ),
        text
    );
}

#[test]
fn a_document_written_bare() {
    let (result, text) = raw(SMALL);
    assert_eq!(Ok(()), result);
    assert_eq!("<?xml version=\"1.0\" encoding=\"utf-8\"?>\n<root><a><li>1</li><li>x</li><li>true</li><li>null</li><li>1.5</li><li/><li><li>2</li><li></li></li><li></li></a><b><c><![CDATA[<]]></c><d><e>false</e></d></b></root>", text);
}

#[test]
fn a_document_written_with_types() {
    let (result, text) = typed(SMALL);
    assert_eq!(Ok(()), result);
    assert_eq!("<?xml version=\"1.0\" encoding=\"utf-8\"?>\n<root><a><li type=\"int\">1</li><li type=\"string\">x</li><li type=\"boolean\">true</li><li type=\"null\">null</li><li type=\"float\">1.5</li><li type=\"string\"/><li><li type=\"int\">2</li><li></li></li><li></li></a><b><c type=\"string\"><![CDATA[<]]></c><d><e type=\"boolean\">false</e></d></b></root>", text);
}

#[test]
fn a_document_written_with_indentation() {
    let (result, text) = formatted(SMALL);
    assert_eq!(Ok(()), result);
    assert_eq!("<?xml version=\"1.0\" encoding=\"utf-8\"?>\n<root>\n    <a>\n        <li>1</li>\n        <li>x</li>\n        <li>true</li>\n        <li>null</li>\n        <li>1.5</li>\n        <li/>\n        <li>\n            <li>2</li>\n            <li>\n            </li>\n        </li>\n        <li>\n        </li>\n    </a>\n    <b>\n        <c><![CDATA[<]]></c>\n        <d>\n            <e>false</e>\n        </d>\n    </b>\n</root>\n", text);
}

#[test]
fn a_document_written_with_indentation_and_types() {
    let (result, text) = formatted_and_typed(SMALL);
    assert_eq!(Ok(()), result);
    assert_eq!("<?xml version=\"1.0\" encoding=\"utf-8\"?>\n<root>\n    <a>\n        <li type=\"int\">1</li>\n        <li type=\"string\">x</li>\n        <li type=\"boolean\">true</li>\n        <li type=\"null\">null</li>\n        <li type=\"float\">1.5</li>\n        <li type=\"string\"/>\n        <li>\n            <li type=\"int\">2</li>\n            <li>\n            </li>\n        </li>\n        <li>\n        </li>\n    </a>\n    <b>\n        <c type=\"string\"><![CDATA[<]]></c>\n        <d>\n            <e type=\"boolean\">false</e>\n        </d>\n    </b>\n</root>\n", text);
}

#[test]
fn an_empty_document_is_an_empty_root() {
    assert_eq!((Ok(()), format!("{}<root></root>", PREAMBLE)), raw(""));
    assert_eq!((Ok(()), format!("{}<root>\n</root>\n", PREAMBLE)), formatted(" "));
    assert_eq!((Ok(()), format!("{}<root></root>", PREAMBLE)), typed("{}"));
    assert_eq!((Ok(()), format!("{}<root>\n</root>\n", PREAMBLE)), formatted_and_typed("[]"));
}

#[test]
fn the_four_ways_differ_in_indentation_and_types_only() {
    let document = "{\"k\": [-0.5e1, \"\"]}";
    assert_eq!(
        format!("{}<root><k><li>-0.5e1</li><li/></k></root>", PREAMBLE),
        raw(document).1
    );
    assert_eq!(
        format!(
            "{}<root><k><li type=\"float\">-0.5e1</li><li type=\"string\"/></k></root>",
            PREAMBLE
        ),
        typed(document).1
    );
    assert_eq!(
        format!(
            "{}<root>\n    <k>\n        <li>-0.5e1</li>\n        <li/>\n    </k>\n</root>\n",
            PREAMBLE
        ),
        formatted(document).1
    );
    assert_eq!(
        format!(
            "{}<root>\n    <k>\n        <li type=\"float\">-0.5e1</li>\n        <li type=\"string\"/>\n    </k>\n</root>\n",
            PREAMBLE
        ),
        formatted_and_typed(document).1
    );
}

#[test]
fn a_scalar_outside_any_container_ends_the_pass() {
    assert_eq!((Err(ConsumeError), format!("{}<root>", PREAMBLE)), raw("1"));
    assert_eq!((Err(ConsumeError), format!("{}<root>", PREAMBLE)), raw("[] \"a\""));
}

#[test]
fn an_error_ends_the_pass() {
    assert_eq!((Err(ConsumeError), format!("{}<root><li>1</li>", PREAMBLE)), raw("[1, *"));
    assert_eq!((Err(ConsumeError), format!("{}<root><li>1</li>", PREAMBLE)), raw("[1 2]"));
}

#[test]
fn a_failed_write_ends_the_pass() {
    let mut text = String::new();
    let result = {
        let page = Page { text: &mut text, room: PREAMBLE.len() + 6 + 10 };
        parse_into("[1, 2, 3]", &mut JSON2XMLConsumer::new_raw(page))
    };
    assert_eq!(Err(ConsumeError), result);
    assert_eq!(format!("{}<root><li>1</li>", PREAMBLE), text);
}

#[test]
fn the_sink_event_by_event() {
    let mut text = String::new();
    {
        let mut sink = JSON2XMLConsumer::new_formatted(Page::new(&mut text));
        assert_eq!(Ok(()), sink.consume(Ok(ParserToken::BeginFile)));
        assert_eq!(Ok(()), sink.consume(Ok(ParserToken::BeginObject)));
        assert_eq!(Ok(()), sink.consume(Ok(ParserToken::Key("a".into()))));
        assert_eq!(vec!(String::from("a")), sink.keys_stack);
        assert_eq!(vec!(ParserToken::BeginObject), sink.states_stack);
        assert_eq!(Ok(()), sink.consume(Ok(ParserToken::BeginArray)));
        assert_eq!(vec!(ParserToken::BeginObject, ParserToken::BeginArray), sink.states_stack);
        assert_eq!(Ok(String::from("li")), sink.get_cur_key());
        assert_eq!(vec!(String::from("a")), sink.keys_stack);
        assert_eq!(Ok(()), sink.consume(Ok(ParserToken::NullValue)));
        assert_eq!(Ok(()), sink.consume(Ok(ParserToken::EndArray)));
        assert!(sink.keys_stack.is_empty());
        assert_eq!(Ok(()), sink.consume(Ok(ParserToken::Key("b".into()))));
        assert_eq!(Ok(String::from("b")), sink.get_cur_key());
        assert_eq!(Err(ConsumeError), sink.get_cur_key());
        assert_eq!(Err(ConsumeError), sink.consume(Ok(ParserToken::IntValue("1".into()))));
        assert_eq!(Ok(()), sink.consume(Ok(ParserToken::EndObject)));
        assert!(sink.states_stack.is_empty());
        assert_eq!(Err(ConsumeError), sink.get_cur_key());
        assert_eq!(Err(ConsumeError), sink.consume(Ok(ParserToken::EndObject)));
        assert_eq!(
            Err(ConsumeError),
            sink.consume(Err(JSONParseError { msg: "no".into(), line: 0, column: 0 }))
        );
        assert_eq!(Ok(()), sink.consume(Ok(ParserToken::EndFile)));
    }
    assert_eq!(
        format!("{}<root>\n    <a>\n        <li>null</li>\n    </a>\n</root>\n", PREAMBLE),
        text
    );
}

#[test]
fn the_writers_escape_alike() {
    let text = String::from("a]]>b");
    let expected = "<![CDATA[a]]]]><![CDATA[>b]]>";
    assert_eq!(expected, <RawXMLWrite<Page> as XMLWrite<Page>>::escape_value(text.clone()));
    assert_eq!(expected, <TypedXMLWrite<Page> as XMLWrite<Page>>::escape_value(text.clone()));
    assert_eq!(expected, <FormattedXMLWrite<Page> as XMLWrite<Page>>::escape_value(text.clone()));
    assert_eq!(
        expected,
        <FormattedTypedXMLWrite<Page> as XMLWrite<Page>>::escape_value(text)
    );
    assert_eq!("plain", <RawXMLWrite<Page> as XMLWrite<Page>>::escape_value("plain".into()));
}

#[test]
fn a_writer_on_its_own() {
    let mut text = String::new();
    {
        let mut sink = JSON2XMLConsumer::new_typed(Page::new(&mut text));
        assert!(sink.xml_write.write_open().is_ok());
        assert!(sink.xml_write.write_begin(4, "k").is_ok());
        assert!(sink.xml_write.write_value(8, "n".into(), "int", "1".into()).is_ok());
        assert!(sink.xml_write.write_string_value(8, "s".into(), "&".into()).is_ok());
        assert!(sink.xml_write.write_end(4, "k").is_ok());
        assert!(sink.xml_write.write_close().is_ok());
    }
    assert_eq!(
        format!(
            "{}<root><k><n type=\"int\">1</n><s type=\"string\"><![CDATA[&]]></s></k></root>",
            PREAMBLE
        ),
        text
    );
}

#[test]
fn a_failed_write_leaves_the_container_closed() {
    let mut text = String::new();
    {
        let page = Page { text: &mut text, room: PREAMBLE.len() + 6 };
        let mut sink = JSON2XMLConsumer::new_raw(page);
        assert_eq!(Ok(()), sink.consume(Ok(ParserToken::BeginFile)));
        assert_eq!(Ok(()), sink.consume(Ok(ParserToken::BeginArray)));
        assert_eq!(Err(ConsumeError), sink.consume(Ok(ParserToken::BeginArray)));
        assert_eq!(vec!(ParserToken::BeginArray), sink.states_stack);
        assert_eq!(vec!(String::from("li")), sink.keys_stack);
    }
    assert_eq!(format!("{}<root>", PREAMBLE), text);
}

#[test]
fn a_failed_write_of_a_member_leaves_the_object_as_it_was() {
    let mut text = String::new();
    {
        let page = Page { text: &mut text, room: PREAMBLE.len() + 6 };
        let mut sink = JSON2XMLConsumer::new_typed(page);
        assert_eq!(Ok(()), sink.consume(Ok(ParserToken::BeginFile)));
        assert_eq!(Ok(()), sink.consume(Ok(ParserToken::BeginObject)));
        assert_eq!(Ok(()), sink.consume(Ok(ParserToken::Key("k".into()))));
        assert_eq!(Err(ConsumeError), sink.consume(Ok(ParserToken::BeginObject)));
        assert_eq!(vec!(ParserToken::BeginObject), sink.states_stack);
        assert_eq!(vec!(String::from("k")), sink.keys_stack);
    }
    assert_eq!(format!("{}<root>", PREAMBLE), text);
}

#[test]
fn a_failed_write_of_a_scalar_uses_up_its_key() {
    let mut text = String::new();
    {
        let page = Page { text: &mut text, room: 5 };
        let mut sink = JSON2XMLConsumer::new_formatted(page);
        assert_eq!(Err(ConsumeError), sink.consume(Ok(ParserToken::BeginFile)));
        assert_eq!(Ok(()), sink.consume(Ok(ParserToken::BeginObject)));
        assert_eq!(Ok(()), sink.consume(Ok(ParserToken::Key("k".into()))));
        assert_eq!(Err(ConsumeError), sink.consume(Ok(ParserToken::IntValue("1".into()))));
        assert_eq!(vec!(ParserToken::BeginObject), sink.states_stack);
        assert!(sink.keys_stack.is_empty());
    }
    assert_eq!("", text);
}

#[test]
fn a_failed_write_of_an_end_closes_the_container() {
    let mut text = String::new();
    {
        let page = Page { text: &mut text, room: 3 };
        let mut sink = JSON2XMLConsumer::new_raw(page);
        assert_eq!(Ok(()), sink.consume(Ok(ParserToken::BeginArray)));
        assert_eq!(Err(ConsumeError), sink.consume(Ok(ParserToken::BeginArray)));
        sink.states_stack.push(ParserToken::BeginArray);
        assert_eq!(Err(ConsumeError), sink.consume(Ok(ParserToken::EndArray)));
        assert_eq!(vec!(ParserToken::BeginArray), sink.states_stack);
        assert!(sink.keys_stack.is_empty());
    }
    assert_eq!("", text);
}

#[test]
fn a_writer_hands_over_each_text_once() {
    let mut text = String::new();
    {
        let page = Page { text: &mut text, room: 12 };
        let mut sink = JSON2XMLConsumer::new_formatted_and_typed(page);
        assert!(sink.xml_write.write_begin(0, "a").is_ok());
        assert!(sink.xml_write.write_value(0, "n".into(), "null", "null".into()).is_err());
        assert!(sink.xml_write.write_string_value(0, "s".into(), "".into()).is_err());
        assert!(sink.xml_write.write_open().is_err());
        assert!(sink.xml_write.write_end(0, "a").is_ok());
        assert!(sink.xml_write.write_close().is_err());
    }
    assert_eq!("<a>\n</a>\n", text);
}
