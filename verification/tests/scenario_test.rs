use r_json_event_parser::byte_source::ByteSource;
use r_json_event_parser::json_lexer::{
    ConsumeError, Direct, JSONLexConsumer, JSONLexError, JSONLexer, LexReceiver, LexerToken,
};
use r_json_event_parser::json_parser::{
    JSONLexerToParser, JSONParseConsumer, JSONParseError, JSONParser, ParserToken,
};

/// Keeps every event with the position that came with it, and refuses the
/// event after which `room` is used up.
struct Recorder {
    events: Vec<(Result<LexerToken, JSONLexError>, usize, usize)>,
    room: usize,
}

impl Recorder {
    fn new() -> Self {
        Recorder { events: vec!(), room: usize::MAX }
    }

    fn with_room(room: usize) -> Self {
        Recorder { events: vec!(), room }
    }

    fn tokens(self) -> Vec<Result<LexerToken, JSONLexError>> {
        self.events.into_iter().map(|(token, _, _)| token).collect()
    }
}

impl JSONLexConsumer for Recorder {
    fn consume(&mut self, token: Result<LexerToken, JSONLexError>, line: usize, column: usize) -> Result<(), ConsumeError> {
        self.events.push((token, line, column));
        if self.events.len() >= self.room {
            Err(ConsumeError)
        } else {
            Ok(())
        }
    }
}

struct ParseRecorder {
    events: Vec<Result<ParserToken, JSONParseError>>,
    room: usize,
}

impl ParseRecorder {
    fn new() -> Self {
        ParseRecorder { events: vec!(), room: usize::MAX }
    }
}

impl JSONParseConsumer for ParseRecorder {
    fn consume(&mut self, token: Result<ParserToken, JSONParseError>) -> Result<(), ConsumeError> {
        self.events.push(token);
        if self.events.len() >= self.room {
            Err(ConsumeError)
        } else {
            Ok(())
        }
    }
}

fn lex_all(input: &[u8], ignore_unicode_errs: bool) -> Vec<Result<LexerToken, JSONLexError>> {
    let mut recorder = Recorder::new();
    let mut lexer = JSONLexer::new(ByteSource::new(input), ignore_unicode_errs);
    assert_eq!(Ok(()), lexer.lex(&mut recorder));
    recorder.tokens()
}

/// What the lexer makes of `input`, without the two sentinels.
fn lex(input: &[u8], ignore_unicode_errs: bool) -> Vec<Result<LexerToken, JSONLexError>> {
    let mut tokens = lex_all(input, ignore_unicode_errs);
    assert_eq!(Ok(LexerToken::EndFile), tokens.pop().unwrap());
    assert_eq!(Ok(LexerToken::BeginFile), tokens.remove(0));
    tokens
}

fn parse(input: &[u8]) -> (Result<(), ConsumeError>, Vec<Result<ParserToken, JSONParseError>>) {
    let mut recorder = ParseRecorder::new();
    let mut parser = JSONParser::new(ByteSource::new(input), false);
    let result = parser.parse(&mut recorder);
    (result, recorder.events)
}

fn lex_error(msg: &str, line: usize, column: usize) -> Result<LexerToken, JSONLexError> {
    Err(JSONLexError { msg: msg.into(), line, column })
}

fn parse_error(msg: &str, line: usize, column: usize) -> Result<ParserToken, JSONParseError> {
    Err(JSONParseError { msg: msg.into(), line, column })
}

fn string(text: &str) -> Result<LexerToken, JSONLexError> {
    Ok(LexerToken::String(text.into()))
}

#[test]
fn every_pass_begins_with_begin_file_and_ends_with_end_file() {
    for input in ["", " ", "\n", "[1,2]", "{\"a\":", "*", "\"open", "tru", "-", "1.5e"] {
        let tokens = lex_all(input.as_bytes(), false);
        assert!(tokens.len() >= 2);
        assert_eq!(Some(&Ok(LexerToken::BeginFile)), tokens.first());
        assert_eq!(Some(&Ok(LexerToken::EndFile)), tokens.last());
        for token in &tokens[1..tokens.len() - 1] {
            assert_ne!(&Ok(LexerToken::BeginFile), token);
            assert_ne!(&Ok(LexerToken::EndFile), token);
        }
    }
}

#[test]
fn an_empty_stream_gives_the_two_sentinels() {
    assert_eq!(
        vec!(Ok(LexerToken::BeginFile), Ok(LexerToken::EndFile)),
        lex_all(b"", false)
    );
}

#[test]
fn minus_zero_with_an_exponent_is_a_float() {
    assert_eq!(vec!(Ok(LexerToken::FloatValue("-0e7".into()))), lex(b"-0e7", false));
    let (result, events) = parse(b"-0e7");
    assert_eq!(Ok(()), result);
    assert_eq!(
        vec!(
            Ok(ParserToken::BeginFile),
            Ok(ParserToken::FloatValue("-0e7".into())),
            Ok(ParserToken::EndFile)
        ),
        events
    );
}

#[test]
fn an_exponent_without_digits_at_the_end_of_the_stream() {
    assert_eq!(vec!(lex_error("Missing exp `1.5e`", 0, 4)), lex(b"1.5e", false));
}

#[test]
fn a_fraction_without_digits_in_an_array() {
    assert_eq!(
        vec!(
            Ok(LexerToken::BeginArray),
            lex_error("Missing decimals `1.`", 0, 4),
            Ok(LexerToken::EndArray)
        ),
        lex(b"[1.]", false)
    );
}

#[test]
fn an_escaped_code_point_becomes_its_character() {
    assert_eq!(vec!(string("말")), lex(b"\"\\uB9D0\"", false));
    assert_eq!(vec!(string("\u{e9}")), lex(b"\"\\u00e9\"", false));
    assert_eq!(vec!(string("A")), lex(b"\"\\u0041\"", false));
    assert_eq!(vec!(string("\u{0}")), lex(b"\"\\u0000\"", false));
    assert_eq!(vec!(string("\u{ffff}")), lex(b"\"\\uFfFf\"", false));
}

#[test]
fn a_surrogate_pair_becomes_one_character() {
    assert_eq!(
        vec!(Ok(LexerToken::BeginArray), string("a😀b"), Ok(LexerToken::EndArray)),
        lex(b"[ \"a\\uD83D\\uDE00b\" ]", false)
    );
    assert_eq!(vec!(string("\u{10000}")), lex(b"\"\\uD800\\uDC00\"", false));
    assert_eq!(vec!(string("\u{10ffff}")), lex(b"\"\\uDBFF\\uDFFF\"", true));
}

#[test]
fn bytes_of_utf8_pass_through_a_string() {
    assert_eq!(vec!(string("é말😀")), lex("\"é말😀\"".as_bytes(), false));
}

#[test]
fn bytes_that_are_no_utf8_are_an_error() {
    assert_eq!(
        vec!(lex_error("Can't decode string `invalid utf-8 sequence of 1 bytes from index 1`", 0, 4)),
        lex(b"\"a\xff\"", false)
    );
    assert_eq!(
        vec!(lex_error("Can't decode string `incomplete utf-8 byte sequence from index 0`", 0, 3)),
        lex(b"\"\xc3\"", false)
    );
    assert_eq!(
        vec!(lex_error("Can't decode string `invalid utf-8 sequence of 1 bytes from index 0`", 0, 2)),
        lex(b"\"\xff", false)
    );
}

#[test]
fn a_lone_low_surrogate_is_no_code_point() {
    assert_eq!(
        vec!(lex_error("This is not a code point `56320`", 0, 7), string("ab")),
        lex(b"\"\\uDC00ab\"", false)
    );
    assert_eq!(vec!(string("\u{fffd}ab")), lex(b"\"\\uDC00ab\"", true));
}

#[test]
fn a_high_surrogate_followed_by_a_plain_byte() {
    let message = "Waiting for low surrogate: needs backslash, got `x`";
    assert_eq!(
        vec!(lex_error(message, 0, 8), string("x")),
        lex(b"\"\\uD83Dx\"", false)
    );
    assert_eq!(
        vec!(lex_error(message, 0, 8), string("\u{fffd}x")),
        lex(b"\"\\uD83Dx\"", true)
    );
}

#[test]
fn a_high_surrogate_at_the_end_of_a_string() {
    let message = "Waiting for low surrogate: needs backslash, got `\"`";
    assert_eq!(vec!(lex_error(message, 0, 9), string("a")), lex(b"\"a\\uD83D\"", false));
    assert_eq!(
        vec!(lex_error(message, 0, 9), string("a\u{fffd}")),
        lex(b"\"a\\uD83D\"", true)
    );
}

#[test]
fn a_high_surrogate_followed_by_another_escape() {
    let message = "Waiting for low surrogate: needs \\u, got `\\n`";
    assert_eq!(
        vec!(lex_error(message, 0, 9), string("\n")),
        lex(b"\"\\uD83D\\n\"", false)
    );
    assert_eq!(
        vec!(lex_error(message, 0, 9), string("\u{fffd}\n")),
        lex(b"\"\\uD83D\\n\"", true)
    );
}

#[test]
fn a_high_surrogate_followed_by_a_code_point_that_is_no_low_surrogate() {
    let message = "Waiting for low surrogate, got `65`";
    assert_eq!(
        vec!(lex_error(message, 0, 13), string("z")),
        lex(b"\"\\uD83D\\u0041z\"", false)
    );
    assert_eq!(
        vec!(lex_error(message, 0, 13), string("\u{fffd}z")),
        lex(b"\"\\uD83D\\u0041z\"", true)
    );
    assert_eq!(
        vec!(lex_error("Waiting for low surrogate, got `55357`", 0, 13), string("")),
        lex(b"\"\\uD83D\\uD83D\"", false)
    );
}

#[test]
fn a_byte_that_is_no_hexadecimal_digit_ends_the_escape() {
    assert_eq!(
        vec!(lex_error("Unknown hex digit `g`", 0, 5), string("2")),
        lex(b"\"\\u1g2\"", false)
    );
    assert_eq!(
        vec!(
            lex_error("Unknown hex digit `x`", 0, 10),
            lex_error("Waiting for low surrogate: needs backslash, got `y`", 0, 11),
            string("y")
        ),
        lex(b"\"\\uD83D\\uxy\"", false)
    );
}

#[test]
fn the_escapes_of_one_character() {
    assert_eq!(
        vec!(string("\"\\\u{8}\u{c}\n\r\t")),
        lex(b"\"\\\"\\\\\\b\\f\\n\\r\\t\"", false)
    );
}

#[test]
fn an_unknown_escape_is_an_error_and_the_string_goes_on() {
    assert_eq!(
        vec!(lex_error("Unknown escaped char `q`", 0, 4), string("ab")),
        lex(b"\"a\\qb\"", false)
    );
    assert_eq!(
        vec!(lex_error("Unknown escaped char `/`", 0, 3), string("")),
        lex(b"\"\\/\"", false)
    );
}

#[test]
fn a_string_that_does_not_end() {
    assert_eq!(vec!(lex_error("Unfinished string ``", 0, 1)), lex(b"\"", false));
    assert_eq!(vec!(lex_error("Unfinished string `a말`", 0, 5)), lex("\"a말".as_bytes(), false));
    assert_eq!(vec!(lex_error("Unfinished string `a`", 0, 3)), lex(b"\"a\\", false));
}

#[test]
fn the_literal_words() {
    assert_eq!(
        vec!(
            Ok(LexerToken::BeginArray),
            Ok(LexerToken::BooleanValue(true)),
            Ok(LexerToken::ValueSeparator),
            Ok(LexerToken::BooleanValue(false)),
            Ok(LexerToken::ValueSeparator),
            Ok(LexerToken::NullValue),
            Ok(LexerToken::EndArray)
        ),
        lex(b"[true, false ,null]", false)
    );
    assert_eq!(vec!(Ok(LexerToken::NullValue)), lex(b"null ", false));
}

#[test]
fn a_literal_word_that_goes_wrong() {
    assert_eq!(
        vec!(lex_error("Expected word `alse`", 0, 5), lex_error("Unexpected char `x`", 0, 6)),
        lex(b"falsxx", false)
    );
    assert_eq!(vec!(lex_error("Expected word `\u{0}rue`", 0, 2)), lex(b"t ", false));
    assert_eq!(
        vec!(lex_error("Expected word `\u{0}ull`", 0, 4), Ok(LexerToken::EndArray)),
        lex(b"nul]]", false).into_iter().take(2).collect::<Vec<_>>()
    );
}

#[test]
fn a_literal_word_at_the_end_of_the_stream() {
    assert_eq!(vec!(Ok(LexerToken::BooleanValue(true))), lex(b"true", false));
    assert_eq!(vec!(Ok(LexerToken::BooleanValue(false))), lex(b"false", false));
    assert_eq!(vec!(Ok(LexerToken::NullValue)), lex(b"null", false));
    assert_eq!(vec!(Ok(LexerToken::BooleanValue(true))), lex(b"true\n", false));
    assert_eq!(vec!(lex_error("Unexpected sub_state", 0, 2)), lex(b"nu", false));
    assert_eq!(vec!(lex_error("Unexpected sub_state", 0, 4)), lex(b"fals", false));
    let (result, events) = parse(b"true");
    assert_eq!(Ok(()), result);
    assert_eq!(
        vec!(
            Ok(ParserToken::BeginFile),
            Ok(ParserToken::BooleanValue(true)),
            Ok(ParserToken::EndFile)
        ),
        events
    );
}

#[test]
fn the_shapes_of_numbers() {
    for (input, lexeme) in [
        ("0 ", "0"),
        ("7 ", "7"),
        ("-7 ", "-7"),
        ("1234567890 ", "1234567890"),
        ("-100200300400500600700800900 ", "-100200300400500600700800900"),
    ] {
        assert_eq!(vec!(Ok(LexerToken::IntValue(lexeme.into()))), lex(input.as_bytes(), false));
    }
    for (input, lexeme) in [
        ("0.0 ", "0.0"),
        ("-0.5 ", "-0.5"),
        ("10.25 ", "10.25"),
        ("1e5 ", "1e5"),
        ("1E5 ", "1E5"),
        ("1e-5 ", "1e-5"),
        ("0E-0 ", "0E-0"),
        ("-12.50E-007 ", "-12.50E-007"),
    ] {
        assert_eq!(vec!(Ok(LexerToken::FloatValue(lexeme.into()))), lex(input.as_bytes(), false));
    }
}

#[test]
fn minus_zero_is_the_integer_zero() {
    assert_eq!(vec!(Ok(LexerToken::IntValue("0".into()))), lex(b"-0", false));
    assert_eq!(
        vec!(Ok(LexerToken::IntValue("0".into())), Ok(LexerToken::ValueSeparator)),
        lex(b"-0,", false)
    );
    assert_eq!(vec!(Ok(LexerToken::FloatValue("-0.0".into()))), lex(b"-0.0", false));
}

#[test]
fn what_cannot_go_on_a_number_ends_it() {
    assert_eq!(
        vec!(Ok(LexerToken::IntValue("0".into())), Ok(LexerToken::IntValue("12".into()))),
        lex(b"012", false)
    );
    assert_eq!(
        vec!(
            Ok(LexerToken::FloatValue("1.5".into())),
            lex_error("Unexpected char `.`", 0, 5),
            Ok(LexerToken::IntValue("5".into()))
        ),
        lex(b"1.5.5", false)
    );
    assert_eq!(
        vec!(lex_error("Expected a digit `-`", 0, 2), lex_error("Missing digits `-`", 0, 3)),
        lex(b"--", false)
    );
    assert_eq!(
        vec!(lex_error("Missing exp `2e`", 0, 3), lex_error("Unexpected char `+`", 0, 4), Ok(LexerToken::IntValue("3".into()))),
        lex(b"2e+3", false)
    );
    assert_eq!(
        vec!(lex_error("Missing exp `2e-`", 0, 4), Ok(LexerToken::EndObject)),
        lex(b"2e-}", false)
    );
}

#[test]
fn numbers_at_the_end_of_the_stream() {
    assert_eq!(vec!(lex_error("Missing digits `-`", 0, 1)), lex(b"-", false));
    assert_eq!(vec!(lex_error("Missing decimals `-3.`", 0, 3)), lex(b"-3.", false));
    assert_eq!(vec!(lex_error("Missing exp `0E`", 0, 2)), lex(b"0E", false));
    assert_eq!(vec!(Ok(LexerToken::FloatValue("1E5".into()))), lex(b"1E5", false));
    assert_eq!(vec!(lex_error("Missing exp `0.1e-`", 0, 5)), lex(b"0.1e-", false));
    assert_eq!(vec!(Ok(LexerToken::FloatValue("0.1e-9".into()))), lex(b"0.1e-9", false));
}

#[test]
fn a_line_feed_is_a_byte_like_any_other() {
    assert_eq!(
        vec!(Ok(LexerToken::IntValue("1".into())), Ok(LexerToken::IntValue("2".into()))),
        lex(b"1\n2", false)
    );
    assert_eq!(vec!(string("a\nb")), lex(b"\"a\nb\"", false));
    assert_eq!(
        vec!(lex_error("Expected word `\u{0}rue`", 1, 3), lex_error("Unexpected char `u`", 1, 4)),
        lex(b"tr\nu", false)
    );
    assert_eq!(vec!(string("a\rb")), lex(b"\"a\rb\"", false));
    assert_eq!(Vec::<Result<LexerToken, JSONLexError>>::new(), lex(b"\n \n\n", false));
}

#[test]
fn a_line_feed_that_is_read_again_counts_one_line() {
    let mut recorder = Recorder::new();
    let mut lexer = JSONLexer::new(ByteSource::new("1\n2\ntrue\n\"\\uD800\n\"".as_bytes()), true);
    assert_eq!(Ok(()), lexer.lex(&mut recorder));
    assert_eq!(
        vec!(
            (Ok(LexerToken::BeginFile), 0, 0),
            (Ok(LexerToken::IntValue("1".into())), 1, 2),
            (Ok(LexerToken::IntValue("2".into())), 2, 5),
            (Ok(LexerToken::BooleanValue(true)), 3, 11),
            (
                lex_error("Waiting for low surrogate: needs backslash, got `\n`", 4, 20),
                4,
                20
            ),
            (Ok(LexerToken::String("\u{fffd}\n".into())), 4, 22),
            (Ok(LexerToken::EndFile), 4, 22)
        ),
        recorder.events
    );
}

#[test]
fn a_byte_that_is_read_again_is_counted_again() {
    let mut recorder = Recorder::new();
    let mut lexer = JSONLexer::new(ByteSource::new("[1,2]".as_bytes()), false);
    assert_eq!(Ok(()), lexer.lex(&mut recorder));
    assert_eq!(
        vec!(
            (Ok(LexerToken::BeginFile), 0, 0),
            (Ok(LexerToken::BeginArray), 0, 1),
            (Ok(LexerToken::IntValue("1".into())), 0, 3),
            (Ok(LexerToken::ValueSeparator), 0, 4),
            (Ok(LexerToken::IntValue("2".into())), 0, 6),
            (Ok(LexerToken::EndArray), 0, 7),
            (Ok(LexerToken::EndFile), 0, 7)
        ),
        recorder.events
    );
}

#[test]
fn the_position_counts_lines_and_bytes() {
    let mut recorder = Recorder::new();
    let mut lexer = JSONLexer::new(ByteSource::new("[\n1]\r\n *".as_bytes()), false);
    assert_eq!(Ok(()), lexer.lex(&mut recorder));
    assert_eq!(
        vec!(
            (Ok(LexerToken::BeginFile), 0, 0),
            (Ok(LexerToken::BeginArray), 0, 1),
            (Ok(LexerToken::IntValue("1".into())), 1, 4),
            (Ok(LexerToken::EndArray), 1, 5),
            (lex_error("Unexpected char `*`", 2, 9), 2, 9),
            (Ok(LexerToken::EndFile), 2, 9)
        ),
        recorder.events
    );
}

#[test]
fn the_consumer_ends_the_pass() {
    for room in 1..=5 {
        let mut recorder = Recorder::with_room(room);
        let mut lexer = JSONLexer::new(ByteSource::new("[1,2]".as_bytes()), false);
        assert_eq!(Err(ConsumeError), lexer.lex(&mut recorder));
        let expected: Vec<Result<LexerToken, JSONLexError>> = vec!(
            Ok(LexerToken::BeginFile),
            Ok(LexerToken::BeginArray),
            Ok(LexerToken::IntValue("1".into())),
            Ok(LexerToken::ValueSeparator),
            Ok(LexerToken::IntValue("2".into())),
        );
        assert_eq!(expected.into_iter().take(room).collect::<Vec<_>>(), recorder.tokens());
    }
    let mut recorder = Recorder::with_room(7);
    let mut lexer = JSONLexer::new(ByteSource::new("[1,2]".as_bytes()), false);
    assert_eq!(Err(ConsumeError), lexer.lex(&mut recorder));
    assert_eq!(7, recorder.events.len());
    assert_eq!((Ok(LexerToken::EndFile), 0, 7), recorder.events[6]);
}

#[test]
fn the_consumer_ends_the_pass_at_the_closing_event() {
    let mut recorder = Recorder::with_room(2);
    let mut lexer = JSONLexer::new(ByteSource::new("17".as_bytes()), false);
    assert_eq!(Err(ConsumeError), lexer.lex(&mut recorder));
    assert_eq!(
        vec!(Ok(LexerToken::BeginFile), Ok(LexerToken::IntValue("17".into()))),
        recorder.tokens()
    );
}

#[test]
fn an_object_without_its_end() {
    let (result, events) = parse(b"{\"foo\":1");
    assert_eq!(Ok(()), result);
    assert_eq!(
        vec!(
            Ok(ParserToken::BeginFile),
            Ok(ParserToken::BeginObject),
            Ok(ParserToken::Key("foo".into())),
            Ok(ParserToken::IntValue("1".into())),
            parse_error("Unexpected token `Ok(EndFile)`", 0, 8)
        ),
        events
    );
}

#[test]
fn keys_and_values_are_told_apart() {
    let (result, events) = parse(b"{\"a\": \"b\", \"c\": [\"d\", {\"e\": \"f\"}], \"g\": {}}");
    assert_eq!(Ok(()), result);
    assert_eq!(
        vec!(
            Ok(ParserToken::BeginFile),
            Ok(ParserToken::BeginObject),
            Ok(ParserToken::Key("a".into())),
            Ok(ParserToken::StringValue("b".into())),
            Ok(ParserToken::Key("c".into())),
            Ok(ParserToken::BeginArray),
            Ok(ParserToken::StringValue("d".into())),
            Ok(ParserToken::BeginObject),
            Ok(ParserToken::Key("e".into())),
            Ok(ParserToken::StringValue("f".into())),
            Ok(ParserToken::EndObject),
            Ok(ParserToken::EndArray),
            Ok(ParserToken::Key("g".into())),
            Ok(ParserToken::BeginObject),
            Ok(ParserToken::EndObject),
            Ok(ParserToken::EndObject),
            Ok(ParserToken::EndFile)
        ),
        events
    );
}

#[test]
fn scalars_outside_any_container() {
    let (result, events) = parse(b"1 \"a\" true null 2.5 [] {}");
    assert_eq!(Ok(()), result);
    assert_eq!(
        vec!(
            Ok(ParserToken::BeginFile),
            Ok(ParserToken::IntValue("1".into())),
            Ok(ParserToken::StringValue("a".into())),
            Ok(ParserToken::BooleanValue(true)),
            Ok(ParserToken::NullValue),
            Ok(ParserToken::FloatValue("2.5".into())),
            Ok(ParserToken::BeginArray),
            Ok(ParserToken::EndArray),
            Ok(ParserToken::BeginObject),
            Ok(ParserToken::EndObject),
            Ok(ParserToken::EndFile)
        ),
        events
    );
}

#[test]
fn a_token_out_of_place_is_an_error_and_the_pass_goes_on() {
    let (result, events) = parse(b"[1 2]");
    assert_eq!(Ok(()), result);
    assert_eq!(
        vec!(
            Ok(ParserToken::BeginFile),
            Ok(ParserToken::BeginArray),
            Ok(ParserToken::IntValue("1".into())),
            parse_error("Unexpected token `Ok(IntValue(\"2\"))`", 0, 6),
            Ok(ParserToken::EndArray),
            Ok(ParserToken::EndFile)
        ),
        events
    );
}

#[test]
fn the_messages_for_tokens_out_of_place() {
    for (input, message, column) in [
        ("]", "Unexpected token `Ok(EndArray)`", 1),
        ("}", "Unexpected token `Ok(EndObject)`", 1),
        (":", "Unexpected token `Ok(NameSeparator)`", 1),
        (",", "Unexpected token `Ok(ValueSeparator)`", 1),
        ("{1", "Unexpected token `Ok(IntValue(\"1\"))`", 2),
        ("{[", "Unexpected token `Ok(BeginArray)`", 2),
        ("{{", "Unexpected token `Ok(BeginObject)`", 2),
        ("{\"a\" \"b\\\"c\"", "Unexpected token `Ok(String(\"b\\\"c\"))`", 11),
        ("{\"a\":]", "Unexpected token `Ok(EndArray)`", 6),
        ("{\"a\":1 true ", "Unexpected token `Ok(BooleanValue(true))`", 13),
        ("[1 false ", "Unexpected token `Ok(BooleanValue(false))`", 10),
        ("[1 null ", "Unexpected token `Ok(NullValue)`", 9),
        ("[1 2.5 ", "Unexpected token `Ok(FloatValue(\"2.5\"))`", 8),
        ("[}", "Unexpected token `Ok(EndObject)`", 2),
        ("[:", "Unexpected token `Ok(NameSeparator)`", 2),
    ] {
        let (_, events) = parse(input.as_bytes());
        assert!(
            events.contains(&parse_error(message, 0, column)),
            "{:?} gave {:?}",
            input,
            events
        );
    }
}

#[test]
fn a_comma_before_the_end_of_a_container_is_let_through() {
    let (result, events) = parse(b"[1,]{\"a\":1,}");
    assert_eq!(Ok(()), result);
    assert_eq!(
        vec!(
            Ok(ParserToken::BeginFile),
            Ok(ParserToken::BeginArray),
            Ok(ParserToken::IntValue("1".into())),
            Ok(ParserToken::EndArray),
            Ok(ParserToken::BeginObject),
            Ok(ParserToken::Key("a".into())),
            Ok(ParserToken::IntValue("1".into())),
            Ok(ParserToken::EndObject),
            Ok(ParserToken::EndFile)
        ),
        events
    );
}

#[test]
fn an_error_of_the_lexer_is_passed_on_and_ends_the_pass() {
    let (result, events) = parse(b"[1, *, 2]");
    assert_eq!(Err(ConsumeError), result);
    assert_eq!(
        vec!(
            Ok(ParserToken::BeginFile),
            Ok(ParserToken::BeginArray),
            Ok(ParserToken::IntValue("1".into())),
            parse_error("Unexpected char `*`", 0, 6)
        ),
        events
    );
}

#[test]
fn the_consumer_of_the_parser_ends_the_pass() {
    let mut recorder = ParseRecorder { events: vec!(), room: 3 };
    let mut parser = JSONParser::new(ByteSource::new("{\"a\":[1,2]}".as_bytes()), false);
    assert_eq!(Err(ConsumeError), parser.parse(&mut recorder));
    assert_eq!(
        vec!(
            Ok(ParserToken::BeginFile),
            Ok(ParserToken::BeginObject),
            Ok(ParserToken::Key("a".into()))
        ),
        recorder.events
    );
}

#[test]
fn the_adapter_wants_the_opening_sentinel_first() {
    let mut recorder = ParseRecorder::new();
    {
        let mut adapter = JSONLexerToParser::new(&mut recorder);
        assert_eq!(Ok(()), adapter.consume(Ok(LexerToken::BeginArray), 3, 14));
        assert_eq!(Ok(()), adapter.consume(Ok(LexerToken::BeginFile), 3, 15));
        assert_eq!(Ok(()), adapter.consume(Ok(LexerToken::BeginFile), 3, 16));
        assert_eq!(Ok(()), adapter.consume(Ok(LexerToken::NullValue), 4, 20));
        assert_eq!(
            Err(ConsumeError),
            adapter.consume(Err(JSONLexError { msg: "bad".into(), line: 7, column: 8 }), 9, 10)
        );
    }
    assert_eq!(
        vec!(
            parse_error("Unexpected state", 3, 14),
            Ok(ParserToken::BeginFile),
            parse_error("Unexpected token `Ok(BeginFile)`", 3, 16),
            Ok(ParserToken::NullValue),
            parse_error("bad", 7, 8)
        ),
        recorder.events
    );
}

#[test]
fn the_adapter_as_the_consumer_of_the_lexer() {
    let mut recorder = ParseRecorder::new();
    let result = {
        let mut adapter = JSONLexerToParser::new(&mut recorder);
        let mut lexer = JSONLexer::new(ByteSource::new("[\"a\", {\"b\": -1.5e3}]".as_bytes()), false);
        lexer.lex(&mut adapter)
    };
    assert_eq!(Ok(()), result);
    assert_eq!(
        vec!(
            Ok(ParserToken::BeginFile),
            Ok(ParserToken::BeginArray),
            Ok(ParserToken::StringValue("a".into())),
            Ok(ParserToken::BeginObject),
            Ok(ParserToken::Key("b".into())),
            Ok(ParserToken::FloatValue("-1.5e3".into())),
            Ok(ParserToken::EndObject),
            Ok(ParserToken::EndArray),
            Ok(ParserToken::EndFile)
        ),
        recorder.events
    );
}

/// Whether `text` matches `-?(0|[1-9][0-9]*)(\.[0-9]+)?([eE]-?[0-9]+)?`.
fn is_number(text: &str) -> bool {
    fn digits(bytes: &[u8], from: usize) -> usize {
        let mut i = from;
        while i < bytes.len() && bytes[i].is_ascii_digit() {
            i += 1;
        }
        i
    }
    let bytes = text.as_bytes();
    let mut i = 0;
    if i < bytes.len() && bytes[i] == b'-' {
        i += 1;
    }
    if i < bytes.len() && bytes[i] == b'0' {
        i += 1;
    } else if i < bytes.len() && bytes[i].is_ascii_digit() {
        i = digits(bytes, i);
    } else {
        return false;
    }
    if i < bytes.len() && bytes[i] == b'.' {
        let end = digits(bytes, i + 1);
        if end == i + 1 {
            return false;
        }
        i = end;
    }
    if i < bytes.len() && (bytes[i] == b'e' || bytes[i] == b'E') {
        i += 1;
        if i < bytes.len() && bytes[i] == b'-' {
            i += 1;
        }
        let end = digits(bytes, i);
        if end == i {
            return false;
        }
        i = end;
    }
    i == bytes.len()
}

#[test]
fn every_number_that_comes_out_matches_the_grammar() {
    assert!(is_number("0") && is_number("-0.5e-7") && is_number("10E3"));
    assert!(!is_number("") && !is_number("-") && !is_number("01") && !is_number("1.") && !is_number("1e"));
    let inputs = [
        "0 -0 00 01 -01 1. .5 1e 1e- 1e+5 1.5e10 -1.5E-10 007 7.0.0 --1 1-2 9e9e9 12345678901234567890",
        "[0,-0,0.0,1e0,1E0,-12.34e-56,1.e1,-.5,1ee1,1e--1,0x10,1_000]",
        "-",
        "-0.",
        "3.14",
    ];
    for input in inputs {
        for token in lex(input.as_bytes(), false) {
            match token {
                Ok(LexerToken::IntValue(text)) => {
                    assert!(is_number(&text), "{:?}", text);
                    assert!(!text.contains(['.', 'e', 'E']), "{:?}", text);
                }
                Ok(LexerToken::FloatValue(text)) => {
                    assert!(is_number(&text), "{:?}", text);
                    assert!(text.contains(['.', 'e', 'E']), "{:?}", text);
                }
                _ => {}
            }
        }
    }
}

#[test]
fn every_string_that_comes_out_is_text() {
    let inputs: [&[u8]; 4] = [
        "[\"plain\", \"é말😀\", \"\\u00e9\\uB9D0\\uD83D\\uDE00\"]".as_bytes(),
        b"\"\\uD83D\" \"\\uDE00\" \"\\uD83Dx\"",
        b"\"\xc3\xa9\" \"\xc3\" \"\xff\" \"\xed\xa0\x80\"",
        b"\"a\\qb\" \"\\u12\" \"tail",
    ];
    for ignore_unicode_errs in [false, true] {
        for input in inputs {
            for token in lex(input, ignore_unicode_errs) {
                if let Ok(LexerToken::String(text)) = token {
                    let bytes = text.as_bytes().to_vec();
                    assert_eq!(Ok(text), String::from_utf8(bytes));
                }
            }
        }
    }
}

/// Reads parser tokens as a document: the open containers, and in an object
/// whether a key waits for its value.
fn nests(events: &[Result<ParserToken, JSONParseError>]) -> bool {
    let mut open: Vec<(bool, bool)> = vec!();
    fn value_fits(open: &[(bool, bool)]) -> bool {
        match open.last() {
            None => true,
            Some((array, awaits_value)) => *array || *awaits_value,
        }
    }
    fn after_value(open: &mut Vec<(bool, bool)>) {
        if let Some(top) = open.last_mut() {
            top.1 = false;
        }
    }
    if events.first() != Some(&Ok(ParserToken::BeginFile)) {
        return false;
    }
    for event in &events[1..] {
        match event {
            Err(_) | Ok(ParserToken::BeginFile) => return false,
            Ok(ParserToken::EndFile) => {
                if !open.is_empty() {
                    return false;
                }
            }
            Ok(ParserToken::BeginObject) | Ok(ParserToken::BeginArray) => {
                if !value_fits(&open) {
                    return false;
                }
                after_value(&mut open);
                open.push((*event == Ok(ParserToken::BeginArray), false));
            }
            Ok(ParserToken::EndObject) => {
                if open.pop() != Some((false, false)) {
                    return false;
                }
            }
            Ok(ParserToken::EndArray) => match open.pop() {
                Some((true, _)) => {}
                _ => return false,
            },
            Ok(ParserToken::Key(_)) => match open.last_mut() {
                Some((false, awaits_value)) if !*awaits_value => *awaits_value = true,
                _ => return false,
            },
            Ok(_) => {
                if !value_fits(&open) {
                    return false;
                }
                after_value(&mut open);
            }
        }
    }
    true
}

#[test]
fn what_the_parser_lets_through_nests() {
    for input in [
        "",
        "null",
        "[]",
        "{}",
        "[[[]]]",
        "{\"a\":{\"b\":{\"c\":[{}, [], 1, \"s\", true, null, -0.5]}}, \"d\": []}",
        "[1, [2, [3, {\"k\": [4]}]], {\"a\": 1, \"b\": {\"c\": 2}}]",
        "1 2 [3] {\"four\": 4}",
    ] {
        let (result, events) = parse(input.as_bytes());
        assert_eq!(Ok(()), result);
        assert!(events.iter().all(|event| event.is_ok()), "{:?}", input);
        assert_eq!(Some(&Ok(ParserToken::EndFile)), events.last());
        assert!(nests(&events), "{:?}", input);
    }
    assert!(!nests(&[Ok(ParserToken::BeginFile), Ok(ParserToken::Key("k".into()))]));
    assert!(!nests(&[
        Ok(ParserToken::BeginFile),
        Ok(ParserToken::BeginArray),
        Ok(ParserToken::EndObject)
    ]));
    assert!(!nests(&[
        Ok(ParserToken::BeginFile),
        Ok(ParserToken::BeginObject),
        Ok(ParserToken::NullValue)
    ]));
    assert!(!nests(&[
        Ok(ParserToken::BeginFile),
        Ok(ParserToken::BeginArray),
        Ok(ParserToken::EndFile)
    ]));
}

#[test]
fn what_is_let_through_before_an_error_nests() {
    for input in ["[1, 2", "{\"a\": [", "{\"a\": {\"b\": 1}", "[[[[", "{\"a\":1,\"b\""] {
        let (_, events) = parse(input.as_bytes());
        let accepted: Vec<_> = events.into_iter().take_while(|event| event.is_ok()).collect();
        assert!(nests(&accepted), "{:?}", input);
    }
}

#[test]
fn a_pass_with_a_consumer_as_the_receiving_end() {
    let mut recorder = Recorder::with_room(3);
    let result = {
        let mut direct = Direct::new(&mut recorder);
        let mut lexer = JSONLexer::new(ByteSource::new("[true]".as_bytes()), false);
        lexer.pass(&mut direct)
    };
    assert_eq!(Err(ConsumeError), result);
    assert_eq!(
        vec!(
            Ok(LexerToken::BeginFile),
            Ok(LexerToken::BeginArray),
            Ok(LexerToken::BooleanValue(true))
        ),
        recorder.tokens()
    );
    let mut recorder = Recorder::new();
    {
        let mut direct = Direct::new(&mut recorder);
        assert_eq!(Ok(()), direct.take(Ok(LexerToken::NullValue), 1, 2));
    }
    assert_eq!(vec!((Ok(LexerToken::NullValue), 1, 2)), recorder.events);
}
