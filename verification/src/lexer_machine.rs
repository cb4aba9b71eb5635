//! The lexer as a machine: what one byte does to its state, and what it emits.

use crate::json_lexer::{
    lex_event, JSONLexError, LexErrorView, LexEvent, LexerToken, LexerTokenView,
};
use crate::number_grammar::{
    continues, is_json_float, is_json_integer, is_terminal, lemma_shape_complete,
    lemma_shape_first, lemma_shape_push, lemma_zero_is_integer, number_shape, LexerNumberSubState,
};
use crate::text::{
    char_from_u32, decimal_text, encode_char, latin1_string, latin1_text, push_char,
    push_decimal, quote_char_message, quote_message, quoted, string_from_utf8, utf8_error_text,
};
use crate::ascii::{
    BACKSLASH, CARRIAGE_RETURN, COLON, COMMA, DIGIT_0, DIGIT_1, DIGIT_9, DOT, LEFT_BRACE,
    LEFT_BRACKET, LINE_FEED, LOWER_A, LOWER_B, LOWER_E, LOWER_F, LOWER_L, LOWER_N, LOWER_R,
    LOWER_S, LOWER_T, LOWER_U, MINUS, QUOTE, RIGHT_BRACE, RIGHT_BRACKET, SPACE, TAB,
    UPPER_A, UPPER_E, UPPER_F,
};
use vstd::prelude::*;
use vstd::string::*;
use vstd::utf8::*;

verus! {

/// The literals that start with a letter.
#[derive(Clone, Copy, Debug)]
pub enum Keyword {
    False,
    True,
    Null,
}

/// Where the lexer stands inside a string literal.
#[derive(Clone, Copy, Debug)]
pub enum LexerStringSubState {
    /// Between characters.
    Plain,
    /// After a backslash.
    Escape,
    /// After `\u` and `index` hexadecimal digits, which make up `code_point`.
    Unicode { code_point: u32, index: u8 },
}

/// The top-level mode of the lexer.
#[derive(Clone, Copy, Debug)]
pub enum LexerState {
    /// Between tokens.
    Idle,
    /// Inside a literal word, before the byte at `index` of its expected bytes.
    Expect { word: Keyword, index: u8 },
    /// Inside a number.
    Number(LexerNumberSubState),
    /// Inside a string literal. `high` is the high surrogate that waits for its low
    /// surrogate, or zero.
    String { sub: LexerStringSubState, high: u32 },
}

/// A token, an error message, or nothing.
pub type Emitted = Option<Result<LexerTokenView, Seq<char>>>;

/// What a byte does in a given state: the next state and buffer, what is
/// emitted, and whether the byte is to be read again.
pub struct Turn {
    pub state: LexerState,
    pub buf: Seq<u8>,
    pub out: Emitted,
    pub unget: bool,
}

/// The state of the lexer between two bytes.
pub struct MachineView {
    pub state: LexerState,
    pub buf: Seq<u8>,
    pub line: usize,
    pub column: usize,
    pub ignore_unicode_errs: bool,
    /// The byte read last was pushed back: it comes again, and is no new byte
    /// of the stream.
    pub again: bool,
}

/// The result of reading one byte: the machine after it, the event that it
/// gives rise to, if any, and whether the byte is to be read again.
pub struct Advance {
    pub machine: MachineView,
    pub event: Option<LexEvent>,
    pub unget: bool,
}

impl Keyword {
    /// The four bytes against which the bytes after the first letter are held.
    /// For `true` and `null` the first of them is never looked at.
    pub open spec fn expected(self) -> Seq<u8> {
        match self {
            Keyword::False => seq![LOWER_A, LOWER_L, LOWER_S, LOWER_E],
            Keyword::True => seq![0u8, LOWER_R, LOWER_U, LOWER_E],
            Keyword::Null => seq![0u8, LOWER_U, LOWER_L, LOWER_L],
        }
    }

    /// The expected bytes as they appear in a diagnostic.
    pub open spec fn expected_text(self) -> Seq<char> {
        match self {
            Keyword::False => "alse"@,
            Keyword::True => "\0rue"@,
            Keyword::Null => "\0ull"@,
        }
    }

    /// The index of the first expected byte that is looked at.
    pub open spec fn first_index(self) -> u8 {
        match self {
            Keyword::False => 0,
            Keyword::True => 1,
            Keyword::Null => 1,
        }
    }

    /// The token that the word stands for.
    pub open spec fn token(self) -> LexerTokenView {
        match self {
            Keyword::False => LexerTokenView::BooleanValue(false),
            Keyword::True => LexerTokenView::BooleanValue(true),
            Keyword::Null => LexerTokenView::NullValue,
        }
    }
}

/// The value of a hexadecimal digit, in either case.
pub open spec fn hex_value(byte: u8) -> Option<u32> {
    if DIGIT_0 <= byte <= DIGIT_9 {
        Some((byte - DIGIT_0) as u32)
    } else if LOWER_A <= byte <= LOWER_F {
        Some((byte - LOWER_A + 10) as u32)
    } else if UPPER_A <= byte <= UPPER_F {
        Some((byte - UPPER_A + 10) as u32)
    } else {
        None
    }
}

/// The byte that a single-character escape stands for.
pub open spec fn escape_value(byte: u8) -> Option<u8> {
    if byte == QUOTE || byte == BACKSLASH {
        Some(byte)
    } else if byte == LOWER_B {
        Some(0x08u8)
    } else if byte == LOWER_F {
        Some(0x0Cu8)
    } else if byte == LOWER_N {
        Some(0x0Au8)
    } else if byte == LOWER_R {
        Some(0x0Du8)
    } else if byte == LOWER_T {
        Some(0x09u8)
    } else {
        None
    }
}

/// The first half of a surrogate pair.
pub open spec fn is_high_surrogate(code_point: u32) -> bool {
    0xD800 <= code_point <= 0xDBFF
}

/// The second half of a surrogate pair.
pub open spec fn is_low_surrogate(code_point: u32) -> bool {
    0xDC00 <= code_point <= 0xDFFF
}

/// The code point that a surrogate pair stands for.
pub open spec fn compose_surrogates(high: u32, low: u32) -> u32 {
    (0x10000 + (high - 0xD800) * 0x400 + (low - 0xDC00)) as u32
}

/// The code point that takes the place of one that cannot be had.
pub open spec fn replacement() -> u32 {
    0xFFFDu32
}

/// The state changes, nothing is emitted.
pub open spec fn go(state: LexerState, buf: Seq<u8>) -> Turn {
    Turn { state, buf, out: None, unget: false }
}

/// A token is emitted and the lexer is between tokens again.
pub open spec fn token_turn(token: LexerTokenView, unget: bool) -> Turn {
    Turn { state: LexerState::Idle, buf: seq![], out: Some(Ok(token)), unget }
}

/// An error is emitted.
pub open spec fn failure(state: LexerState, buf: Seq<u8>, msg: Seq<char>, unget: bool) -> Turn {
    Turn { state, buf, out: Some(Err(msg)), unget }
}

/// A byte between tokens.
pub open spec fn idle_turn(buf: Seq<u8>, byte: u8) -> Turn {
    if byte == SPACE || byte == TAB || byte == CARRIAGE_RETURN || byte == LINE_FEED {
        go(LexerState::Idle, buf)
    } else if byte == LOWER_F {
        go(LexerState::Expect { word: Keyword::False, index: 0 }, buf)
    } else if byte == LOWER_T {
        go(LexerState::Expect { word: Keyword::True, index: 1 }, buf)
    } else if byte == LOWER_N {
        go(LexerState::Expect { word: Keyword::Null, index: 1 }, buf)
    } else if byte == LEFT_BRACE {
        token_turn(LexerTokenView::BeginObject, false)
    } else if byte == RIGHT_BRACE {
        token_turn(LexerTokenView::EndObject, false)
    } else if byte == LEFT_BRACKET {
        token_turn(LexerTokenView::BeginArray, false)
    } else if byte == RIGHT_BRACKET {
        token_turn(LexerTokenView::EndArray, false)
    } else if byte == COLON {
        token_turn(LexerTokenView::NameSeparator, false)
    } else if byte == COMMA {
        token_turn(LexerTokenView::ValueSeparator, false)
    } else if byte == MINUS {
        go(LexerState::Number(LexerNumberSubState::NegNumberStart), seq![byte])
    } else if byte == DIGIT_0 {
        go(LexerState::Number(LexerNumberSubState::ZeroNumberStart), seq![byte])
    } else if byte == QUOTE {
        go(LexerState::String { sub: LexerStringSubState::Plain, high: 0 }, seq![])
    } else if DIGIT_1 <= byte <= DIGIT_9 {
        go(LexerState::Number(LexerNumberSubState::OtherNumber), seq![byte])
    } else {
        failure(LexerState::Idle, buf, quoted("Unexpected char `"@, seq![byte as char]), false)
    }
}

/// A byte inside a literal word. After the last expected byte the next byte,
/// whatever it is, ends the word and is read again.
pub open spec fn expect_turn(word: Keyword, index: u8, buf: Seq<u8>, byte: u8) -> Turn {
    if index < 4 {
        if word.expected()[index as int] == byte {
            go(LexerState::Expect { word, index: (index + 1) as u8 }, buf)
        } else {
            failure(
                LexerState::Idle,
                buf,
                quoted("Expected word `"@, word.expected_text()),
                false,
            )
        }
    } else {
        token_turn(word.token(), true)
    }
}

/// The number goes on with `byte`, which is kept as `kept`.
pub open spec fn number_goes_on(next: LexerNumberSubState, buf: Seq<u8>, kept: u8) -> Turn {
    go(LexerState::Number(next), buf.push(kept))
}

/// The number ends before `byte`, which is read again.
pub open spec fn number_ends(sub: LexerNumberSubState, buf: Seq<u8>, byte: u8) -> Turn {
    let text = latin1_text(buf);
    match sub {
        LexerNumberSubState::NegNumberStart => failure(
            LexerState::Idle,
            seq![],
            quoted("Expected a digit `"@, seq![byte as char]),
            true,
        ),
        LexerNumberSubState::ZeroNumberStart => token_turn(
            LexerTokenView::IntValue(seq!['0']),
            true,
        ),
        LexerNumberSubState::OtherNumber => token_turn(LexerTokenView::IntValue(text), true),
        LexerNumberSubState::NumberFracStart => failure(
            LexerState::Idle,
            seq![],
            quoted("Missing decimals `"@, text),
            true,
        ),
        LexerNumberSubState::NumberFracExpStart
        | LexerNumberSubState::NumberFracExpMinusStart => failure(
            LexerState::Idle,
            seq![],
            quoted("Missing exp `"@, text),
            true,
        ),
        LexerNumberSubState::NumberFrac
        | LexerNumberSubState::NumberFracExp
        | LexerNumberSubState::NumberFracExpMinus => token_turn(
            LexerTokenView::FloatValue(text),
            true,
        ),
    }
}

/// The sub-state in which the number goes on after `byte`, and the byte that is
/// kept for it, which is `byte` as it came; `None` where `byte` ends the number.
pub open spec fn number_next(sub: LexerNumberSubState, byte: u8) -> Option<
    (LexerNumberSubState, u8),
> {
    let digit = DIGIT_0 <= byte <= DIGIT_9;
    let exponent = byte == LOWER_E || byte == UPPER_E;
    match sub {
        LexerNumberSubState::NegNumberStart => {
            if byte == DIGIT_0 {
                Some((LexerNumberSubState::ZeroNumberStart, byte))
            } else if digit {
                Some((LexerNumberSubState::OtherNumber, byte))
            } else {
                None
            }
        },
        LexerNumberSubState::ZeroNumberStart => {
            if byte == DOT {
                Some((LexerNumberSubState::NumberFracStart, byte))
            } else if exponent {
                Some((LexerNumberSubState::NumberFracExpStart, byte))
            } else {
                None
            }
        },
        LexerNumberSubState::OtherNumber => {
            if byte == DOT {
                Some((LexerNumberSubState::NumberFracStart, byte))
            } else if exponent {
                Some((LexerNumberSubState::NumberFracExpStart, byte))
            } else if digit {
                Some((LexerNumberSubState::OtherNumber, byte))
            } else {
                None
            }
        },
        LexerNumberSubState::NumberFracStart => {
            if digit {
                Some((LexerNumberSubState::NumberFrac, byte))
            } else {
                None
            }
        },
        LexerNumberSubState::NumberFrac => {
            if exponent {
                Some((LexerNumberSubState::NumberFracExpStart, byte))
            } else if digit {
                Some((LexerNumberSubState::NumberFrac, byte))
            } else {
                None
            }
        },
        LexerNumberSubState::NumberFracExpStart => {
            if byte == MINUS {
                Some((LexerNumberSubState::NumberFracExpMinusStart, byte))
            } else if digit {
                Some((LexerNumberSubState::NumberFracExp, byte))
            } else {
                None
            }
        },
        LexerNumberSubState::NumberFracExp => {
            if digit {
                Some((LexerNumberSubState::NumberFracExp, byte))
            } else {
                None
            }
        },
        LexerNumberSubState::NumberFracExpMinusStart => {
            if digit {
                Some((LexerNumberSubState::NumberFracExpMinus, byte))
            } else {
                None
            }
        },
        LexerNumberSubState::NumberFracExpMinus => {
            if digit {
                Some((LexerNumberSubState::NumberFracExpMinus, byte))
            } else {
                None
            }
        },
    }
}

/// A byte inside a number.
pub open spec fn number_turn(sub: LexerNumberSubState, buf: Seq<u8>, byte: u8) -> Turn {
    match number_next(sub, byte) {
        Some((next, kept)) => number_goes_on(next, buf, kept),
        None => number_ends(sub, buf, byte),
    }
}

/// The closing quote: the bytes between the quotes are decoded as UTF-8.
pub open spec fn string_closes(buf: Seq<u8>) -> Turn {
    if valid_utf8(buf) {
        token_turn(LexerTokenView::String(decode_utf8(buf)), false)
    } else {
        failure(
            LexerState::Idle,
            seq![],
            quoted("Can't decode string `"@, utf8_error_text(buf)),
            false,
        )
    }
}

/// The string goes on between characters, with no surrogate waiting.
pub open spec fn string_goes_on(buf: Seq<u8>) -> Turn {
    go(LexerState::String { sub: LexerStringSubState::Plain, high: 0 }, buf)
}

/// The buffer after a surrogate that found no partner: with `ignore` the
/// replacement character stands for it.
pub open spec fn after_lone_surrogate(buf: Seq<u8>, ignore: bool) -> Seq<u8> {
    if ignore {
        buf + encode_scalar(replacement())
    } else {
        buf
    }
}

/// The fourth hexadecimal digit of an escape, with no surrogate waiting.
pub open spec fn escape_closes(code_point: u32, buf: Seq<u8>, ignore: bool) -> Turn {
    if is_high_surrogate(code_point) {
        go(LexerState::String { sub: LexerStringSubState::Plain, high: code_point }, buf)
    } else if is_scalar(code_point) {
        string_goes_on(buf + encode_scalar(code_point))
    } else if ignore {
        string_goes_on(buf + encode_scalar(replacement()))
    } else {
        failure(
            LexerState::String { sub: LexerStringSubState::Plain, high: 0 },
            buf,
            quoted("This is not a code point `"@, decimal_text(code_point as nat)),
            false,
        )
    }
}

/// The fourth hexadecimal digit of the escape that follows a high surrogate.
pub open spec fn pair_closes(high: u32, code_point: u32, buf: Seq<u8>, ignore: bool) -> Turn {
    if is_low_surrogate(code_point) {
        string_goes_on(buf + encode_scalar(compose_surrogates(high, code_point)))
    } else {
        failure(
            LexerState::String { sub: LexerStringSubState::Plain, high: 0 },
            after_lone_surrogate(buf, ignore),
            quoted("Waiting for low surrogate, got `"@, decimal_text(code_point as nat)),
            false,
        )
    }
}

/// A byte inside a string literal.
pub open spec fn string_turn(
    sub: LexerStringSubState,
    high: u32,
    buf: Seq<u8>,
    byte: u8,
    ignore: bool,
) -> Turn {
    match sub {
        LexerStringSubState::Plain => {
            if byte == BACKSLASH {
                go(LexerState::String { sub: LexerStringSubState::Escape, high }, buf)
            } else if high != 0 {
                failure(
                    LexerState::String { sub: LexerStringSubState::Plain, high: 0 },
                    after_lone_surrogate(buf, ignore),
                    quoted(
                        "Waiting for low surrogate: needs backslash, got `"@,
                        seq![byte as char],
                    ),
                    true,
                )
            } else if byte == QUOTE {
                string_closes(buf)
            } else {
                string_goes_on(buf.push(byte))
            }
        },
        LexerStringSubState::Escape => {
            if byte == LOWER_U {
                go(
                    LexerState::String {
                        sub: LexerStringSubState::Unicode { code_point: 0, index: 0 },
                        high,
                    },
                    buf,
                )
            } else if high != 0 {
                failure(
                    LexerState::String { sub: LexerStringSubState::Escape, high: 0 },
                    after_lone_surrogate(buf, ignore),
                    quoted("Waiting for low surrogate: needs \\u, got `\\"@, seq![byte as char]),
                    true,
                )
            } else {
                match escape_value(byte) {
                    Some(value) => string_goes_on(buf.push(value)),
                    None => failure(
                        LexerState::String { sub: LexerStringSubState::Plain, high: 0 },
                        buf,
                        quoted("Unknown escaped char `"@, seq![byte as char]),
                        false,
                    ),
                }
            }
        },
        LexerStringSubState::Unicode { code_point, index } => {
            match hex_value(byte) {
                None => failure(
                    LexerState::String { sub: LexerStringSubState::Plain, high },
                    buf,
                    quoted("Unknown hex digit `"@, seq![byte as char]),
                    false,
                ),
                Some(digit) => {
                    let value = (code_point * 16 + digit) as u32;
                    if index < 3 {
                        go(
                            LexerState::String {
                                sub: LexerStringSubState::Unicode {
                                    code_point: value,
                                    index: (index + 1) as u8,
                                },
                                high,
                            },
                            buf,
                        )
                    } else if high == 0 {
                        escape_closes(value, buf, ignore)
                    } else {
                        pair_closes(high, value, buf, ignore)
                    }
                },
            }
        },
    }
}

/// What `byte` does in state `state`.
pub open spec fn turn(state: LexerState, buf: Seq<u8>, byte: u8, ignore: bool) -> Turn {
    match state {
        LexerState::Idle => idle_turn(buf, byte),
        LexerState::Expect { word, index } => expect_turn(word, index, buf, byte),
        LexerState::Number(sub) => number_turn(sub, buf, byte),
        LexerState::String { sub, high } => string_turn(sub, high, buf, byte, ignore),
    }
}

/// What the end of the stream emits to close the state in which it finds the lexer.
pub open spec fn closing(state: LexerState, buf: Seq<u8>) -> Emitted {
    match state {
        LexerState::Idle => None,
        LexerState::Expect { word, index } => if index >= 4 {
            Some(Ok(word.token()))
        } else {
            Some(Err("Unexpected sub_state"@))
        },
        LexerState::Number(sub) => {
            let text = latin1_text(buf);
            match sub {
                LexerNumberSubState::ZeroNumberStart => Some(
                    Ok(LexerTokenView::IntValue(seq!['0'])),
                ),
                LexerNumberSubState::NegNumberStart => Some(
                    Err(quoted("Missing digits `"@, text)),
                ),
                LexerNumberSubState::OtherNumber => Some(Ok(LexerTokenView::IntValue(text))),
                LexerNumberSubState::NumberFracStart => Some(
                    Err(quoted("Missing decimals `"@, text)),
                ),
                LexerNumberSubState::NumberFracExpStart
                | LexerNumberSubState::NumberFracExpMinusStart => Some(
                    Err(quoted("Missing exp `"@, text)),
                ),
                LexerNumberSubState::NumberFrac
                | LexerNumberSubState::NumberFracExp
                | LexerNumberSubState::NumberFracExpMinus => Some(
                    Ok(LexerTokenView::FloatValue(text)),
                ),
            }
        },
        LexerState::String { .. } => {
            if valid_utf8(buf) {
                Some(Err(quoted("Unfinished string `"@, decode_utf8(buf))))
            } else {
                Some(Err(quoted("Can't decode string `"@, utf8_error_text(buf))))
            }
        },
    }
}

/// The event that carries what was emitted at the given position.
pub open spec fn stamp(out: Emitted, line: usize, column: usize) -> Option<LexEvent> {
    match out {
        None => None,
        Some(Ok(token)) => Some(LexEvent { token: Ok(token), line, column }),
        Some(Err(msg)) => Some(
            LexEvent { token: Err(LexErrorView { msg, line, column }), line, column },
        ),
    }
}

/// The bound on the value of `index` hexadecimal digits.
pub open spec fn hex_bound(index: u8) -> int {
    if index == 0 {
        1
    } else if index == 1 {
        0x10
    } else if index == 2 {
        0x100
    } else {
        0x1000
    }
}

/// The state and the buffer fit together.
pub open spec fn state_wf(state: LexerState, buf: Seq<u8>) -> bool {
    match state {
        LexerState::Idle => buf.len() == 0,
        LexerState::Expect { word, index } => buf.len() == 0 && word.first_index() <= index <= 4,
        LexerState::Number(sub) => number_shape(sub, latin1_text(buf)),
        LexerState::String { sub, high } => {
            &&& high == 0 || is_high_surrogate(high)
            &&& match sub {
                LexerStringSubState::Unicode { code_point, index } => index <= 3 && code_point
                    < hex_bound(index),
                _ => true,
            }
        },
    }
}

impl MachineView {
    /// The machine before the first byte.
    pub open spec fn start(ignore_unicode_errs: bool) -> MachineView {
        MachineView {
            state: LexerState::Idle,
            buf: seq![],
            line: 0,
            column: 0,
            ignore_unicode_errs,
            again: false,
        }
    }

    /// The state and the buffer fit together, and no more lines than bytes were counted.
    pub open spec fn wf(self) -> bool {
        &&& state_wf(self.state, self.buf)
        &&& self.line <= self.column
    }

    /// Another byte can be counted.
    pub open spec fn has_room(self) -> bool {
        self.column < usize::MAX
    }

    /// The line after `byte` was read: a line feed that is a new byte of the
    /// stream counts a line; one that comes again was counted already.
    pub open spec fn line_after(self, byte: u8) -> usize {
        if byte == LINE_FEED && !self.again {
            (self.line + 1) as usize
        } else {
            self.line
        }
    }

    /// Reads one byte. Every byte advances the column, also one that comes
    /// again. A line feed advances the line. The byte then acts on the state,
    /// and what it emits carries the position after it.
    pub open spec fn advance(self, byte: u8) -> Advance
        recommends
            self.has_room(),
    {
        let column = (self.column + 1) as usize;
        let line = self.line_after(byte);
        let t = turn(self.state, self.buf, byte, self.ignore_unicode_errs);
        Advance {
            machine: MachineView {
                state: t.state,
                buf: t.buf,
                line,
                column,
                again: t.unget,
                ..self
            },
            event: stamp(t.out, line, column),
            unget: t.unget,
        }
    }

    /// The event that closes the open state at the end of the stream, if it needs one.
    pub open spec fn closing_event(self) -> Option<LexEvent> {
        stamp(closing(self.state, self.buf), self.line, self.column)
    }

    /// The machine after the end of the stream: between tokens, at the same position.
    pub open spec fn closed(self) -> MachineView {
        MachineView { state: LexerState::Idle, buf: seq![], again: false, ..self }
    }
}

/// The characters of a buffer with one more byte.
pub proof fn lemma_latin1_push(buf: Seq<u8>, byte: u8)
    ensures
        latin1_text(buf.push(byte)) == latin1_text(buf).push(byte as char),
{
    assert(latin1_text(buf.push(byte)) =~= latin1_text(buf).push(byte as char));
}

/// A byte keeps the state and the buffer fitting together, and a number that it
/// completes matches the grammar of numbers.
pub proof fn lemma_turn(state: LexerState, buf: Seq<u8>, byte: u8, ignore: bool)
    requires
        state_wf(state, buf),
    ensures
        state_wf(turn(state, buf, byte, ignore).state, turn(state, buf, byte, ignore).buf),
        match turn(state, buf, byte, ignore).out {
            Some(Ok(LexerTokenView::IntValue(text))) => is_json_integer(text),
            Some(Ok(LexerTokenView::FloatValue(text))) => is_json_float(text),
            _ => true,
        },
        turn(state, buf, byte, ignore).unget ==> !turn(
            turn(state, buf, byte, ignore).state,
            turn(state, buf, byte, ignore).buf,
            byte,
            ignore,
        ).unget,
{
    let t = turn(state, buf, byte, ignore);
    match state {
        LexerState::Idle => {
            if byte == MINUS || byte == DIGIT_0 || (DIGIT_1 <= byte <= DIGIT_9) {
                assert(latin1_text(seq![byte]) =~= seq![byte as char]);
                if let LexerState::Number(sub) = t.state {
                    lemma_shape_first(byte as char, sub);
                }
            }
        },
        LexerState::Expect { word, index } => {},
        LexerState::Number(sub) => {
            let text = latin1_text(buf);
            match number_next(sub, byte) {
                Some((next, kept)) => {
                    lemma_latin1_push(buf, kept);
                    assert(continues(sub, kept as char, next));
                    lemma_shape_push(sub, text, kept as char, next);
                },
                None => {
                    lemma_zero_is_integer();
                    if is_terminal(sub) {
                        lemma_shape_complete(sub, text);
                    }
                },
            }
        },
        LexerState::String { sub, high } => {},
    }
}

/// The end of the stream closes a number only with a lexeme that matches the
/// grammar of numbers.
pub proof fn lemma_closing(state: LexerState, buf: Seq<u8>)
    requires
        state_wf(state, buf),
    ensures
        match closing(state, buf) {
            Some(Ok(LexerTokenView::IntValue(text))) => is_json_integer(text),
            Some(Ok(LexerTokenView::FloatValue(text))) => is_json_float(text),
            _ => true,
        },
{
    if let LexerState::Number(sub) = state {
        lemma_zero_is_integer();
        if is_terminal(sub) {
            lemma_shape_complete(sub, latin1_text(buf));
        }
    }
}

/// What reading one byte gave: the event to deliver, if any, and whether the
/// byte is to be read again.
pub struct Scanned {
    pub event: Option<Result<LexerToken, JSONLexError>>,
    pub unget: bool,
}

/// The event that is delivered with a token or an error at the given position.
pub open spec fn delivery(
    event: Option<Result<LexerToken, JSONLexError>>,
    line: usize,
    column: usize,
) -> Option<LexEvent> {
    match event {
        None => None,
        Some(token) => Some(lex_event(token, line, column)),
    }
}

/// `after` and `r` are what the turn `t` makes of the machine `before`.
pub open spec fn turned(before: MachineView, t: Turn, after: MachineView, r: Scanned) -> bool {
    &&& after.state == t.state
    &&& after.buf =~= t.buf
    &&& after.line == before.line
    &&& after.column == before.column
    &&& after.ignore_unicode_errs == before.ignore_unicode_errs
    &&& after.again == before.again
    &&& r.unget == t.unget
    &&& delivery(r.event, before.line, before.column) == stamp(
        t.out,
        before.line,
        before.column,
    )
}

/// `after` and `r` are the machine and the outcome that `a` describes.
pub open spec fn advanced(a: Advance, after: MachineView, r: Scanned) -> bool {
    &&& after == a.machine
    &&& r.unget == a.unget
    &&& delivery(r.event, after.line, after.column) == a.event
}

impl Keyword {
    /// The expected byte at `index`.
    fn expected_byte(self, index: u8) -> (b: u8)
        requires
            index < 4,
        ensures
            b == self.expected()[index as int],
    {
        match self {
            Keyword::False => {
                if index == 0 {
                    LOWER_A
                } else if index == 1 {
                    LOWER_L
                } else if index == 2 {
                    LOWER_S
                } else {
                    LOWER_E
                }
            },
            Keyword::True => {
                if index == 0 {
                    0
                } else if index == 1 {
                    LOWER_R
                } else if index == 2 {
                    LOWER_U
                } else {
                    LOWER_E
                }
            },
            Keyword::Null => {
                if index == 0 {
                    0
                } else if index == 1 {
                    LOWER_U
                } else {
                    LOWER_L
                }
            },
        }
    }

    /// The expected bytes as they appear in a diagnostic.
    fn expected_str(self) -> (s: &'static str)
        ensures
            s@ == self.expected_text(),
    {
        match self {
            Keyword::False => "alse",
            Keyword::True => "\0rue",
            Keyword::Null => "\0ull",
        }
    }

    /// The token that the word stands for.
    fn into_token(self) -> (t: LexerToken)
        ensures
            t@ == self.token(),
    {
        match self {
            Keyword::False => LexerToken::BooleanValue(false),
            Keyword::True => LexerToken::BooleanValue(true),
            Keyword::Null => LexerToken::NullValue,
        }
    }
}

/// The sub-state in which a number goes on after `byte`, and the byte to keep.
fn next_in_number(sub: LexerNumberSubState, byte: u8) -> (r: Option<(LexerNumberSubState, u8)>)
    ensures
        r == number_next(sub, byte),
{
    let digit = DIGIT_0 <= byte && byte <= DIGIT_9;
    let exponent = byte == LOWER_E || byte == UPPER_E;
    match sub {
        LexerNumberSubState::NegNumberStart => {
            if byte == DIGIT_0 {
                Some((LexerNumberSubState::ZeroNumberStart, byte))
            } else if digit {
                Some((LexerNumberSubState::OtherNumber, byte))
            } else {
                None
            }
        },
        LexerNumberSubState::ZeroNumberStart => {
            if byte == DOT {
                Some((LexerNumberSubState::NumberFracStart, byte))
            } else if exponent {
                Some((LexerNumberSubState::NumberFracExpStart, byte))
            } else {
                None
            }
        },
        LexerNumberSubState::OtherNumber => {
            if byte == DOT {
                Some((LexerNumberSubState::NumberFracStart, byte))
            } else if exponent {
                Some((LexerNumberSubState::NumberFracExpStart, byte))
            } else if digit {
                Some((LexerNumberSubState::OtherNumber, byte))
            } else {
                None
            }
        },
        LexerNumberSubState::NumberFracStart => {
            if digit {
                Some((LexerNumberSubState::NumberFrac, byte))
            } else {
                None
            }
        },
        LexerNumberSubState::NumberFrac => {
            if exponent {
                Some((LexerNumberSubState::NumberFracExpStart, byte))
            } else if digit {
                Some((LexerNumberSubState::NumberFrac, byte))
            } else {
                None
            }
        },
        LexerNumberSubState::NumberFracExpStart => {
            if byte == MINUS {
                Some((LexerNumberSubState::NumberFracExpMinusStart, byte))
            } else if digit {
                Some((LexerNumberSubState::NumberFracExp, byte))
            } else {
                None
            }
        },
        LexerNumberSubState::NumberFracExp => {
            if digit {
                Some((LexerNumberSubState::NumberFracExp, byte))
            } else {
                None
            }
        },
        LexerNumberSubState::NumberFracExpMinusStart => {
            if digit {
                Some((LexerNumberSubState::NumberFracExpMinus, byte))
            } else {
                None
            }
        },
        LexerNumberSubState::NumberFracExpMinus => {
            if digit {
                Some((LexerNumberSubState::NumberFracExpMinus, byte))
            } else {
                None
            }
        },
    }
}

/// The byte that a single-character escape stands for.
fn unescape(byte: u8) -> (r: Option<u8>)
    ensures
        r == escape_value(byte),
{
    if byte == QUOTE || byte == BACKSLASH {
        Some(byte)
    } else if byte == LOWER_B {
        Some(0x08)
    } else if byte == LOWER_F {
        Some(0x0C)
    } else if byte == LOWER_N {
        Some(0x0A)
    } else if byte == LOWER_R {
        Some(0x0D)
    } else if byte == LOWER_T {
        Some(0x09)
    } else {
        None
    }
}

/// The lexer's state machine, fed one byte at a time.
pub struct LexerMachine {
    state: LexerState,
    buf: Vec<u8>,
    line: usize,
    column: usize,
    ignore_unicode_errs: bool,
    again: bool,
}

impl View for LexerMachine {
    type V = MachineView;

    closed spec fn view(&self) -> MachineView {
        MachineView {
            state: self.state,
            buf: self.buf@,
            line: self.line,
            column: self.column,
            ignore_unicode_errs: self.ignore_unicode_errs,
            again: self.again,
        }
    }
}

impl LexerMachine {
    /// A machine before the first byte, at line 0 and column 0. With
    /// `ignore_unicode_errs` the replacement character takes the place of a code
    /// point that cannot be had.
    pub fn new(ignore_unicode_errs: bool) -> (m: Self)
        ensures
            m@ == MachineView::start(ignore_unicode_errs),
            m@.wf(),
    {
        LexerMachine {
            state: LexerState::Idle,
            buf: Vec::new(),
            line: 0,
            column: 0,
            ignore_unicode_errs,
            again: false,
        }
    }

    /// The number of line feeds read.
    pub fn line(&self) -> (line: usize)
        ensures
            line == self@.line,
    {
        self.line
    }

    /// The number of bytes read, each counted as often as it was read.
    pub fn column(&self) -> (column: usize)
        ensures
            column == self@.column,
    {
        self.column
    }

    /// Whether another byte can be counted.
    pub fn has_room(&self) -> (r: bool)
        ensures
            r == self@.has_room(),
    {
        self.column < usize::MAX
    }

    /// The value of a hexadecimal digit, or the error for a byte that is none.
    pub fn parse_hex(&self, byte: u8) -> (r: Result<u32, JSONLexError>)
        ensures
            match hex_value(byte) {
                Some(value) => r == Ok::<u32, JSONLexError>(value),
                None => r is Err && r->Err_0@ == (LexErrorView {
                    msg: quoted("Unknown hex digit `"@, seq![byte as char]),
                    line: self@.line,
                    column: self@.column,
                }),
            },
    {
        if DIGIT_0 <= byte && byte <= DIGIT_9 {
            Ok((byte - DIGIT_0) as u32)
        } else if LOWER_A <= byte && byte <= LOWER_F {
            Ok((byte - LOWER_A) as u32 + 10)
        } else if UPPER_A <= byte && byte <= UPPER_F {
            Ok((byte - UPPER_A) as u32 + 10)
        } else {
            Err(
                JSONLexError {
                    msg: quote_char_message("Unknown hex digit `", byte as char),
                    line: self.line,
                    column: self.column,
                },
            )
        }
    }

    /// Nothing to deliver, the byte is done with.
    fn silent() -> (r: Scanned)
        ensures
            r.event is None,
            !r.unget,
    {
        Scanned { event: None, unget: false }
    }

    /// A token to deliver.
    fn token(&self, token: LexerToken, unget: bool) -> (r: Scanned)
        ensures
            r.unget == unget,
            delivery(r.event, self@.line, self@.column) == stamp(
                Some(Ok(token@)),
                self@.line,
                self@.column,
            ),
    {
        Scanned { event: Some(Ok(token)), unget }
    }

    /// An error to deliver, met at the current position.
    fn error(&self, msg: String, unget: bool) -> (r: Scanned)
        ensures
            r.unget == unget,
            delivery(r.event, self@.line, self@.column) == stamp(
                Some(Err(msg@)),
                self@.line,
                self@.column,
            ),
    {
        Scanned {
            event: Some(Err(JSONLexError { msg, line: self.line, column: self.column })),
            unget,
        }
    }

    /// Empties the buffer and hands out what it held.
    fn take_buf(&mut self) -> (bytes: Vec<u8>)
        ensures
            bytes@ == old(self)@.buf,
            final(self)@ == (MachineView { buf: seq![], ..old(self)@ }),
    {
        let mut bytes: Vec<u8> = Vec::new();
        std::mem::swap(&mut self.buf, &mut bytes);
        bytes
    }

    /// Appends the UTF-8 encoding of `c` to the buffer.
    fn push_scalar(&mut self, c: char)
        ensures
            final(self)@ == (MachineView {
                buf: old(self)@.buf + encode_scalar(c as u32),
                ..old(self)@
            }),
    {
        let mut encoded = encode_char(c);
        self.buf.append(&mut encoded);
    }

    /// With `ignore_unicode_errs`, puts the replacement character in the place
    /// of a surrogate that found no partner.
    fn replace_lone_surrogate(&mut self)
        ensures
            final(self)@ == (MachineView {
                buf: after_lone_surrogate(old(self)@.buf, old(self)@.ignore_unicode_errs),
                ..old(self)@
            }),
    {
        if self.ignore_unicode_errs {
            self.push_scalar('\u{fffd}');
        }
    }

    /// A byte between tokens.
    fn on_idle(&mut self, byte: u8) -> (r: Scanned)
        requires
            old(self)@.state is Idle,
        ensures
            turned(old(self)@, idle_turn(old(self)@.buf, byte), final(self)@, r),
    {
        if byte == SPACE || byte == TAB || byte == CARRIAGE_RETURN || byte == LINE_FEED {
            Self::silent()
        } else if byte == LOWER_F {
            self.state = LexerState::Expect { word: Keyword::False, index: 0 };
            Self::silent()
        } else if byte == LOWER_T {
            self.state = LexerState::Expect { word: Keyword::True, index: 1 };
            Self::silent()
        } else if byte == LOWER_N {
            self.state = LexerState::Expect { word: Keyword::Null, index: 1 };
            Self::silent()
        } else if byte == LEFT_BRACE {
            self.buf = Vec::new();
            self.token(LexerToken::BeginObject, false)
        } else if byte == RIGHT_BRACE {
            self.buf = Vec::new();
            self.token(LexerToken::EndObject, false)
        } else if byte == LEFT_BRACKET {
            self.buf = Vec::new();
            self.token(LexerToken::BeginArray, false)
        } else if byte == RIGHT_BRACKET {
            self.buf = Vec::new();
            self.token(LexerToken::EndArray, false)
        } else if byte == COLON {
            self.buf = Vec::new();
            self.token(LexerToken::NameSeparator, false)
        } else if byte == COMMA {
            self.buf = Vec::new();
            self.token(LexerToken::ValueSeparator, false)
        } else if byte == MINUS {
            self.state = LexerState::Number(LexerNumberSubState::NegNumberStart);
            self.buf = Vec::new();
            self.buf.push(byte);
            Self::silent()
        } else if byte == DIGIT_0 {
            self.state = LexerState::Number(LexerNumberSubState::ZeroNumberStart);
            self.buf = Vec::new();
            self.buf.push(byte);
            Self::silent()
        } else if byte == QUOTE {
            self.state = LexerState::String { sub: LexerStringSubState::Plain, high: 0 };
            self.buf = Vec::new();
            Self::silent()
        } else if DIGIT_1 <= byte && byte <= DIGIT_9 {
            self.state = LexerState::Number(LexerNumberSubState::OtherNumber);
            self.buf = Vec::new();
            self.buf.push(byte);
            Self::silent()
        } else {
            self.error(quote_char_message("Unexpected char `", byte as char), false)
        }
    }

    /// A byte inside a literal word.
    fn on_expect(&mut self, word: Keyword, index: u8, byte: u8) -> (r: Scanned)
        requires
            old(self)@.state == (LexerState::Expect { word, index }),
        ensures
            turned(old(self)@, expect_turn(word, index, old(self)@.buf, byte), final(self)@, r),
    {
        if index < 4 {
            if word.expected_byte(index) == byte {
                self.state = LexerState::Expect { word, index: index + 1 };
                Self::silent()
            } else {
                self.state = LexerState::Idle;
                self.error(quote_message("Expected word `", word.expected_str()), false)
            }
        } else {
            self.state = LexerState::Idle;
            self.buf = Vec::new();
            self.token(word.into_token(), true)
        }
    }

    /// The number ends before `byte`: its lexeme or an error is emitted.
    fn end_number(&mut self, sub: LexerNumberSubState, byte: u8) -> (r: Scanned)
        requires
            old(self)@.state == LexerState::Number(sub),
        ensures
            turned(old(self)@, number_ends(sub, old(self)@.buf, byte), final(self)@, r),
    {
        let text = latin1_string(&self.buf);
        self.state = LexerState::Idle;
        self.buf = Vec::new();
        match sub {
            LexerNumberSubState::NegNumberStart => self.error(
                quote_char_message("Expected a digit `", byte as char),
                true,
            ),
            LexerNumberSubState::ZeroNumberStart => {
                proof {
                    reveal_strlit("0");
                    assert("0"@ =~= seq!['0']);
                }
                self.token(LexerToken::IntValue(String::from_str("0")), true)
            },
            LexerNumberSubState::OtherNumber => self.token(LexerToken::IntValue(text), true),
            LexerNumberSubState::NumberFracStart => self.error(
                quote_message("Missing decimals `", text.as_str()),
                true,
            ),
            LexerNumberSubState::NumberFracExpStart
            | LexerNumberSubState::NumberFracExpMinusStart => self.error(
                quote_message("Missing exp `", text.as_str()),
                true,
            ),
            LexerNumberSubState::NumberFrac
            | LexerNumberSubState::NumberFracExp
            | LexerNumberSubState::NumberFracExpMinus => self.token(
                LexerToken::FloatValue(text),
                true,
            ),
        }
    }

    /// A byte inside a number.
    fn on_number(&mut self, sub: LexerNumberSubState, byte: u8) -> (r: Scanned)
        requires
            old(self)@.state == LexerState::Number(sub),
        ensures
            turned(old(self)@, number_turn(sub, old(self)@.buf, byte), final(self)@, r),
    {
        match next_in_number(sub, byte) {
            Some((next, kept)) => {
                self.state = LexerState::Number(next);
                self.buf.push(kept);
                Self::silent()
            },
            None => self.end_number(sub, byte),
        }
    }

    /// The closing quote of a string literal.
    fn close_string(&mut self) -> (r: Scanned)
        ensures
            turned(old(self)@, string_closes(old(self)@.buf), final(self)@, r),
    {
        let bytes = self.take_buf();
        self.state = LexerState::Idle;
        match string_from_utf8(bytes) {
            Ok(s) => self.token(LexerToken::String(s), false),
            Err(reason) => self.error(
                quote_message("Can't decode string `", reason.as_str()),
                false,
            ),
        }
    }

    /// The fourth hexadecimal digit of an escape, with no surrogate waiting.
    fn close_escape(&mut self, code_point: u32) -> (r: Scanned)
        ensures
            turned(
                old(self)@,
                escape_closes(code_point, old(self)@.buf, old(self)@.ignore_unicode_errs),
                final(self)@,
                r,
            ),
    {
        if 0xD800 <= code_point && code_point <= 0xDBFF {
            self.state = LexerState::String { sub: LexerStringSubState::Plain, high: code_point };
            return Self::silent();
        }
        self.state = LexerState::String { sub: LexerStringSubState::Plain, high: 0 };
        match char_from_u32(code_point) {
            Some(c) => {
                self.push_scalar(c);
                Self::silent()
            },
            None => {
                if self.ignore_unicode_errs {
                    self.push_scalar('\u{fffd}');
                    Self::silent()
                } else {
                    let mut msg = String::from_str("This is not a code point `");
                    push_decimal(&mut msg, code_point);
                    push_char(&mut msg, '`');
                    proof {
                        assert(msg@ =~= quoted(
                            "This is not a code point `"@,
                            decimal_text(code_point as nat),
                        ));
                    }
                    self.error(msg, false)
                }
            },
        }
    }

    /// The fourth hexadecimal digit of the escape that follows a high surrogate.
    fn close_pair(&mut self, high: u32, code_point: u32) -> (r: Scanned)
        requires
            is_high_surrogate(high),
        ensures
            turned(
                old(self)@,
                pair_closes(high, code_point, old(self)@.buf, old(self)@.ignore_unicode_errs),
                final(self)@,
                r,
            ),
    {
        self.state = LexerState::String { sub: LexerStringSubState::Plain, high: 0 };
        if 0xDC00 <= code_point && code_point <= 0xDFFF {
            let composed: u32 = 0x10000 + (high - 0xD800) * 0x400 + (code_point - 0xDC00);
            // A pair always makes a code point from U+10000 to U+10FFFF.
            if let Some(c) = char_from_u32(composed) {
                self.push_scalar(c);
            }
            Self::silent()
        } else {
            self.replace_lone_surrogate();
            let mut msg = String::from_str("Waiting for low surrogate, got `");
            push_decimal(&mut msg, code_point);
            push_char(&mut msg, '`');
            proof {
                assert(msg@ =~= quoted(
                    "Waiting for low surrogate, got `"@,
                    decimal_text(code_point as nat),
                ));
            }
            self.error(msg, false)
        }
    }

    /// A byte inside a string literal.
    fn on_string(&mut self, sub: LexerStringSubState, high: u32, byte: u8) -> (r: Scanned)
        requires
            old(self)@.state == (LexerState::String { sub, high }),
            state_wf(old(self)@.state, old(self)@.buf),
        ensures
            turned(
                old(self)@,
                string_turn(sub, high, old(self)@.buf, byte, old(self)@.ignore_unicode_errs),
                final(self)@,
                r,
            ),
    {
        match sub {
            LexerStringSubState::Plain => {
                if byte == BACKSLASH {
                    self.state = LexerState::String { sub: LexerStringSubState::Escape, high };
                    Self::silent()
                } else if high != 0 {
                    self.state = LexerState::String { sub: LexerStringSubState::Plain, high: 0 };
                    self.replace_lone_surrogate();
                    self.error(
                        quote_char_message(
                            "Waiting for low surrogate: needs backslash, got `",
                            byte as char,
                        ),
                        true,
                    )
                } else if byte == QUOTE {
                    self.close_string()
                } else {
                    self.buf.push(byte);
                    Self::silent()
                }
            },
            LexerStringSubState::Escape => {
                if byte == LOWER_U {
                    self.state = LexerState::String {
                        sub: LexerStringSubState::Unicode { code_point: 0, index: 0 },
                        high,
                    };
                    Self::silent()
                } else if high != 0 {
                    self.state = LexerState::String { sub: LexerStringSubState::Escape, high: 0 };
                    self.replace_lone_surrogate();
                    self.error(
                        quote_char_message(
                            "Waiting for low surrogate: needs \\u, got `\\",
                            byte as char,
                        ),
                        true,
                    )
                } else {
                    self.state = LexerState::String { sub: LexerStringSubState::Plain, high: 0 };
                    match unescape(byte) {
                        Some(value) => {
                            self.buf.push(value);
                            Self::silent()
                        },
                        None => self.error(
                            quote_char_message("Unknown escaped char `", byte as char),
                            false,
                        ),
                    }
                }
            },
            LexerStringSubState::Unicode { code_point, index } => {
                match self.parse_hex(byte) {
                    Err(e) => {
                        self.state = LexerState::String { sub: LexerStringSubState::Plain, high };
                        Scanned { event: Some(Err(e)), unget: false }
                    },
                    Ok(digit) => {
                        let value: u32 = code_point * 16 + digit;
                        if index < 3 {
                            self.state = LexerState::String {
                                sub: LexerStringSubState::Unicode {
                                    code_point: value,
                                    index: index + 1,
                                },
                                high,
                            };
                            Self::silent()
                        } else if high == 0 {
                            self.close_escape(value)
                        } else {
                            self.close_pair(high, value)
                        }
                    },
                }
            },
        }
    }

    /// Reads one byte: counts it, counts a line for a line feed that is a new
    /// byte of the stream, and lets it act on the state.
    pub fn advance(&mut self, byte: u8) -> (r: Scanned)
        requires
            old(self)@.wf(),
            old(self)@.has_room(),
        ensures
            final(self)@.wf(),
            advanced(old(self)@.advance(byte), final(self)@, r),
    {
        proof {
            lemma_turn(self@.state, self@.buf, byte, self@.ignore_unicode_errs);
        }
        self.column = self.column + 1;
        if byte == LINE_FEED && !self.again {
            self.line = self.line + 1;
        }
        let r = match self.state {
            LexerState::Idle => self.on_idle(byte),
            LexerState::Expect { word, index } => self.on_expect(word, index, byte),
            LexerState::Number(sub) => self.on_number(sub, byte),
            LexerState::String { sub, high } => self.on_string(sub, high, byte),
        };
        self.again = r.unget;
        r
    }

    /// Closes the state in which the end of the stream finds the lexer: a number
    /// that is complete is emitted, anything else that is open is an error.
    pub fn finish(&mut self) -> (r: Option<Result<LexerToken, JSONLexError>>)
        ensures
            final(self)@ == old(self)@.closed(),
            old(self)@.wf() ==> final(self)@.wf(),
            delivery(r, old(self)@.line, old(self)@.column) == old(self)@.closing_event(),
    {
        let state = self.state;
        self.state = LexerState::Idle;
        self.again = false;
        match state {
            LexerState::Idle => {
                self.buf = Vec::new();
                None
            },
            LexerState::Expect { word, index } => {
                self.buf = Vec::new();
                if index >= 4 {
                    self.token(word.into_token(), false).event
                } else {
                    self.error(String::from_str("Unexpected sub_state"), false).event
                }
            },
            LexerState::Number(sub) => {
                let text = latin1_string(&self.buf);
                self.buf = Vec::new();
                match sub {
                    LexerNumberSubState::ZeroNumberStart => {
                        proof {
                            reveal_strlit("0");
                            assert("0"@ =~= seq!['0']);
                        }
                        self.token(LexerToken::IntValue(String::from_str("0")), false).event
                    },
                    LexerNumberSubState::NegNumberStart => self.error(
                        quote_message("Missing digits `", text.as_str()),
                        false,
                    ).event,
                    LexerNumberSubState::OtherNumber => self.token(
                        LexerToken::IntValue(text),
                        false,
                    ).event,
                    LexerNumberSubState::NumberFracStart => self.error(
                        quote_message("Missing decimals `", text.as_str()),
                        false,
                    ).event,
                    LexerNumberSubState::NumberFracExpStart
                    | LexerNumberSubState::NumberFracExpMinusStart => self.error(
                        quote_message("Missing exp `", text.as_str()),
                        false,
                    ).event,
                    LexerNumberSubState::NumberFrac
                    | LexerNumberSubState::NumberFracExp
                    | LexerNumberSubState::NumberFracExpMinus => self.token(
                        LexerToken::FloatValue(text),
                        false,
                    ).event,
                }
            },
            LexerState::String { .. } => {
                let bytes = self.take_buf();
                match string_from_utf8(bytes) {
                    Ok(s) => self.error(
                        quote_message("Unfinished string `", s.as_str()),
                        false,
                    ).event,
                    Err(reason) => self.error(
                        quote_message("Can't decode string `", reason.as_str()),
                        false,
                    ).event,
                }
            },
        }
    }
}

} // verus!
