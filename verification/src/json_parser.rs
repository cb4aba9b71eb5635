//! The parser: a pushdown automaton over lexical tokens that checks the
//! structure of the document and tells keys from values.

use crate::byte_source::ByteSource;
use crate::json_lexer::{
    all_ok, lemma_all_ok_push, lex_event, pending_bytes, ConsumeError, JSONLexConsumer,
    JSONLexError, JSONLexer, LexEvent, LexReceiver, LexerToken, LexerTokenView,
};
use crate::lexer_machine::MachineView;
use crate::text::{debug_quote, debug_text};
use vstd::prelude::*;
use vstd::string::*;

verus! {

/// What the parser hands to its consumer.
#[derive(Debug, PartialEq)]
pub enum ParserToken {
    BeginFile,
    EndFile,
    BeginObject,
    EndObject,
    BeginArray,
    EndArray,
    /// A string in the place of a key of an object.
    Key(String),
    BooleanValue(bool),
    NullValue,
    /// A string in the place of a value.
    StringValue(String),
    IntValue(String),
    FloatValue(String),
}

/// A parser token with its texts as sequences of characters.
pub enum ParserTokenView {
    BeginFile,
    EndFile,
    BeginObject,
    EndObject,
    BeginArray,
    EndArray,
    Key(Seq<char>),
    BooleanValue(bool),
    NullValue,
    StringValue(Seq<char>),
    IntValue(Seq<char>),
    FloatValue(Seq<char>),
}

impl View for ParserToken {
    type V = ParserTokenView;

    open spec fn view(&self) -> ParserTokenView {
        match self {
            ParserToken::BeginFile => ParserTokenView::BeginFile,
            ParserToken::EndFile => ParserTokenView::EndFile,
            ParserToken::BeginObject => ParserTokenView::BeginObject,
            ParserToken::EndObject => ParserTokenView::EndObject,
            ParserToken::BeginArray => ParserTokenView::BeginArray,
            ParserToken::EndArray => ParserTokenView::EndArray,
            ParserToken::Key(s) => ParserTokenView::Key(s@),
            ParserToken::BooleanValue(b) => ParserTokenView::BooleanValue(*b),
            ParserToken::NullValue => ParserTokenView::NullValue,
            ParserToken::StringValue(s) => ParserTokenView::StringValue(s@),
            ParserToken::IntValue(s) => ParserTokenView::IntValue(s@),
            ParserToken::FloatValue(s) => ParserTokenView::FloatValue(s@),
        }
    }
}

/// An error of the lexer or of the parser, with the position of the lexer.
#[derive(Debug, PartialEq)]
pub struct JSONParseError {
    pub msg: String,
    pub line: usize,
    pub column: usize,
}

/// A parse error with its message as a sequence of characters.
pub struct ParseErrorView {
    pub msg: Seq<char>,
    pub line: usize,
    pub column: usize,
}

impl View for JSONParseError {
    type V = ParseErrorView;

    open spec fn view(&self) -> ParseErrorView {
        ParseErrorView { msg: self.msg@, line: self.line, column: self.column }
    }
}

/// One delivery to a parser consumer.
pub type ParseEvent = Result<ParserTokenView, ParseErrorView>;

/// The event that a call of `consume` with this argument delivers.
pub open spec fn parse_event(token: Result<ParserToken, JSONParseError>) -> ParseEvent {
    match token {
        Ok(t) => Ok(t@),
        Err(e) => Err(e@),
    }
}

/// The receiving end of the parser.
pub trait JSONParseConsumer {
    /// Takes one event. `Err` asks the parser to stop: nothing is delivered after it.
    fn consume(&mut self, token: Result<ParserToken, JSONParseError>) -> Result<(), ConsumeError>;
}

/// Where the parser stands in the document.
#[derive(Clone, Copy, Debug)]
pub enum ParserState {
    /// Before the opening sentinel.
    Undefined,
    /// In the place of a value, outside any container.
    TopLevel,
    /// In an object, where a key or the end of the object can come.
    InObject,
    /// After a key.
    InObjectMember,
    /// After the colon that follows a key.
    InObjectMemberValue,
    /// After a member of an object.
    InObjectSep,
    /// In an array, where an element or the end of the array can come.
    InArray,
    /// After an element of an array.
    InArraySep,
}

/// The parser between two tokens: its state, and the states to come back to
/// when the open containers close, the innermost last.
pub struct ParserView {
    pub state: ParserState,
    pub states: Seq<ParserState>,
}

/// What a token does to the parser, and the token or the message of the error
/// that the consumer gets, if it gets any.
pub struct Reaction {
    pub parser: ParserView,
    pub out: Option<Result<ParserTokenView, Seq<char>>>,
}

/// What an event of the lexer does to the parser, the event that the consumer
/// gets, if it gets any, and whether the pass ends here.
pub struct Translation {
    pub parser: ParserView,
    pub out: Option<ParseEvent>,
    pub abort: bool,
}

/// The name under which a state appears in a diagnostic.
pub open spec fn state_name(state: ParserState) -> Seq<char> {
    match state {
        ParserState::Undefined => "Undefined"@,
        ParserState::TopLevel => "None"@,
        ParserState::InObject => "InObject"@,
        ParserState::InObjectMember => "InObjectMember"@,
        ParserState::InObjectMemberValue => "InObjectMemberValue"@,
        ParserState::InObjectSep => "InObjectSep"@,
        ParserState::InArray => "InArray"@,
        ParserState::InArraySep => "InArraySep"@,
    }
}

/// A lexical token as it appears in a diagnostic.
pub open spec fn token_debug(token: LexerTokenView) -> Seq<char> {
    match token {
        LexerTokenView::BeginObject => "BeginObject"@,
        LexerTokenView::EndObject => "EndObject"@,
        LexerTokenView::BeginArray => "BeginArray"@,
        LexerTokenView::EndArray => "EndArray"@,
        LexerTokenView::NameSeparator => "NameSeparator"@,
        LexerTokenView::ValueSeparator => "ValueSeparator"@,
        LexerTokenView::BooleanValue(b) => if b {
            "BooleanValue(true)"@
        } else {
            "BooleanValue(false)"@
        },
        LexerTokenView::NullValue => "NullValue"@,
        LexerTokenView::String(s) => "String("@ + debug_text(s) + ")"@,
        LexerTokenView::IntValue(s) => "IntValue("@ + debug_text(s) + ")"@,
        LexerTokenView::FloatValue(s) => "FloatValue("@ + debug_text(s) + ")"@,
        LexerTokenView::BeginFile => "BeginFile"@,
        LexerTokenView::EndFile => "EndFile"@,
    }
}

/// The message for a token that the state does not accept.
pub open spec fn unexpected(token: LexerTokenView) -> Seq<char> {
    "Unexpected token `Ok("@ + token_debug(token) + ")`"@
}

/// The parser token of a scalar in the place of a value.
pub open spec fn scalar_value(token: LexerTokenView) -> Option<ParserTokenView> {
    match token {
        LexerTokenView::BooleanValue(b) => Some(ParserTokenView::BooleanValue(b)),
        LexerTokenView::NullValue => Some(ParserTokenView::NullValue),
        LexerTokenView::IntValue(s) => Some(ParserTokenView::IntValue(s)),
        LexerTokenView::FloatValue(s) => Some(ParserTokenView::FloatValue(s)),
        LexerTokenView::String(s) => Some(ParserTokenView::StringValue(s)),
        _ => None,
    }
}

/// The token is passed on and the parser goes to `state`.
pub open spec fn emit(state: ParserState, states: Seq<ParserState>, token: ParserTokenView)
    -> Reaction {
    Reaction { parser: ParserView { state, states }, out: Some(Ok(token)) }
}

/// The token is taken in silence and the parser goes to `state`.
pub open spec fn quiet(state: ParserState, states: Seq<ParserState>) -> Reaction {
    Reaction { parser: ParserView { state, states }, out: None }
}

/// The token is refused: the consumer gets an error and the parser stays where it is.
pub open spec fn refuse(p: ParserView, msg: Seq<char>) -> Reaction {
    Reaction { parser: p, out: Some(Err(msg)) }
}

/// A container closes: the parser comes back to the state that was put aside
/// when the container opened. (In a well-formed parser one was put aside; with
/// none, the parser is outside any container again.)
pub open spec fn leave(p: ParserView, token: ParserTokenView) -> Reaction {
    if p.states.len() > 0 {
        emit(p.states.last(), p.states.drop_last(), token)
    } else {
        emit(ParserState::TopLevel, p.states, token)
    }
}

/// A token in the place of a value: a scalar is passed on, a container opens
/// and puts `after` aside, anything else is refused.
pub open spec fn value_position(p: ParserView, token: LexerTokenView, after: ParserState)
    -> Reaction {
    match token {
        LexerTokenView::BeginObject => emit(
            ParserState::InObject,
            p.states.push(after),
            ParserTokenView::BeginObject,
        ),
        LexerTokenView::BeginArray => emit(
            ParserState::InArray,
            p.states.push(after),
            ParserTokenView::BeginArray,
        ),
        _ => match scalar_value(token) {
            Some(value) => emit(after, p.states, value),
            None => refuse(p, unexpected(token)),
        },
    }
}

/// What a lexical token does to the parser.
pub open spec fn react(p: ParserView, token: LexerTokenView) -> Reaction {
    match p.state {
        ParserState::Undefined => match token {
            LexerTokenView::BeginFile => emit(
                ParserState::TopLevel,
                p.states,
                ParserTokenView::BeginFile,
            ),
            _ => refuse(p, "Unexpected state"@),
        },
        ParserState::TopLevel => match token {
            LexerTokenView::EndFile => if p.states.len() > 0 {
                refuse(p, "Should be closed: "@ + state_name(p.states.last()))
            } else {
                emit(ParserState::TopLevel, p.states, ParserTokenView::EndFile)
            },
            _ => value_position(p, token, ParserState::TopLevel),
        },
        ParserState::InObject => match token {
            LexerTokenView::EndObject => leave(p, ParserTokenView::EndObject),
            LexerTokenView::String(s) => emit(
                ParserState::InObjectMember,
                p.states,
                ParserTokenView::Key(s),
            ),
            _ => refuse(p, unexpected(token)),
        },
        ParserState::InObjectMember => match token {
            LexerTokenView::NameSeparator => quiet(ParserState::InObjectMemberValue, p.states),
            _ => refuse(p, unexpected(token)),
        },
        ParserState::InObjectMemberValue => value_position(p, token, ParserState::InObjectSep),
        ParserState::InObjectSep => match token {
            LexerTokenView::ValueSeparator => quiet(ParserState::InObject, p.states),
            LexerTokenView::EndObject => leave(p, ParserTokenView::EndObject),
            _ => refuse(p, unexpected(token)),
        },
        ParserState::InArray => match token {
            LexerTokenView::EndArray => leave(p, ParserTokenView::EndArray),
            _ => value_position(p, token, ParserState::InArraySep),
        },
        ParserState::InArraySep => match token {
            LexerTokenView::ValueSeparator => quiet(ParserState::InArray, p.states),
            LexerTokenView::EndArray => leave(p, ParserTokenView::EndArray),
            _ => refuse(p, unexpected(token)),
        },
    }
}

/// What an event of the lexer does to the parser. A token acts on the state; an
/// error of the parser carries the position of the event. An error of the
/// lexer is passed on with its message and its position, and ends the pass.
pub open spec fn translate(p: ParserView, event: LexEvent) -> Translation {
    match event.token {
        Err(e) => Translation {
            parser: p,
            out: Some(Err(ParseErrorView { msg: e.msg, line: e.line, column: e.column })),
            abort: true,
        },
        Ok(token) => {
            let r = react(p, token);
            Translation {
                parser: r.parser,
                out: match r.out {
                    None => None,
                    Some(Ok(t)) => Some(Ok(t)),
                    Some(Err(msg)) => Some(
                        Err(ParseErrorView { msg, line: event.line, column: event.column }),
                    ),
                },
                abort: false,
            }
        },
    }
}

impl ParserView {
    /// The parser before the opening sentinel.
    pub open spec fn start() -> ParserView {
        ParserView { state: ParserState::Undefined, states: seq![] }
    }

    /// Outside any container nothing is put aside. Inside, the state that was
    /// put aside first is the one outside any container, and every other is
    /// one that follows a member or an element.
    pub open spec fn wf(self) -> bool {
        match self.state {
            ParserState::Undefined | ParserState::TopLevel => self.states.len() == 0,
            _ => {
                &&& self.states.len() > 0
                &&& self.states[0] is TopLevel
                &&& forall|i: int|
                    0 < i < self.states.len() ==> (#[trigger] self.states[i]) is InObjectSep
                        || self.states[i] is InArraySep
            },
        }
    }
}

/// A well-formed parser stays well-formed, whatever the event.
pub proof fn lemma_translate_wf(p: ParserView, event: LexEvent)
    requires
        p.wf(),
    ensures
        translate(p, event).parser.wf(),
{
    if let Ok(token) = event.token {
        let next = react(p, token).parser;
        if next.states.len() == p.states.len() + 1 {
            assert(next.states.drop_last() =~= p.states);
        }
        if next.states.len() > 0 && next.states.len() + 1 == p.states.len() {
            assert(next.states =~= p.states.drop_last());
        }
    }
}

/// What a run of events of the lexer makes of a parser, up to the first error
/// of the lexer, which is passed on and ends the run.
pub struct Parse {
    pub parser: ParserView,
    pub events: Seq<ParseEvent>,
    pub aborted: bool,
}

/// The events of the lexer, one after the other, until one aborts the run.
pub open spec fn parse_run(p: ParserView, events: Seq<LexEvent>) -> Parse
    decreases events.len(),
{
    if events.len() == 0 {
        Parse { parser: p, events: seq![], aborted: false }
    } else {
        let before = parse_run(p, events.drop_last());
        if before.aborted {
            before
        } else {
            let t = translate(before.parser, events.last());
            Parse {
                parser: t.parser,
                events: before.events + events_of_parse(t.out),
                aborted: t.abort,
            }
        }
    }
}

/// No event or one, as a sequence.
pub open spec fn events_of_parse(event: Option<ParseEvent>) -> Seq<ParseEvent> {
    match event {
        Some(e) => seq![e],
        None => seq![],
    }
}

/// A run keeps a well-formed parser well-formed.
pub proof fn lemma_parse_run_wf(p: ParserView, events: Seq<LexEvent>)
    requires
        p.wf(),
    ensures
        parse_run(p, events).parser.wf(),
    decreases events.len(),
{
    if events.len() > 0 {
        lemma_parse_run_wf(p, events.drop_last());
        lemma_translate_wf(parse_run(p, events.drop_last()).parser, events.last());
    }
}

/// What the parser passes on for one event of the lexer, and whether the pass
/// ends here.
pub struct Forwarded {
    pub out: Option<Result<ParserToken, JSONParseError>>,
    pub abort: bool,
}

/// The event that is delivered with what the parser passes on.
pub open spec fn forwarded_event(out: Option<Result<ParserToken, JSONParseError>>) -> Option<
    ParseEvent,
> {
    match out {
        None => None,
        Some(token) => Some(parse_event(token)),
    }
}

/// The name of a state for a diagnostic.
fn name_of_state(state: ParserState) -> (r: &'static str)
    ensures
        r@ == state_name(state),
{
    match state {
        ParserState::Undefined => "Undefined",
        ParserState::TopLevel => "None",
        ParserState::InObject => "InObject",
        ParserState::InObjectMember => "InObjectMember",
        ParserState::InObjectMemberValue => "InObjectMemberValue",
        ParserState::InObjectSep => "InObjectSep",
        ParserState::InArray => "InArray",
        ParserState::InArraySep => "InArraySep",
    }
}

/// A variant that holds a text, as it appears in a diagnostic: the name and an
/// opening bracket, the text as it is shown, and the closing bracket.
pub fn variant_with_text(head: &str, shown: &str) -> (r: String)
    ensures
        r@ == head@ + shown@ + ")"@,
{
    let mut r = String::from_str(head);
    r.append(shown);
    r.append(")");
    r
}

/// A variant that holds a text, with the text quoted and escaped.
fn debug_of_text(head: &str, text: &String) -> (r: String)
    ensures
        r@ == head@ + debug_text(text@) + ")"@,
{
    let shown = debug_quote(text.as_str());
    variant_with_text(head, shown.as_str())
}

/// A lexical token as it appears in a diagnostic.
fn debug_of_token(token: &LexerToken) -> (r: String)
    ensures
        r@ == token_debug(token@),
{
    match token {
        LexerToken::BeginObject => String::from_str("BeginObject"),
        LexerToken::EndObject => String::from_str("EndObject"),
        LexerToken::BeginArray => String::from_str("BeginArray"),
        LexerToken::EndArray => String::from_str("EndArray"),
        LexerToken::NameSeparator => String::from_str("NameSeparator"),
        LexerToken::ValueSeparator => String::from_str("ValueSeparator"),
        LexerToken::BooleanValue(b) => {
            if *b {
                String::from_str("BooleanValue(true)")
            } else {
                String::from_str("BooleanValue(false)")
            }
        },
        LexerToken::NullValue => String::from_str("NullValue"),
        LexerToken::String(s) => debug_of_text("String(", s),
        LexerToken::IntValue(s) => debug_of_text("IntValue(", s),
        LexerToken::FloatValue(s) => debug_of_text("FloatValue(", s),
        LexerToken::BeginFile => String::from_str("BeginFile"),
        LexerToken::EndFile => String::from_str("EndFile"),
    }
}

/// The message for a token that the state does not accept.
fn unexpected_message(token: &LexerToken) -> (r: String)
    ensures
        r@ == unexpected(token@),
{
    let mut r = String::from_str("Unexpected token `Ok(");
    let shown = debug_of_token(token);
    r.append(shown.as_str());
    r.append(")`");
    r
}

/// The parser's automaton, fed one event of the lexer at a time.
pub struct ParserCore {
    state: ParserState,
    states: Vec<ParserState>,
}

impl View for ParserCore {
    type V = ParserView;

    closed spec fn view(&self) -> ParserView {
        ParserView { state: self.state, states: self.states@ }
    }
}

/// What a token makes the automaton pass on: a token, the message of an error,
/// or nothing.
enum Passed {
    Nothing,
    Token(ParserToken),
    Refusal(String),
}

impl Passed {
    spec fn view(&self) -> Option<Result<ParserTokenView, Seq<char>>> {
        match self {
            Passed::Nothing => None,
            Passed::Token(t) => Some(Ok(t@)),
            Passed::Refusal(msg) => Some(Err(msg@)),
        }
    }
}

impl ParserCore {
    /// An automaton before the opening sentinel.
    pub fn new() -> (core: Self)
        ensures
            core@ == ParserView::start(),
            core@.wf(),
    {
        ParserCore { state: ParserState::Undefined, states: Vec::new() }
    }

    /// A container opens: `after` is put aside.
    fn enter(&mut self, inside: ParserState, after: ParserState)
        ensures
            final(self)@ == (ParserView { state: inside, states: old(self)@.states.push(after) }),
    {
        self.states.push(after);
        self.state = inside;
    }

    /// A container closes: the state that was put aside last comes back.
    fn leave(&mut self, token: ParserToken) -> (r: Passed)
        ensures
            final(self)@ == leave(old(self)@, token@).parser,
            r.view() == leave(old(self)@, token@).out,
    {
        match self.states.pop() {
            Some(state) => {
                self.state = state;
            },
            None => {
                self.state = ParserState::TopLevel;
            },
        }
        Passed::Token(token)
    }

    /// A token in the place of a value.
    fn value_position(&mut self, token: LexerToken, after: ParserState) -> (r: Passed)
        ensures
            final(self)@ == value_position(old(self)@, token@, after).parser,
            r.view() == value_position(old(self)@, token@, after).out,
    {
        match token {
            LexerToken::BeginObject => {
                self.enter(ParserState::InObject, after);
                Passed::Token(ParserToken::BeginObject)
            },
            LexerToken::BeginArray => {
                self.enter(ParserState::InArray, after);
                Passed::Token(ParserToken::BeginArray)
            },
            LexerToken::BooleanValue(b) => {
                self.state = after;
                Passed::Token(ParserToken::BooleanValue(b))
            },
            LexerToken::NullValue => {
                self.state = after;
                Passed::Token(ParserToken::NullValue)
            },
            LexerToken::IntValue(s) => {
                self.state = after;
                Passed::Token(ParserToken::IntValue(s))
            },
            LexerToken::FloatValue(s) => {
                self.state = after;
                Passed::Token(ParserToken::FloatValue(s))
            },
            LexerToken::String(s) => {
                self.state = after;
                Passed::Token(ParserToken::StringValue(s))
            },
            other => Passed::Refusal(unexpected_message(&other)),
        }
    }

    /// What a lexical token does in the current state.
    fn react(&mut self, token: LexerToken) -> (r: Passed)
        ensures
            final(self)@ == react(old(self)@, token@).parser,
            r.view() == react(old(self)@, token@).out,
    {
        match self.state {
            ParserState::Undefined => match token {
                LexerToken::BeginFile => {
                    self.state = ParserState::TopLevel;
                    Passed::Token(ParserToken::BeginFile)
                },
                _ => Passed::Refusal(String::from_str("Unexpected state")),
            },
            ParserState::TopLevel => match token {
                LexerToken::EndFile => {
                    let depth = self.states.len();
                    if depth > 0 {
                        let mut msg = String::from_str("Should be closed: ");
                        msg.append(name_of_state(self.states[depth - 1]));
                        Passed::Refusal(msg)
                    } else {
                        Passed::Token(ParserToken::EndFile)
                    }
                },
                other => self.value_position(other, ParserState::TopLevel),
            },
            ParserState::InObject => match token {
                LexerToken::EndObject => self.leave(ParserToken::EndObject),
                LexerToken::String(s) => {
                    self.state = ParserState::InObjectMember;
                    Passed::Token(ParserToken::Key(s))
                },
                other => Passed::Refusal(unexpected_message(&other)),
            },
            ParserState::InObjectMember => match token {
                LexerToken::NameSeparator => {
                    self.state = ParserState::InObjectMemberValue;
                    Passed::Nothing
                },
                other => Passed::Refusal(unexpected_message(&other)),
            },
            ParserState::InObjectMemberValue => self.value_position(
                token,
                ParserState::InObjectSep,
            ),
            ParserState::InObjectSep => match token {
                LexerToken::ValueSeparator => {
                    self.state = ParserState::InObject;
                    Passed::Nothing
                },
                LexerToken::EndObject => self.leave(ParserToken::EndObject),
                other => Passed::Refusal(unexpected_message(&other)),
            },
            ParserState::InArray => match token {
                LexerToken::EndArray => self.leave(ParserToken::EndArray),
                other => self.value_position(other, ParserState::InArraySep),
            },
            ParserState::InArraySep => match token {
                LexerToken::ValueSeparator => {
                    self.state = ParserState::InArray;
                    Passed::Nothing
                },
                LexerToken::EndArray => self.leave(ParserToken::EndArray),
                other => Passed::Refusal(unexpected_message(&other)),
            },
        }
    }

    /// Takes one event of the lexer, met at the given position. The result is
    /// what the consumer is to get, and whether the pass ends with it.
    pub fn advance(&mut self, token: Result<LexerToken, JSONLexError>, line: usize, column: usize)
        -> (r: Forwarded)
        ensures
            old(self)@.wf() ==> final(self)@.wf(),
            final(self)@ == translate(old(self)@, lex_event(token, line, column)).parser,
            forwarded_event(r.out) == translate(old(self)@, lex_event(token, line, column)).out,
            r.abort == translate(old(self)@, lex_event(token, line, column)).abort,
    {
        proof {
            if self@.wf() {
                lemma_translate_wf(self@, lex_event(token, line, column));
            }
        }
        match token {
            Err(e) => Forwarded {
                out: Some(Err(JSONParseError { msg: e.msg, line: e.line, column: e.column })),
                abort: true,
            },
            Ok(t) => {
                let out = match self.react(t) {
                    Passed::Nothing => None,
                    Passed::Token(t) => Some(Ok(t)),
                    Passed::Refusal(msg) => Some(Err(JSONParseError { msg, line, column })),
                };
                Forwarded { out, abort: false }
            },
        }
    }
}

/// What a run makes of one more event.
pub proof fn lemma_parse_run_push(p: ParserView, events: Seq<LexEvent>, event: LexEvent)
    ensures
        parse_run(p, events.push(event)) == if parse_run(p, events).aborted {
            parse_run(p, events)
        } else {
            let t = translate(parse_run(p, events).parser, event);
            Parse {
                parser: t.parser,
                events: parse_run(p, events).events + events_of_parse(t.out),
                aborted: t.abort,
            }
        },
{
    assert(events.push(event).drop_last() =~= events);
}

/// What the adapter answers to the lexer: the answer of the consumer to the
/// event that was passed on, unless an error of the lexer ends the pass.
pub fn after_event(abort: bool, answer: Result<(), ConsumeError>) -> (r: Result<
    (),
    ConsumeError,
>)
    ensures
        r is Ok <==> answer is Ok && !abort,
{
    match answer {
        Ok(()) => {
            if abort {
                Err(ConsumeError)
            } else {
                Ok(())
            }
        },
        Err(e) => Err(e),
    }
}

/// A run ends early exactly where the lexer reported an error.
pub proof fn lemma_aborted_by_lexer_error(p: ParserView, events: Seq<LexEvent>)
    ensures
        parse_run(p, events).aborted <==> exists|i: int|
            0 <= i < events.len() && (#[trigger] events[i]).token is Err,
    decreases events.len(),
{
    if events.len() > 0 {
        let front = events.drop_last();
        lemma_aborted_by_lexer_error(p, front);
        if parse_run(p, events).aborted {
            if parse_run(p, front).aborted {
                let i = choose|i: int| 0 <= i < front.len() && (#[trigger] front[i]).token is Err;
                assert(events[i] == front[i]);
            } else {
                assert(events[events.len() - 1].token is Err);
            }
        } else {
            assert forall|i: int| 0 <= i < events.len() implies !((#[trigger] events[i]).token
                is Err) by {
                if i < front.len() {
                    assert(events[i] == front[i]);
                }
            }
        }
    }
}

/// The parser as a consumer of the lexer: it takes lexical events and passes
/// parser events on to the consumer that it was made for.
pub struct JSONLexerToParser<'a, C: JSONParseConsumer> {
    consumer: &'a mut C,
    core: ParserCore,
    received: Ghost<Seq<LexEvent>>,
    replies: Ghost<Seq<bool>>,
    forwarded: Ghost<Seq<ParseEvent>>,
    answered: Ghost<Seq<bool>>,
}

impl<'a, C: JSONParseConsumer> JSONLexerToParser<'a, C> {
    /// The automaton between two events.
    pub closed spec fn parser(&self) -> ParserView {
        self.core@
    }

    /// Every event that this adapter has been handed so far, oldest first.
    pub closed spec fn received(&self) -> Seq<LexEvent> {
        self.received@
    }

    /// For every event that this adapter has been handed, whether it answered `Ok`.
    pub closed spec fn replies(&self) -> Seq<bool> {
        self.replies@
    }

    /// Every event that this adapter has handed to its consumer so far, oldest first.
    pub closed spec fn forwarded(&self) -> Seq<ParseEvent> {
        self.forwarded@
    }

    /// For every event that this adapter has handed to its consumer, whether
    /// the consumer answered `Ok`.
    pub closed spec fn answered(&self) -> Seq<bool> {
        self.answered@
    }

    /// The automaton is where the events received so far lead it, and the
    /// consumer has been handed what the automaton made of them.
    pub open spec fn follows(&self) -> bool {
        let run = parse_run(ParserView::start(), self.received());
        &&& self.parser() == run.parser
        &&& self.forwarded() == run.events
        &&& self.answered().len() == self.forwarded().len()
    }

    /// No error of the lexer has ended the run.
    pub open spec fn running(&self) -> bool {
        !parse_run(ParserView::start(), self.received()).aborted
    }

    /// The adapter has answered `Ok` to every event exactly if its consumer has
    /// answered `Ok` to every event and no error of the lexer has ended the run.
    pub open spec fn tied(&self) -> bool {
        all_ok(self.replies()) <==> all_ok(self.answered()) && self.running()
    }

    /// An adapter before the opening sentinel, which passes on to `consumer`.
    pub fn new(consumer: &'a mut C) -> (adapter: Self)
        ensures
            adapter.parser() == ParserView::start(),
            adapter.received() == Seq::<LexEvent>::empty(),
            adapter.replies() == Seq::<bool>::empty(),
            adapter.forwarded() == Seq::<ParseEvent>::empty(),
            adapter.answered() == Seq::<bool>::empty(),
            adapter.follows(),
            adapter.tied(),
    {
        JSONLexerToParser {
            consumer,
            core: ParserCore::new(),
            received: Ghost(Seq::empty()),
            replies: Ghost(Seq::empty()),
            forwarded: Ghost(Seq::empty()),
            answered: Ghost(Seq::empty()),
        }
    }
}

/// What taking an event makes of the record of the adapter's consumer: an
/// event that the automaton passes on is handed to the consumer, whose answer
/// is noted; the adapter answers `Ok` where the consumer did, unless an error
/// of the lexer ends the pass. An event that is taken in silence leaves the
/// record as it was, and the adapter answers `Ok`.
pub open spec fn passes_on(
    t: Translation,
    had_forwarded: Seq<ParseEvent>,
    had_answered: Seq<bool>,
    forwarded: Seq<ParseEvent>,
    answered: Seq<bool>,
    r: Result<(), ConsumeError>,
) -> bool {
    match t.out {
        None => {
            &&& forwarded == had_forwarded
            &&& answered == had_answered
            &&& r is Ok <==> !t.abort
        },
        Some(event) => {
            &&& forwarded == had_forwarded.push(event)
            &&& answered.len() == had_answered.len() + 1
            &&& answered.drop_last() == had_answered
            &&& r is Ok <==> answered.last() && !t.abort
        },
    }
}

impl<'a, C: JSONParseConsumer> JSONLexConsumer for JSONLexerToParser<'a, C> {
    /// Takes one event of the lexer and hands to the consumer what the
    /// automaton makes of it. `Err` comes back where the consumer answers `Err`,
    /// and after an error of the lexer, which is passed on first.
    fn consume(
        &mut self,
        token: Result<LexerToken, JSONLexError>,
        line: usize,
        column: usize,
    ) -> (r: Result<(), ConsumeError>)
        ensures
            old(self).parser().wf() ==> final(self).parser().wf(),
            final(self).received() == old(self).received().push(lex_event(token, line, column)),
            final(self).replies() == old(self).replies().push(r is Ok),
            final(self).parser() == translate(
                old(self).parser(),
                lex_event(token, line, column),
            ).parser,
            passes_on(
                translate(old(self).parser(), lex_event(token, line, column)),
                old(self).forwarded(),
                old(self).answered(),
                final(self).forwarded(),
                final(self).answered(),
                r,
            ),
    {
        proof {
            self.received@ = self.received@.push(lex_event(token, line, column));
        }
        let forwarded = self.core.advance(token, line, column);
        let answer = match forwarded.out {
            None => Ok(()),
            Some(event) => {
                proof {
                    self.forwarded@ = self.forwarded@.push(parse_event(event));
                }
                let answer = self.consumer.consume(event);
                proof {
                    self.answered@ = self.answered@.push(answer is Ok);
                    assert(self.answered@.drop_last() =~= old(self).answered@);
                }
                answer
            },
        };
        let r = after_event(forwarded.abort, answer);
        proof {
            self.replies@ = self.replies@.push(r is Ok);
        }
        r
    }
}

impl<'a, C: JSONParseConsumer> LexReceiver for JSONLexerToParser<'a, C> {
    closed spec fn received(&self) -> Seq<LexEvent> {
        self.received@
    }

    closed spec fn replies(&self) -> Seq<bool> {
        self.replies@
    }

    open spec fn sound(&self) -> bool {
        self.follows() && self.tied()
    }

    fn take(&mut self, token: Result<LexerToken, JSONLexError>, line: usize, column: usize) -> (r:
        Result<(), ConsumeError>) {
        proof {
            lemma_parse_run_push(
                ParserView::start(),
                self.received@,
                lex_event(token, line, column),
            );
        }
        let ghost had = self.answered@;
        let ghost replied = self.replies@;
        let r = self.consume(token, line, column);
        proof {
            let run = parse_run(ParserView::start(), old(self).received@);
            let t = translate(run.parser, lex_event(token, line, column));
            assert(run.events + events_of_parse(t.out) =~= self.forwarded@);
            lemma_all_ok_push(replied, r is Ok);
            if t.out is Some {
                let answer = self.answered@.last();
                assert(self.answered@ =~= had.push(answer));
                lemma_all_ok_push(had, answer);
            }
        }
        r
    }
}

/// The parser: a lexer and the automaton that raises its tokens.
pub struct JSONParser<R> {
    json_lexer: JSONLexer<R>,
    delivered: Ghost<Seq<ParseEvent>>,
    answers: Ghost<Seq<bool>>,
}

impl<R: std::io::Read> JSONParser<R> {
    /// The lexer of this parser.
    pub closed spec fn lexer(&self) -> JSONLexer<R> {
        self.json_lexer
    }

    /// Every event that `parse` has handed to a consumer so far, oldest first.
    pub closed spec fn delivered(&self) -> Seq<ParseEvent> {
        self.delivered@
    }

    /// For every event that `parse` has handed to a consumer, whether the
    /// consumer answered `Ok`.
    pub closed spec fn answers(&self) -> Seq<bool> {
        self.answers@
    }

    /// What a pass makes of the parser `self`: the parser `after` and the
    /// result `r`, where the lexer handed the events `lexed` to the automaton,
    /// which answered `replies`.
    ///
    /// The consumer has been handed what the automaton makes of `lexed`, and
    /// has answered each event. The result is `Ok` exactly if the consumer
    /// answered `Ok` to every event and the lexer reported no error.
    pub open spec fn parsed(
        &self,
        after: &Self,
        lexed: Seq<LexEvent>,
        replies: Seq<bool>,
        r: Result<(), ConsumeError>,
    ) -> bool {
        let run = parse_run(ParserView::start(), lexed);
        let answers = after.answers().skip(self.answers().len() as int);
        &&& self.lexer().passed(&after.lexer(), lexed, replies, r)
        &&& after.delivered() == self.delivered() + run.events
        &&& self.answers().is_prefix_of(after.answers())
        &&& answers.len() == run.events.len()
        &&& r is Ok <==> all_ok(answers) && !run.aborted
    }

    /// A parser over `byte_source`. With `ignore_unicode_errs` the replacement
    /// character takes the place of a code point that cannot be had.
    pub fn new(byte_source: ByteSource<R>, ignore_unicode_errs: bool) -> (parser: Self)
        requires
            byte_source.wf(),
        ensures
            parser.lexer().wf(),
            parser.lexer().machine() == MachineView::start(ignore_unicode_errs),
            parser.lexer().source() == byte_source@,
            parser.lexer().input() == pending_bytes(byte_source@),
            parser.lexer().events() == Seq::<LexEvent>::empty(),
            parser.lexer().delivered() == Seq::<LexEvent>::empty(),
            parser.lexer().answers() == Seq::<bool>::empty(),
            parser.delivered() == Seq::<ParseEvent>::empty(),
            parser.answers() == Seq::<bool>::empty(),
    {
        JSONParser {
            json_lexer: JSONLexer::new(byte_source, ignore_unicode_errs),
            delivered: Ghost(Seq::empty()),
            answers: Ghost(Seq::empty()),
        }
    }

    /// Reads the byte source to its end and hands to `consumer` what the
    /// automaton makes of the events of the lexer: the structural tokens and the
    /// scalars as they come, a string as `Key` where an object expects a key and
    /// as `StringValue` elsewhere, the separators not at all, and an error for
    /// each token that the state does not accept. The first error of the lexer is
    /// passed on and ends the pass with `Err`, as does an `Err` of the consumer.
    ///
    /// In the contract `lexed` stands for the events that the pass of the lexer
    /// hands to the automaton, and `replies` for what the automaton answers.
    pub fn parse<C: JSONParseConsumer>(&mut self, consumer: &mut C) -> (r: Result<
        (),
        ConsumeError,
    >)
        requires
            old(self).lexer().wf(),
        ensures
            exists|lexed: Seq<LexEvent>, replies: Seq<bool>| #[trigger]
                old(self).parsed(final(self), lexed, replies, r),
    {
        let mut adapter = JSONLexerToParser::new(consumer);
        let r = self.json_lexer.pass(&mut adapter);
        let ghost lexed = adapter.received();
        let ghost replies = adapter.replies();
        proof {
            self.delivered@ = self.delivered@ + adapter.forwarded();
            self.answers@ = self.answers@ + adapter.answered();
            assert(self.answers().skip(old(self).answers().len() as int) =~= adapter.answered());
            if r is Ok {
                assert(replies =~= replies.drop_last().push(replies.last()));
            }
            assert(old(self).parsed(self, lexed, replies, r));
        }
        r
    }
}

} // verus!
