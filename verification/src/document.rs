//! JSON values as trees, the tokens that spell them, and what the parser makes
//! of those tokens: the events of the value, in order and without an error.

use crate::json_lexer::{LexErrorView, LexEvent, LexerTokenView};
use crate::lexer_machine::MachineView;
use crate::lexer_run::lex_events;
use crate::json_parser::{
    parse_run, react, translate, ParseErrorView, ParseEvent, ParserState, ParserTokenView,
    ParserView,
};
use crate::nesting::{
    all_accepted, lemma_accepted_document_is_closed, lemma_accepted_events_nest, nesting_of,
    Nesting,
};
use vstd::prelude::*;

verus! {

/// A JSON value.
pub enum Json {
    Null,
    Boolean(bool),
    /// A number without fraction and exponent, by its lexeme.
    Int(Seq<char>),
    /// A number with a fraction, an exponent or both, by its lexeme.
    Float(Seq<char>),
    Text(Seq<char>),
    Array(Seq<Json>),
    /// The members of an object in their order: each a key and a value.
    Object(Seq<(Seq<char>, Json)>),
}

/// The lexical tokens that spell a value.
pub open spec fn lex_tokens(j: Json) -> Seq<LexerTokenView>
    decreases j, 1int,
{
    match j {
        Json::Null => seq![LexerTokenView::NullValue],
        Json::Boolean(b) => seq![LexerTokenView::BooleanValue(b)],
        Json::Int(s) => seq![LexerTokenView::IntValue(s)],
        Json::Float(s) => seq![LexerTokenView::FloatValue(s)],
        Json::Text(s) => seq![LexerTokenView::String(s)],
        Json::Array(items) => seq![LexerTokenView::BeginArray] + lex_items(items)
            + seq![LexerTokenView::EndArray],
        Json::Object(members) => seq![LexerTokenView::BeginObject] + lex_members(members)
            + seq![LexerTokenView::EndObject],
    }
}

/// The lexical tokens that spell the elements of an array, with a comma
/// between each two.
pub open spec fn lex_items(items: Seq<Json>) -> Seq<LexerTokenView>
    decreases items, 0int,
{
    if items.len() == 0 {
        seq![]
    } else if items.len() == 1 {
        lex_tokens(items[0])
    } else {
        lex_items(items.subrange(0, items.len() - 1)) + seq![LexerTokenView::ValueSeparator]
            + lex_tokens(items[items.len() - 1])
    }
}

/// The lexical tokens that spell one member of an object: the key, a colon
/// and the value.
pub open spec fn lex_member(member: (Seq<char>, Json)) -> Seq<LexerTokenView>
    decreases member, 2int,
{
    seq![LexerTokenView::String(member.0), LexerTokenView::NameSeparator] + lex_tokens(member.1)
}

/// The lexical tokens that spell the members of an object, with a comma
/// between each two.
pub open spec fn lex_members(members: Seq<(Seq<char>, Json)>) -> Seq<LexerTokenView>
    decreases members, 0int,
{
    if members.len() == 0 {
        seq![]
    } else if members.len() == 1 {
        lex_member(members[0])
    } else {
        lex_members(members.subrange(0, members.len() - 1)) + seq![
            LexerTokenView::ValueSeparator,
        ] + lex_member(members[members.len() - 1])
    }
}

/// The parser tokens of a value: its events for a consumer.
pub open spec fn parse_tokens(j: Json) -> Seq<ParserTokenView>
    decreases j, 1int,
{
    match j {
        Json::Null => seq![ParserTokenView::NullValue],
        Json::Boolean(b) => seq![ParserTokenView::BooleanValue(b)],
        Json::Int(s) => seq![ParserTokenView::IntValue(s)],
        Json::Float(s) => seq![ParserTokenView::FloatValue(s)],
        Json::Text(s) => seq![ParserTokenView::StringValue(s)],
        Json::Array(items) => seq![ParserTokenView::BeginArray] + parse_items(items)
            + seq![ParserTokenView::EndArray],
        Json::Object(members) => seq![ParserTokenView::BeginObject] + parse_members(members)
            + seq![ParserTokenView::EndObject],
    }
}

/// The parser tokens of the elements of an array.
pub open spec fn parse_items(items: Seq<Json>) -> Seq<ParserTokenView>
    decreases items, 0int,
{
    if items.len() == 0 {
        seq![]
    } else {
        parse_items(items.subrange(0, items.len() - 1)) + parse_tokens(items[items.len() - 1])
    }
}

/// The parser tokens of the members of an object: for each its key and the
/// events of its value.
pub open spec fn parse_members(members: Seq<(Seq<char>, Json)>) -> Seq<ParserTokenView>
    decreases members, 0int,
{
    if members.len() == 0 {
        seq![]
    } else {
        let last = members[members.len() - 1];
        parse_members(members.subrange(0, members.len() - 1)) + seq![
            ParserTokenView::Key(last.0),
        ] + parse_tokens(last.1)
    }
}

/// What a run of tokens makes of the parser: where it stands, and the tokens
/// that it passes on, as long as it refuses none.
pub struct Walk {
    pub parser: ParserView,
    pub out: Seq<ParserTokenView>,
    pub refused: bool,
}

/// No token or one, as a sequence.
pub open spec fn passed_on(out: Option<Result<ParserTokenView, Seq<char>>>) -> Seq<
    ParserTokenView,
> {
    match out {
        Some(Ok(token)) => seq![token],
        _ => seq![],
    }
}

/// The tokens, one after the other, until the parser refuses one.
pub open spec fn walk(p: ParserView, tokens: Seq<LexerTokenView>) -> Walk
    decreases tokens.len(),
{
    if tokens.len() == 0 {
        Walk { parser: p, out: seq![], refused: false }
    } else {
        let before = walk(p, tokens.drop_last());
        let r = react(before.parser, tokens.last());
        if before.refused {
            before
        } else if r.out matches Some(Err(_)) {
            Walk { refused: true, ..before }
        } else {
            Walk { parser: r.parser, out: before.out + passed_on(r.out), refused: false }
        }
    }
}

/// A walk over two runs of tokens is the walk over the first and then, from
/// where that leaves the parser, the walk over the second.
pub proof fn lemma_walk_concat(p: ParserView, a: Seq<LexerTokenView>, b: Seq<LexerTokenView>)
    requires
        !walk(p, a).refused,
        !walk(walk(p, a).parser, b).refused,
    ensures
        walk(p, a + b) == (Walk {
            parser: walk(walk(p, a).parser, b).parser,
            out: walk(p, a).out + walk(walk(p, a).parser, b).out,
            refused: false,
        }),
    decreases b.len(),
{
    let q = walk(p, a).parser;
    if b.len() == 0 {
        assert(a + b =~= a);
        assert(walk(p, a).out + Seq::<ParserTokenView>::empty() =~= walk(p, a).out);
    } else {
        let front = b.drop_last();
        assert((a + b).drop_last() =~= a + front);
        assert((a + b).last() == b.last());
        lemma_walk_concat(p, a, front);
        let r = react(walk(q, front).parser, b.last());
        assert(walk(p, a).out + (walk(q, front).out + passed_on(r.out)) =~= (walk(p, a).out
            + walk(q, front).out) + passed_on(r.out));
    }
}

/// A walk over one token.
pub proof fn lemma_walk_one(p: ParserView, token: LexerTokenView)
    ensures
        walk(p, seq![token]) == if react(p, token).out matches Some(Err(_)) {
            Walk { parser: p, out: seq![], refused: true }
        } else {
            Walk {
                parser: react(p, token).parser,
                out: passed_on(react(p, token).out),
                refused: false,
            }
        },
{
    let one = seq![token];
    assert(one.drop_last() =~= Seq::<LexerTokenView>::empty());
    assert(one.last() == token);
    let nothing = walk(p, one.drop_last());
    assert(nothing.parser == p && nothing.out =~= Seq::<ParserTokenView>::empty()
        && !nothing.refused);
    assert(walk(p, one).out =~= if react(p, token).out matches Some(Err(_)) {
        Seq::<ParserTokenView>::empty()
    } else {
        passed_on(react(p, token).out)
    });
    assert(Seq::<ParserTokenView>::empty() + passed_on(react(p, token).out) =~= passed_on(
        react(p, token).out,
    ));
}

/// A value can come in this state.
pub open spec fn takes_value(state: ParserState) -> bool {
    state is TopLevel || state is InObjectMemberValue || state is InArray
}

/// The state after a value that came in `state`.
pub open spec fn after_value_in(state: ParserState) -> ParserState {
    match state {
        ParserState::InObjectMemberValue => ParserState::InObjectSep,
        ParserState::InArray => ParserState::InArraySep,
        _ => ParserState::TopLevel,
    }
}

/// Where a value can come, the parser takes the tokens that spell it, passes
/// on the events of the value, and stands behind the value.
pub proof fn lemma_walk_value(p: ParserView, j: Json)
    requires
        takes_value(p.state),
    ensures
        walk(p, lex_tokens(j)) == (Walk {
            parser: ParserView { state: after_value_in(p.state), states: p.states },
            out: parse_tokens(j),
            refused: false,
        }),
    decreases j, 1int,
{
    let after = after_value_in(p.state);
    match j {
        Json::Array(items) => {
            let open = seq![LexerTokenView::BeginArray];
            let inside = ParserView { state: ParserState::InArray, states: p.states.push(after) };
            lemma_walk_one(p, LexerTokenView::BeginArray);
            lemma_walk_items(inside, items);
            lemma_walk_concat(p, open, lex_items(items));
            let q = walk(inside, lex_items(items)).parser;
            lemma_walk_one(q, LexerTokenView::EndArray);
            assert(q.states.drop_last() =~= p.states);
            lemma_walk_concat(p, open + lex_items(items), seq![LexerTokenView::EndArray]);
        },
        Json::Object(members) => {
            let open = seq![LexerTokenView::BeginObject];
            let inside = ParserView { state: ParserState::InObject, states: p.states.push(after) };
            lemma_walk_one(p, LexerTokenView::BeginObject);
            lemma_walk_members(inside, members);
            lemma_walk_concat(p, open, lex_members(members));
            let q = walk(inside, lex_members(members)).parser;
            lemma_walk_one(q, LexerTokenView::EndObject);
            assert(q.states.drop_last() =~= p.states);
            lemma_walk_concat(p, open + lex_members(members), seq![LexerTokenView::EndObject]);
        },
        _ => {
            lemma_walk_one(p, lex_tokens(j)[0]);
            assert(lex_tokens(j) =~= seq![lex_tokens(j)[0]]);
        },
    }
}

/// In an array the parser takes the tokens that spell the elements and passes
/// on their events.
pub proof fn lemma_walk_items(p: ParserView, items: Seq<Json>)
    requires
        p.state is InArray,
    ensures
        walk(p, lex_items(items)) == (Walk {
            parser: ParserView {
                state: if items.len() == 0 {
                    ParserState::InArray
                } else {
                    ParserState::InArraySep
                },
                states: p.states,
            },
            out: parse_items(items),
            refused: false,
        }),
    decreases items, 0int,
{
    if items.len() == 0 {
    } else if items.len() == 1 {
        lemma_walk_value(p, items[0]);
        assert(items.subrange(0, 0) =~= Seq::<Json>::empty());
        assert(parse_items(items.subrange(0, 0)) =~= Seq::<ParserTokenView>::empty());
        assert(parse_items(items) =~= parse_tokens(items[0]));
    } else {
        let front = items.subrange(0, items.len() - 1);
        let last = items[items.len() - 1];
        lemma_walk_items(p, front);
        let q = walk(p, lex_items(front)).parser;
        lemma_walk_one(q, LexerTokenView::ValueSeparator);
        let comma = seq![LexerTokenView::ValueSeparator];
        lemma_walk_concat(p, lex_items(front), comma);
        let next = ParserView { state: ParserState::InArray, states: p.states };
        lemma_walk_value(next, last);
        lemma_walk_concat(p, lex_items(front) + comma, lex_tokens(last));
        assert(parse_items(front) + Seq::<ParserTokenView>::empty() =~= parse_items(front));
    }
}

/// In an object the parser takes the tokens that spell the members and passes
/// on, for each, its key and the events of its value.
pub proof fn lemma_walk_members(p: ParserView, members: Seq<(Seq<char>, Json)>)
    requires
        p.state is InObject,
    ensures
        walk(p, lex_members(members)) == (Walk {
            parser: ParserView {
                state: if members.len() == 0 {
                    ParserState::InObject
                } else {
                    ParserState::InObjectSep
                },
                states: p.states,
            },
            out: parse_members(members),
            refused: false,
        }),
    decreases members, 0int,
{
    if members.len() == 0 {
    } else if members.len() == 1 {
        lemma_walk_member(p, members[0]);
        assert(members.subrange(0, 0) =~= Seq::<(Seq<char>, Json)>::empty());
        assert(parse_members(members.subrange(0, 0)) =~= Seq::<ParserTokenView>::empty());
        assert(parse_members(members) =~= seq![ParserTokenView::Key(members[0].0)] + parse_tokens(
            members[0].1,
        ));
    } else {
        let front = members.subrange(0, members.len() - 1);
        let last = members[members.len() - 1];
        lemma_walk_members(p, front);
        let q = walk(p, lex_members(front)).parser;
        lemma_walk_one(q, LexerTokenView::ValueSeparator);
        let comma = seq![LexerTokenView::ValueSeparator];
        lemma_walk_concat(p, lex_members(front), comma);
        let next = ParserView { state: ParserState::InObject, states: p.states };
        lemma_walk_member(next, last);
        lemma_walk_concat(p, lex_members(front) + comma, lex_member(last));
        assert(parse_members(front) + Seq::<ParserTokenView>::empty() + (seq![
            ParserTokenView::Key(last.0),
        ] + parse_tokens(last.1)) =~= parse_members(members));
    }
}

/// In an object the parser takes the tokens that spell a member and passes on
/// its key and the events of its value.
pub proof fn lemma_walk_member(p: ParserView, member: (Seq<char>, Json))
    requires
        p.state is InObject,
    ensures
        walk(p, lex_member(member)) == (Walk {
            parser: ParserView { state: ParserState::InObjectSep, states: p.states },
            out: seq![ParserTokenView::Key(member.0)] + parse_tokens(member.1),
            refused: false,
        }),
    decreases member, 2int,
{
    let key = LexerTokenView::String(member.0);
    lemma_walk_one(p, key);
    let q = ParserView { state: ParserState::InObjectMember, states: p.states };
    lemma_walk_one(q, LexerTokenView::NameSeparator);
    lemma_walk_concat(p, seq![key], seq![LexerTokenView::NameSeparator]);
    assert(seq![key] + seq![LexerTokenView::NameSeparator] =~= seq![
        key,
        LexerTokenView::NameSeparator,
    ]);
    let v = ParserView { state: ParserState::InObjectMemberValue, states: p.states };
    lemma_walk_value(v, member.1);
    lemma_walk_concat(p, seq![key, LexerTokenView::NameSeparator], lex_tokens(member.1));
    assert(seq![ParserTokenView::Key(member.0)] + Seq::<ParserTokenView>::empty()
        + parse_tokens(member.1) =~= seq![ParserTokenView::Key(member.0)] + parse_tokens(
        member.1,
    ));
}

/// The tokens of a document that holds the value `j`: the value between the
/// two sentinels.
pub open spec fn document_tokens(j: Json) -> Seq<LexerTokenView> {
    seq![LexerTokenView::BeginFile] + lex_tokens(j) + seq![LexerTokenView::EndFile]
}

/// The events that a consumer gets for a document that holds the value `j`.
pub open spec fn document_events(j: Json) -> Seq<ParserTokenView> {
    seq![ParserTokenView::BeginFile] + parse_tokens(j) + seq![ParserTokenView::EndFile]
}

/// The events carry these tokens, whatever their positions, and no error.
pub open spec fn spells(events: Seq<LexEvent>, tokens: Seq<LexerTokenView>) -> bool {
    &&& events.len() == tokens.len()
    &&& forall|i: int|
        0 <= i < events.len() ==> (#[trigger] events[i]).token == Ok::<
            LexerTokenView,
            LexErrorView,
        >(tokens[i])
}

/// Each token as an event for a consumer.
pub open spec fn as_events(tokens: Seq<ParserTokenView>) -> Seq<ParseEvent> {
    Seq::new(tokens.len(), |i: int| Ok::<ParserTokenView, ParseErrorView>(tokens[i]))
}

/// Where the parser refuses no token, a run over events is the walk over
/// their tokens: the positions play no part.
pub proof fn lemma_run_is_walk(p: ParserView, events: Seq<LexEvent>, tokens: Seq<LexerTokenView>)
    requires
        spells(events, tokens),
        !walk(p, tokens).refused,
    ensures
        !parse_run(p, events).aborted,
        parse_run(p, events).parser == walk(p, tokens).parser,
        parse_run(p, events).events == as_events(walk(p, tokens).out),
    decreases events.len(),
{
    if events.len() == 0 {
        assert(parse_run(p, events).events =~= as_events(walk(p, tokens).out));
    } else {
        let front = events.drop_last();
        let front_tokens = tokens.drop_last();
        assert(spells(front, front_tokens)) by {
            assert forall|i: int| 0 <= i < front.len() implies (#[trigger] front[i]).token == Ok::<
                LexerTokenView,
                LexErrorView,
            >(front_tokens[i]) by {
                assert(front[i] == events[i]);
            }
        }
        lemma_run_is_walk(p, front, front_tokens);
        let before = walk(p, front_tokens);
        assert(events.last() == events[events.len() - 1]);
        let t = translate(before.parser, events.last());
        let r = react(before.parser, tokens.last());
        assert(parse_run(p, events).events =~= as_events(walk(p, tokens).out));
    }
}

/// The parser raises every document: for every JSON value, the tokens of the
/// document that holds it give the consumer the events of the document, in
/// order and without an error, whatever the positions of the tokens.
pub proof fn lemma_document_is_accepted(j: Json, events: Seq<LexEvent>)
    requires
        spells(events, document_tokens(j)),
    ensures
        !parse_run(ParserView::start(), events).aborted,
        parse_run(ParserView::start(), events).events == as_events(document_events(j)),
        all_accepted(parse_run(ParserView::start(), events).events),
{
    let start = ParserView::start();
    let begin = seq![LexerTokenView::BeginFile];
    let end = seq![LexerTokenView::EndFile];
    lemma_walk_one(start, LexerTokenView::BeginFile);
    let top = ParserView { state: ParserState::TopLevel, states: seq![] };
    lemma_walk_value(top, j);
    lemma_walk_concat(start, begin, lex_tokens(j));
    lemma_walk_one(top, LexerTokenView::EndFile);
    lemma_walk_concat(start, begin + lex_tokens(j), end);
    assert(walk(start, document_tokens(j)).out =~= document_events(j));
    lemma_run_is_walk(start, events, document_tokens(j));
}

/// The events of every document nest: each container closes in its turn with
/// the end that belongs to it, a key stands only in an object that awaits none
/// and a value in an object only after a key, and at the closing sentinel no
/// container is open.
pub proof fn lemma_document_nests(j: Json, events: Seq<LexEvent>)
    requires
        spells(events, document_tokens(j)),
    ensures
        nesting_of(parse_run(ParserView::start(), events).events) == Nesting::Open(seq![]),
{
    lemma_document_is_accepted(j, events);
    let out = parse_run(ParserView::start(), events).events;
    assert(out.len() > 0);
    assert(out.last() == as_events(document_events(j))[out.len() - 1]);
    lemma_accepted_events_nest(events);
    lemma_accepted_document_is_closed(events);
}

/// The bytes are a document that holds the value `j`: the lexer finds in them
/// the tokens that spell `j`, and no error.
pub open spec fn is_document(bytes: Seq<u8>, ignore_unicode_errs: bool, j: Json) -> bool {
    spells(lex_events(MachineView::start(ignore_unicode_errs), bytes), document_tokens(j))
}

/// For every stream of bytes that is a document, the consumer of the parser
/// gets the events of the document, in order and without an error, and they
/// nest: every container closes in its turn, keys and values alternate in
/// every object, and at the end no container is open.
pub proof fn lemma_document_bytes_nest(bytes: Seq<u8>, ignore_unicode_errs: bool, j: Json)
    requires
        is_document(bytes, ignore_unicode_errs, j),
    ensures
        ({
            let lexed = lex_events(MachineView::start(ignore_unicode_errs), bytes);
            let run = parse_run(ParserView::start(), lexed);
            &&& !run.aborted
            &&& run.events == as_events(document_events(j))
            &&& all_accepted(run.events)
            &&& nesting_of(run.events) == Nesting::Open(seq![])
        }),
{
    let lexed = lex_events(MachineView::start(ignore_unicode_errs), bytes);
    lemma_document_is_accepted(j, lexed);
    lemma_document_nests(j, lexed);
}

} // verus!
