//! The structure of the events that the parser passes on: containers that
//! close in the order in which they opened, and keys that alternate with values.

use crate::json_lexer::{LexErrorView, LexEvent, LexerTokenView};
use crate::json_parser::{
    lemma_parse_run_wf, lemma_translate_wf, parse_run, react, translate, ParseErrorView,
    ParseEvent, ParserState, ParserTokenView, ParserView,
};
use vstd::prelude::*;

verus! {

/// A container that is open.
pub enum Frame {
    /// An array.
    Array,
    /// An object; `awaits_value` says that a key was read and its value is to come.
    Object { awaits_value: bool },
}

/// Where a reader of parser tokens stands.
pub enum Nesting {
    /// Before the opening sentinel.
    Fresh,
    /// In the document, inside the given containers, the innermost last.
    Open(Seq<Frame>),
    /// After a token that was out of place.
    Broken,
}

/// A value can come here: outside any container, in an array, or in an object
/// after a key.
pub open spec fn value_fits(frames: Seq<Frame>) -> bool {
    frames.len() == 0 || frames.last() is Array || frames.last() == (Frame::Object {
        awaits_value: true,
    })
}

/// The open containers after a value: an object goes on with a key.
pub open spec fn after_value(frames: Seq<Frame>) -> Seq<Frame> {
    if frames.len() > 0 && frames.last() is Object {
        frames.drop_last().push(Frame::Object { awaits_value: false })
    } else {
        frames
    }
}

/// What a token makes of the open containers, where it is in its place:
/// a value where a value can come; a key in an object that awaits none; the
/// end of an object in an object that awaits no value, the end of an array in
/// an array, each closing the innermost container; the closing sentinel
/// outside any container.
pub open spec fn nest(frames: Seq<Frame>, token: ParserTokenView) -> Nesting {
    match token {
        ParserTokenView::BeginFile => Nesting::Broken,
        ParserTokenView::EndFile => if frames.len() == 0 {
            Nesting::Open(frames)
        } else {
            Nesting::Broken
        },
        ParserTokenView::BeginObject => if value_fits(frames) {
            Nesting::Open(after_value(frames).push(Frame::Object { awaits_value: false }))
        } else {
            Nesting::Broken
        },
        ParserTokenView::BeginArray => if value_fits(frames) {
            Nesting::Open(after_value(frames).push(Frame::Array))
        } else {
            Nesting::Broken
        },
        ParserTokenView::EndObject => if frames.len() > 0 && frames.last() == (Frame::Object {
            awaits_value: false,
        }) {
            Nesting::Open(frames.drop_last())
        } else {
            Nesting::Broken
        },
        ParserTokenView::EndArray => if frames.len() > 0 && frames.last() is Array {
            Nesting::Open(frames.drop_last())
        } else {
            Nesting::Broken
        },
        ParserTokenView::Key(_) => if frames.len() > 0 && frames.last() == (Frame::Object {
            awaits_value: false,
        }) {
            Nesting::Open(frames.drop_last().push(Frame::Object { awaits_value: true }))
        } else {
            Nesting::Broken
        },
        _ => if value_fits(frames) {
            Nesting::Open(after_value(frames))
        } else {
            Nesting::Broken
        },
    }
}

/// What an event makes of a reader. The opening sentinel starts the document
/// and has no place in it. An error breaks the reading.
pub open spec fn nest_event(nesting: Nesting, event: ParseEvent) -> Nesting {
    match event {
        Err(_) => Nesting::Broken,
        Ok(token) => match nesting {
            Nesting::Broken => Nesting::Broken,
            Nesting::Fresh => if token is BeginFile {
                Nesting::Open(seq![])
            } else {
                Nesting::Broken
            },
            Nesting::Open(frames) => nest(frames, token),
        },
    }
}

/// Where the events, read one after the other, leave a reader.
pub open spec fn nesting_of(events: Seq<ParseEvent>) -> Nesting
    decreases events.len(),
{
    if events.len() == 0 {
        Nesting::Fresh
    } else {
        nest_event(nesting_of(events.drop_last()), events.last())
    }
}

/// None of the events is an error.
pub open spec fn all_accepted(events: Seq<ParseEvent>) -> bool {
    forall|i: int| 0 <= i < events.len() ==> (#[trigger] events[i]) is Ok
}

/// The innermost open container, as the state of the parser tells it.
pub open spec fn innermost(state: ParserState) -> Frame {
    match state {
        ParserState::InObjectMember | ParserState::InObjectMemberValue => Frame::Object {
            awaits_value: true,
        },
        ParserState::InObject | ParserState::InObjectSep => Frame::Object { awaits_value: false },
        _ => Frame::Array,
    }
}

/// The open containers, as the parser tells them: the state that an inner
/// container put aside tells what the container around it is, and the current
/// state what the innermost is.
pub open spec fn frames_of(p: ParserView) -> Seq<Frame> {
    Seq::new(
        p.states.len(),
        |i: int|
            if i + 1 < p.states.len() {
                innermost(p.states[i + 1])
            } else {
                innermost(p.state)
            },
    )
}

/// Where the parser stands, as a reader of its own events.
pub open spec fn nesting_at(p: ParserView) -> Nesting {
    if p.state is Undefined {
        Nesting::Fresh
    } else {
        Nesting::Open(frames_of(p))
    }
}

/// A token that the parser accepts is in its place, and leaves a reader of the
/// parser's events where the parser stands.
pub proof fn lemma_translate_nests(p: ParserView, event: LexEvent)
    requires
        p.wf(),
    ensures
        match translate(p, event).out {
            None => nesting_at(translate(p, event).parser) == nesting_at(p),
            Some(Ok(token)) => nesting_at(translate(p, event).parser) == nest_event(
                nesting_at(p),
                Ok(token),
            ),
            Some(Err(_)) => true,
        },
{
    lemma_translate_wf(p, event);
    if let Ok(token) = event.token {
        let next = react(p, token).parser;
        let before = frames_of(p);
        let after = frames_of(next);
        match react(p, token).out {
            None => {
                assert(after =~= before);
            },
            Some(Ok(out)) => {
                let want = nest_event(nesting_at(p), Ok(out));
                if p.state is Undefined {
                    assert(after =~= seq![]);
                    assert(nesting_at(next) == want);
                } else if next.states.len() == p.states.len() + 1 {
                    assert(next.states.drop_last() =~= p.states);
                    assert(value_fits(before));
                    assert(after =~= after_value(before).push(innermost(next.state)));
                    assert(nesting_at(next) == want);
                } else if next.states.len() + 1 == p.states.len() {
                    assert(next.states =~= p.states.drop_last());
                    assert(after =~= before.drop_last());
                    assert(nesting_at(next) == want);
                } else if out is Key {
                    assert(after =~= before.drop_last().push(Frame::Object { awaits_value: true }));
                    assert(nesting_at(next) == want);
                } else if out is EndFile {
                    assert(after =~= before);
                    assert(nesting_at(next) == want);
                } else {
                    assert(value_fits(before));
                    assert(after =~= after_value(before));
                    assert(nesting_at(next) == want);
                }
            },
            Some(Err(_)) => {},
        }
    }
}

/// The events of a run that holds no error nest: every container closes in
/// its turn with the end that belongs to it, a key stands only in an object
/// that awaits none, and in an object a value stands only after a key. The
/// reader of the events stands where the parser stands.
pub proof fn lemma_accepted_events_nest(lexed: Seq<LexEvent>)
    requires
        all_accepted(parse_run(ParserView::start(), lexed).events),
    ensures
        nesting_of(parse_run(ParserView::start(), lexed).events) == nesting_at(
            parse_run(ParserView::start(), lexed).parser,
        ),
        !(nesting_of(parse_run(ParserView::start(), lexed).events) is Broken),
    decreases lexed.len(),
{
    let start = ParserView::start();
    if lexed.len() > 0 {
        let before = parse_run(start, lexed.drop_last());
        let run = parse_run(start, lexed);
        if before.aborted {
            lemma_accepted_events_nest(lexed.drop_last());
        } else {
            let t = translate(before.parser, lexed.last());
            assert(forall|i: int|
                0 <= i < before.events.len() ==> before.events[i] == run.events[i]);
            lemma_accepted_events_nest(lexed.drop_last());
            lemma_parse_run_wf(start, lexed.drop_last());
            lemma_translate_nests(before.parser, lexed.last());
            match t.out {
                None => {
                    assert(run.events =~= before.events);
                },
                Some(e) => {
                    assert(run.events =~= before.events.push(e));
                    assert(run.events.drop_last() =~= before.events);
                    assert(run.events[run.events.len() - 1] is Ok);
                },
            }
        }
    }
}

/// A run that holds no error and ends with the closing sentinel leaves no
/// container open.
pub proof fn lemma_accepted_document_is_closed(lexed: Seq<LexEvent>)
    requires
        all_accepted(parse_run(ParserView::start(), lexed).events),
        parse_run(ParserView::start(), lexed).events.len() > 0,
        parse_run(ParserView::start(), lexed).events.last() == Ok::<
            ParserTokenView,
            ParseErrorView,
        >(ParserTokenView::EndFile),
    ensures
        nesting_of(parse_run(ParserView::start(), lexed).events) == Nesting::Open(seq![]),
{
    let events = parse_run(ParserView::start(), lexed).events;
    lemma_accepted_events_nest(lexed);
    let before = nesting_of(events.drop_last());
    match before {
        Nesting::Open(frames) => {
            assert(frames =~= seq![]);
        },
        _ => {},
    }
}

/// The parser passes the opening sentinel on before anything else: a run that
/// begins with it begins with `BeginFile` for the consumer too.
pub proof fn lemma_run_begins_with_begin_file(lexed: Seq<LexEvent>)
    requires
        lexed.len() > 0,
        lexed[0].token == Ok::<LexerTokenView, LexErrorView>(LexerTokenView::BeginFile),
    ensures
        parse_run(ParserView::start(), lexed).events.len() > 0,
        parse_run(ParserView::start(), lexed).events[0] == Ok::<ParserTokenView, ParseErrorView>(
            ParserTokenView::BeginFile,
        ),
        !(parse_run(ParserView::start(), lexed).parser.state is Undefined),
    decreases lexed.len(),
{
    let start = ParserView::start();
    if lexed.len() == 1 {
        assert(lexed.drop_last() =~= Seq::<LexEvent>::empty());
        assert(parse_run(start, lexed.drop_last()).events =~= Seq::<ParseEvent>::empty());
    } else {
        assert(lexed.drop_last()[0] == lexed[0]);
        lemma_run_begins_with_begin_file(lexed.drop_last());
        lemma_parse_run_wf(start, lexed.drop_last());
    }
}

} // verus!
