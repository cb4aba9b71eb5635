//! What the sink makes of a whole run of parser events.

use crate::json2xml::{rendered, sink_step, SinkView};
use crate::json_parser::{ParseErrorView, ParseEvent, ParserTokenView};
use crate::xml_text::{close_text, open_text};
use vstd::prelude::*;

verus! {

/// A sink after a run of events whose writes all succeed: its stacks, the text
/// written, and whether an event made it give up, which ends the run.
pub struct SinkRun {
    pub view: SinkView,
    pub text: Seq<char>,
    pub gave_up: bool,
}

/// The events, one after the other, until one makes the sink give up.
pub open spec fn sink_run(formatted: bool, typed: bool, v: SinkView, events: Seq<ParseEvent>)
    -> SinkRun
    decreases events.len(),
{
    if events.len() == 0 {
        SinkRun { view: v, text: seq![], gave_up: false }
    } else {
        let before = sink_run(formatted, typed, v, events.drop_last());
        let step = sink_step(before.view, events.last());
        if before.gave_up {
            before
        } else if step.abort {
            SinkRun { gave_up: true, ..before }
        } else {
            SinkRun {
                view: step.view,
                text: before.text + rendered(formatted, typed, step.rendering),
                gave_up: false,
            }
        }
    }
}

/// `tail` stands at the end of `text`.
pub open spec fn ends_with(text: Seq<char>, tail: Seq<char>) -> bool {
    tail.len() <= text.len() && text.skip(text.len() - tail.len()) == tail
}

/// A run that begins with the opening sentinel writes the preamble and the
/// opening of the root element before anything else.
pub proof fn lemma_run_opens_the_root(
    formatted: bool,
    typed: bool,
    v: SinkView,
    events: Seq<ParseEvent>,
)
    requires
        events.len() > 0,
        events[0] == Ok::<ParserTokenView, ParseErrorView>(ParserTokenView::BeginFile),
    ensures
        !sink_run(formatted, typed, v, events.take(1)).gave_up,
        open_text(formatted).is_prefix_of(sink_run(formatted, typed, v, events).text),
    decreases events.len(),
{
    let first = events.take(1);
    assert(first.drop_last() =~= Seq::<ParseEvent>::empty());
    assert(first.last() == events[0]);
    let nothing = sink_run(formatted, typed, v, first.drop_last());
    assert(nothing.view == v && nothing.text =~= Seq::<char>::empty() && !nothing.gave_up);
    assert(!sink_step(v, first.last()).abort);
    assert(sink_run(formatted, typed, v, first).text =~= open_text(formatted));
    if events.len() == 1 {
        assert(first =~= events);
    } else {
        let front = events.drop_last();
        lemma_run_opens_the_root(formatted, typed, v, front);
        assert(front.take(1) =~= first);
        let before = sink_run(formatted, typed, v, front);
        let after = sink_run(formatted, typed, v, events);
        assert(before.text.is_prefix_of(after.text));
    }
}

/// The root element wraps the whole document: a run from the opening sentinel
/// to the closing sentinel that the sink goes through writes a text that
/// begins with the preamble and `<root>` and ends with `</root>`.
pub proof fn lemma_root_wraps_the_document(
    formatted: bool,
    typed: bool,
    v: SinkView,
    events: Seq<ParseEvent>,
)
    requires
        events.len() > 0,
        events[0] == Ok::<ParserTokenView, ParseErrorView>(ParserTokenView::BeginFile),
        events.last() == Ok::<ParserTokenView, ParseErrorView>(ParserTokenView::EndFile),
        !sink_run(formatted, typed, v, events).gave_up,
    ensures
        open_text(formatted).is_prefix_of(sink_run(formatted, typed, v, events).text),
        ends_with(sink_run(formatted, typed, v, events).text, close_text(formatted)),
{
    lemma_run_opens_the_root(formatted, typed, v, events);
    let before = sink_run(formatted, typed, v, events.drop_last());
    let after = sink_run(formatted, typed, v, events);
    let tail = close_text(formatted);
    assert(after.text =~= before.text + tail);
    assert(after.text.skip(after.text.len() - tail.len()) =~= tail);
}

} // verus!
