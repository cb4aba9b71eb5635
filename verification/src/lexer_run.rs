//! What the lexer makes of a whole stream of bytes.

use crate::json_lexer::{LexErrorView, LexEvent, LexerTokenView};
use crate::lexer_machine::{lemma_closing, lemma_turn, MachineView};
use crate::number_grammar::{is_json_float, is_json_integer};
use vstd::prelude::*;
use vstd::utf8::{
    decode_utf8, encode_utf8, encode_utf8_decode_utf8, encode_utf8_valid_utf8, valid_utf8,
};

verus! {

/// A machine and the events that led to it.
pub struct Scan {
    pub machine: MachineView,
    pub events: Seq<LexEvent>,
}

/// No event or one, as a sequence.
pub open spec fn events_of(event: Option<LexEvent>) -> Seq<LexEvent> {
    match event {
        Some(e) => seq![e],
        None => seq![],
    }
}

/// One byte of the stream: it is read, and read a second time where the first
/// reading pushes it back. A machine that cannot count another byte reads no more.
pub open spec fn feed(m: MachineView, byte: u8) -> Scan {
    if !m.has_room() {
        Scan { machine: m, events: seq![] }
    } else {
        let first = m.advance(byte);
        if first.unget && first.machine.has_room() {
            let second = first.machine.advance(byte);
            Scan {
                machine: second.machine,
                events: events_of(first.event) + events_of(second.event),
            }
        } else {
            Scan { machine: first.machine, events: events_of(first.event) }
        }
    }
}

/// The bytes of the stream, one after the other.
pub open spec fn scan(m: MachineView, bytes: Seq<u8>) -> Scan
    decreases bytes.len(),
{
    if bytes.len() == 0 {
        Scan { machine: m, events: seq![] }
    } else {
        let before = scan(m, bytes.drop_last());
        let last = feed(before.machine, bytes.last());
        Scan { machine: last.machine, events: before.events + last.events }
    }
}

/// The sentinel that opens a pass.
pub open spec fn begin_event(m: MachineView) -> LexEvent {
    LexEvent { token: Ok(LexerTokenView::BeginFile), line: m.line, column: m.column }
}

/// The sentinel that ends a pass.
pub open spec fn end_event(m: MachineView) -> LexEvent {
    LexEvent { token: Ok(LexerTokenView::EndFile), line: m.line, column: m.column }
}

/// What the end of the stream gives: the event that closes the open state, if
/// it needs one, and the closing sentinel.
pub open spec fn closing_events(m: MachineView) -> Seq<LexEvent> {
    events_of(m.closing_event()).push(end_event(m))
}

/// Every event of a pass that starts with the machine `m` over a stream that
/// holds `bytes` and then ends.
pub open spec fn lex_events(m: MachineView, bytes: Seq<u8>) -> Seq<LexEvent> {
    seq![begin_event(m)] + scan(m, bytes).events + closing_events(scan(m, bytes).machine)
}

/// An event keeps the grammar of numbers: the lexeme of an integer matches
/// `-?(0|[1-9][0-9]*)`, that of a float the whole grammar with a fraction, an
/// exponent or both.
pub open spec fn number_is_sound(event: LexEvent) -> bool {
    match event.token {
        Ok(LexerTokenView::IntValue(text)) => is_json_integer(text),
        Ok(LexerTokenView::FloatValue(text)) => is_json_float(text),
        _ => true,
    }
}

/// Reading a byte keeps the machine well-formed, emits only numbers that match
/// the grammar, and never pushes back a byte that it has just read again.
pub proof fn lemma_advance(m: MachineView, byte: u8)
    requires
        m.wf(),
        m.has_room(),
    ensures
        m.advance(byte).machine.wf(),
        m.advance(byte).machine.ignore_unicode_errs == m.ignore_unicode_errs,
        m.advance(byte).machine.column == m.column + 1,
        m.advance(byte).event matches Some(e) ==> number_is_sound(e),
        m.advance(byte).unget && m.advance(byte).machine.has_room() ==> !m.advance(
            byte,
        ).machine.advance(byte).unget,
{
    lemma_turn(m.state, m.buf, byte, m.ignore_unicode_errs);
}

/// One byte of the stream keeps the machine well-formed and emits only
/// numbers that match the grammar.
pub proof fn lemma_feed(m: MachineView, byte: u8)
    requires
        m.wf(),
    ensures
        feed(m, byte).machine.wf(),
        feed(m, byte).machine.ignore_unicode_errs == m.ignore_unicode_errs,
        forall|i: int|
            0 <= i < feed(m, byte).events.len() ==> number_is_sound(
                #[trigger] feed(m, byte).events[i],
            ),
{
    if m.has_room() {
        lemma_advance(m, byte);
        let first = m.advance(byte);
        if first.unget && first.machine.has_room() {
            lemma_advance(first.machine, byte);
        }
    }
}

/// A stream of bytes keeps the machine well-formed and emits only numbers that
/// match the grammar.
pub proof fn lemma_scan(m: MachineView, bytes: Seq<u8>)
    requires
        m.wf(),
    ensures
        scan(m, bytes).machine.wf(),
        scan(m, bytes).machine.ignore_unicode_errs == m.ignore_unicode_errs,
        forall|i: int|
            0 <= i < scan(m, bytes).events.len() ==> number_is_sound(
                #[trigger] scan(m, bytes).events[i],
            ),
    decreases bytes.len(),
{
    if bytes.len() > 0 {
        lemma_scan(m, bytes.drop_last());
        lemma_feed(scan(m, bytes.drop_last()).machine, bytes.last());
    }
}

/// Where the reading of a stream stands between two calls of `get`.
///
/// With no byte pushed back, `machine` and `events` are what `input` gave. With
/// a byte pushed back, which is the last of `input`, they are what the bytes
/// before it gave, and `midway` says that the byte has been read once already.
pub open spec fn standing(
    ignore: bool,
    input: Seq<u8>,
    events: Seq<LexEvent>,
    machine: MachineView,
    pending: Option<u8>,
    midway: bool,
) -> bool {
    let origin = MachineView::start(ignore);
    match pending {
        None => !midway && machine == scan(origin, input).machine && events == scan(
            origin,
            input,
        ).events,
        Some(byte) => {
            let before = scan(origin, input.drop_last());
            &&& input.len() > 0
            &&& input.last() == byte
            &&& if midway {
                let first = before.machine.advance(byte);
                &&& before.machine.has_room()
                &&& first.unget
                &&& machine == first.machine
                &&& events == before.events + events_of(first.event)
            } else {
                machine == before.machine && events == before.events
            }
        },
    }
}

/// The input after a `get`: a byte that was pushed back was counted already.
pub open spec fn input_after(input: Seq<u8>, pending: Option<u8>, byte: u8) -> Seq<u8> {
    if pending is Some {
        input
    } else {
        input.push(byte)
    }
}

/// Reading the byte that `get` hands out, and pushing it back where the machine
/// asks for it, leaves the reading in good standing.
pub proof fn lemma_standing_step(
    ignore: bool,
    input: Seq<u8>,
    events: Seq<LexEvent>,
    machine: MachineView,
    pending: Option<u8>,
    midway: bool,
    byte: u8,
)
    requires
        standing(ignore, input, events, machine, pending, midway),
        machine.has_room(),
        pending matches Some(b) ==> b == byte,
    ensures
        ({
            let a = machine.advance(byte);
            standing(
                ignore,
                input_after(input, pending, byte),
                events + events_of(a.event),
                a.machine,
                if a.unget {
                    Some(byte)
                } else {
                    None
                },
                a.unget,
            )
        }),
        midway ==> !machine.advance(byte).unget,
        machine.wf(),
{
    let origin = MachineView::start(ignore);
    let a = machine.advance(byte);
    let next = input_after(input, pending, byte);
    assert(next.len() > 0 && next.last() == byte);
    let prefix = next.drop_last();
    if pending is None {
        assert(prefix =~= input);
    } else {
        assert(prefix =~= input.drop_last());
    }
    lemma_scan(origin, prefix);
    let before = scan(origin, prefix);
    if midway {
        lemma_advance(before.machine, byte);
        let first = before.machine.advance(byte);
        assert(feed(before.machine, byte).events =~= events_of(first.event) + events_of(a.event));
        assert(scan(origin, next).events =~= events + events_of(a.event));
    } else {
        assert(machine == before.machine);
        assert(events =~= before.events);
        if !a.unget {
            assert(feed(machine, byte).events =~= events_of(a.event));
            assert(scan(origin, next).events =~= events + events_of(a.event));
        }
    }
}

/// A reading in good standing with no byte pushed back, or with no room to
/// count another byte, has made of the input all that can be made of it.
pub proof fn lemma_standing_settled(
    ignore: bool,
    input: Seq<u8>,
    events: Seq<LexEvent>,
    machine: MachineView,
    pending: Option<u8>,
    midway: bool,
)
    requires
        standing(ignore, input, events, machine, pending, midway),
        pending is None || !machine.has_room(),
    ensures
        machine == scan(MachineView::start(ignore), input).machine,
        events == scan(MachineView::start(ignore), input).events,
        machine.wf(),
{
    let origin = MachineView::start(ignore);
    lemma_scan(origin, input);
    if let Some(byte) = pending {
        let before = scan(origin, input.drop_last());
        lemma_scan(origin, input.drop_last());
        if midway {
            let first = before.machine.advance(byte);
            assert(feed(before.machine, byte).events =~= events_of(first.event));
        } else {
            assert(feed(before.machine, byte).events =~= Seq::<LexEvent>::empty());
            assert(scan(origin, input).events =~= events);
        }
    }
}

/// A reading in good standing has made of the input a part of what can be made
/// of it: its events are the first of the events that the input gives.
pub proof fn lemma_standing_prefix(
    ignore: bool,
    input: Seq<u8>,
    events: Seq<LexEvent>,
    machine: MachineView,
    pending: Option<u8>,
    midway: bool,
)
    requires
        standing(ignore, input, events, machine, pending, midway),
    ensures
        events.is_prefix_of(scan(MachineView::start(ignore), input).events),
{
    let origin = MachineView::start(ignore);
    let all = scan(origin, input).events;
    if let Some(byte) = pending {
        let before = scan(origin, input.drop_last());
        let last = feed(before.machine, byte);
        assert(all =~= before.events + last.events);
        if midway {
            let first = before.machine.advance(byte);
            assert(events_of(first.event).is_prefix_of(last.events)) by {
                if first.machine.has_room() {
                    let second = first.machine.advance(byte);
                    assert(last.events =~= events_of(first.event) + events_of(second.event));
                }
            }
            assert(events =~= all.take(events.len() as int));
        } else {
            assert(events =~= all.take(events.len() as int));
        }
    } else {
        assert(events =~= all.take(events.len() as int));
    }
}

/// `later` goes on from `earlier` with the bytes with which `taken_later` goes on
/// from `taken_earlier`.
pub open spec fn grows_alike(
    earlier: Seq<u8>,
    later: Seq<u8>,
    taken_earlier: Seq<u8>,
    taken_later: Seq<u8>,
) -> bool {
    &&& earlier.is_prefix_of(later)
    &&& taken_earlier.is_prefix_of(taken_later)
    &&& later.skip(earlier.len() as int) == taken_later.skip(taken_earlier.len() as int)
}

/// Two steps that grow alike make one step that grows alike.
pub proof fn lemma_grows_alike_chain(
    first: Seq<u8>,
    second: Seq<u8>,
    third: Seq<u8>,
    taken_first: Seq<u8>,
    taken_second: Seq<u8>,
    taken_third: Seq<u8>,
)
    requires
        grows_alike(first, second, taken_first, taken_second),
        grows_alike(second, third, taken_second, taken_third),
    ensures
        grows_alike(first, third, taken_first, taken_third),
{
    let a = third.skip(first.len() as int);
    let b = taken_third.skip(taken_first.len() as int);
    let mid = second.skip(first.len() as int);
    let tail = third.skip(second.len() as int);
    assert(mid.len() == taken_second.len() - taken_first.len());
    assert(a =~= mid + tail);
    assert(b =~= taken_second.skip(taken_first.len() as int) + taken_third.skip(
        taken_second.len() as int,
    ));
}

/// The event is one of the two sentinels.
pub open spec fn is_sentinel(event: LexEvent) -> bool {
    event.token == Ok::<LexerTokenView, LexErrorView>(LexerTokenView::BeginFile) || event.token
        == Ok::<LexerTokenView, LexErrorView>(LexerTokenView::EndFile)
}

/// The bytes of a stream give no sentinel.
pub proof fn lemma_scan_gives_no_sentinel(m: MachineView, bytes: Seq<u8>)
    ensures
        forall|i: int|
            0 <= i < scan(m, bytes).events.len() ==> !is_sentinel(
                #[trigger] scan(m, bytes).events[i],
            ),
    decreases bytes.len(),
{
    if bytes.len() > 0 {
        lemma_scan_gives_no_sentinel(m, bytes.drop_last());
    }
}

/// Every pass is bracketed: whatever the stream holds, the first event is
/// `BeginFile`, the last is `EndFile`, and no event between them is either.
pub proof fn lemma_pass_is_bracketed(m: MachineView, bytes: Seq<u8>)
    ensures
        lex_events(m, bytes).len() >= 2,
        lex_events(m, bytes).first() == begin_event(m),
        lex_events(m, bytes).last() == end_event(scan(m, bytes).machine),
        forall|i: int|
            0 < i < lex_events(m, bytes).len() - 1 ==> !is_sentinel(
                #[trigger] lex_events(m, bytes)[i],
            ),
{
    lemma_scan_gives_no_sentinel(m, bytes);
}

/// Every number that a pass emits matches the grammar of numbers: an
/// `IntValue` matches `-?(0|[1-9][0-9]*)`, a `FloatValue` matches
/// `-?(0|[1-9][0-9]*)(\.[0-9]+)?([eE]-?[0-9]+)?` and has a fraction, an exponent
/// or both.
pub proof fn lemma_numbers_match_grammar(m: MachineView, bytes: Seq<u8>)
    requires
        m.wf(),
    ensures
        forall|i: int|
            0 <= i < lex_events(m, bytes).len() ==> number_is_sound(
                #[trigger] lex_events(m, bytes)[i],
            ),
{
    lemma_scan(m, bytes);
    let end = scan(m, bytes).machine;
    lemma_closing(end.state, end.buf);
}

/// Every string that a pass emits is text that UTF-8 can carry: encoded, it is
/// well-formed UTF-8, and decoding that gives the text back.
pub proof fn lemma_strings_are_utf8(m: MachineView, bytes: Seq<u8>, i: int)
    requires
        0 <= i < lex_events(m, bytes).len(),
    ensures
        lex_events(m, bytes)[i].token matches Ok(LexerTokenView::String(text)) ==> valid_utf8(
            encode_utf8(text),
        ) && decode_utf8(encode_utf8(text)) == text,
{
    if let Ok(LexerTokenView::String(text)) = lex_events(m, bytes)[i].token {
        encode_utf8_valid_utf8(text);
        encode_utf8_decode_utf8(text);
    }
}

} // verus!
