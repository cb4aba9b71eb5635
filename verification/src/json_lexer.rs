//! Lexical tokens, lexical errors and the consumer that receives them.

use crate::byte_source::{lemma_get_outcome, ran_dry, ByteSource, SourceView};
use crate::lexer_machine::{advanced, delivery, LexerMachine, MachineView, Scanned};
use crate::lexer_run::{
    begin_event, closing_events, events_of, grows_alike, input_after, lemma_grows_alike_chain,
    lemma_standing_prefix, lemma_standing_settled, lemma_standing_step, lex_events, scan,
    standing,
};
use vstd::prelude::*;

verus! {

/// What the lexer recognises in the byte stream.
#[derive(Debug, PartialEq)]
pub enum LexerToken {
    BeginObject,
    EndObject,
    BeginArray,
    EndArray,
    NameSeparator,
    ValueSeparator,
    BooleanValue(bool),
    NullValue,
    /// A string literal, decoded: escapes resolved, surrogate pairs composed.
    String(String),
    /// The lexeme of a number without fraction or exponent.
    IntValue(String),
    /// The lexeme of a number with a fraction, an exponent or both.
    FloatValue(String),
    BeginFile,
    EndFile,
}

/// A lexical token with its texts as sequences of characters.
pub enum LexerTokenView {
    BeginObject,
    EndObject,
    BeginArray,
    EndArray,
    NameSeparator,
    ValueSeparator,
    BooleanValue(bool),
    NullValue,
    String(Seq<char>),
    IntValue(Seq<char>),
    FloatValue(Seq<char>),
    BeginFile,
    EndFile,
}

impl View for LexerToken {
    type V = LexerTokenView;

    open spec fn view(&self) -> LexerTokenView {
        match self {
            LexerToken::BeginObject => LexerTokenView::BeginObject,
            LexerToken::EndObject => LexerTokenView::EndObject,
            LexerToken::BeginArray => LexerTokenView::BeginArray,
            LexerToken::EndArray => LexerTokenView::EndArray,
            LexerToken::NameSeparator => LexerTokenView::NameSeparator,
            LexerToken::ValueSeparator => LexerTokenView::ValueSeparator,
            LexerToken::BooleanValue(b) => LexerTokenView::BooleanValue(*b),
            LexerToken::NullValue => LexerTokenView::NullValue,
            LexerToken::String(s) => LexerTokenView::String(s@),
            LexerToken::IntValue(s) => LexerTokenView::IntValue(s@),
            LexerToken::FloatValue(s) => LexerTokenView::FloatValue(s@),
            LexerToken::BeginFile => LexerTokenView::BeginFile,
            LexerToken::EndFile => LexerTokenView::EndFile,
        }
    }
}

/// A lexical error with the position at which the lexer met it.
#[derive(Debug, PartialEq)]
pub struct JSONLexError {
    pub msg: String,
    pub line: usize,
    pub column: usize,
}

/// A lexical error with its message as a sequence of characters.
pub struct LexErrorView {
    pub msg: Seq<char>,
    pub line: usize,
    pub column: usize,
}

impl View for JSONLexError {
    type V = LexErrorView;

    open spec fn view(&self) -> LexErrorView {
        LexErrorView { msg: self.msg@, line: self.line, column: self.column }
    }
}

/// The answer of a consumer that wants no further events.
#[derive(Debug, PartialEq)]
pub struct ConsumeError;

/// One delivery to a lexer consumer: a token or an error, and where the lexer stood.
pub struct LexEvent {
    pub token: Result<LexerTokenView, LexErrorView>,
    pub line: usize,
    pub column: usize,
}

/// The event that a call of `consume` with these arguments delivers.
pub open spec fn lex_event(
    token: Result<LexerToken, JSONLexError>,
    line: usize,
    column: usize,
) -> LexEvent {
    LexEvent {
        token: match token {
            Ok(t) => Ok(t@),
            Err(e) => Err(e@),
        },
        line,
        column,
    }
}

/// The receiving end of the lexer.
pub trait JSONLexConsumer {
    /// Takes one event, with the line and the column at which the lexer stands.
    /// `Err` asks the lexer to stop: nothing is delivered after it.
    fn consume(
        &mut self,
        token: Result<LexerToken, JSONLexError>,
        line: usize,
        column: usize,
    ) -> Result<(), ConsumeError>;
}

/// Every answer was `Ok`.
pub open spec fn all_ok(answers: Seq<bool>) -> bool {
    forall|i: int| 0 <= i < answers.len() ==> #[trigger] answers[i]
}

/// With one more answer every answer was `Ok` exactly if every answer before
/// was and the new one is.
pub proof fn lemma_all_ok_push(answers: Seq<bool>, answer: bool)
    ensures
        all_ok(answers.push(answer)) <==> all_ok(answers) && answer,
{
    if all_ok(answers.push(answer)) {
        assert(answers.push(answer)[answers.len() as int]);
        assert forall|i: int| 0 <= i < answers.len() implies #[trigger] answers[i] by {
            assert(answers.push(answer)[i]);
        }
    }
}

/// The end to which a pass hands its events, with its record: what it was
/// handed, and what it answered.
pub trait LexReceiver {
    /// Every event that this end was handed so far, oldest first.
    spec fn received(&self) -> Seq<LexEvent>;

    /// For every event that this end was handed, whether it answered `Ok`.
    spec fn replies(&self) -> Seq<bool>;

    /// What holds of this end between two events as long as it has refused none.
    spec fn sound(&self) -> bool;

    /// Takes one event, and notes the event and the answer.
    fn take(&mut self, token: Result<LexerToken, JSONLexError>, line: usize, column: usize) -> (r:
        Result<(), ConsumeError>)
        requires
            old(self).sound(),
            all_ok(old(self).replies()),
        ensures
            final(self).sound(),
            final(self).received() == old(self).received().push(lex_event(token, line, column)),
            final(self).replies() == old(self).replies().push(r is Ok),
    ;
}

/// A consumer as the receiving end of a pass.
pub struct Direct<'a, C: JSONLexConsumer> {
    consumer: &'a mut C,
    received: Ghost<Seq<LexEvent>>,
    replies: Ghost<Seq<bool>>,
}

impl<'a, C: JSONLexConsumer> Direct<'a, C> {
    /// A receiving end that hands every event to `consumer` and answers what
    /// the consumer answers.
    pub fn new(consumer: &'a mut C) -> (direct: Self)
        ensures
            direct.received() == Seq::<LexEvent>::empty(),
            direct.replies() == Seq::<bool>::empty(),
            direct.sound(),
    {
        Direct { consumer, received: Ghost(Seq::empty()), replies: Ghost(Seq::empty()) }
    }
}

impl<'a, C: JSONLexConsumer> LexReceiver for Direct<'a, C> {
    closed spec fn received(&self) -> Seq<LexEvent> {
        self.received@
    }

    closed spec fn replies(&self) -> Seq<bool> {
        self.replies@
    }

    open spec fn sound(&self) -> bool {
        true
    }

    fn take(&mut self, token: Result<LexerToken, JSONLexError>, line: usize, column: usize) -> (r:
        Result<(), ConsumeError>) {
        proof {
            self.received@ = self.received@.push(lex_event(token, line, column));
        }
        let r = self.consumer.consume(token, line, column);
        proof {
            self.replies@ = self.replies@.push(r is Ok);
        }
        r
    }
}

/// A byte source that was pushed back into and comes next, as a sequence.
pub open spec fn pending_bytes(source: SourceView) -> Seq<u8> {
    match source.pending {
        Some(byte) => seq![byte],
        None => seq![],
    }
}

/// Every event of a pass: the opening sentinel at the position where the pass
/// begins, the events that the bytes give, and what the end of the stream gives
/// to the machine `end` that the bytes leave.
pub open spec fn pass_events(begin: MachineView, fresh: Seq<LexEvent>, end: MachineView) -> Seq<
    LexEvent,
> {
    seq![begin_event(begin)] + fresh + closing_events(end)
}

/// The lexer: it reads a byte source to its end and hands what it finds to a consumer.
pub struct JSONLexer<R> {
    byte_source: ByteSource<R>,
    machine: LexerMachine,
    lead: Ghost<Seq<u8>>,
    base: Ghost<nat>,
    events: Ghost<Seq<LexEvent>>,
    midway: Ghost<bool>,
    closed: Ghost<bool>,
    delivered: Ghost<Seq<LexEvent>>,
    answers: Ghost<Seq<bool>>,
}

impl<R: std::io::Read> JSONLexer<R> {
    /// The state machine between two bytes.
    pub closed spec fn machine(&self) -> MachineView {
        self.machine@
    }

    /// The byte source.
    pub closed spec fn source(&self) -> SourceView {
        self.byte_source@
    }

    /// Every byte that the byte source has handed to this lexer, each once, in
    /// the order of the stream.
    pub closed spec fn input(&self) -> Seq<u8> {
        self.lead@ + self.byte_source@.taken.skip(self.base@ as int)
    }

    /// Every event that the bytes read so far gave rise to, the sentinels left out.
    pub closed spec fn events(&self) -> Seq<LexEvent> {
        self.events@
    }

    /// The end of the stream was seen and the open state closed.
    pub closed spec fn is_closed(&self) -> bool {
        self.closed@
    }

    /// Every event that `lex` has handed to a consumer so far, oldest first.
    pub closed spec fn delivered(&self) -> Seq<LexEvent> {
        self.delivered@
    }

    /// For every event that `lex` has handed to a consumer, whether the
    /// consumer answered `Ok`.
    pub closed spec fn answers(&self) -> Seq<bool> {
        self.answers@
    }

    /// The machine before the first byte.
    pub open spec fn origin(&self) -> MachineView {
        MachineView::start(self.machine().ignore_unicode_errs)
    }

    /// The lexer is still reading, and its machine and events are what the
    /// bytes read so far make of the machine before the first byte.
    pub closed spec fn wf(&self) -> bool {
        &&& self.byte_source.wf()
        &&& !self.closed@
        &&& self.base@ <= self.byte_source@.taken.len()
        &&& standing(
            self.machine@.ignore_unicode_errs,
            self.input(),
            self.events@,
            self.machine@,
            self.byte_source@.pending,
            self.midway@,
        )
    }

    /// The machine and the events are all that the input gives.
    pub open spec fn settled(&self) -> bool {
        &&& self.machine() == scan(self.origin(), self.input()).machine
        &&& self.events() == scan(self.origin(), self.input()).events
    }

    /// What a pass makes of the lexer `self`: the lexer `after`, the events
    /// `got` that the receiving end was handed, its answers `replies`, one for
    /// each event, and the result `r`.
    ///
    /// The events come in the order of the pass. An answer `Err` ends the
    /// pass: the event that it answers is the last, and the result is `Err`.
    /// With no such answer the pass reads the stream to its end and hands over
    /// all its events, the closing sentinel last, and the result is `Ok`. Before
    /// the event that closes the open state the stream is always read to its end.
    pub open spec fn passed(
        &self,
        after: &Self,
        got: Seq<LexEvent>,
        replies: Seq<bool>,
        r: Result<(), ConsumeError>,
    ) -> bool {
        let fresh = after.events().skip(self.events().len() as int);
        let end = scan(self.origin(), after.input()).machine;
        let all = pass_events(self.machine(), fresh, end);
        &&& grows_alike(self.input(), after.input(), self.source().taken, after.source().taken)
        &&& self.events().is_prefix_of(after.events())
        &&& after.events().is_prefix_of(scan(self.origin(), after.input()).events)
        &&& 1 <= got.len() <= all.len()
        &&& got == all.take(got.len() as int)
        &&& replies.len() == got.len()
        &&& all_ok(replies.drop_last())
        &&& r is Ok <==> replies.last()
        &&& after.is_closed() ==> self.drained(after)
        &&& match r {
            Ok(()) => got == all && after.is_closed(),
            Err(_) => {
                &&& !after.is_closed() ==> after.wf() && got == seq![begin_event(self.machine())]
                    + fresh
                &&& after.is_closed() ==> got.len() > 1 + fresh.len()
            },
        }
    }

    /// The pass from `self` to `after` has read the stream to its end: the
    /// events of `after` are all that its input gives, its machine is closed,
    /// no byte is left at hand, and the stream was read until a read left no
    /// block. (A machine that can count no further byte ends the reading
    /// before the stream does.)
    pub open spec fn drained(&self, after: &Self) -> bool {
        let end = scan(self.origin(), after.input()).machine;
        &&& after.events() == scan(self.origin(), after.input()).events
        &&& after.machine() == end.closed()
        &&& end.has_room() ==> {
            &&& after.source().pending is None
            &&& after.source().window.len() == 0
            &&& ran_dry(self.source(), after.source())
        }
    }

    /// On a lexer that has read nothing yet, a pass that no answer ends hands
    /// over the events of the whole input, from `BeginFile` to `EndFile`.
    pub proof fn lemma_whole_pass(&self, after: &Self, got: Seq<LexEvent>, replies: Seq<bool>)
        requires
            self.events().len() == 0,
            self.machine() == self.origin(),
            self.passed(after, got, replies, Ok(())),
        ensures
            got == lex_events(self.origin(), after.input()),
    {
        let fresh = after.events().skip(self.events().len() as int);
        assert(fresh =~= after.events());
    }

    /// A lexer over `byte_source`, at line 0 and column 0. With
    /// `ignore_unicode_errs` the replacement character takes the place of a code
    /// point that cannot be had.
    pub fn new(byte_source: ByteSource<R>, ignore_unicode_errs: bool) -> (lexer: Self)
        requires
            byte_source.wf(),
        ensures
            lexer.wf(),
            lexer.machine() == MachineView::start(ignore_unicode_errs),
            lexer.source() == byte_source@,
            lexer.input() == pending_bytes(byte_source@),
            lexer.events() == Seq::<LexEvent>::empty(),
            lexer.delivered() == Seq::<LexEvent>::empty(),
            lexer.answers() == Seq::<bool>::empty(),
    {
        let ghost lead = pending_bytes(byte_source@);
        let ghost base = byte_source@.taken.len();
        let lexer = JSONLexer {
            byte_source,
            machine: LexerMachine::new(ignore_unicode_errs),
            lead: Ghost(lead),
            base: Ghost(base),
            events: Ghost(Seq::empty()),
            midway: Ghost(false),
            closed: Ghost(false),
            delivered: Ghost(Seq::empty()),
            answers: Ghost(Seq::empty()),
        };
        proof {
            assert(lexer.input() =~= lead);
            if lead.len() > 0 {
                assert(lead.drop_last() =~= Seq::<u8>::empty());
            }
        }
        lexer
    }

    /// Whether the lexer can count another byte.
    pub fn has_room(&self) -> (r: bool)
        ensures
            r == self.machine().has_room(),
    {
        self.machine.has_room()
    }

    /// The number of line feeds read.
    pub fn line(&self) -> (line: usize)
        ensures
            line == self.machine().line,
    {
        self.machine.line()
    }

    /// The number of bytes read, each counted as often as it was read.
    pub fn column(&self) -> (column: usize)
        ensures
            column == self.machine().column,
    {
        self.machine.column()
    }

    /// A lexer that is still reading has not seen the end of the stream.
    pub proof fn lemma_reading(&self)
        requires
            self.wf(),
        ensures
            !self.is_closed(),
    {
    }

    /// The events of a lexer that is still reading are the first of the events
    /// that its input gives.
    pub proof fn lemma_events_are_prefix(&self)
        requires
            self.wf(),
        ensures
            self.events().is_prefix_of(scan(self.origin(), self.input()).events),
    {
        lemma_standing_prefix(
            self.machine@.ignore_unicode_errs,
            self.input(),
            self.events@,
            self.machine@,
            self.byte_source@.pending,
            self.midway@,
        );
    }

    /// A lexer that can count no further byte, or into which no byte is pushed
    /// back, has made of its input all that can be made of it.
    pub proof fn lemma_settled(&self)
        requires
            self.wf(),
            self.source().pending is None || !self.machine().has_room(),
        ensures
            self.settled(),
            self.machine().wf(),
    {
        lemma_standing_settled(
            self.machine@.ignore_unicode_errs,
            self.input(),
            self.events@,
            self.machine@,
            self.byte_source@.pending,
            self.midway@,
        );
    }

    /// Reads the next byte, if the stream has one, and lets it act on the
    /// machine; a byte that the machine pushes back goes back to the byte source.
    /// The result is the event to deliver, if the byte gave one; `None` says
    /// that the stream has ended.
    pub fn read(&mut self) -> (r: Option<Scanned>)
        requires
            old(self).wf(),
            old(self).machine().has_room(),
        ensures
            final(self).wf(),
            final(self).machine().ignore_unicode_errs == old(self).machine().ignore_unicode_errs,
            final(self).delivered() == old(self).delivered(),
            final(self).answers() == old(self).answers(),
            grows_alike(
                old(self).input(),
                final(self).input(),
                old(self).source().taken,
                final(self).source().taken,
            ),
            old(self).source().answers.is_prefix_of(final(self).source().answers),
            match r {
                None => {
                    &&& ran_dry(old(self).source(), final(self).source())
                    &&& final(self).settled()
                    &&& final(self).machine().wf()
                    &&& final(self).source().pending is None
                    &&& final(self).source().last is None
                    &&& final(self).source().window.len() == 0
                    &&& final(self).input() == old(self).input()
                    &&& final(self).events() == old(self).events()
                    &&& final(self).machine() == old(self).machine()
                },
                Some(scanned) => {
                    &&& final(self).source().last matches Some(byte) && {
                        &&& old(self).source().pending matches Some(b) ==> b == byte
                        &&& advanced(
                            old(self).machine().advance(byte),
                            final(self).machine(),
                            scanned,
                        )
                        &&& final(self).input() == input_after(
                            old(self).input(),
                            old(self).source().pending,
                            byte,
                        )
                        &&& final(self).source().pending == if scanned.unget {
                            Some(byte)
                        } else {
                            None
                        }
                    }
                    &&& final(self).machine().column == old(self).machine().column + 1
                    &&& final(self).events() == old(self).events() + events_of(
                        delivery(
                            scanned.event,
                            final(self).machine().line,
                            final(self).machine().column,
                        ),
                    )
                },
            },
    {
        let ghost pending = self.byte_source@.pending;
        let ghost input = self.input();
        proof {
            self.byte_source.lemma_view_wf();
        }
        let ghost source = self.byte_source@;
        let got = self.byte_source.get();
        proof {
            lemma_get_outcome(source, self.byte_source@, got);
        }
        match got {
            None => {
                proof {
                    assert(self.input() =~= input);
                    self.lemma_settled();
                    assert(input.skip(input.len() as int) =~= self.byte_source@.taken.skip(
                        self.byte_source@.taken.len() as int,
                    ));
                }
                None
            },
            Some(byte) => {
                proof {
                    lemma_standing_step(
                        self.machine@.ignore_unicode_errs,
                        input,
                        self.events@,
                        self.machine@,
                        pending,
                        self.midway@,
                        byte,
                    );
                    if pending is None {
                        let taken = old(self).byte_source@.taken;
                        assert(taken.push(byte).skip(self.base@ as int) =~= taken.skip(
                            self.base@ as int,
                        ).push(byte));
                        assert(self.input() =~= input.push(byte));
                    } else {
                        assert(self.input() =~= input);
                    }
                }
                let scanned = self.machine.advance(byte);
                if scanned.unget {
                    self.byte_source.unget();
                }
                proof {
                    self.events@ = self.events@ + events_of(
                        delivery(scanned.event, self.machine@.line, self.machine@.column),
                    );
                    self.midway@ = scanned.unget;
                    assert(self.input() =~= input_after(input, pending, byte));
                    let taken = old(self).byte_source@.taken;
                    assert(self.input().skip(input.len() as int) =~= self.byte_source@.taken.skip(
                        taken.len() as int,
                    ));
                }
                Some(scanned)
            },
        }
    }

    /// Closes the state in which the end of the stream finds the machine. The
    /// result is the event to deliver before the closing sentinel, if the state
    /// needs one.
    pub fn close(&mut self) -> (r: Option<Result<LexerToken, JSONLexError>>)
        requires
            old(self).wf(),
        ensures
            final(self).is_closed(),
            final(self).machine() == old(self).machine().closed(),
            final(self).input() == old(self).input(),
            final(self).events() == old(self).events(),
            final(self).source() == old(self).source(),
            final(self).delivered() == old(self).delivered(),
            final(self).answers() == old(self).answers(),
            delivery(r, old(self).machine().line, old(self).machine().column) == old(self)
                .machine().closing_event(),
    {
        proof {
            self.closed@ = true;
        }
        self.machine.finish()
    }

    /// One pass, with `receiver` as the end to which the events go.
    pub fn pass<V: LexReceiver>(&mut self, receiver: &mut V) -> (r: Result<(), ConsumeError>)
        requires
            old(self).wf(),
            old(receiver).sound(),
            old(receiver).received().len() == 0,
            old(receiver).replies().len() == 0,
        ensures
            old(self).passed(final(self), final(receiver).received(), final(receiver).replies(), r),
            final(self).delivered() == old(self).delivered(),
            final(self).answers() == old(self).answers(),
            final(receiver).sound(),
            final(receiver).received().len() > 0,
            final(receiver).replies().len() == final(receiver).received().len(),
            all_ok(final(receiver).replies().drop_last()),
    {
        let ghost origin = self.origin();
        let ghost begin = begin_event(self.machine());
        let ghost mut fresh: Seq<LexEvent> = Seq::empty();
        proof {
            assert(self.events() + fresh =~= self.events());
            assert(self.input().skip(self.input().len() as int) =~= self.source().taken.skip(
                self.source().taken.len() as int,
            ));
            assert(old(receiver).received() =~= Seq::<LexEvent>::empty());
            assert(old(receiver).replies() =~= Seq::<bool>::empty());
        }
        let line = self.machine.line();
        let column = self.machine.column();
        match receiver.take(Ok(LexerToken::BeginFile), line, column) {
            Ok(()) => {},
            Err(e) => {
                proof {
                    self.lemma_events_are_prefix();
                    let got = receiver.received();
                    assert(got =~= seq![begin]);
                    assert(receiver.replies() =~= seq![false]);
                    assert(receiver.replies().drop_last() =~= Seq::<bool>::empty());
                    let end = scan(origin, self.input()).machine;
                    let all = pass_events(old(self).machine(), fresh, end);
                    assert(self.events().skip(old(self).events().len() as int) =~= fresh);
                    assert(got =~= all.take(1));
                    assert(got =~= seq![begin] + fresh);
                }
                return Err(e);
            },
        }
        proof {
            assert(receiver.received() =~= seq![begin] + fresh);
            assert(receiver.replies() =~= seq![true]);
        }
        let mut more = true;
        while more && self.machine.has_room()
            invariant
                self.wf(),
                self.origin() == origin,
                origin == old(self).origin(),
                begin == begin_event(old(self).machine()),
                self.delivered() == old(self).delivered(),
                self.answers() == old(self).answers(),
                grows_alike(
                    old(self).input(),
                    self.input(),
                    old(self).source().taken,
                    self.source().taken,
                ),
                self.events() == old(self).events() + fresh,
                receiver.received() == seq![begin] + fresh,
                receiver.replies().len() == receiver.received().len(),
                all_ok(receiver.replies()),
                receiver.sound(),
                old(self).source().answers.is_prefix_of(self.source().answers),
                !more ==> self.settled() && self.machine().wf() && self.source().pending is None
                    && self.source().window.len() == 0 && ran_dry(
                    old(self).source(),
                    self.source(),
                ),
            decreases
                    usize::MAX - self.machine().column,
                    if more {
                        1int
                    } else {
                        0int
                    },
        {
            let ghost input = self.input();
            let ghost taken = self.source().taken;
            let step = self.read();
            proof {
                lemma_grows_alike_chain(
                    old(self).input(),
                    input,
                    self.input(),
                    old(self).source().taken,
                    taken,
                    self.source().taken,
                );
            }
            match step {
                None => {
                    more = false;
                },
                Some(scanned) => {
                    let line = self.machine.line();
                    let column = self.machine.column();
                    proof {
                        let added = events_of(delivery(scanned.event, line, column));
                        assert(old(self).events() + (fresh + added) =~= (old(self).events()
                            + fresh) + added);
                        assert(seq![begin] + (fresh + added) =~= (seq![begin] + fresh) + added);
                        fresh = fresh + added;
                    }
                    match scanned.event {
                        None => {
                            proof {
                                assert(fresh + Seq::<LexEvent>::empty() =~= fresh);
                            }
                        },
                        Some(token) => {
                            let ghost before = receiver.replies();
                            let answer = receiver.take(token, line, column);
                            proof {
                                assert(receiver.received() =~= seq![begin] + fresh);
                                assert(receiver.replies().drop_last() =~= before);
                            }
                            match answer {
                                Ok(()) => {},
                                Err(e) => {
                                    proof {
                                        self.lemma_events_are_prefix();
                                        let got = receiver.received();
                                        let end = scan(origin, self.input()).machine;
                                        let all = pass_events(old(self).machine(), fresh, end);
                                        assert(self.events().skip(old(self).events().len() as int)
                                            =~= fresh);
                                        assert(got =~= all.take(got.len() as int));
                                    }
                                    return Err(e);
                                },
                            }
                        },
                    }
                },
            }
        }
        proof {
            if more {
                self.lemma_settled();
            }
            assert(self.events().skip(old(self).events().len() as int) =~= fresh);
        }
        let ghost end = self.machine();
        let line = self.machine.line();
        let column = self.machine.column();
        let closing = self.close();
        let ghost all = pass_events(old(self).machine(), fresh, end);
        let ghost mid = seq![begin] + fresh;
        match closing {
            None => {},
            Some(token) => {
                let ghost before = receiver.replies();
                let answer = receiver.take(token, line, column);
                proof {
                    assert(receiver.replies().drop_last() =~= before);
                }
                match answer {
                    Ok(()) => {},
                    Err(e) => {
                        proof {
                            let got = receiver.received();
                            assert(got =~= mid + events_of(end.closing_event()));
                            assert(got =~= all.take(got.len() as int));
                        }
                        return Err(e);
                    },
                }
            },
        }
        proof {
            assert(receiver.received() =~= mid + events_of(end.closing_event()));
        }
        let ghost before = receiver.replies();
        let answer = receiver.take(Ok(LexerToken::EndFile), line, column);
        proof {
            let got = receiver.received();
            assert(got =~= all);
            assert(all.take(all.len() as int) =~= all);
            assert(receiver.replies().drop_last() =~= before);
        }
        answer
    }

    /// Reads the byte source to its end and hands to `consumer`, in this order:
    /// the sentinel `BeginFile`; each token and each error that the bytes give,
    /// with the line and column at which the lexer stands; what closes the state
    /// that the end of the stream finds open; the sentinel `EndFile`. An error is
    /// handed over like a token and the reading goes on after it. Only the
    /// consumer ends the pass early: its `Err` is returned at once, and the event
    /// that it answered is the last that it was given.
    ///
    /// The end of the stream is the first `get` that hands out nothing, or the
    /// byte before which the count of columns would pass `usize::MAX`.
    pub fn lex<C: JSONLexConsumer>(&mut self, consumer: &mut C) -> (r: Result<(), ConsumeError>)
        requires
            old(self).wf(),
        ensures
            old(self).delivered().is_prefix_of(final(self).delivered()),
            old(self).answers().is_prefix_of(final(self).answers()),
            old(self).passed(
                final(self),
                final(self).delivered().skip(old(self).delivered().len() as int),
                final(self).answers().skip(old(self).answers().len() as int),
                r,
            ),
    {
        let mut direct = Direct::new(consumer);
        let r = self.pass(&mut direct);
        proof {
            let got = direct.received();
            let replies = direct.replies();
            self.delivered@ = self.delivered@ + got;
            self.answers@ = self.answers@ + replies;
            assert(self.delivered().skip(old(self).delivered().len() as int) =~= got);
            assert(self.answers().skip(old(self).answers().len() as int) =~= replies);
        }
        r
    }
}

} // verus!
