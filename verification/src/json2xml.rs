//! A consumer of parser events that writes the document as XML.

use crate::json_lexer::ConsumeError;
use crate::json_parser::{
    parse_event, JSONParseConsumer, JSONParseError, ParseEvent, ParserToken, ParserTokenView,
};
use crate::xml_text::{
    begin_text, close_text, end_text, escape, escaped, open_text, render_begin, render_close,
    render_end, render_open, render_string_value, render_value, string_value_text, value_text,
};
use std::marker::PhantomData;
use vstd::prelude::*;
use vstd::string::*;

verus! {

/// The error of a failed write.
#[verifier::external_type_specification]
#[verifier::external_body]
pub struct ExIoError(std::io::Error);

/// Where the text of the document goes.
pub trait XMLDestination {
    /// Takes the next piece of the text: all of it, or the write fails.
    fn write_text(&mut self, text: &str) -> Result<(), std::io::Error>;
}

/// What handing `text` to the destination makes of the record of a writer:
/// the text is handed over, whatever becomes of it, and it is written where
/// the write succeeded (`done`).
pub open spec fn hands_over(
    had_handed: Seq<Seq<char>>,
    had_written: Seq<char>,
    handed: Seq<Seq<char>>,
    written: Seq<char>,
    text: Seq<char>,
    done: bool,
) -> bool {
    &&& handed == had_handed.push(text)
    &&& written == if done {
        had_written + text
    } else {
        had_written
    }
}

/// Hands `text` to the destination and notes that it was handed over and,
/// where the write succeeds, that it is written. The result is the answer of
/// the destination.
fn emit<W: XMLDestination>(
    destination: &mut W,
    written: &mut Ghost<Seq<char>>,
    handed: &mut Ghost<Seq<Seq<char>>>,
    text: String,
) -> (r: Result<(), std::io::Error>)
    ensures
        hands_over(
            old(handed)@,
            old(written)@,
            final(handed)@,
            final(written)@,
            text@,
            r is Ok,
        ),
{
    proof {
        handed@ = handed@.push(text@);
    }
    let r = destination.write_text(text.as_str());
    proof {
        if r is Ok {
            written@ = written@ + text@;
        }
    }
    r
}

/// A way of writing the elements of the document to a destination `W`.
///
/// `size` is the number of spaces before an element, for a way of writing
/// that indents.
pub trait XMLWrite<W> {
    /// Every element is indented and ends with a line feed.
    spec fn formatted() -> bool;

    /// Every scalar element says the type of its value.
    spec fn typed() -> bool;

    /// Everything written so far by writes that succeeded.
    spec fn written(&self) -> Seq<char>;

    /// Every text handed to the destination so far, oldest first, whatever
    /// became of it.
    spec fn handed(&self) -> Seq<Seq<char>>;

    /// Writes the element of a scalar that is no string.
    fn write_value(&mut self, size: usize, cur_key: String, value_type: &str, value: String) -> (r:
        Result<(), std::io::Error>)
        ensures
            hands_over(
                old(self).handed(),
                old(self).written(),
                final(self).handed(),
                final(self).written(),
                value_text(
                    Self::formatted(),
                    Self::typed(),
                    size,
                    cur_key@,
                    value_type@,
                    value@,
                ),
                r is Ok,
            ),
    ;

    /// Writes the element of a string.
    fn write_string_value(&mut self, size: usize, cur_key: String, value: String) -> (r: Result<
        (),
        std::io::Error,
    >)
        ensures
            hands_over(
                old(self).handed(),
                old(self).written(),
                final(self).handed(),
                final(self).written(),
                string_value_text(
                    Self::formatted(),
                    Self::typed(),
                    size,
                    cur_key@,
                    value@,
                ),
                r is Ok,
            ),
    ;

    /// Writes the preamble and opens the root element.
    fn write_open(&mut self) -> (r: Result<(), std::io::Error>)
        ensures
            hands_over(
                old(self).handed(),
                old(self).written(),
                final(self).handed(),
                final(self).written(),
                open_text(
                    Self::formatted(),
                ),
                r is Ok,
            ),
    ;

    /// Closes the root element.
    fn write_close(&mut self) -> (r: Result<(), std::io::Error>)
        ensures
            hands_over(
                old(self).handed(),
                old(self).written(),
                final(self).handed(),
                final(self).written(),
                close_text(
                    Self::formatted(),
                ),
                r is Ok,
            ),
    ;

    /// Opens the element of a container.
    fn write_begin(&mut self, size: usize, cur_key: &str) -> (r: Result<(), std::io::Error>)
        ensures
            hands_over(
                old(self).handed(),
                old(self).written(),
                final(self).handed(),
                final(self).written(),
                begin_text(
                    Self::formatted(),
                    size,
                    cur_key@,
                ),
                r is Ok,
            ),
    ;

    /// Closes the element of a container.
    fn write_end(&mut self, size: usize, cur_key: &str) -> (r: Result<(), std::io::Error>)
        ensures
            hands_over(
                old(self).handed(),
                old(self).written(),
                final(self).handed(),
                final(self).written(),
                end_text(
                    Self::formatted(),
                    size,
                    cur_key@,
                ),
                r is Ok,
            ),
    ;

    /// The text of a string value inside its element.
    fn escape_value(s: String) -> (r: String)
        ensures
            r@ == escaped(s@),
    {
        escape(s)
    }
}

/// Writes indented elements that say the types of their values.
pub struct FormattedTypedXMLWrite<W> {
    destination: W,
    written: Ghost<Seq<char>>,
    handed: Ghost<Seq<Seq<char>>>,
}

/// Writes indented elements.
pub struct FormattedXMLWrite<W> {
    destination: W,
    written: Ghost<Seq<char>>,
    handed: Ghost<Seq<Seq<char>>>,
}

/// Writes elements that say the types of their values, on one line.
pub struct TypedXMLWrite<W> {
    destination: W,
    written: Ghost<Seq<char>>,
    handed: Ghost<Seq<Seq<char>>>,
}

/// Writes bare elements on one line.
pub struct RawXMLWrite<W> {
    destination: W,
    written: Ghost<Seq<char>>,
    handed: Ghost<Seq<Seq<char>>>,
}

impl<W: XMLDestination> XMLWrite<W> for FormattedTypedXMLWrite<W> {
    open spec fn formatted() -> bool {
        true
    }

    open spec fn typed() -> bool {
        true
    }

    closed spec fn written(&self) -> Seq<char> {
        self.written@
    }

    closed spec fn handed(&self) -> Seq<Seq<char>> {
        self.handed@
    }

    fn write_value(&mut self, size: usize, cur_key: String, value_type: &str, value: String) -> (r:
        Result<(), std::io::Error>) {
        let text = render_value(true, true, size, cur_key.as_str(), value_type, value.as_str());
        emit(&mut self.destination, &mut self.written, &mut self.handed, text)
    }

    fn write_string_value(&mut self, size: usize, cur_key: String, value: String) -> (r: Result<
        (),
        std::io::Error,
    >) {
        let text = render_string_value(true, true, size, cur_key.as_str(), value);
        emit(&mut self.destination, &mut self.written, &mut self.handed, text)
    }

    fn write_open(&mut self) -> (r: Result<(), std::io::Error>) {
        emit(&mut self.destination, &mut self.written, &mut self.handed, render_open(true))
    }

    fn write_close(&mut self) -> (r: Result<(), std::io::Error>) {
        emit(&mut self.destination, &mut self.written, &mut self.handed, render_close(true))
    }

    fn write_begin(&mut self, size: usize, cur_key: &str) -> (r: Result<(), std::io::Error>) {
        emit(
            &mut self.destination,
            &mut self.written,
            &mut self.handed,
            render_begin(true, size, cur_key),
        )
    }

    fn write_end(&mut self, size: usize, cur_key: &str) -> (r: Result<(), std::io::Error>) {
        emit(
            &mut self.destination,
            &mut self.written,
            &mut self.handed,
            render_end(true, size, cur_key),
        )
    }
}

impl<W: XMLDestination> XMLWrite<W> for FormattedXMLWrite<W> {
    open spec fn formatted() -> bool {
        true
    }

    open spec fn typed() -> bool {
        false
    }

    closed spec fn written(&self) -> Seq<char> {
        self.written@
    }

    closed spec fn handed(&self) -> Seq<Seq<char>> {
        self.handed@
    }

    fn write_value(&mut self, size: usize, cur_key: String, value_type: &str, value: String) -> (r:
        Result<(), std::io::Error>) {
        let text = render_value(true, false, size, cur_key.as_str(), value_type, value.as_str());
        emit(&mut self.destination, &mut self.written, &mut self.handed, text)
    }

    fn write_string_value(&mut self, size: usize, cur_key: String, value: String) -> (r: Result<
        (),
        std::io::Error,
    >) {
        let text = render_string_value(true, false, size, cur_key.as_str(), value);
        emit(&mut self.destination, &mut self.written, &mut self.handed, text)
    }

    fn write_open(&mut self) -> (r: Result<(), std::io::Error>) {
        emit(&mut self.destination, &mut self.written, &mut self.handed, render_open(true))
    }

    fn write_close(&mut self) -> (r: Result<(), std::io::Error>) {
        emit(&mut self.destination, &mut self.written, &mut self.handed, render_close(true))
    }

    fn write_begin(&mut self, size: usize, cur_key: &str) -> (r: Result<(), std::io::Error>) {
        emit(
            &mut self.destination,
            &mut self.written,
            &mut self.handed,
            render_begin(true, size, cur_key),
        )
    }

    fn write_end(&mut self, size: usize, cur_key: &str) -> (r: Result<(), std::io::Error>) {
        emit(
            &mut self.destination,
            &mut self.written,
            &mut self.handed,
            render_end(true, size, cur_key),
        )
    }
}

impl<W: XMLDestination> XMLWrite<W> for TypedXMLWrite<W> {
    open spec fn formatted() -> bool {
        false
    }

    open spec fn typed() -> bool {
        true
    }

    closed spec fn written(&self) -> Seq<char> {
        self.written@
    }

    closed spec fn handed(&self) -> Seq<Seq<char>> {
        self.handed@
    }

    fn write_value(&mut self, size: usize, cur_key: String, value_type: &str, value: String) -> (r:
        Result<(), std::io::Error>) {
        let text = render_value(false, true, size, cur_key.as_str(), value_type, value.as_str());
        emit(&mut self.destination, &mut self.written, &mut self.handed, text)
    }

    fn write_string_value(&mut self, size: usize, cur_key: String, value: String) -> (r: Result<
        (),
        std::io::Error,
    >) {
        let text = render_string_value(false, true, size, cur_key.as_str(), value);
        emit(&mut self.destination, &mut self.written, &mut self.handed, text)
    }

    fn write_open(&mut self) -> (r: Result<(), std::io::Error>) {
        emit(&mut self.destination, &mut self.written, &mut self.handed, render_open(false))
    }

    fn write_close(&mut self) -> (r: Result<(), std::io::Error>) {
        emit(&mut self.destination, &mut self.written, &mut self.handed, render_close(false))
    }

    fn write_begin(&mut self, size: usize, cur_key: &str) -> (r: Result<(), std::io::Error>) {
        emit(
            &mut self.destination,
            &mut self.written,
            &mut self.handed,
            render_begin(false, size, cur_key),
        )
    }

    fn write_end(&mut self, size: usize, cur_key: &str) -> (r: Result<(), std::io::Error>) {
        emit(
            &mut self.destination,
            &mut self.written,
            &mut self.handed,
            render_end(false, size, cur_key),
        )
    }
}

impl<W: XMLDestination> XMLWrite<W> for RawXMLWrite<W> {
    open spec fn formatted() -> bool {
        false
    }

    open spec fn typed() -> bool {
        false
    }

    closed spec fn written(&self) -> Seq<char> {
        self.written@
    }

    closed spec fn handed(&self) -> Seq<Seq<char>> {
        self.handed@
    }

    fn write_value(&mut self, size: usize, cur_key: String, value_type: &str, value: String) -> (r:
        Result<(), std::io::Error>) {
        let text = render_value(false, false, size, cur_key.as_str(), value_type, value.as_str());
        emit(&mut self.destination, &mut self.written, &mut self.handed, text)
    }

    fn write_string_value(&mut self, size: usize, cur_key: String, value: String) -> (r: Result<
        (),
        std::io::Error,
    >) {
        let text = render_string_value(false, false, size, cur_key.as_str(), value);
        emit(&mut self.destination, &mut self.written, &mut self.handed, text)
    }

    fn write_open(&mut self) -> (r: Result<(), std::io::Error>) {
        emit(&mut self.destination, &mut self.written, &mut self.handed, render_open(false))
    }

    fn write_close(&mut self) -> (r: Result<(), std::io::Error>) {
        emit(&mut self.destination, &mut self.written, &mut self.handed, render_close(false))
    }

    fn write_begin(&mut self, size: usize, cur_key: &str) -> (r: Result<(), std::io::Error>) {
        emit(
            &mut self.destination,
            &mut self.written,
            &mut self.handed,
            render_begin(false, size, cur_key),
        )
    }

    fn write_end(&mut self, size: usize, cur_key: &str) -> (r: Result<(), std::io::Error>) {
        emit(
            &mut self.destination,
            &mut self.written,
            &mut self.handed,
            render_end(false, size, cur_key),
        )
    }
}

/// The open containers and the keys that wait for their values.
pub struct SinkView {
    /// One entry for each open container, the innermost last: whether it is an array.
    pub arrays: Seq<bool>,
    /// The keys under which the open elements were opened or will be written,
    /// the innermost last.
    pub keys: Seq<Seq<char>>,
}

impl SinkView {
    /// The sink before the first event: no container is open and no key waits.
    pub open spec fn empty() -> SinkView {
        SinkView { arrays: seq![], keys: seq![] }
    }
}

/// What the sink writes for an event.
pub enum Rendering {
    Nothing,
    Open,
    Close,
    Begin { size: usize, key: Seq<char> },
    End { size: usize, key: Seq<char> },
    Value { size: usize, key: Seq<char>, value_type: Seq<char>, value: Seq<char> },
    StringValue { size: usize, key: Seq<char>, value: Seq<char> },
}

/// What an event does to the sink: the stacks after it and what is written,
/// or the end of the pass.
pub struct SinkStep {
    /// The stacks after the step.
    pub view: SinkView,
    /// The stacks after the step where its write fails.
    pub failed: SinkView,
    pub rendering: Rendering,
    pub abort: bool,
}

/// The text of what the sink writes.
pub open spec fn rendered(formatted: bool, typed: bool, rendering: Rendering) -> Seq<char> {
    match rendering {
        Rendering::Nothing => seq![],
        Rendering::Open => open_text(formatted),
        Rendering::Close => close_text(formatted),
        Rendering::Begin { size, key } => begin_text(formatted, size, key),
        Rendering::End { size, key } => end_text(formatted, size, key),
        Rendering::Value { size, key, value_type, value } => value_text(
            formatted,
            typed,
            size,
            key,
            value_type,
            value,
        ),
        Rendering::StringValue { size, key, value } => string_value_text(
            formatted,
            typed,
            size,
            key,
            value,
        ),
    }
}

/// The indentation of an element inside `depth` containers fits in a `usize`.
pub open spec fn fits(depth: nat) -> bool {
    depth * 4 <= usize::MAX
}

/// The pass ends: the event cannot be written.
pub open spec fn give_up(v: SinkView) -> SinkStep {
    SinkStep { view: v, failed: v, rendering: Rendering::Nothing, abort: true }
}

/// Nothing is written.
pub open spec fn keep(view: SinkView) -> SinkStep {
    SinkStep { view, failed: view, rendering: Rendering::Nothing, abort: false }
}

/// A container opens. At the top level its element is the root. An element of
/// an array is opened as `li`; the value of a member under its key, which waits
/// for the end of the container. Where the write fails, the container is not
/// counted as open.
pub open spec fn container_opens(v: SinkView, array: bool) -> SinkStep {
    let depth = v.arrays.len();
    if depth == 0 {
        keep(SinkView { arrays: v.arrays.push(array), keys: v.keys })
    } else if !fits(depth) {
        give_up(v)
    } else if v.arrays.last() {
        SinkStep {
            view: SinkView { arrays: v.arrays.push(array), keys: v.keys.push("li"@) },
            failed: SinkView { arrays: v.arrays, keys: v.keys.push("li"@) },
            rendering: Rendering::Begin { size: (depth * 4) as usize, key: "li"@ },
            abort: false,
        }
    } else if v.keys.len() == 0 {
        give_up(v)
    } else {
        SinkStep {
            view: SinkView { arrays: v.arrays.push(array), keys: v.keys },
            failed: v,
            rendering: Rendering::Begin { size: (depth * 4) as usize, key: v.keys.last() },
            abort: false,
        }
    }
}

/// A container closes, and with it the element under whose key it was opened.
pub open spec fn container_closes(v: SinkView) -> SinkStep {
    if v.arrays.len() == 0 {
        give_up(v)
    } else {
        let arrays = v.arrays.drop_last();
        if arrays.len() == 0 {
            keep(SinkView { arrays, keys: v.keys })
        } else if v.keys.len() == 0 || !fits(arrays.len()) {
            give_up(v)
        } else {
            SinkStep {
                view: SinkView { arrays, keys: v.keys.drop_last() },
                failed: SinkView { arrays, keys: v.keys.drop_last() },
                rendering: Rendering::End {
                    size: (arrays.len() * 4) as usize,
                    key: v.keys.last(),
                },
                abort: false,
            }
        }
    }
}

/// A scalar is written: in an array as `li`, in an object under the key that
/// waits for it. Outside any container there is no element for it.
pub open spec fn scalar_comes(v: SinkView, value_type: Option<Seq<char>>, value: Seq<char>)
    -> SinkStep {
    let depth = v.arrays.len();
    if depth == 0 || !fits(depth) || (!v.arrays.last() && v.keys.len() == 0) {
        give_up(v)
    } else {
        let key = if v.arrays.last() {
            "li"@
        } else {
            v.keys.last()
        };
        let keys = if v.arrays.last() {
            v.keys
        } else {
            v.keys.drop_last()
        };
        let size = (depth * 4) as usize;
        SinkStep {
            view: SinkView { arrays: v.arrays, keys },
            failed: SinkView { arrays: v.arrays, keys },
            rendering: match value_type {
                Some(t) => Rendering::Value { size, key, value_type: t, value },
                None => Rendering::StringValue { size, key, value },
            },
            abort: false,
        }
    }
}

/// What an event does to the sink. An error ends the pass.
pub open spec fn sink_step(v: SinkView, event: ParseEvent) -> SinkStep {
    match event {
        Err(_) => give_up(v),
        Ok(token) => match token {
            ParserTokenView::BeginFile => SinkStep {
                view: v,
                failed: v,
                rendering: Rendering::Open,
                abort: false,
            },
            ParserTokenView::EndFile => SinkStep {
                view: v,
                failed: v,
                rendering: Rendering::Close,
                abort: false,
            },
            ParserTokenView::BeginObject => container_opens(v, false),
            ParserTokenView::BeginArray => container_opens(v, true),
            ParserTokenView::EndObject | ParserTokenView::EndArray => container_closes(v),
            ParserTokenView::Key(s) => keep(SinkView { arrays: v.arrays, keys: v.keys.push(s) }),
            ParserTokenView::BooleanValue(b) => scalar_comes(
                v,
                Some("boolean"@),
                if b {
                    "true"@
                } else {
                    "false"@
                },
            ),
            ParserTokenView::NullValue => scalar_comes(v, Some("null"@), "null"@),
            ParserTokenView::StringValue(s) => scalar_comes(v, None, s),
            ParserTokenView::IntValue(s) => scalar_comes(v, Some("int"@), s),
            ParserTokenView::FloatValue(s) => scalar_comes(v, Some("float"@), s),
        },
    }
}

/// A sink with its record: the stacks, everything written so far by writes
/// that succeeded, and every text handed to the destination so far, oldest
/// first, whatever became of it.
pub struct SinkState {
    pub view: SinkView,
    pub written: Seq<char>,
    pub handed: Seq<Seq<char>>,
}

/// The sink `after` and its answer `r` are what the step makes of the sink
/// `before`.
///
/// A step that ends the pass leaves everything as it was and answers `Err`. A
/// step that writes nothing changes the stacks and answers `Ok`. Any other
/// step hands its text to the destination, whose answer decides: where the
/// write succeeds the text is written and the answer is `Ok`; where it fails
/// nothing is written and the answer is `Err`.
pub open spec fn follows_step(
    step: SinkStep,
    before: SinkState,
    after: SinkState,
    formatted: bool,
    typed: bool,
    r: Result<(), ConsumeError>,
) -> bool {
    let text = rendered(formatted, typed, step.rendering);
    if step.abort {
        r is Err && after == before
    } else if step.rendering is Nothing {
        r is Ok && after == (SinkState { view: step.view, ..before })
    } else {
        &&& after.handed == before.handed.push(text)
        &&& after.written == if r is Ok {
            before.written + text
        } else {
            before.written
        }
        &&& after.view == if r is Ok {
            step.view
        } else {
            step.failed
        }
    }
}

/// A consumer of parser events that writes the document as XML, through the
/// way of writing `T`, to a destination `W`.
pub struct JSON2XMLConsumer<W, T: XMLWrite<W>> {
    /// The tokens that opened the open containers, the innermost last.
    pub states_stack: Vec<ParserToken>,
    /// The keys under which the open elements were opened or will be written.
    pub keys_stack: Vec<String>,
    /// The way of writing.
    pub xml_write: T,
    /// Stands for the destination, which the way of writing holds.
    pub phantom: PhantomData<W>,
}

/// The texts of the keys.
pub open spec fn key_texts(keys: Seq<String>) -> Seq<Seq<char>> {
    Seq::new(keys.len(), |i: int| keys[i]@)
}

/// For each token whether it opens an array.
pub open spec fn array_marks(states: Seq<ParserToken>) -> Seq<bool> {
    Seq::new(states.len(), |i: int| states[i] is BeginArray)
}

impl<W, T: XMLWrite<W>> View for JSON2XMLConsumer<W, T> {
    type V = SinkView;

    open spec fn view(&self) -> SinkView {
        SinkView { arrays: array_marks(self.states_stack@), keys: key_texts(self.keys_stack@) }
    }
}

impl<W, T: XMLWrite<W>> JSON2XMLConsumer<W, T> {
    /// Everything that the sink has written so far by writes that succeeded.
    pub open spec fn written(&self) -> Seq<char> {
        self.xml_write.written()
    }

    /// Every text that the sink has handed to the destination so far, oldest
    /// first, whatever became of it.
    pub open spec fn handed(&self) -> Seq<Seq<char>> {
        self.xml_write.handed()
    }

    /// The sink with its record.
    pub open spec fn state(&self) -> SinkState {
        SinkState { view: self@, written: self.written(), handed: self.handed() }
    }
}

impl<W: XMLDestination> JSON2XMLConsumer<W, FormattedTypedXMLWrite<W>> {
    /// A sink that writes to `destination` indented elements that say the types
    /// of their values.
    pub fn new_formatted_and_typed(destination: W) -> (sink: JSON2XMLConsumer<
        W,
        FormattedTypedXMLWrite<W>,
    >)
        ensures
            sink@ == SinkView::empty(),
            sink.written() == Seq::<char>::empty(),
            sink.handed() == Seq::<Seq<char>>::empty(),
    {
        proof {
            assert(array_marks(Seq::<ParserToken>::empty()) =~= Seq::<bool>::empty());
            assert(key_texts(Seq::<String>::empty()) =~= Seq::<Seq<char>>::empty());
        }
        JSON2XMLConsumer {
            xml_write: FormattedTypedXMLWrite {
                destination,
                written: Ghost(Seq::empty()),
                handed: Ghost(Seq::empty()),
            },
            states_stack: Vec::new(),
            keys_stack: Vec::new(),
            phantom: PhantomData,
        }
    }
}

impl<W: XMLDestination> JSON2XMLConsumer<W, FormattedXMLWrite<W>> {
    /// A sink that writes to `destination` indented elements.
    pub fn new_formatted(destination: W) -> (sink: JSON2XMLConsumer<W, FormattedXMLWrite<W>>)
        ensures
            sink@ == SinkView::empty(),
            sink.written() == Seq::<char>::empty(),
            sink.handed() == Seq::<Seq<char>>::empty(),
    {
        proof {
            assert(array_marks(Seq::<ParserToken>::empty()) =~= Seq::<bool>::empty());
            assert(key_texts(Seq::<String>::empty()) =~= Seq::<Seq<char>>::empty());
        }
        JSON2XMLConsumer {
            xml_write: FormattedXMLWrite {
                destination,
                written: Ghost(Seq::empty()),
                handed: Ghost(Seq::empty()),
            },
            states_stack: Vec::new(),
            keys_stack: Vec::new(),
            phantom: PhantomData,
        }
    }
}

impl<W: XMLDestination> JSON2XMLConsumer<W, TypedXMLWrite<W>> {
    /// A sink that writes to `destination`, on one line, elements that say the
    /// types of their values.
    pub fn new_typed(destination: W) -> (sink: JSON2XMLConsumer<W, TypedXMLWrite<W>>)
        ensures
            sink@ == SinkView::empty(),
            sink.written() == Seq::<char>::empty(),
            sink.handed() == Seq::<Seq<char>>::empty(),
    {
        proof {
            assert(array_marks(Seq::<ParserToken>::empty()) =~= Seq::<bool>::empty());
            assert(key_texts(Seq::<String>::empty()) =~= Seq::<Seq<char>>::empty());
        }
        JSON2XMLConsumer {
            xml_write: TypedXMLWrite {
                destination,
                written: Ghost(Seq::empty()),
                handed: Ghost(Seq::empty()),
            },
            states_stack: Vec::new(),
            keys_stack: Vec::new(),
            phantom: PhantomData,
        }
    }
}

impl<W: XMLDestination> JSON2XMLConsumer<W, RawXMLWrite<W>> {
    /// A sink that writes to `destination` bare elements on one line.
    pub fn new_raw(destination: W) -> (sink: JSON2XMLConsumer<W, RawXMLWrite<W>>)
        ensures
            sink@ == SinkView::empty(),
            sink.written() == Seq::<char>::empty(),
            sink.handed() == Seq::<Seq<char>>::empty(),
    {
        proof {
            assert(array_marks(Seq::<ParserToken>::empty()) =~= Seq::<bool>::empty());
            assert(key_texts(Seq::<String>::empty()) =~= Seq::<Seq<char>>::empty());
        }
        JSON2XMLConsumer {
            xml_write: RawXMLWrite {
                destination,
                written: Ghost(Seq::empty()),
                handed: Ghost(Seq::empty()),
            },
            states_stack: Vec::new(),
            keys_stack: Vec::new(),
            phantom: PhantomData,
        }
    }
}

/// The view of a stack of keys with one more key.
proof fn lemma_keys_push(keys: Seq<String>, key: String)
    ensures
        key_texts(keys.push(key)) == key_texts(keys).push(key@),
{
    assert(key_texts(keys.push(key)) =~= key_texts(keys).push(key@));
}

/// The view of a stack of keys without its last key.
proof fn lemma_keys_pop(keys: Seq<String>)
    requires
        keys.len() > 0,
    ensures
        key_texts(keys.drop_last()) == key_texts(keys).drop_last(),
        key_texts(keys).last() == keys.last()@,
{
    assert(key_texts(keys.drop_last()) =~= key_texts(keys).drop_last());
}

/// The view of a stack of containers with one more container.
proof fn lemma_marks_push(states: Seq<ParserToken>, token: ParserToken)
    ensures
        array_marks(states.push(token)) == array_marks(states).push(token is BeginArray),
{
    assert(array_marks(states.push(token)) =~= array_marks(states).push(token is BeginArray));
}

/// The view of a stack of containers without its last container.
proof fn lemma_marks_pop(states: Seq<ParserToken>)
    requires
        states.len() > 0,
    ensures
        array_marks(states.drop_last()) == array_marks(states).drop_last(),
        array_marks(states).last() == (states.last() is BeginArray),
{
    assert(array_marks(states.drop_last()) =~= array_marks(states).drop_last());
}

/// What the sink answers to the parser after a write: it goes on where the
/// write succeeded, and ends the pass where it failed.
pub fn after_write(written: Result<(), std::io::Error>) -> (r: Result<(), ConsumeError>)
    ensures
        r is Ok <==> written is Ok,
{
    match written {
        Ok(()) => Ok(()),
        Err(_) => Err(ConsumeError),
    }
}

/// The limit on the number of open containers below which the indentation of
/// an element fits in a `usize`.
pub const MAX_DEPTH: usize = usize::MAX / 4;

impl<W, T: XMLWrite<W>> JSON2XMLConsumer<W, T> {
    /// Whether the innermost open container is an array.
    fn in_array(&self) -> (r: bool)
        requires
            self.states_stack@.len() > 0,
        ensures
            r == self@.arrays.last(),
    {
        let depth = self.states_stack.len();
        match &self.states_stack[depth - 1] {
            ParserToken::BeginArray => true,
            _ => false,
        }
    }

    /// The key under which the next scalar is written: `li` in an array, in an
    /// object the key that waits for its value, which waits no longer.
    pub fn get_cur_key(&mut self) -> (r: Result<String, ConsumeError>)
        ensures
            final(self)@.arrays == old(self)@.arrays,
            final(self).written() == old(self).written(),
            final(self).handed() == old(self).handed(),
            r is Err <==> old(self)@.arrays.len() == 0 || (!old(self)@.arrays.last()
                && old(self)@.keys.len() == 0),
            r matches Ok(key) ==> {
                &&& key@ == if old(self)@.arrays.last() {
                    "li"@
                } else {
                    old(self)@.keys.last()
                }
                &&& final(self)@.keys == if old(self)@.arrays.last() {
                    old(self)@.keys
                } else {
                    old(self)@.keys.drop_last()
                }
            },
            r is Err ==> final(self)@.keys == old(self)@.keys,
    {
        if self.states_stack.len() == 0 {
            return Err(ConsumeError);
        }
        if self.in_array() {
            Ok(String::from_str("li"))
        } else {
            proof {
                if self.keys_stack@.len() > 0 {
                    lemma_keys_pop(self.keys_stack@);
                }
            }
            match self.keys_stack.pop() {
                Some(key) => Ok(key),
                None => Err(ConsumeError),
            }
        }
    }

    /// The number of spaces before an element inside the open containers.
    fn indentation(&self) -> (r: Option<usize>)
        ensures
            r is Some <==> fits(self@.arrays.len()),
            r matches Some(size) ==> size == self@.arrays.len() * 4,
    {
        let depth = self.states_stack.len();
        if depth <= MAX_DEPTH {
            Some(depth * 4)
        } else {
            None
        }
    }

    /// Writes the element of a scalar.
    fn scalar(&mut self, value_type: Option<&str>, value: String) -> (r: Result<(), ConsumeError>)
        ensures
            follows_step(
                scalar_comes(
                    old(self)@,
                    match value_type {
                        Some(t) => Some(t@),
                        None => None,
                    },
                    value@,
                ),
                old(self).state(),
                final(self).state(),
                T::formatted(),
                T::typed(),
                r,
            ),
    {
        let size = match self.indentation() {
            Some(size) => size,
            None => {
                return Err(ConsumeError);
            },
        };
        let key = match self.get_cur_key() {
            Ok(key) => key,
            Err(e) => {
                return Err(e);
            },
        };
        let written = match value_type {
            Some(t) => self.xml_write.write_value(size, key, t, value),
            None => self.xml_write.write_string_value(size, key, value),
        };
        after_write(written)
    }

    /// Opens the element of a container.
    fn open_container(&mut self, token: ParserToken) -> (r: Result<(), ConsumeError>)
        requires
            token is BeginObject || token is BeginArray,
        ensures
            follows_step(
                container_opens(old(self)@, token is BeginArray),
                old(self).state(),
                final(self).state(),
                T::formatted(),
                T::typed(),
                r,
            ),
    {
        proof {
            lemma_marks_push(self.states_stack@, token);
        }
        let depth = self.states_stack.len();
        if depth == 0 {
            self.states_stack.push(token);
            return Ok(());
        }
        let size = match self.indentation() {
            Some(size) => size,
            None => {
                return Err(ConsumeError);
            },
        };
        let written = if self.in_array() {
            let li = String::from_str("li");
            proof {
                lemma_keys_push(self.keys_stack@, li);
            }
            self.keys_stack.push(li);
            self.xml_write.write_begin(size, "li")
        } else {
            let waiting = self.keys_stack.len();
            if waiting == 0 {
                return Err(ConsumeError);
            }
            proof {
                lemma_keys_pop(self.keys_stack@);
            }
            self.xml_write.write_begin(size, self.keys_stack[waiting - 1].as_str())
        };
        match written {
            Ok(()) => {
                self.states_stack.push(token);
                Ok(())
            },
            Err(_) => Err(ConsumeError),
        }
    }

    /// Closes the element of a container.
    fn close_container(&mut self) -> (r: Result<(), ConsumeError>)
        ensures
            follows_step(
                container_closes(old(self)@),
                old(self).state(),
                final(self).state(),
                T::formatted(),
                T::typed(),
                r,
            ),
    {
        proof {
            if self.states_stack@.len() > 0 {
                lemma_marks_pop(self.states_stack@);
            }
            if self.keys_stack@.len() > 0 {
                lemma_keys_pop(self.keys_stack@);
            }
        }
        let depth = self.states_stack.len();
        if depth == 0 {
            return Err(ConsumeError);
        }
        if depth > 1 && (self.keys_stack.len() == 0 || depth - 1 > MAX_DEPTH) {
            return Err(ConsumeError);
        }
        self.states_stack.pop();
        if depth == 1 {
            return Ok(());
        }
        let size = (depth - 1) * 4;
        let key = self.keys_stack.pop().unwrap();
        after_write(self.xml_write.write_end(size, key.as_str()))
    }
}

impl<W, T: XMLWrite<W>> JSONParseConsumer for JSON2XMLConsumer<W, T> {
    /// Writes what stands for the event. `Err` comes back for an error event,
    /// for an event that has no place in the document as the sink has seen it,
    /// and where the write fails.
    fn consume(&mut self, token: Result<ParserToken, JSONParseError>) -> (r: Result<
        (),
        ConsumeError,
    >)
        ensures
            follows_step(
                sink_step(old(self)@, parse_event(token)),
                old(self).state(),
                final(self).state(),
                T::formatted(),
                T::typed(),
                r,
            ),
    {
        let token = match token {
            Ok(token) => token,
            Err(_) => {
                return Err(ConsumeError);
            },
        };
        match token {
            ParserToken::BeginFile => after_write(self.xml_write.write_open()),
            ParserToken::EndFile => after_write(self.xml_write.write_close()),
            ParserToken::BeginObject => self.open_container(ParserToken::BeginObject),
            ParserToken::BeginArray => self.open_container(ParserToken::BeginArray),
            ParserToken::EndObject | ParserToken::EndArray => self.close_container(),
            ParserToken::Key(s) => {
                proof {
                    lemma_keys_push(self.keys_stack@, s);
                }
                self.keys_stack.push(s);
                Ok(())
            },
            ParserToken::BooleanValue(b) => {
                let value = if b {
                    String::from_str("true")
                } else {
                    String::from_str("false")
                };
                self.scalar(Some("boolean"), value)
            },
            ParserToken::NullValue => self.scalar(Some("null"), String::from_str("null")),
            ParserToken::StringValue(s) => self.scalar(None, s),
            ParserToken::IntValue(s) => self.scalar(Some("int"), s),
            ParserToken::FloatValue(s) => self.scalar(Some("float"), s),
        }
    }
}

} // verus!
