//! The text of the XML that stands for a JSON document, element by element.
//!
//! Two choices shape it. With `formatted`, every element is indented and ends
//! with a line feed. With `typed`, every scalar element says the type of its value.

use crate::text::push_char;
use vstd::prelude::*;
use vstd::std_specs::iter::IteratorSpec;
use vstd::string::*;

verus! {

/// The characters that an element's text cannot hold as they are.
pub open spec fn is_reserved(c: char) -> bool {
    c == '<' || c == '>' || c == '&' || c == '"' || c == '\''
}

/// The text holds one of the characters in `chars`.
pub open spec fn holds_any(text: Seq<char>, chars: Seq<char>) -> bool {
    exists|i: int| 0 <= i < text.len() && chars.contains(#[trigger] text[i])
}

/// `text` with every occurrence of `from` replaced by `to`: the occurrences are
/// looked for from left to right, and one that overlaps the one before it
/// does not count.
pub open spec fn replace_all(text: Seq<char>, from: Seq<char>, to: Seq<char>) -> Seq<char>
    recommends
        from.len() > 0,
    decreases text.len(),
{
    if from.len() == 0 || text.len() < from.len() {
        text
    } else if text.take(from.len() as int) =~= from {
        to + replace_all(text.skip(from.len() as int), from, to)
    } else {
        seq![text[0]] + replace_all(text.skip(1), from, to)
    }
}

/// The reserved characters.
pub open spec fn reserved() -> Seq<char> {
    seq!['<', '>', '&', '"', '\'']
}

/// The text of a string value inside its element. A text that holds a reserved
/// character goes into a CDATA section; where it holds the end mark of such a
/// section, the section ends inside the mark and a new one begins.
pub open spec fn escaped(text: Seq<char>) -> Seq<char> {
    if holds_any(text, reserved()) {
        "<![CDATA["@ + replace_all(text, "]]>"@, "]]]]><![CDATA[>"@) + "]]>"@
    } else {
        text
    }
}

/// `n` spaces.
pub open spec fn spaces(n: nat) -> Seq<char> {
    Seq::new(n, |i: int| ' ')
}

/// What stands before an element.
pub open spec fn indent(formatted: bool, size: usize) -> Seq<char> {
    if formatted {
        spaces(size as nat)
    } else {
        seq![]
    }
}

/// What stands after an element.
pub open spec fn line_end(formatted: bool) -> Seq<char> {
    if formatted {
        seq!['\n']
    } else {
        seq![]
    }
}

/// The attribute that says the type of a value.
pub open spec fn type_attribute(typed: bool, value_type: Seq<char>) -> Seq<char> {
    if typed {
        " type=\""@ + value_type + "\""@
    } else {
        seq![]
    }
}

/// A scalar that is no string: `<key>value</key>`.
pub open spec fn value_text(
    formatted: bool,
    typed: bool,
    size: usize,
    key: Seq<char>,
    value_type: Seq<char>,
    value: Seq<char>,
) -> Seq<char> {
    indent(formatted, size) + "<"@ + key + type_attribute(typed, value_type) + ">"@ + value + "</"@
        + key + ">"@ + line_end(formatted)
}

/// A string: the element is `<key/>` for the empty string, and holds the
/// escaped text for any other.
pub open spec fn string_value_text(
    formatted: bool,
    typed: bool,
    size: usize,
    key: Seq<char>,
    value: Seq<char>,
) -> Seq<char> {
    if value.len() == 0 {
        indent(formatted, size) + "<"@ + key + type_attribute(typed, "string"@) + "/>"@ + line_end(
            formatted,
        )
    } else {
        value_text(formatted, typed, size, key, "string"@, escaped(value))
    }
}

/// The preamble and the opening of the root element.
pub open spec fn open_text(formatted: bool) -> Seq<char> {
    "<?xml version=\"1.0\" encoding=\"utf-8\"?>\n<root>"@ + line_end(formatted)
}

/// The closing of the root element.
pub open spec fn close_text(formatted: bool) -> Seq<char> {
    "</root>"@ + line_end(formatted)
}

/// The opening of the element of a container.
pub open spec fn begin_text(formatted: bool, size: usize, key: Seq<char>) -> Seq<char> {
    indent(formatted, size) + "<"@ + key + ">"@ + line_end(formatted)
}

/// The closing of the element of a container.
pub open spec fn end_text(formatted: bool, size: usize, key: Seq<char>) -> Seq<char> {
    indent(formatted, size) + "</"@ + key + ">"@ + line_end(formatted)
}

/// Whether the text holds a reserved character.
pub fn holds_reserved(text: &str) -> (r: bool)
    ensures
        r == holds_any(text@, reserved()),
{
    broadcast use vstd::string::group_string_axioms;

    let mut rest = text.chars();
    let ghost mut seen: int = 0;
    loop
        invariant
            0 <= seen <= text@.len(),
            rest.remaining() == text@.skip(seen),
            forall|i: int| 0 <= i < seen ==> !reserved().contains(#[trigger] text@[i]),
        decreases text@.len() - seen,
    {
        match rest.next() {
            Some(c) => {
                proof {
                    assert(c == text@[seen]);
                    assert(text@.skip(seen).drop_first() =~= text@.skip(seen + 1));
                }
                if c == '<' || c == '>' || c == '&' || c == '"' || c == '\'' {
                    proof {
                        assert(reserved().contains(c)) by {
                            assert(reserved()[0] == '<' && reserved()[1] == '>' && reserved()[2]
                                == '&' && reserved()[3] == '"' && reserved()[4] == '\'');
                        }
                    }
                    return true;
                }
                proof {
                    seen = seen + 1;
                }
            },
            None => {
                proof {
                    assert(seen == text@.len());
                }
                return false;
            },
        }
    }
}

/// `str::replace` with a string as the pattern: a new string in which `to`
/// stands in the place of each match of `from`.
#[verifier::external_body]
fn str_replace(text: &str, from: &str, to: &str) -> (r: String)
    requires
        from@.len() > 0,
    ensures
        r@ == replace_all(text@, from@, to@),
{
    text.replace(from, to)
}

/// The text of a string value inside its element.
pub fn escape(text: String) -> (r: String)
    ensures
        r@ == escaped(text@),
{
    if holds_reserved(text.as_str()) {
        proof {
            reveal_strlit("]]>");
        }
        let split = str_replace(text.as_str(), "]]>", "]]]]><![CDATA[>");
        let mut r = String::from_str("<![CDATA[");
        r.append(split.as_str());
        r.append("]]>");
        r
    } else {
        text
    }
}

/// Appends what stands before an element.
fn push_indent(out: &mut String, formatted: bool, size: usize)
    ensures
        final(out)@ == old(out)@ + indent(formatted, size),
{
    if formatted {
        let mut i: usize = 0;
        while i < size
            invariant
                i <= size,
                out@ == old(out)@ + spaces(i as nat),
            decreases size - i,
        {
            push_char(out, ' ');
            i = i + 1;
            proof {
                assert(out@ =~= old(out)@ + spaces(i as nat));
            }
        }
    } else {
        proof {
            assert(out@ =~= old(out)@ + indent(formatted, size));
        }
    }
}

/// Appends what stands after an element.
fn push_line_end(out: &mut String, formatted: bool)
    ensures
        final(out)@ == old(out)@ + line_end(formatted),
{
    if formatted {
        push_char(out, '\n');
    }
    proof {
        assert(out@ =~= old(out)@ + line_end(formatted));
    }
}

/// Appends the attribute that says the type of a value.
fn push_type_attribute(out: &mut String, typed: bool, value_type: &str)
    ensures
        final(out)@ == old(out)@ + type_attribute(typed, value_type@),
{
    if typed {
        out.append(" type=\"");
        out.append(value_type);
        out.append("\"");
    }
    proof {
        assert(out@ =~= old(out)@ + type_attribute(typed, value_type@));
    }
}

/// The element of a scalar that is no string.
pub fn render_value(
    formatted: bool,
    typed: bool,
    size: usize,
    key: &str,
    value_type: &str,
    value: &str,
) -> (r: String)
    ensures
        r@ == value_text(formatted, typed, size, key@, value_type@, value@),
{
    let mut r = String::new();
    push_indent(&mut r, formatted, size);
    r.append("<");
    r.append(key);
    push_type_attribute(&mut r, typed, value_type);
    r.append(">");
    r.append(value);
    r.append("</");
    r.append(key);
    r.append(">");
    push_line_end(&mut r, formatted);
    proof {
        assert(r@ =~= value_text(formatted, typed, size, key@, value_type@, value@));
    }
    r
}

/// The element of a string.
pub fn render_string_value(formatted: bool, typed: bool, size: usize, key: &str, value: String)
    -> (r: String)
    ensures
        r@ == string_value_text(formatted, typed, size, key@, value@),
{
    if value.as_str().is_empty() {
        let mut r = String::new();
        push_indent(&mut r, formatted, size);
        r.append("<");
        r.append(key);
        push_type_attribute(&mut r, typed, "string");
        r.append("/>");
        push_line_end(&mut r, formatted);
        proof {
            assert(r@ =~= string_value_text(formatted, typed, size, key@, value@));
        }
        r
    } else {
        let text = escape(value);
        render_value(formatted, typed, size, key, "string", text.as_str())
    }
}

/// The preamble and the opening of the root element.
pub fn render_open(formatted: bool) -> (r: String)
    ensures
        r@ == open_text(formatted),
{
    let mut r = String::from_str("<?xml version=\"1.0\" encoding=\"utf-8\"?>\n<root>");
    push_line_end(&mut r, formatted);
    r
}

/// The closing of the root element.
pub fn render_close(formatted: bool) -> (r: String)
    ensures
        r@ == close_text(formatted),
{
    let mut r = String::from_str("</root>");
    push_line_end(&mut r, formatted);
    r
}

/// The opening of the element of a container.
pub fn render_begin(formatted: bool, size: usize, key: &str) -> (r: String)
    ensures
        r@ == begin_text(formatted, size, key@),
{
    let mut r = String::new();
    push_indent(&mut r, formatted, size);
    r.append("<");
    r.append(key);
    r.append(">");
    push_line_end(&mut r, formatted);
    proof {
        assert(r@ =~= begin_text(formatted, size, key@));
    }
    r
}

/// The closing of the element of a container.
pub fn render_end(formatted: bool, size: usize, key: &str) -> (r: String)
    ensures
        r@ == end_text(formatted, size, key@),
{
    let mut r = String::new();
    push_indent(&mut r, formatted, size);
    r.append("</");
    r.append(key);
    r.append(">");
    push_line_end(&mut r, formatted);
    proof {
        assert(r@ =~= end_text(formatted, size, key@));
    }
    r
}

} // verus!
