//! Reading CDATA sections: what a reader of XML makes of the sections that the
//! sink writes for a text.

use crate::xml_text::{escaped, holds_any, replace_all, reserved};
use vstd::prelude::*;

verus! {

/// `<![CDATA[`, which opens a section.
pub open spec fn section_open() -> Seq<char> {
    seq!['<', '!', '[', 'C', 'D', 'A', 'T', 'A', '[']
}

/// `]]>`, which ends a section.
pub open spec fn section_end() -> Seq<char> {
    seq![']', ']', '>']
}

/// The end mark stands at `i` in `s`.
pub open spec fn end_at(s: Seq<char>, i: int) -> bool {
    0 <= i && i + 3 <= s.len() && s[i] == ']' && s[i + 1] == ']' && s[i + 2] == '>'
}

/// The text holds no end mark.
pub open spec fn holds_no_end(s: Seq<char>) -> bool {
    forall|i: int| !end_at(s, i)
}

/// The place of the first end mark in `s`, or the length of `s` where it
/// holds none.
pub open spec fn first_end(s: Seq<char>) -> int
    decreases s.len(),
{
    if s.len() < 3 {
        s.len() as int
    } else if end_at(s, 0) {
        0
    } else {
        1 + first_end(s.skip(1))
    }
}

/// The text that a run of sections holds: each section opens with
/// `<![CDATA[`, holds what stands before the next `]]>`, and ends there.
/// `None` where the text is no run of sections.
pub open spec fn sections_text(xml: Seq<char>) -> Option<Seq<char>>
    decreases xml.len(),
{
    if xml.len() == 0 {
        Some(seq![])
    } else if section_open().is_prefix_of(xml) {
        let rest = xml.skip(9);
        let k = first_end(rest);
        if 0 <= k && k + 3 <= rest.len() {
            match sections_text(rest.skip(k + 3)) {
                Some(text) => Some(rest.take(k) + text),
                None => None,
            }
        } else {
            None
        }
    } else {
        None
    }
}

/// What the sink writes in the place of an end mark: it ends the section
/// inside the mark and opens the next.
pub open spec fn split_end() -> Seq<char> {
    seq![']', ']'] + section_end() + section_open() + seq!['>']
}

/// `text` with every end mark split.
pub open spec fn split_ends(text: Seq<char>) -> Seq<char> {
    replace_all(text, section_end(), split_end())
}

/// What is held of a section so far, `held`, and the text still to come do not
/// make an end mark between them, and `held` holds none.
pub open spec fn goes_on(held: Seq<char>, text: Seq<char>) -> bool {
    &&& holds_no_end(held)
    &&& !(held.len() >= 2 && held[held.len() - 2] == ']' && held[held.len() - 1] == ']'
        && text.len() >= 1 && text[0] == '>')
    &&& !(held.len() >= 1 && held[held.len() - 1] == ']' && text.len() >= 2 && text[0] == ']'
        && text[1] == '>')
}

/// After a text without an end mark, an end mark that follows is the first.
pub proof fn lemma_first_end_after(held: Seq<char>, rest: Seq<char>)
    requires
        holds_no_end(held),
        end_at(rest, 0),
    ensures
        first_end(held + rest) == held.len(),
    decreases held.len(),
{
    let s = held + rest;
    if held.len() == 0 {
        assert(s =~= rest);
    } else {
        assert(!end_at(s, 0)) by {
            if end_at(s, 0) {
                if held.len() >= 3 {
                    assert(end_at(held, 0));
                }
            }
        }
        let tail = held.skip(1);
        assert(s.skip(1) =~= tail + rest);
        assert(holds_no_end(tail)) by {
            assert forall|i: int| !end_at(tail, i) by {
                if end_at(tail, i) {
                    assert(end_at(held, i + 1));
                }
            }
        }
        lemma_first_end_after(tail, rest);
    }
}

/// Reading gives the text back: the sections that open with what is held so
/// far, go on with the rest of the text with its end marks split, and end,
/// hold what was held and the rest of the text.
pub proof fn lemma_sections_hold(held: Seq<char>, text: Seq<char>)
    requires
        goes_on(held, text),
    ensures
        sections_text(section_open() + held + split_ends(text) + section_end()) == Some(
            held + text,
        ),
    decreases text.len(),
{
    let open = section_open();
    let end = section_end();
    let xml = open + held + split_ends(text) + end;
    assert(open.is_prefix_of(xml));
    if text.len() >= 3 && end_at(text, 0) {
        let left = text.skip(3);
        assert(text.take(3) =~= end);
        assert(split_ends(text) =~= split_end() + split_ends(left));
        let content = held + seq![']', ']'];
        let next = open + seq!['>'] + split_ends(left) + end;
        assert(xml.skip(9) =~= content + (end + next));
        assert(holds_no_end(content)) by {
            assert forall|i: int| !end_at(content, i) by {
                if end_at(content, i) {
                    assert(end_at(held, i));
                }
            }
        }
        assert(end_at(end + next, 0));
        lemma_first_end_after(content, end + next);
        let rest = xml.skip(9);
        assert(rest.take(content.len() as int) =~= content);
        assert(rest.skip(content.len() as int + 3) =~= next);
        assert(goes_on(seq!['>'], left)) by {
            assert forall|i: int| !end_at(seq!['>'], i) by {}
        }
        lemma_sections_hold(seq!['>'], left);
        assert(content + (seq!['>'] + left) =~= held + text);
        assert(first_end(rest) == content.len());
        assert(sections_text(next) == Some(seq!['>'] + left));
        assert(sections_text(xml) == Some(held + text));
    } else if text.len() >= 3 {
        let left = text.skip(1);
        let more = held.push(text[0]);
        assert(!(text.take(3) =~= end)) by {
            if text.take(3) =~= end {
                assert(text.take(3)[0] == ']' && text.take(3)[1] == ']' && text.take(3)[2]
                    == '>');
            }
        }
        assert(split_ends(text) =~= seq![text[0]] + split_ends(left));
        assert(xml =~= open + more + split_ends(left) + end);
        assert(goes_on(more, left)) by {
            assert forall|i: int| !end_at(more, i) by {
                if end_at(more, i) {
                    if i + 3 < more.len() {
                        assert(end_at(held, i));
                    }
                }
            }
        }
        lemma_sections_hold(more, left);
        assert(more + left =~= held + text);
        assert(sections_text(xml) == Some(held + text));
    } else {
        assert(split_ends(text) =~= text);
        let content = held + text;
        assert(xml.skip(9) =~= content + end);
        assert(holds_no_end(content)) by {
            assert forall|i: int| !end_at(content, i) by {
                if end_at(content, i) {
                    if i + 3 <= held.len() {
                        assert(end_at(held, i));
                    }
                }
            }
        }
        assert(end_at(end, 0));
        lemma_first_end_after(content, end);
        let rest = xml.skip(9);
        assert(rest.take(content.len() as int) =~= content);
        assert(rest.skip(content.len() as int + 3) =~= Seq::<char>::empty());
        assert(content + Seq::<char>::empty() =~= content);
        assert(first_end(rest) == content.len());
        assert(sections_text(Seq::<char>::empty()) == Some(Seq::<char>::empty()));
        assert(sections_text(xml) == Some(held + text));
    }
}

/// A text that the sink puts into sections comes back from them: a reader of
/// the sections that stand for a text with a reserved character reads that
/// text, whatever end marks it holds.
pub proof fn lemma_escaped_reads_back(text: Seq<char>)
    requires
        holds_any(text, reserved()),
    ensures
        sections_text(escaped(text)) == Some(text),
{
    reveal_strlit("<![CDATA[");
    reveal_strlit("]]>");
    reveal_strlit("]]]]><![CDATA[>");
    assert("<![CDATA["@ =~= section_open());
    assert("]]>"@ =~= section_end());
    assert("]]]]><![CDATA[>"@ =~= split_end());
    assert(goes_on(Seq::<char>::empty(), text)) by {
        assert forall|i: int| !end_at(Seq::<char>::empty(), i) by {}
    }
    lemma_sections_hold(Seq::empty(), text);
    assert(section_open() + Seq::<char>::empty() + split_ends(text) + section_end() =~= escaped(
        text,
    ));
    assert(Seq::<char>::empty() + text =~= text);
}

} // verus!
