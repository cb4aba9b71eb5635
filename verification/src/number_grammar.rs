//! The grammar of JSON numbers, `-?(0|[1-9][0-9]*)(\.[0-9]+)?([eE]-?[0-9]+)?`,
//! and the shapes that a lexeme passes through while it is read.

use vstd::prelude::*;

verus! {

/// `[0-9]`
pub open spec fn is_digit(c: char) -> bool {
    '0' <= c <= '9'
}

/// `[eE]`
pub open spec fn is_exponent_letter(c: char) -> bool {
    c == 'e' || c == 'E'
}

/// `[0-9]*`
pub open spec fn is_digits(s: Seq<char>) -> bool {
    forall|i: int| 0 <= i < s.len() ==> is_digit(#[trigger] s[i])
}

/// `-?`
pub open spec fn is_sign(s: Seq<char>) -> bool {
    s =~= seq![] || s =~= seq!['-']
}

/// `0|[1-9][0-9]*`
pub open spec fn is_int_part(s: Seq<char>) -> bool {
    s =~= seq!['0'] || (s.len() >= 1 && '1' <= s[0] <= '9' && is_digits(s.skip(1)))
}

/// `(\.[0-9]+)?`
pub open spec fn is_frac_part(s: Seq<char>) -> bool {
    s.len() == 0 || (s.len() >= 2 && s[0] == '.' && is_digits(s.skip(1)))
}

/// `([eE]-?[0-9]+)?`
pub open spec fn is_exp_part(s: Seq<char>) -> bool {
    s.len() == 0 || (s.len() >= 2 && (s[0] == 'e' || s[0] == 'E') && (is_digits(s.skip(1)) || (
    s.len() >= 3 && s[1] == '-' && is_digits(s.skip(2)))))
}

/// `s` is the four parts of a number, one after the other.
pub open spec fn number_parts(
    s: Seq<char>,
    sign: Seq<char>,
    whole: Seq<char>,
    frac: Seq<char>,
    exp: Seq<char>,
) -> bool {
    &&& s =~= sign + whole + frac + exp
    &&& is_sign(sign)
    &&& is_int_part(whole)
    &&& is_frac_part(frac)
    &&& is_exp_part(exp)
}

/// `s` matches `-?(0|[1-9][0-9]*)(\.[0-9]+)?([eE]-?[0-9]+)?`.
pub open spec fn is_json_number(s: Seq<char>) -> bool {
    exists|sign: Seq<char>, whole: Seq<char>, frac: Seq<char>, exp: Seq<char>| #[trigger]
        number_parts(s, sign, whole, frac, exp)
}

/// `s` matches the grammar of numbers with a fraction, an exponent or both.
pub open spec fn is_json_float(s: Seq<char>) -> bool {
    exists|sign: Seq<char>, whole: Seq<char>, frac: Seq<char>, exp: Seq<char>| #[trigger]
        number_parts(s, sign, whole, frac, exp) && frac.len() + exp.len() > 0
}

/// `s` matches `-?(0|[1-9][0-9]*)`: a number without fraction and exponent.
pub open spec fn is_json_integer(s: Seq<char>) -> bool {
    exists|sign: Seq<char>, whole: Seq<char>| #[trigger]
        number_parts(s, sign, whole, seq![], seq![])
}

/// How far the reading of a number has come.
#[derive(Clone, Copy, Debug)]
pub enum LexerNumberSubState {
    /// `-`
    NegNumberStart,
    /// `-?0`
    ZeroNumberStart,
    /// `-?[1-9][0-9]*`
    OtherNumber,
    /// The integer part and `.`
    NumberFracStart,
    /// The integer part, `.` and at least one digit
    NumberFrac,
    /// The mantissa and `e`
    NumberFracExpStart,
    /// The mantissa, `e` and at least one digit
    NumberFracExp,
    /// The mantissa and `e-`
    NumberFracExpMinusStart,
    /// The mantissa, `e-` and at least one digit
    NumberFracExpMinus,
}

/// `s`, split in four parts, is what has been read of a number when the lexer
/// is in sub-state `sub`.
pub open spec fn shape_parts(
    sub: LexerNumberSubState,
    s: Seq<char>,
    sign: Seq<char>,
    whole: Seq<char>,
    frac: Seq<char>,
    exp: Seq<char>,
) -> bool {
    &&& s =~= sign + whole + frac + exp
    &&& is_sign(sign)
    &&& match sub {
        LexerNumberSubState::NegNumberStart => {
            sign =~= seq!['-'] && whole.len() == 0 && frac.len() == 0 && exp.len() == 0
        },
        LexerNumberSubState::ZeroNumberStart => {
            whole =~= seq!['0'] && frac.len() == 0 && exp.len() == 0
        },
        LexerNumberSubState::OtherNumber => {
            whole.len() >= 1 && '1' <= whole[0] <= '9' && is_digits(whole.skip(1)) && frac.len()
                == 0 && exp.len() == 0
        },
        LexerNumberSubState::NumberFracStart => {
            is_int_part(whole) && frac =~= seq!['.'] && exp.len() == 0
        },
        LexerNumberSubState::NumberFrac => {
            is_int_part(whole) && frac.len() >= 2 && is_frac_part(frac) && exp.len() == 0
        },
        LexerNumberSubState::NumberFracExpStart => {
            is_int_part(whole) && is_frac_part(frac) && exp.len() == 1 && is_exponent_letter(
                exp[0],
            )
        },
        LexerNumberSubState::NumberFracExp => {
            is_int_part(whole) && is_frac_part(frac) && exp.len() >= 2 && is_exponent_letter(
                exp[0],
            ) && is_digits(exp.skip(1))
        },
        LexerNumberSubState::NumberFracExpMinusStart => {
            is_int_part(whole) && is_frac_part(frac) && exp.len() == 2 && is_exponent_letter(
                exp[0],
            ) && exp[1] == '-'
        },
        LexerNumberSubState::NumberFracExpMinus => {
            is_int_part(whole) && is_frac_part(frac) && exp.len() >= 3 && is_exponent_letter(
                exp[0],
            ) && exp[1] == '-' && is_digits(exp.skip(2))
        },
    }
}

/// `s` is what can have been read of a number when the lexer is in sub-state `sub`.
pub open spec fn number_shape(sub: LexerNumberSubState, s: Seq<char>) -> bool {
    exists|sign: Seq<char>, whole: Seq<char>, frac: Seq<char>, exp: Seq<char>| #[trigger]
        shape_parts(sub, s, sign, whole, frac, exp)
}

/// Reading `c` in sub-state `sub` continues the number in sub-state `next`.
pub open spec fn continues(sub: LexerNumberSubState, c: char, next: LexerNumberSubState) -> bool {
    let point = c == '.' && next is NumberFracStart;
    let exponent = is_exponent_letter(c) && next is NumberFracExpStart;
    match sub {
        LexerNumberSubState::NegNumberStart => {
            (c == '0' && next is ZeroNumberStart) || ('1' <= c <= '9' && next is OtherNumber)
        },
        LexerNumberSubState::ZeroNumberStart => point || exponent,
        LexerNumberSubState::OtherNumber => {
            point || exponent || (is_digit(c) && next is OtherNumber)
        },
        LexerNumberSubState::NumberFracStart => is_digit(c) && next is NumberFrac,
        LexerNumberSubState::NumberFrac => exponent || (is_digit(c) && next is NumberFrac),
        LexerNumberSubState::NumberFracExpStart => {
            (c == '-' && next is NumberFracExpMinusStart) || (is_digit(c) && next is NumberFracExp)
        },
        LexerNumberSubState::NumberFracExp => is_digit(c) && next is NumberFracExp,
        LexerNumberSubState::NumberFracExpMinusStart => is_digit(c) && next is NumberFracExpMinus,
        LexerNumberSubState::NumberFracExpMinus => is_digit(c) && next is NumberFracExpMinus,
    }
}

/// In this sub-state the text read so far is a complete number.
pub open spec fn is_terminal(sub: LexerNumberSubState) -> bool {
    sub is ZeroNumberStart || sub is OtherNumber || sub is NumberFrac || sub is NumberFracExp
        || sub is NumberFracExpMinus
}

/// The first character of a number puts the lexer in the sub-state that fits it.
pub proof fn lemma_shape_first(c: char, sub: LexerNumberSubState)
    requires
        (c == '-' && sub is NegNumberStart) || (c == '0' && sub is ZeroNumberStart) || ('1' <= c
            <= '9' && sub is OtherNumber),
    ensures
        number_shape(sub, seq![c]),
{
    if c == '-' {
        assert(shape_parts(sub, seq![c], seq!['-'], seq![], seq![], seq![]));
    } else {
        assert(seq![c].skip(1) =~= Seq::<char>::empty());
        assert(shape_parts(sub, seq![c], seq![], seq![c], seq![], seq![]));
    }
}

/// A character that continues the number keeps the text in the shape of the new sub-state.
pub proof fn lemma_shape_push(
    sub: LexerNumberSubState,
    s: Seq<char>,
    c: char,
    next: LexerNumberSubState,
)
    requires
        number_shape(sub, s),
        continues(sub, c, next),
    ensures
        number_shape(next, s.push(c)),
{
    let (sign, whole, frac, exp) = choose|
        sign: Seq<char>,
        whole: Seq<char>,
        frac: Seq<char>,
        exp: Seq<char>,
    | #[trigger] shape_parts(sub, s, sign, whole, frac, exp);
    let none = Seq::<char>::empty();
    match next {
        LexerNumberSubState::NegNumberStart => {},
        LexerNumberSubState::ZeroNumberStart | LexerNumberSubState::OtherNumber => {
            let w = whole.push(c);
            assert(w.skip(1) =~= whole.skip(1).push(c) || whole.len() == 0);
            if whole.len() == 0 {
                assert(w.skip(1) =~= none);
            }
            assert(shape_parts(next, s.push(c), sign, w, none, none));
        },
        LexerNumberSubState::NumberFracStart | LexerNumberSubState::NumberFrac => {
            let f = frac.push(c);
            if frac.len() >= 1 {
                assert(f.skip(1) =~= frac.skip(1).push(c));
            } else {
                assert(f.skip(1) =~= none);
            }
            assert(is_int_part(whole));
            assert(shape_parts(next, s.push(c), sign, whole, f, none));
        },
        LexerNumberSubState::NumberFracExpStart
        | LexerNumberSubState::NumberFracExp
        | LexerNumberSubState::NumberFracExpMinusStart
        | LexerNumberSubState::NumberFracExpMinus => {
            let e = exp.push(c);
            if exp.len() >= 1 {
                assert(e.skip(1) =~= exp.skip(1).push(c));
            }
            if exp.len() >= 2 {
                assert(e.skip(2) =~= exp.skip(2).push(c));
            }
            if exp.len() == 1 {
                assert(e.skip(1) =~= seq![c]);
            }
            if exp.len() == 2 {
                assert(e.skip(2) =~= seq![c]);
            }
            assert(is_int_part(whole));
            assert(is_frac_part(frac));
            assert(shape_parts(next, s.push(c), sign, whole, frac, e));
        },
    }
}

/// In a terminal sub-state the text read so far matches the grammar of numbers,
/// and without fraction and exponent that of integers.
pub proof fn lemma_shape_complete(sub: LexerNumberSubState, s: Seq<char>)
    requires
        number_shape(sub, s),
        is_terminal(sub),
    ensures
        is_json_number(s),
        sub is ZeroNumberStart || sub is OtherNumber ==> is_json_integer(s),
        !(sub is ZeroNumberStart || sub is OtherNumber) ==> is_json_float(s),
{
    let (sign, whole, frac, exp) = choose|
        sign: Seq<char>,
        whole: Seq<char>,
        frac: Seq<char>,
        exp: Seq<char>,
    | #[trigger] shape_parts(sub, s, sign, whole, frac, exp);
    assert(number_parts(s, sign, whole, frac, exp));
    if sub is ZeroNumberStart || sub is OtherNumber {
        assert(frac =~= seq![]);
        assert(exp =~= seq![]);
        assert(number_parts(s, sign, whole, seq![], seq![]));
    }
}

/// The lexeme `0` is an integer.
pub proof fn lemma_zero_is_integer()
    ensures
        is_json_integer(seq!['0']),
        is_json_number(seq!['0']),
{
    let z = seq!['0'];
    assert(number_parts(z, seq![], z, seq![], seq![]));
}

} // verus!
