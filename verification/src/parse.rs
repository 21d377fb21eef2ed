//! Reading JSON text.
//!
//! The grammar is given as functions on the text that is still to be read:
//! each takes a sequence of characters and, if one of its kind stands at the
//! front, gives what it stands for and the text behind it.
//!
//! Where such a function goes on with what is left, it first tests that this
//! is shorter than what it was given. That makes the definitions well
//! founded and refuses nothing: what was read is never empty, as the lemmas
//! on shorter rests show.

use vstd::prelude::*;
use crate::chars::{char_of, chars_of, push_char};
use crate::json::{Entry, Json, Member, Value};
use crate::number::{lemma_number_end_bounds, number_end, Number};

verus! {

/// How deep arrays and objects may be nested in a text that is read.
pub const MAX_DEPTH: usize = 128;

/// Whether `c` is JSON white space.
pub open spec fn is_space(c: char) -> bool {
    c == ' ' || c == '\t' || c == '\n' || c == '\r'
}

/// `s` without the white space at its front.
pub open spec fn skip_spaces(s: Seq<char>) -> Seq<char>
    decreases s.len(),
{
    if s.len() > 0 && is_space(s[0]) {
        skip_spaces(s.skip(1))
    } else {
        s
    }
}

/// The value of a hexadecimal digit, upper or lower case.
pub open spec fn hex_value(c: char) -> Option<int> {
    if '0' <= c && c <= '9' {
        Some(c as int - '0' as int)
    } else if 'a' <= c && c <= 'f' {
        Some(c as int - 'a' as int + 10)
    } else if 'A' <= c && c <= 'F' {
        Some(c as int - 'A' as int + 10)
    } else {
        None
    }
}

/// The number that four hexadecimal digits at the front of `s` denote.
pub open spec fn hex4(s: Seq<char>) -> Option<int> {
    if s.len() < 4 {
        None
    } else {
        match (hex_value(s[0]), hex_value(s[1]), hex_value(s[2]), hex_value(s[3])) {
            (Some(a), Some(b), Some(c), Some(d)) => Some(((a * 16 + b) * 16 + c) * 16 + d),
            _ => None,
        }
    }
}

/// The character with the code `code`.
pub open spec fn char_at_code(code: int) -> char {
    code as u32 as char
}

/// What stands behind `\u`: four hexadecimal digits that give a character,
/// or a pair of surrogates, the second again behind `\u`, that together give
/// one. A surrogate alone gives none.
pub open spec fn unicode_escape(s: Seq<char>) -> Option<(char, Seq<char>)> {
    match hex4(s) {
        Some(high) => {
            if 0xD800 <= high <= 0xDBFF {
                if s.len() >= 6 && s[4] == '\\' && s[5] == 'u' {
                    match hex4(s.skip(6)) {
                        Some(low) => {
                            if 0xDC00 <= low <= 0xDFFF {
                                Some(
                                    (
                                        char_at_code(
                                            0x10000 + (high - 0xD800) * 0x400 + (low - 0xDC00),
                                        ),
                                        s.skip(10),
                                    ),
                                )
                            } else {
                                None
                            }
                        },
                        None => None,
                    }
                } else {
                    None
                }
            } else if 0xDC00 <= high <= 0xDFFF {
                None
            } else {
                Some((char_at_code(high), s.skip(4)))
            }
        },
        None => None,
    }
}

/// What stands behind a backslash inside a string literal.
pub open spec fn escape_sequence(s: Seq<char>) -> Option<(char, Seq<char>)> {
    if s.len() == 0 {
        None
    } else if s[0] == '"' {
        Some(('"', s.skip(1)))
    } else if s[0] == '\\' {
        Some(('\\', s.skip(1)))
    } else if s[0] == '/' {
        Some(('/', s.skip(1)))
    } else if s[0] == 'b' {
        Some(('\u{8}', s.skip(1)))
    } else if s[0] == 'f' {
        Some(('\u{c}', s.skip(1)))
    } else if s[0] == 'n' {
        Some(('\n', s.skip(1)))
    } else if s[0] == 'r' {
        Some(('\r', s.skip(1)))
    } else if s[0] == 't' {
        Some(('\t', s.skip(1)))
    } else if s[0] == 'u' {
        unicode_escape(s.skip(1))
    } else {
        None
    }
}

/// One character of a string literal: an escape sequence, or any character
/// but the quote, the backslash and the control characters below U+0020.
pub open spec fn string_char(s: Seq<char>) -> Option<(char, Seq<char>)> {
    if s.len() == 0 {
        None
    } else if s[0] == '\\' {
        escape_sequence(s.skip(1))
    } else if s[0] == '"' || (s[0] as u32) < 0x20 {
        None
    } else {
        Some((s[0], s.skip(1)))
    }
}

/// The rest of a string literal behind its opening quote: the characters up
/// to the closing quote, and the text behind that.
pub open spec fn string_body(s: Seq<char>) -> Option<(Seq<char>, Seq<char>)>
    decreases s.len(),
{
    if s.len() > 0 && s[0] == '"' {
        Some((Seq::empty(), s.skip(1)))
    } else {
        match string_char(s) {
            Some((c, rest)) => {
                if rest.len() < s.len() {
                    match string_body(rest) {
                        Some((more, end)) => Some((seq![c] + more, end)),
                        None => None,
                    }
                } else {
                    None
                }
            },
            None => None,
        }
    }
}

/// Whether `word` stands at the front of `s`.
pub open spec fn starts_with(s: Seq<char>, word: Seq<char>) -> bool {
    s.len() >= word.len() && s.take(word.len() as int) == word
}

/// One of the words `null`, `true` and `false` at the front of `s`.
pub open spec fn parse_word(s: Seq<char>) -> Option<(Value, Seq<char>)> {
    if starts_with(s, seq!['n', 'u', 'l', 'l']) {
        Some((Value::Null, s.skip(4)))
    } else if starts_with(s, seq!['t', 'r', 'u', 'e']) {
        Some((Value::Bool(true), s.skip(4)))
    } else if starts_with(s, seq!['f', 'a', 'l', 's', 'e']) {
        Some((Value::Bool(false), s.skip(5)))
    } else {
        None
    }
}

/// The array behind the opening bracket at the front of `s`.
pub open spec fn parse_array(s: Seq<char>, depth: nat) -> Option<(Value, Seq<char>)>
    decreases s.len(), 0nat,
{
    let inner = skip_spaces(s.skip(1));
    if depth == 0 || s.len() == 0 {
        None
    } else if inner.len() > 0 && inner[0] == ']' {
        Some((Value::Array(Seq::empty()), inner.skip(1)))
    } else if inner.len() < s.len() {
        match parse_items(inner, (depth - 1) as nat) {
            Some((items, rest)) => Some((Value::Array(items), rest)),
            None => None,
        }
    } else {
        None
    }
}

/// The object behind the opening brace at the front of `s`.
pub open spec fn parse_object(s: Seq<char>, depth: nat) -> Option<(Value, Seq<char>)>
    decreases s.len(), 0nat,
{
    let inner = skip_spaces(s.skip(1));
    if depth == 0 || s.len() == 0 {
        None
    } else if inner.len() > 0 && inner[0] == '}' {
        Some((Value::Object(Seq::empty()), inner.skip(1)))
    } else if inner.len() < s.len() {
        match parse_members(inner, (depth - 1) as nat) {
            Some((members, rest)) => Some((Value::Object(members), rest)),
            None => None,
        }
    } else {
        None
    }
}

/// The value at the front of `s`, and the text behind it. Arrays and
/// objects may be nested `depth` deep.
pub open spec fn parse_value(s: Seq<char>, depth: nat) -> Option<(Value, Seq<char>)>
    decreases s.len(), 1nat,
{
    if s.len() == 0 {
        None
    } else if s[0] == 'n' || s[0] == 't' || s[0] == 'f' {
        parse_word(s)
    } else if s[0] == '"' {
        match string_body(s.skip(1)) {
            Some((text, rest)) => Some((Value::Text(text), rest)),
            None => None,
        }
    } else if s[0] == '[' {
        parse_array(s, depth)
    } else if s[0] == '{' {
        parse_object(s, depth)
    } else {
        match number_end(s, 0) {
            Some(end) => Some((Value::Number(s.take(end)), s.skip(end))),
            None => None,
        }
    }
}

/// The items of an array from the first one on, up to and with the closing
/// bracket: values with commas between them.
pub open spec fn parse_items(s: Seq<char>, depth: nat) -> Option<(Seq<Value>, Seq<char>)>
    decreases s.len(), 2nat,
{
    match parse_value(s, depth) {
        Some((item, rest)) => {
            let after = skip_spaces(rest);
            if after.len() > 0 && after[0] == ']' {
                Some((seq![item], after.skip(1)))
            } else if after.len() > 0 && after[0] == ',' && skip_spaces(after.skip(1)).len()
                < s.len() {
                match parse_items(skip_spaces(after.skip(1)), depth) {
                    Some((more, end)) => Some((seq![item] + more, end)),
                    None => None,
                }
            } else {
                None
            }
        },
        None => None,
    }
}

/// One member of an object: a string, a colon and a value.
pub open spec fn parse_member(s: Seq<char>, depth: nat) -> Option<(Entry, Seq<char>)>
    decreases s.len(), 2nat,
{
    if s.len() > 0 && s[0] == '"' {
        match string_body(s.skip(1)) {
            Some((key, rest)) => {
                let colon = skip_spaces(rest);
                if colon.len() > 0 && colon[0] == ':' && skip_spaces(colon.skip(1)).len()
                    < s.len() {
                    match parse_value(skip_spaces(colon.skip(1)), depth) {
                        Some((value, rest)) => Some((Entry { key, value }, rest)),
                        None => None,
                    }
                } else {
                    None
                }
            },
            None => None,
        }
    } else {
        None
    }
}

/// The members of an object from the first one on, up to and with the
/// closing brace: members with commas between them.
pub open spec fn parse_members(s: Seq<char>, depth: nat) -> Option<(Seq<Entry>, Seq<char>)>
    decreases s.len(), 3nat,
{
    match parse_member(s, depth) {
        Some((entry, rest)) => {
            let after = skip_spaces(rest);
            if after.len() > 0 && after[0] == '}' {
                Some((seq![entry], after.skip(1)))
            } else if after.len() > 0 && after[0] == ',' && skip_spaces(after.skip(1)).len()
                < s.len() {
                match parse_members(skip_spaces(after.skip(1)), depth) {
                    Some((more, end)) => Some((seq![entry] + more, end)),
                    None => None,
                }
            } else {
                None
            }
        },
        None => None,
    }
}

/// The value that the whole of `s` stands for: one value, with white space
/// before and after it at most.
pub open spec fn parse_text(s: Seq<char>) -> Option<Value> {
    match parse_value(skip_spaces(s), MAX_DEPTH as nat) {
        Some((value, rest)) => if skip_spaces(rest).len() == 0 {
            Some(value)
        } else {
            None
        },
        None => None,
    }
}


/// Skipping white space makes the text no longer.
pub proof fn lemma_skip_spaces_shorter(s: Seq<char>)
    ensures
        skip_spaces(s).len() <= s.len(),
    decreases s.len(),
{
    if s.len() > 0 && is_space(s[0]) {
        lemma_skip_spaces_shorter(s.skip(1));
    }
}

/// A character of a string literal takes up at least one character of the
/// text.
pub proof fn lemma_string_char_shorter(s: Seq<char>)
    ensures
        string_char(s) matches Some((_, rest)) ==> rest.len() < s.len(),
{
}

/// A string literal takes up at least its closing quote.
pub proof fn lemma_string_body_shorter(s: Seq<char>)
    ensures
        string_body(s) matches Some((_, rest)) ==> rest.len() < s.len(),
    decreases s.len(),
{
    if !(s.len() > 0 && s[0] == '"') {
        match string_char(s) {
            Some((_, rest)) => {
                if rest.len() < s.len() {
                    lemma_string_body_shorter(rest);
                }
            },
            None => {},
        }
    }
}

/// A value takes up at least one character of the text.
pub proof fn lemma_value_shorter(s: Seq<char>, depth: nat)
    ensures
        parse_value(s, depth) matches Some((_, rest)) ==> rest.len() < s.len(),
    decreases s.len(), 1nat,
{
    if s.len() > 0 {
        if s[0] == '"' {
            lemma_string_body_shorter(s.skip(1));
        } else if s[0] == '[' {
            let inner = skip_spaces(s.skip(1));
            lemma_skip_spaces_shorter(s.skip(1));
            if depth > 0 && !(inner.len() > 0 && inner[0] == ']') {
                lemma_items_shorter(inner, (depth - 1) as nat);
            }
        } else if s[0] == '{' {
            let inner = skip_spaces(s.skip(1));
            lemma_skip_spaces_shorter(s.skip(1));
            if depth > 0 && !(inner.len() > 0 && inner[0] == '}') {
                lemma_members_shorter(inner, (depth - 1) as nat);
            }
        } else if !(s[0] == 'n' || s[0] == 't' || s[0] == 'f') {
            match number_end(s, 0) {
                Some(end) => {
                    lemma_number_end_bounds(s, end);
                },
                None => {},
            }
        }
    }
}

/// The items of an array and its closing bracket take up at least one
/// character of the text.
pub proof fn lemma_items_shorter(s: Seq<char>, depth: nat)
    ensures
        parse_items(s, depth) matches Some((_, rest)) ==> rest.len() < s.len(),
    decreases s.len(), 2nat,
{
    lemma_value_shorter(s, depth);
    match parse_value(s, depth) {
        Some((_, rest)) => {
            let after = skip_spaces(rest);
            lemma_skip_spaces_shorter(rest);
            if after.len() > 0 && after[0] == ',' {
                let next = skip_spaces(after.skip(1));
                lemma_skip_spaces_shorter(after.skip(1));
                assert(next.len() < s.len());
                lemma_items_shorter(next, depth);
            }
        },
        None => {},
    }
}

/// A member of an object takes up at least one character of the text.
pub proof fn lemma_member_shorter(s: Seq<char>, depth: nat)
    ensures
        parse_member(s, depth) matches Some((_, rest)) ==> rest.len() < s.len(),
    decreases s.len(), 2nat,
{
    if s.len() > 0 && s[0] == '"' {
        lemma_string_body_shorter(s.skip(1));
        match string_body(s.skip(1)) {
            Some((_, rest)) => {
                let colon = skip_spaces(rest);
                lemma_skip_spaces_shorter(rest);
                if colon.len() > 0 && colon[0] == ':' {
                    let start = skip_spaces(colon.skip(1));
                    lemma_skip_spaces_shorter(colon.skip(1));
                    assert(start.len() < s.len());
                    lemma_value_shorter(start, depth);
                }
            },
            None => {},
        }
    }
}

/// The members of an object and its closing brace take up at least one
/// character of the text.
pub proof fn lemma_members_shorter(s: Seq<char>, depth: nat)
    ensures
        parse_members(s, depth) matches Some((_, rest)) ==> rest.len() < s.len(),
    decreases s.len(), 3nat,
{
    lemma_member_shorter(s, depth);
    match parse_member(s, depth) {
        Some((_, rest)) => {
            let after = skip_spaces(rest);
            lemma_skip_spaces_shorter(rest);
            if after.len() > 0 && after[0] == ',' {
                let next = skip_spaces(after.skip(1));
                lemma_skip_spaces_shorter(after.skip(1));
                assert(next.len() < s.len());
                lemma_members_shorter(next, depth);
            }
        },
        None => {},
    }
}

/// The position of the first character at or behind `i` that is no white
/// space.
pub fn skip_ws(v: &Vec<char>, i: usize) -> (j: usize)
    requires
        i <= v.len(),
    ensures
        i <= j <= v.len(),
        v@.skip(j as int) == skip_spaces(v@.skip(i as int)),
{
    let mut j: usize = i;
    while j < v.len() && (v[j] == ' ' || v[j] == '\t' || v[j] == '\n' || v[j] == '\r')
        invariant
            i <= j <= v.len(),
            skip_spaces(v@.skip(j as int)) == skip_spaces(v@.skip(i as int)),
        decreases v.len() - j,
    {
        assert(v@.skip(j as int)[0] == v@[j as int]);
        assert(v@.skip(j as int).skip(1) =~= v@.skip(j + 1));
        j += 1;
    }
    assert(j < v.len() ==> v@.skip(j as int)[0] == v@[j as int]);
    j
}

/// The value of a hexadecimal digit.
fn hex_digit(c: char) -> (d: Option<u32>)
    ensures
        match d {
            Some(d) => hex_value(c) == Some(d as int) && d < 16,
            None => hex_value(c) is None,
        },
{
    if '0' <= c && c <= '9' {
        Some(c as u32 - '0' as u32)
    } else if 'a' <= c && c <= 'f' {
        Some(c as u32 - 'a' as u32 + 10)
    } else if 'A' <= c && c <= 'F' {
        Some(c as u32 - 'A' as u32 + 10)
    } else {
        None
    }
}

/// The number that the four hexadecimal digits at `i` denote.
fn read_hex4(v: &Vec<char>, i: usize) -> (r: Option<u32>)
    requires
        i <= v.len(),
    ensures
        match r {
            Some(code) => hex4(v@.skip(i as int)) == Some(code as int) && code < 0x10000 && i + 4
                <= v.len(),
            None => hex4(v@.skip(i as int)) is None,
        },
{
    if v.len() - i < 4 {
        return None;
    }
    let ghost s = v@.skip(i as int);
    assert(s[0] == v@[i as int] && s[1] == v@[i + 1] && s[2] == v@[i + 2] && s[3] == v@[i + 3]);
    let a = match hex_digit(v[i]) {
        Some(a) => a,
        None => {
            return None;
        },
    };
    let b = match hex_digit(v[i + 1]) {
        Some(b) => b,
        None => {
            return None;
        },
    };
    let c = match hex_digit(v[i + 2]) {
        Some(c) => c,
        None => {
            return None;
        },
    };
    let d = match hex_digit(v[i + 3]) {
        Some(d) => d,
        None => {
            return None;
        },
    };
    Some(((a * 16 + b) * 16 + c) * 16 + d)
}

/// What stands behind `\u` at `i`.
fn read_unicode_escape(v: &Vec<char>, i: usize) -> (r: Option<(char, usize)>)
    requires
        i <= v.len(),
    ensures
        match r {
            Some((c, j)) => unicode_escape(v@.skip(i as int)) == Some((c, v@.skip(j as int))) && i
                < j <= v.len(),
            None => unicode_escape(v@.skip(i as int)) is None,
        },
{
    let ghost s = v@.skip(i as int);
    let high = match read_hex4(v, i) {
        Some(high) => high,
        None => {
            return None;
        },
    };
    if 0xD800 <= high && high <= 0xDBFF {
        if v.len() - i >= 6 && v[i + 4] == '\\' && v[i + 5] == 'u' {
            assert(s[4] == v@[i + 4] && s[5] == v@[i + 5]);
            assert(s.skip(6) =~= v@.skip(i + 6));
            match read_hex4(v, i + 6) {
                Some(low) => {
                    assert(s.skip(10) =~= v@.skip(i + 10));
                    if 0xDC00 <= low && low <= 0xDFFF {
                        let code: u32 = 0x10000 + (high - 0xD800) * 0x400 + (low - 0xDC00);
                        match char_of(code) {
                            Some(c) => Some((c, i + 10)),
                            None => None,
                        }
                    } else {
                        None
                    }
                },
                None => None,
            }
        } else {
            assert(s.len() >= 6 ==> s[4] == v@[i + 4] && s[5] == v@[i + 5]);
            None
        }
    } else if 0xDC00 <= high && high <= 0xDFFF {
        None
    } else {
        assert(s.skip(4) =~= v@.skip(i + 4));
        match char_of(high) {
            Some(c) => Some((c, i + 4)),
            None => None,
        }
    }
}


/// One character of a string literal at `i`.
fn read_string_char(v: &Vec<char>, i: usize) -> (r: Option<(char, usize)>)
    requires
        i <= v.len(),
    ensures
        match r {
            Some((c, j)) => string_char(v@.skip(i as int)) == Some((c, v@.skip(j as int))) && i < j
                <= v.len(),
            None => string_char(v@.skip(i as int)) is None,
        },
{
    let ghost s = v@.skip(i as int);
    if i >= v.len() {
        return None;
    }
    assert(s[0] == v@[i as int]);
    assert(s.skip(1) =~= v@.skip(i + 1));
    let c = v[i];
    if c == '\\' {
        if i + 1 >= v.len() {
            return None;
        }
        let ghost t = v@.skip(i + 1);
        assert(t[0] == v@[i + 1]);
        assert(t.skip(1) =~= v@.skip(i + 2));
        let e = v[i + 1];
        if e == '"' {
            Some(('"', i + 2))
        } else if e == '\\' {
            Some(('\\', i + 2))
        } else if e == '/' {
            Some(('/', i + 2))
        } else if e == 'b' {
            Some(('\u{8}', i + 2))
        } else if e == 'f' {
            Some(('\u{c}', i + 2))
        } else if e == 'n' {
            Some(('\n', i + 2))
        } else if e == 'r' {
            Some(('\r', i + 2))
        } else if e == 't' {
            Some(('\t', i + 2))
        } else if e == 'u' {
            read_unicode_escape(v, i + 2)
        } else {
            None
        }
    } else if c == '"' || (c as u32) < 0x20 {
        None
    } else {
        Some((c, i + 1))
    }
}

/// What was read so far, put in front of what reading the rest gives.
pub open spec fn with_front<A>(front: Seq<A>, rest: Option<(Seq<A>, Seq<char>)>) -> Option<
    (Seq<A>, Seq<char>),
> {
    match rest {
        Some((more, end)) => Some((front + more, end)),
        None => None,
    }
}

/// The rest of a string literal behind its opening quote, which stands
/// just before `i`.
fn read_string(v: &Vec<char>, i: usize) -> (r: Option<(String, usize)>)
    requires
        i <= v.len(),
    ensures
        match r {
            Some((text, e)) => string_body(v@.skip(i as int)) == Some((text@, v@.skip(e as int)))
                && i < e <= v.len(),
            None => string_body(v@.skip(i as int)) is None,
        },
{
    let mut text = String::new();
    let mut j: usize = i;
    assert(with_front(text@, string_body(v@.skip(j as int))) =~= string_body(v@.skip(i as int)))
        by {
        let r = string_body(v@.skip(i as int));
        match r {
            Some((more, _)) => {
                assert(Seq::<char>::empty() + more =~= more);
            },
            None => {},
        }
    }
    loop
        invariant
            i <= j <= v.len(),
            string_body(v@.skip(i as int)) == with_front(text@, string_body(v@.skip(j as int))),
        decreases v.len() - j,
    {
        let ghost s = v@.skip(j as int);
        if j < v.len() && v[j] == '"' {
            proof {
                assert(s[0] == v@[j as int]);
                assert(s.skip(1) =~= v@.skip(j + 1));
                assert(text@ + Seq::<char>::empty() =~= text@);
            }
            return Some((text, j + 1));
        }
        assert(j < v.len() ==> s[0] == v@[j as int]);
        match read_string_char(v, j) {
            Some((c, k)) => {
                let ghost before = text@;
                push_char(&mut text, c);
                proof {
                    let rest = string_body(v@.skip(k as int));
                    assert(string_body(s) == with_front(seq![c], rest));
                    match rest {
                        Some((more, _)) => {
                            assert(before + (seq![c] + more) =~= text@ + more);
                        },
                        None => {},
                    }
                }
                j = k;
            },
            None => {
                return None;
            },
        }
    }
}


/// The views of a list of values.
pub open spec fn values_of(items: Seq<Json>) -> Seq<Value> {
    Seq::new(items.len(), |k: int| items[k]@)
}

/// The views of a list of members.
pub open spec fn entries_of(members: Seq<Member>) -> Seq<Entry> {
    Seq::new(members.len(), |k: int| Entry { key: members[k].key@, value: members[k].value@ })
}

/// The word `null`, `true` or `false` at `i`.
fn read_word(v: &Vec<char>, i: usize) -> (r: Option<(Json, usize)>)
    requires
        i <= v.len(),
    ensures
        match r {
            Some((j, e)) => parse_word(v@.skip(i as int)) == Some((j@, v@.skip(e as int))) && i < e
                <= v.len(),
            None => parse_word(v@.skip(i as int)) is None,
        },
{
    let ghost s = v@.skip(i as int);
    let n = v.len();
    let ghost null = seq!['n', 'u', 'l', 'l'];
    let ghost yes = seq!['t', 'r', 'u', 'e'];
    let ghost no = seq!['f', 'a', 'l', 's', 'e'];
    proof {
        assert forall|k: int| 0 <= k < s.len() implies s[k] == v@[i + k] by {}
        if starts_with(s, null) {
            assert(forall|k: int| 0 <= k < 4 ==> s.take(4)[k] == null[k]);
            assert(s[0] == s.take(4)[0] && s[1] == s.take(4)[1] && s[2] == s.take(4)[2] && s[3]
                == s.take(4)[3]);
        }
        if starts_with(s, yes) {
            assert(forall|k: int| 0 <= k < 4 ==> s.take(4)[k] == yes[k]);
            assert(s[0] == s.take(4)[0] && s[1] == s.take(4)[1] && s[2] == s.take(4)[2] && s[3]
                == s.take(4)[3]);
        }
        if starts_with(s, no) {
            assert(forall|k: int| 0 <= k < 5 ==> s.take(5)[k] == no[k]);
            assert(s[0] == s.take(5)[0] && s[1] == s.take(5)[1] && s[2] == s.take(5)[2] && s[3]
                == s.take(5)[3] && s[4] == s.take(5)[4]);
        }
    }
    if n - i >= 4 && v[i] == 'n' && v[i + 1] == 'u' && v[i + 2] == 'l' && v[i + 3] == 'l' {
        assert(s.take(4) =~= null);
        assert(s.skip(4) =~= v@.skip(i + 4));
        Some((Json::Null, i + 4))
    } else if n - i >= 4 && v[i] == 't' && v[i + 1] == 'r' && v[i + 2] == 'u' && v[i + 3] == 'e' {
        assert(s.take(4) =~= yes);
        assert(s.skip(4) =~= v@.skip(i + 4));
        Some((Json::Bool(true), i + 4))
    } else if n - i >= 5 && v[i] == 'f' && v[i + 1] == 'a' && v[i + 2] == 'l' && v[i + 3] == 's'
        && v[i + 4] == 'e' {
        assert(s.take(5) =~= no);
        assert(s.skip(5) =~= v@.skip(i + 5));
        Some((Json::Bool(false), i + 5))
    } else {
        None
    }
}

/// The array whose opening bracket stands at `i`.
fn read_array(v: &Vec<char>, i: usize, depth: usize) -> (r: Option<(Json, usize)>)
    requires
        i < v.len(),
    ensures
        match r {
            Some((j, e)) => parse_array(v@.skip(i as int), depth as nat) == Some(
                (j@, v@.skip(e as int)),
            ) && i < e <= v.len(),
            None => parse_array(v@.skip(i as int), depth as nat) is None,
        },
    decreases depth, 0nat,
{
    let ghost s = v@.skip(i as int);
    let n = v.len();
    assert(s.skip(1) =~= v@.skip(i + 1));
    let p = skip_ws(v, i + 1);
    assert(p < n ==> v@.skip(p as int)[0] == v@[p as int]);
    if depth == 0 {
        None
    } else if p < n && v[p] == ']' {
        assert(v@.skip(p as int).skip(1) =~= v@.skip(p + 1));
        let empty: Vec<Json> = Vec::new();
        assert(Json::Array(empty)@->Array_0 =~= Seq::<Value>::empty());
        Some((Json::Array(empty), p + 1))
    } else {
        match read_items(v, p, depth - 1) {
            Some((items, e)) => {
                assert(Json::Array(items)@->Array_0 =~= values_of(items@));
                Some((Json::Array(items), e))
            },
            None => None,
        }
    }
}

/// The object whose opening brace stands at `i`.
fn read_object(v: &Vec<char>, i: usize, depth: usize) -> (r: Option<(Json, usize)>)
    requires
        i < v.len(),
    ensures
        match r {
            Some((j, e)) => parse_object(v@.skip(i as int), depth as nat) == Some(
                (j@, v@.skip(e as int)),
            ) && i < e <= v.len(),
            None => parse_object(v@.skip(i as int), depth as nat) is None,
        },
    decreases depth, 0nat,
{
    let ghost s = v@.skip(i as int);
    let n = v.len();
    assert(s.skip(1) =~= v@.skip(i + 1));
    let p = skip_ws(v, i + 1);
    assert(p < n ==> v@.skip(p as int)[0] == v@[p as int]);
    if depth == 0 {
        None
    } else if p < n && v[p] == '}' {
        assert(v@.skip(p as int).skip(1) =~= v@.skip(p + 1));
        let empty: Vec<Member> = Vec::new();
        assert(Json::Object(empty)@->Object_0 =~= Seq::<Entry>::empty());
        Some((Json::Object(empty), p + 1))
    } else {
        match read_members(v, p, depth - 1) {
            Some((members, e)) => {
                assert(Json::Object(members)@->Object_0 =~= entries_of(members@));
                Some((Json::Object(members), e))
            },
            None => None,
        }
    }
}

/// The value that starts at `i`, and the position behind it.
pub fn read_value(v: &Vec<char>, i: usize, depth: usize) -> (r: Option<(Json, usize)>)
    requires
        i <= v.len(),
    ensures
        match r {
            Some((j, e)) => parse_value(v@.skip(i as int), depth as nat) == Some(
                (j@, v@.skip(e as int)),
            ) && i < e <= v.len(),
            None => parse_value(v@.skip(i as int), depth as nat) is None,
        },
    decreases depth, 1nat,
{
    let ghost s = v@.skip(i as int);
    if i >= v.len() {
        return None;
    }
    assert(s[0] == v@[i as int]);
    let c = v[i];
    if c == 'n' || c == 't' || c == 'f' {
        read_word(v, i)
    } else if c == '"' {
        assert(s.skip(1) =~= v@.skip(i + 1));
        match read_string(v, i + 1) {
            Some((text, e)) => Some((Json::Text(text), e)),
            None => None,
        }
    } else if c == '[' {
        read_array(v, i, depth)
    } else if c == '{' {
        read_object(v, i, depth)
    } else {
        match Number::scan(v, i) {
            Some((number, e)) => {
                assert(s.skip(e - i) =~= v@.skip(e as int));
                Some((Json::Number(number), e))
            },
            None => None,
        }
    }
}

/// The items of an array from the one at `p` on, and the position behind
/// the closing bracket.
fn read_items(v: &Vec<char>, p: usize, depth: usize) -> (r: Option<(Vec<Json>, usize)>)
    requires
        p <= v.len(),
    ensures
        match r {
            Some((items, e)) => parse_items(v@.skip(p as int), depth as nat) == Some(
                (values_of(items@), v@.skip(e as int)),
            ) && p < e <= v.len(),
            None => parse_items(v@.skip(p as int), depth as nat) is None,
        },
    decreases depth, 2nat,
{
    let n = v.len();
    let mut items: Vec<Json> = Vec::new();
    let mut j: usize = p;
    proof {
        assert(values_of(items@) =~= Seq::<Value>::empty());
        match parse_items(v@.skip(p as int), depth as nat) {
            Some((more, _)) => {
                assert(Seq::<Value>::empty() + more =~= more);
            },
            None => {},
        }
    }
    loop
        invariant
            n == v.len(),
            p <= j <= n,
            parse_items(v@.skip(p as int), depth as nat) == with_front(
                values_of(items@),
                parse_items(v@.skip(j as int), depth as nat),
            ),
        decreases n - j,
    {
        let ghost s = v@.skip(j as int);
        match read_value(v, j, depth) {
            Some((item, k)) => {
                let a = skip_ws(v, k);
                let ghost after = v@.skip(a as int);
                let ghost before = values_of(items@);
                assert(a < n ==> after[0] == v@[a as int]);
                if a < n && v[a] == ']' {
                    items.push(item);
                    proof {
                        assert(after.skip(1) =~= v@.skip(a + 1));
                        assert(values_of(items@) =~= before + seq![item@]);
                    }
                    return Some((items, a + 1));
                } else if a < n && v[a] == ',' {
                    let next = skip_ws(v, a + 1);
                    items.push(item);
                    proof {
                        assert(after.skip(1) =~= v@.skip(a + 1));
                        let rest = parse_items(v@.skip(next as int), depth as nat);
                        assert(parse_items(s, depth as nat) == with_front(seq![item@], rest));
                        match rest {
                            Some((more, _)) => {
                                assert(before + (seq![item@] + more) =~= values_of(items@) + more);
                            },
                            None => {},
                        }
                    }
                    j = next;
                } else {
                    return None;
                }
            },
            None => {
                return None;
            },
        }
    }
}

/// The member that starts at `j`, and the position behind it.
fn read_member(v: &Vec<char>, j: usize, depth: usize) -> (r: Option<(Member, usize)>)
    requires
        j <= v.len(),
    ensures
        match r {
            Some((member, e)) => parse_member(v@.skip(j as int), depth as nat) == Some(
                (Entry { key: member.key@, value: member.value@ }, v@.skip(e as int)),
            ) && j < e <= v.len(),
            None => parse_member(v@.skip(j as int), depth as nat) is None,
        },
    decreases depth, 2nat,
{
    let n = v.len();
    let ghost s = v@.skip(j as int);
    if !(j < n && v[j] == '"') {
        assert(j < n ==> s[0] == v@[j as int]);
        return None;
    }
    assert(s[0] == v@[j as int]);
    assert(s.skip(1) =~= v@.skip(j + 1));
    let (key, k) = match read_string(v, j + 1) {
        Some((key, k)) => (key, k),
        None => {
            return None;
        },
    };
    let colon = skip_ws(v, k);
    assert(colon < n ==> v@.skip(colon as int)[0] == v@[colon as int]);
    if !(colon < n && v[colon] == ':') {
        return None;
    }
    assert(v@.skip(colon as int).skip(1) =~= v@.skip(colon + 1));
    let start = skip_ws(v, colon + 1);
    match read_value(v, start, depth) {
        Some((value, e)) => Some((Member { key, value }, e)),
        None => None,
    }
}

/// The members of an object from the one at `p` on, and the position
/// behind the closing brace.
fn read_members(v: &Vec<char>, p: usize, depth: usize) -> (r: Option<(Vec<Member>, usize)>)
    requires
        p <= v.len(),
    ensures
        match r {
            Some((members, e)) => parse_members(v@.skip(p as int), depth as nat) == Some(
                (entries_of(members@), v@.skip(e as int)),
            ) && p < e <= v.len(),
            None => parse_members(v@.skip(p as int), depth as nat) is None,
        },
    decreases depth, 3nat,
{
    let n = v.len();
    let mut members: Vec<Member> = Vec::new();
    let mut j: usize = p;
    proof {
        assert(entries_of(members@) =~= Seq::<Entry>::empty());
        match parse_members(v@.skip(p as int), depth as nat) {
            Some((more, _)) => {
                assert(Seq::<Entry>::empty() + more =~= more);
            },
            None => {},
        }
    }
    loop
        invariant
            n == v.len(),
            p <= j <= n,
            parse_members(v@.skip(p as int), depth as nat) == with_front(
                entries_of(members@),
                parse_members(v@.skip(j as int), depth as nat),
            ),
        decreases n - j,
    {
        let ghost s = v@.skip(j as int);
        match read_member(v, j, depth) {
            Some((member, k)) => {
                let a = skip_ws(v, k);
                let ghost after = v@.skip(a as int);
                let ghost before = entries_of(members@);
                let ghost entry = Entry { key: member.key@, value: member.value@ };
                assert(a < n ==> after[0] == v@[a as int]);
                if a < n && v[a] == '}' {
                    members.push(member);
                    proof {
                        assert(after.skip(1) =~= v@.skip(a + 1));
                        assert(entries_of(members@) =~= before + seq![entry]);
                    }
                    return Some((members, a + 1));
                } else if a < n && v[a] == ',' {
                    let next = skip_ws(v, a + 1);
                    members.push(member);
                    proof {
                        assert(after.skip(1) =~= v@.skip(a + 1));
                        let rest = parse_members(v@.skip(next as int), depth as nat);
                        assert(parse_members(s, depth as nat) == with_front(seq![entry], rest));
                        match rest {
                            Some((more, _)) => {
                                assert(before + (seq![entry] + more) =~= entries_of(members@)
                                    + more);
                            },
                            None => {},
                        }
                    }
                    j = next;
                } else {
                    return None;
                }
            },
            None => {
                return None;
            },
        }
    }
}

/// Reads one JSON value from `text`: `Some` exactly when the whole text,
/// but for white space around it, is one value that is nested no deeper
/// than [`MAX_DEPTH`].
pub fn parse(text: &str) -> (r: Option<Json>)
    ensures
        match r {
            Some(j) => parse_text(text@) == Some(j@),
            None => parse_text(text@) is None,
        },
{
    let v = chars_of(text);
    assert(v@.skip(0) =~= v@);
    let start = skip_ws(&v, 0);
    match read_value(&v, start, MAX_DEPTH) {
        Some((j, e)) => {
            let end = skip_ws(&v, e);
            if end == v.len() {
                Some(j)
            } else {
                None
            }
        },
        None => None,
    }
}

} // verus!
