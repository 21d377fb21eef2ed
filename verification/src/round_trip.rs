//! Reading undoes writing: the wire text of a value is read back as that
//! value.

use vstd::prelude::*;
use crate::json::{
    escape, escape_char, hex_char, items_tail, items_text, member_text, members_tail, fits,
    members_text, quote, value_text, well_formed, Entry, Value,
};
use crate::number::{continues_number, is_digit, is_number, lemma_number_end_agree};
use crate::parse::{
    char_at_code, hex4, hex_value, is_space, parse_array, parse_items, parse_member, parse_members,
    parse_object, parse_text, parse_value, parse_word, skip_spaces, string_body, string_char,
    unicode_escape, MAX_DEPTH,
};

verus! {

/// Whether a value can start with `c`.
pub open spec fn opens_value(c: char) -> bool {
    c == 'n' || c == 't' || c == 'f' || c == '"' || c == '[' || c == '{' || c == '-' || is_digit(c)
}

/// The wire text of a value is not empty, and its first character tells
/// what kind of value it is.
pub proof fn lemma_text_front(v: Value)
    requires
        well_formed(v),
    ensures
        value_text(v).len() > 0,
        opens_value(value_text(v)[0]),
        !is_space(value_text(v)[0]),
        !continues_number(value_text(v)[0]) || v is Number,
        v is Null ==> value_text(v)[0] == 'n',
        v is Bool ==> value_text(v)[0] == 't' || value_text(v)[0] == 'f',
        v is Text ==> value_text(v)[0] == '"',
        v is Array ==> value_text(v)[0] == '[',
        v is Object ==> value_text(v)[0] == '{',
        v is Number ==> value_text(v)[0] == '-' || is_digit(value_text(v)[0]),
{
}

/// A hexadecimal digit is read back as its value.
pub proof fn lemma_hex_char(d: int)
    requires
        0 <= d < 16,
    ensures
        hex_value(hex_char(d)) == Some(d),
{
}

/// An escaped character is read back as that character.
pub proof fn lemma_string_char_escape(c: char, rest: Seq<char>)
    ensures
        string_char(escape_char(c) + rest) == Some((c, rest)),
        (escape_char(c) + rest)[0] != '"',
        (escape_char(c) + rest).len() > rest.len(),
{
    let s = escape_char(c) + rest;
    if c == '"' || c == '\\' || c == '\u{8}' || c == '\u{c}' || c == '\n' || c == '\r' || c
        == '\t' {
        assert(s[0] == '\\');
        assert(s.skip(1).skip(1) =~= rest);
    } else if (c as u32) < 0x20 {
        let code = c as u32 as int;
        lemma_hex_char(code / 16);
        lemma_hex_char(code % 16);
        assert(s[0] == '\\');
        let t = s.skip(1);
        assert(t[0] == 'u');
        let u = t.skip(1);
        assert(u[0] == '0' && u[1] == '0' && u[2] == hex_char(code / 16) && u[3] == hex_char(
            code % 16,
        ));
        assert(hex4(u) == Some(code));
        assert(u.skip(4) =~= rest);
        vstd::utf8::char_u32_cast(c, c as u32);
        assert(char_at_code(code) == c);
        assert(unicode_escape(u) == Some((c, rest)));
    } else {
        assert(s[0] == c);
        assert(s.skip(1) =~= rest);
    }
}

/// An escaped string with its closing quote is read back as that string.
pub proof fn lemma_string_body_escape(text: Seq<char>, rest: Seq<char>)
    ensures
        string_body(escape(text) + seq!['"'] + rest) == Some((text, rest)),
    decreases text.len(),
{
    let s = escape(text) + seq!['"'] + rest;
    if text.len() == 0 {
        assert(s[0] == '"');
        assert(s.skip(1) =~= rest);
        assert(text =~= Seq::<char>::empty());
    } else {
        let c = text[0];
        let more = text.drop_first();
        let behind = escape(more) + seq!['"'] + rest;
        assert(s =~= escape_char(c) + behind);
        lemma_string_char_escape(c, behind);
        lemma_string_body_escape(more, rest);
        assert(seq![c] + more =~= text);
    }
}

/// A well-formed number literal is read back whole wherever no character
/// that a literal could hold follows it.
pub proof fn lemma_parse_number(n: Seq<char>, rest: Seq<char>, depth: nat)
    requires
        is_number(n),
        rest.len() == 0 || !continues_number(rest[0]),
    ensures
        parse_value(n + rest, depth) == Some((Value::Number(n), rest)),
{
    let s = n + rest;
    lemma_number_end_agree(n, s, n.len() as int);
    assert(s.take(n.len() as int) =~= n);
    assert(s.skip(n.len() as int) =~= rest);
    assert(s[0] == n[0]);
    assert(n[0] == '-' || is_digit(n[0]));
}

/// The words `null`, `true` and `false` are read back as what they stand
/// for.
pub proof fn lemma_parse_word(v: Value, rest: Seq<char>, depth: nat)
    requires
        v is Null || v is Bool,
    ensures
        parse_value(value_text(v) + rest, depth) == Some((v, rest)),
{
    let s = value_text(v) + rest;
    let null = seq!['n', 'u', 'l', 'l'];
    let yes = seq!['t', 'r', 'u', 'e'];
    let no = seq!['f', 'a', 'l', 's', 'e'];
    match v {
        Value::Null => {
            assert(s.take(4) =~= null);
            assert(s.skip(4) =~= rest);
        },
        Value::Bool(b) => {
            if b {
                assert(s.take(4)[0] != null[0]);
                assert(s.take(4) =~= yes);
                assert(s.skip(4) =~= rest);
            } else {
                assert(s.take(4)[0] != null[0]);
                assert(s.take(4)[0] != yes[0]);
                assert(s.take(5) =~= no);
                assert(s.skip(5) =~= rest);
            }
        },
        _ => {},
    }
    assert(parse_word(s) == Some((v, rest)));
}

/// Text that starts with no white space is left as it is.
pub proof fn lemma_no_space(s: Seq<char>)
    requires
        s.len() == 0 || !is_space(s[0]),
    ensures
        skip_spaces(s) == s,
{
}


/// A string literal is read back as its string.
pub proof fn lemma_parse_string(text: Seq<char>, rest: Seq<char>, depth: nat)
    ensures
        parse_value(quote(text) + rest, depth) == Some((Value::Text(text), rest)),
{
    let s = quote(text) + rest;
    assert(s[0] == '"');
    assert(s.skip(1) =~= escape(text) + seq!['"'] + rest);
    lemma_string_body_escape(text, rest);
}

/// The wire text of an array is read back as that array.
pub proof fn lemma_parse_array(v: Value, rest: Seq<char>, depth: nat)
    requires
        v is Array,
        well_formed(v),
        fits(v, depth),
    ensures
        parse_array(value_text(v) + rest, depth) == Some((v, rest)),
    decreases v, 0nat,
{
    let s = value_text(v) + rest;
    let items = v->Array_0;
    let inner = s.skip(1);
    assert(inner =~= items_text(items) + seq![']'] + rest);
    if items.len() == 0 {
        assert(inner[0] == ']');
        lemma_no_space(inner);
        assert(inner.skip(1) =~= rest);
        assert(items =~= Seq::<Value>::empty());
    } else {
        lemma_text_front(items[0]);
        assert(inner[0] == value_text(items[0])[0]);
        lemma_no_space(inner);
        lemma_parse_items(items, rest, (depth - 1) as nat);
    }
}

/// The wire text of an object is read back as that object.
pub proof fn lemma_parse_object(v: Value, rest: Seq<char>, depth: nat)
    requires
        v is Object,
        well_formed(v),
        fits(v, depth),
    ensures
        parse_object(value_text(v) + rest, depth) == Some((v, rest)),
    decreases v, 0nat,
{
    let s = value_text(v) + rest;
    let members = v->Object_0;
    let inner = s.skip(1);
    assert(inner =~= members_text(members) + seq!['}'] + rest);
    if members.len() == 0 {
        assert(inner[0] == '}');
        lemma_no_space(inner);
        assert(inner.skip(1) =~= rest);
        assert(members =~= Seq::<Entry>::empty());
    } else {
        assert(inner[0] == '"');
        lemma_no_space(inner);
        lemma_parse_members(members, rest, (depth - 1) as nat);
    }
}

/// The wire text of a value is read back as that value, with the text
/// behind it left over, wherever that text does not start with a character
/// that a number literal could hold.
pub proof fn lemma_parse_value(v: Value, rest: Seq<char>, depth: nat)
    requires
        well_formed(v),
        fits(v, depth),
        rest.len() == 0 || !continues_number(rest[0]),
    ensures
        parse_value(value_text(v) + rest, depth) == Some((v, rest)),
    decreases v, 1nat,
{
    let s = value_text(v) + rest;
    lemma_text_front(v);
    assert(s[0] == value_text(v)[0]);
    match v {
        Value::Null => {
            lemma_parse_word(v, rest, depth);
        },
        Value::Bool(_) => {
            lemma_parse_word(v, rest, depth);
        },
        Value::Number(n) => {
            lemma_parse_number(n, rest, depth);
        },
        Value::Text(text) => {
            lemma_parse_string(text, rest, depth);
        },
        Value::Array(_) => {
            lemma_parse_array(v, rest, depth);
        },
        Value::Object(_) => {
            lemma_parse_object(v, rest, depth);
        },
    }
}

/// The items of an array, written with commas between them and the closing
/// bracket behind them, are read back as those items.
pub proof fn lemma_parse_items(items: Seq<Value>, rest: Seq<char>, depth: nat)
    requires
        items.len() > 0,
        forall|i: int| 0 <= i < items.len() ==> well_formed(#[trigger] items[i]),
        forall|i: int| 0 <= i < items.len() ==> fits(#[trigger] items[i], depth),
    ensures
        parse_items(items_text(items) + seq![']'] + rest, depth) == Some((items, rest)),
    decreases items, 2nat,
{
    let s = items_text(items) + seq![']'] + rest;
    let first = items[0];
    let others = items.drop_first();
    let behind = items_tail(others) + seq![']'] + rest;
    assert(s =~= value_text(first) + behind);
    assert(!continues_number(behind[0]));
    lemma_parse_value(first, behind, depth);
    lemma_no_space(behind);
    if others.len() == 0 {
        assert(behind[0] == ']');
        assert(behind.skip(1) =~= rest);
        assert(seq![first] =~= items);
    } else {
        assert(behind[0] == ',');
        let next = items_text(others) + seq![']'] + rest;
        assert(behind.skip(1) =~= next);
        assert(well_formed(others[0])) by {
            assert(others[0] == items[1]);
        }
        lemma_text_front(others[0]);
        assert(next[0] == value_text(others[0])[0]);
        lemma_no_space(next);
        assert forall|i: int| 0 <= i < others.len() implies well_formed(#[trigger] others[i])
            && fits(others[i], depth) by {
            assert(others[i] == items[i + 1]);
        }
        lemma_parse_items(others, rest, depth);
        assert(seq![first] + others =~= items);
        assert(next.len() < s.len());
    }
}

/// One member of an object is read back as that member.
pub proof fn lemma_parse_member(entry: Entry, rest: Seq<char>, depth: nat)
    requires
        well_formed(entry.value),
        fits(entry.value, depth),
        rest.len() == 0 || !continues_number(rest[0]),
    ensures
        parse_member(member_text(entry.key, entry.value) + rest, depth) == Some((entry, rest)),
    decreases entry.value, 2nat,
{
    let s = member_text(entry.key, entry.value) + rest;
    let behind = seq![':'] + value_text(entry.value) + rest;
    assert(s[0] == '"');
    assert(s.skip(1) =~= escape(entry.key) + seq!['"'] + behind);
    lemma_string_body_escape(entry.key, behind);
    lemma_no_space(behind);
    let start = value_text(entry.value) + rest;
    assert(behind.skip(1) =~= start);
    lemma_text_front(entry.value);
    assert(start[0] == value_text(entry.value)[0]);
    lemma_no_space(start);
    lemma_parse_value(entry.value, rest, depth);
    assert(start.len() < s.len());
}

/// The members of an object, written with commas between them and the
/// closing brace behind them, are read back as those members.
pub proof fn lemma_parse_members(members: Seq<Entry>, rest: Seq<char>, depth: nat)
    requires
        members.len() > 0,
        forall|i: int| 0 <= i < members.len() ==> well_formed((#[trigger] members[i]).value),
        forall|i: int| 0 <= i < members.len() ==> fits((#[trigger] members[i]).value, depth),
    ensures
        parse_members(members_text(members) + seq!['}'] + rest, depth) == Some((members, rest)),
    decreases members, 3nat,
{
    let s = members_text(members) + seq!['}'] + rest;
    let first = members[0];
    let others = members.drop_first();
    let behind = members_tail(others) + seq!['}'] + rest;
    assert(s =~= member_text(first.key, first.value) + behind);
    assert(!continues_number(behind[0]));
    lemma_parse_member(first, behind, depth);
    lemma_no_space(behind);
    if others.len() == 0 {
        assert(behind[0] == '}');
        assert(behind.skip(1) =~= rest);
        assert(seq![first] =~= members);
    } else {
        assert(behind[0] == ',');
        let next = members_text(others) + seq!['}'] + rest;
        assert(behind.skip(1) =~= next);
        assert(next[0] == '"');
        lemma_no_space(next);
        assert forall|i: int| 0 <= i < others.len() implies well_formed(
            (#[trigger] others[i]).value,
        ) && fits(others[i].value, depth) by {
            assert(others[i] == members[i + 1]);
        }
        lemma_parse_members(others, rest, depth);
        assert(seq![first] + others =~= members);
        assert(next.len() < s.len());
    }
}

/// Reading undoes writing: the wire text of every value whose numbers are
/// well formed and which is nested no deeper than [`MAX_DEPTH`] is read
/// back as that value.
pub proof fn lemma_parse_text(v: Value)
    requires
        well_formed(v),
        fits(v, MAX_DEPTH as nat),
    ensures
        parse_text(value_text(v)) == Some(v),
{
    let rest = Seq::<char>::empty();
    lemma_text_front(v);
    lemma_no_space(value_text(v));
    lemma_parse_value(v, rest, MAX_DEPTH as nat);
    assert(value_text(v) + rest =~= value_text(v));
}

} // verus!
