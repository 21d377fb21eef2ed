//! JSON values and their compact wire text.

use vstd::prelude::*;
use vstd::string::StringExecFns;
use crate::chars::push_char;
use crate::number::{is_number, Number};

verus! {

/// A JSON value as a mathematical tree. Numbers are kept as their literal,
/// strings as their characters, and an object as its members in order.
pub enum Value {
    Null,
    Bool(bool),
    Number(Seq<char>),
    Text(Seq<char>),
    Array(Seq<Value>),
    Object(Seq<Entry>),
}

/// One member of an object: a key and the value under it.
pub struct Entry {
    pub key: Seq<char>,
    pub value: Value,
}

/// A JSON value.
pub enum Json {
    Null,
    Bool(bool),
    Number(Number),
    Text(String),
    Array(Vec<Json>),
    Object(Vec<Member>),
}

/// One member of a JSON object.
pub struct Member {
    pub key: String,
    pub value: Json,
}

impl View for Json {
    type V = Value;

    open spec fn view(&self) -> Value
        decreases self,
    {
        match self {
            Json::Null => Value::Null,
            Json::Bool(b) => Value::Bool(*b),
            Json::Number(n) => Value::Number(n@),
            Json::Text(s) => Value::Text(s@),
            Json::Array(items) => Value::Array(
                Seq::new(
                    items@.len(),
                    |i: int|
                        if 0 <= i < items@.len() {
                            items@[i].view()
                        } else {
                            Value::Null
                        },
                ),
            ),
            Json::Object(members) => Value::Object(
                Seq::new(
                    members@.len(),
                    |i: int|
                        if 0 <= i < members@.len() {
                            Entry { key: members@[i].key@, value: members@[i].value.view() }
                        } else {
                            Entry { key: Seq::empty(), value: Value::Null }
                        },
                ),
            ),
        }
    }
}


/// The lower-case hexadecimal digit for a value below sixteen.
pub open spec fn hex_char(d: int) -> char {
    if d == 0 {
        '0'
    } else if d == 1 {
        '1'
    } else if d == 2 {
        '2'
    } else if d == 3 {
        '3'
    } else if d == 4 {
        '4'
    } else if d == 5 {
        '5'
    } else if d == 6 {
        '6'
    } else if d == 7 {
        '7'
    } else if d == 8 {
        '8'
    } else if d == 9 {
        '9'
    } else if d == 10 {
        'a'
    } else if d == 11 {
        'b'
    } else if d == 12 {
        'c'
    } else if d == 13 {
        'd'
    } else if d == 14 {
        'e'
    } else {
        'f'
    }
}

/// How one character of a string stands inside a JSON string literal: the
/// quote and the backslash behind a backslash, the control characters below
/// U+0020 as their short escape or as `\u00` and two hexadecimal digits, and
/// every other character as itself.
pub open spec fn escape_char(c: char) -> Seq<char> {
    if c == '"' {
        seq!['\\', '"']
    } else if c == '\\' {
        seq!['\\', '\\']
    } else if c == '\u{8}' {
        seq!['\\', 'b']
    } else if c == '\u{c}' {
        seq!['\\', 'f']
    } else if c == '\n' {
        seq!['\\', 'n']
    } else if c == '\r' {
        seq!['\\', 'r']
    } else if c == '\t' {
        seq!['\\', 't']
    } else if (c as u32) < 0x20 {
        seq!['\\', 'u', '0', '0', hex_char(c as u32 as int / 16), hex_char(c as u32 as int % 16)]
    } else {
        seq![c]
    }
}

/// The characters of `s`, each escaped, in order.
pub open spec fn escape(s: Seq<char>) -> Seq<char>
    decreases s.len(),
{
    if s.len() == 0 {
        Seq::empty()
    } else {
        escape_char(s[0]) + escape(s.drop_first())
    }
}

/// The JSON string literal for `s`.
pub open spec fn quote(s: Seq<char>) -> Seq<char> {
    seq!['"'] + escape(s) + seq!['"']
}

/// The compact wire text of a value: no white space, members and items in
/// order, separated by commas.
pub open spec fn value_text(v: Value) -> Seq<char>
    decreases v, 0nat,
{
    match v {
        Value::Null => seq!['n', 'u', 'l', 'l'],
        Value::Bool(b) => if b {
            seq!['t', 'r', 'u', 'e']
        } else {
            seq!['f', 'a', 'l', 's', 'e']
        },
        Value::Number(n) => n,
        Value::Text(s) => quote(s),
        Value::Array(items) => seq!['['] + items_text(items) + seq![']'],
        Value::Object(members) => seq!['{'] + members_text(members) + seq!['}'],
    }
}

/// The items of an array, separated by commas.
pub open spec fn items_text(items: Seq<Value>) -> Seq<char>
    decreases items, 1nat,
{
    if items.len() == 0 {
        Seq::empty()
    } else {
        value_text(items[0]) + items_tail(items.drop_first())
    }
}

/// The items after the first: each behind a comma.
pub open spec fn items_tail(items: Seq<Value>) -> Seq<char>
    decreases items, 0nat,
{
    if items.len() == 0 {
        Seq::empty()
    } else {
        seq![','] + value_text(items[0]) + items_tail(items.drop_first())
    }
}

/// One member of an object: its quoted key, a colon and its value.
pub open spec fn member_text(key: Seq<char>, v: Value) -> Seq<char>
    decreases v, 1nat,
{
    quote(key) + seq![':'] + value_text(v)
}

/// The members of an object, separated by commas.
pub open spec fn members_text(members: Seq<Entry>) -> Seq<char>
    decreases members, 1nat,
{
    if members.len() == 0 {
        Seq::empty()
    } else {
        member_text(members[0].key, members[0].value) + members_tail(members.drop_first())
    }
}

/// The members after the first: each behind a comma.
pub open spec fn members_tail(members: Seq<Entry>) -> Seq<char>
    decreases members, 0nat,
{
    if members.len() == 0 {
        Seq::empty()
    } else {
        seq![','] + member_text(members[0].key, members[0].value) + members_tail(members.drop_first())
    }
}


/// The value under `key` among `members`: that of the first member with
/// that key, if there is one.
pub open spec fn lookup(members: Seq<Entry>, key: Seq<char>) -> Option<Value>
    decreases members.len(),
{
    if members.len() == 0 {
        None
    } else if members[0].key == key {
        Some(members[0].value)
    } else {
        lookup(members.drop_first(), key)
    }
}

/// The value under `key` in `v`, if `v` is an object that has one.
pub open spec fn member(v: Value, key: Seq<char>) -> Option<Value> {
    match v {
        Value::Object(members) => lookup(members, key),
        _ => None,
    }
}

/// What a value that may be there stands for.
pub open spec fn seen(j: Option<&Json>) -> Option<Value> {
    match j {
        Some(j) => Some(j@),
        None => None,
    }
}

/// A member that is added at the end is found only under a key that none
/// before it has.
pub proof fn lemma_lookup_push(members: Seq<Entry>, last: Entry, key: Seq<char>)
    ensures
        lookup(members.push(last), key) == match lookup(members, key) {
            Some(value) => Some(value),
            None => if last.key == key {
                Some(last.value)
            } else {
                None
            },
        },
    decreases members.len(),
{
    let all = members.push(last);
    if members.len() == 0 {
        assert(all[0] == last);
        assert(all.drop_first() =~= Seq::<Entry>::empty());
        assert(lookup(all.drop_first(), key) is None);
    } else {
        assert(all[0] == members[0]);
        assert(all.drop_first() =~= members.drop_first().push(last));
        lemma_lookup_push(members.drop_first(), last, key);
    }
}

/// Whether every number inside `v` is a well-formed literal.
pub open spec fn well_formed(v: Value) -> bool
    decreases v,
{
    match v {
        Value::Number(n) => is_number(n),
        Value::Array(items) => forall|i: int|
            0 <= i < items.len() ==> well_formed(#[trigger] items[i]),
        Value::Object(members) => forall|i: int|
            0 <= i < members.len() ==> well_formed((#[trigger] members[i]).value),
        _ => true,
    }
}

/// Whether arrays and objects are nested at most `depth` deep in `v`.
pub open spec fn fits(v: Value, depth: nat) -> bool
    decreases v,
{
    match v {
        Value::Array(items) => depth > 0 && forall|i: int|
            0 <= i < items.len() ==> fits(#[trigger] items[i], (depth - 1) as nat),
        Value::Object(members) => depth > 0 && forall|i: int|
            0 <= i < members.len() ==> fits((#[trigger] members[i]).value, (depth - 1) as nat),
        _ => true,
    }
}

/// What fits a depth fits every greater one.
pub proof fn lemma_fits_deeper(v: Value, depth: nat, deeper: nat)
    requires
        fits(v, depth),
        depth <= deeper,
    ensures
        fits(v, deeper),
    decreases v,
{
    match v {
        Value::Array(items) => {
            assert forall|i: int| 0 <= i < items.len() implies fits(
                #[trigger] items[i],
                (deeper - 1) as nat,
            ) by {
                lemma_fits_deeper(items[i], (depth - 1) as nat, (deeper - 1) as nat);
            }
        },
        Value::Object(members) => {
            assert forall|i: int| 0 <= i < members.len() implies fits(
                (#[trigger] members[i]).value,
                (deeper - 1) as nat,
            ) by {
                lemma_fits_deeper(members[i].value, (depth - 1) as nat, (deeper - 1) as nat);
            }
        },
        _ => {},
    }
}

/// The hexadecimal digit for a value below sixteen.
fn hex_of(d: u32) -> (c: char)
    requires
        d < 16,
    ensures
        c == hex_char(d as int),
{
    if d == 0 {
        '0'
    } else if d == 1 {
        '1'
    } else if d == 2 {
        '2'
    } else if d == 3 {
        '3'
    } else if d == 4 {
        '4'
    } else if d == 5 {
        '5'
    } else if d == 6 {
        '6'
    } else if d == 7 {
        '7'
    } else if d == 8 {
        '8'
    } else if d == 9 {
        '9'
    } else if d == 10 {
        'a'
    } else if d == 11 {
        'b'
    } else if d == 12 {
        'c'
    } else if d == 13 {
        'd'
    } else if d == 14 {
        'e'
    } else {
        'f'
    }
}

/// Appends one character of a string in its escaped form.
pub fn write_escaped(out: &mut String, c: char)
    ensures
        final(out)@ == old(out)@ + escape_char(c),
{
    if c == '"' {
        push_char(out, '\\');
        push_char(out, '"');
    } else if c == '\\' {
        push_char(out, '\\');
        push_char(out, '\\');
    } else if c == '\u{8}' {
        push_char(out, '\\');
        push_char(out, 'b');
    } else if c == '\u{c}' {
        push_char(out, '\\');
        push_char(out, 'f');
    } else if c == '\n' {
        push_char(out, '\\');
        push_char(out, 'n');
    } else if c == '\r' {
        push_char(out, '\\');
        push_char(out, 'r');
    } else if c == '\t' {
        push_char(out, '\\');
        push_char(out, 't');
    } else if (c as u32) < 0x20 {
        push_char(out, '\\');
        push_char(out, 'u');
        push_char(out, '0');
        push_char(out, '0');
        push_char(out, hex_of(c as u32 / 16));
        push_char(out, hex_of(c as u32 % 16));
    } else {
        push_char(out, c);
    }
    assert(final(out)@ =~= old(out)@ + escape_char(c));
}

/// Appends the JSON string literal for `s`.
pub fn write_quoted(out: &mut String, s: &str)
    ensures
        final(out)@ == old(out)@ + quote(s@),
{
    let ghost before = out@;
    push_char(out, '"');
    assert(s@.skip(0) =~= s@);
    assert(out@ =~= before + seq!['"']);
    for c in it: s.chars()
        invariant
            it.seq() == s@,
            out@ + escape(s@.skip(it.index() as int)) == before + seq!['"'] + escape(s@),
    {
        proof {
            let i = it.index() as int;
            assert(s@.skip(i).drop_first() =~= s@.skip(i + 1));
            assert(s@.skip(i)[0] == c);
        }
        let ghost prev = out@;
        write_escaped(out, c);
        assert(out@ + escape(s@.skip(it.index() + 1)) =~= prev + escape(s@.skip(it.index() as int)));
    }
    assert(escape(s@.skip(s@.len() as int)) =~= Seq::<char>::empty());
    push_char(out, '"');
    assert(out@ =~= before + quote(s@));
}

impl Json {
    /// Appends the wire text of this value to `out`.
    pub fn write(&self, out: &mut String)
        ensures
            final(out)@ == old(out)@ + value_text(self@),
            well_formed(self@),
        decreases self,
    {
        let ghost before = out@;
        match self {
            Json::Null => {
                push_char(out, 'n');
                push_char(out, 'u');
                push_char(out, 'l');
                push_char(out, 'l');
                assert(out@ =~= before + value_text(self@));
            },
            Json::Bool(b) => {
                if *b {
                    push_char(out, 't');
                    push_char(out, 'r');
                    push_char(out, 'u');
                    push_char(out, 'e');
                } else {
                    push_char(out, 'f');
                    push_char(out, 'a');
                    push_char(out, 'l');
                    push_char(out, 's');
                    push_char(out, 'e');
                }
                assert(out@ =~= before + value_text(self@));
            },
            Json::Number(n) => {
                out.append(n.as_str());
            },
            Json::Text(s) => {
                write_quoted(out, s.as_str());
            },
            Json::Array(items) => {
                let ghost views = self@->Array_0;
                push_char(out, '[');
                let mut i: usize = 0;
                while i < items.len()
                    invariant
                        i <= items.len(),
                        self == Json::Array(*items),
                        views == self@->Array_0,
                        views.len() == items@.len(),
                        forall|k: int| 0 <= k < i ==> well_formed(#[trigger] views[k]),
                        out@ + (if i == 0 {
                            items_text(views)
                        } else {
                            items_tail(views.skip(i as int))
                        }) == before + seq!['['] + items_text(views),
                    decreases items.len() - i,
                {
                    let ghost prev = out@;
                    if i > 0 {
                        push_char(out, ',');
                    }
                    items[i].write(out);
                    proof {
                        assert(views[i as int] == items@[i as int]@);
                        assert(views.skip(i as int)[0] == views[i as int]);
                        assert(views.skip(i as int).drop_first() =~= views.skip(i + 1));
                        if i == 0 {
                            assert(views.drop_first() =~= views.skip(1));
                            assert(out@ + items_tail(views.skip(1)) =~= prev + items_text(views));
                        } else {
                            assert(out@ + items_tail(views.skip(i + 1)) =~= prev + items_tail(
                                views.skip(i as int),
                            ));
                        }
                    }
                    i += 1;
                }
                proof {
                    if i > 0 {
                        assert(items_tail(views.skip(i as int)) =~= Seq::<char>::empty());
                    }
                    assert(items.len() == 0 ==> items_text(views) =~= Seq::<char>::empty());
                }
                push_char(out, ']');
                assert(out@ =~= before + value_text(self@));
            },
            Json::Object(members) => {
                let ghost views = self@->Object_0;
                assert(self@ is Object);
                assert(views.len() == members@.len());
                push_char(out, '{');
                let mut i: usize = 0;
                while i < members.len()
                    invariant
                        i <= members.len(),
                        self == Json::Object(*members),
                        views == self@->Object_0,
                        views.len() == members@.len(),
                        forall|k: int| 0 <= k < i ==> well_formed((#[trigger] views[k]).value),
                        out@ + (if i == 0 {
                            members_text(views)
                        } else {
                            members_tail(views.skip(i as int))
                        }) == before + seq!['{'] + members_text(views),
                    decreases members.len() - i,
                {
                    let ghost prev = out@;
                    if i > 0 {
                        push_char(out, ',');
                    }
                    write_quoted(out, members[i].key.as_str());
                    push_char(out, ':');
                    members[i].value.write(out);
                    proof {
                        assert(views[i as int] == (Entry { key: members@[i as int].key@, value: members@[i as int].value@ }));
                        assert(views.skip(i as int)[0] == views[i as int]);
                        assert(views.skip(i as int).drop_first() =~= views.skip(i + 1));
                        if i == 0 {
                            assert(views.drop_first() =~= views.skip(1));
                            assert(out@ + members_tail(views.skip(1)) =~= prev + members_text(
                                views,
                            ));
                        } else {
                            let e = views[i as int];
                            assert(out@ =~= prev + (seq![','] + member_text(e.key, e.value)));
                            assert(members_tail(views.skip(i as int)) =~= seq![','] + member_text(
                                e.key,
                                e.value,
                            ) + members_tail(views.skip(i + 1)));
                        }
                    }
                    i += 1;
                }
                proof {
                    if i > 0 {
                        assert(members_tail(views.skip(i as int)) =~= Seq::<char>::empty());
                    }
                    assert(members.len() == 0 ==> members_text(views) =~= Seq::<char>::empty());
                }
                push_char(out, '}');
                assert(out@ =~= before + value_text(self@));
            },
        }
    }

    /// The value under `key`, if this is an object that has one: that of
    /// the first member with that key.
    pub fn get(&self, key: &str) -> (found: Option<&Json>)
        ensures
            seen(found) == member(self@, key@),
    {
        match self {
            Json::Object(members) => {
                let wanted = key.to_owned();
                let ghost entries = self@->Object_0;
                let mut i: usize = 0;
                assert(entries.skip(0) =~= entries);
                while i < members.len()
                    invariant
                        i <= members.len(),
                        wanted@ == key@,
                        self@ is Object,
                        entries == self@->Object_0,
                        entries.len() == members@.len(),
                        forall|k: int|
                            0 <= k < entries.len() ==> (#[trigger] entries[k]) == (Entry {
                                key: members@[k].key@,
                                value: members@[k].value@,
                            }),
                        lookup(entries, key@) == lookup(entries.skip(i as int), key@),
                    decreases members.len() - i,
                {
                    let ghost rest = entries.skip(i as int);
                    assert(rest[0] == entries[i as int]);
                    assert(rest.drop_first() =~= entries.skip(i + 1));
                    if members[i].key == wanted {
                        assert(self@ == Value::Object(entries));
                        assert(lookup(rest, key@) == Some(members@[i as int].value@));
                        return Some(&members[i].value);
                    }
                    i += 1;
                }
                None
            },
            _ => None,
        }
    }

    /// A copy of this value.
    pub fn duplicate(&self) -> (copy: Json)
        ensures
            copy@ == self@,
        decreases self,
    {
        match self {
            Json::Null => Json::Null,
            Json::Bool(b) => Json::Bool(*b),
            Json::Number(n) => Json::Number(n.clone()),
            Json::Text(s) => Json::Text(s.clone()),
            Json::Array(items) => {
                let mut copies: Vec<Json> = Vec::new();
                let mut i: usize = 0;
                while i < items.len()
                    invariant
                        i <= items.len(),
                        decreases_to!(*self => *items),
                        copies@.len() == i,
                        forall|k: int| 0 <= k < i ==> (#[trigger] copies@[k])@ == items@[k]@,
                    decreases items.len() - i,
                {
                    copies.push(items[i].duplicate());
                    i += 1;
                }
                assert(Json::Array(copies)@->Array_0 =~= self@->Array_0);
                Json::Array(copies)
            },
            Json::Object(members) => {
                let mut copies: Vec<Member> = Vec::new();
                let mut i: usize = 0;
                while i < members.len()
                    invariant
                        i <= members.len(),
                        decreases_to!(*self => *members),
                        copies@.len() == i,
                        forall|k: int|
                            0 <= k < i ==> (#[trigger] copies@[k]).key@ == members@[k].key@
                                && copies@[k].value@ == members@[k].value@,
                    decreases members.len() - i,
                {
                    copies.push(
                        Member { key: members[i].key.clone(), value: members[i].value.duplicate() },
                    );
                    i += 1;
                }
                assert(Json::Object(copies)@->Object_0 =~= self@->Object_0);
                Json::Object(copies)
            },
        }
    }

    /// The wire text of this value.
    pub fn to_text(&self) -> (text: String)
        ensures
            text@ == value_text(self@),
            well_formed(self@),
    {
        let mut text = String::new();
        self.write(&mut text);
        assert(text@ =~= value_text(self@));
        text
    }
}

} // verus!
