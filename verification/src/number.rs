//! JSON number literals.
//!
//! A [`Number`] keeps a number exactly as it is written on the wire, so that
//! nothing is lost or rounded between the caller and the request body.

use vstd::prelude::*;
use crate::chars::{chars_of, push_char, string_of};

verus! {

/// Whether `c` is one of the ten decimal digits.
pub open spec fn is_digit(c: char) -> bool {
    '0' <= c && c <= '9'
}

/// The position just after the longest run of digits of `s` that starts at `i`.
pub open spec fn digits_end(s: Seq<char>, i: int) -> int
    decreases s.len() - i,
{
    if 0 <= i < s.len() && is_digit(s[i]) {
        digits_end(s, i + 1)
    } else {
        i
    }
}

/// Where an optional fraction that starts at `b` ends: a dot and at least one digit.
pub open spec fn fraction_end(s: Seq<char>, b: int) -> Option<int> {
    if 0 <= b < s.len() && s[b] == '.' {
        if b + 1 < s.len() && is_digit(s[b + 1]) {
            Some(digits_end(s, b + 1))
        } else {
            None
        }
    } else {
        Some(b)
    }
}

/// Where an optional exponent that starts at `c` ends: `e` or `E`, an optional
/// sign and at least one digit.
pub open spec fn exponent_end(s: Seq<char>, c: int) -> Option<int> {
    if 0 <= c < s.len() && (s[c] == 'e' || s[c] == 'E') {
        let d = if c + 1 < s.len() && (s[c + 1] == '+' || s[c + 1] == '-') {
            c + 2
        } else {
            c + 1
        };
        if d < s.len() && is_digit(s[d]) {
            Some(digits_end(s, d))
        } else {
            None
        }
    } else {
        Some(c)
    }
}

/// Where the JSON number literal that starts at `start` ends, if one starts
/// there: an optional minus, then `0` or a digit run without a leading zero,
/// then an optional fraction and an optional exponent.
pub open spec fn number_end(s: Seq<char>, start: int) -> Option<int> {
    let a = if 0 <= start < s.len() && s[start] == '-' {
        start + 1
    } else {
        start
    };
    if 0 <= a < s.len() && is_digit(s[a]) {
        let b = if s[a] == '0' {
            a + 1
        } else {
            digits_end(s, a)
        };
        match fraction_end(s, b) {
            Some(c) => exponent_end(s, c),
            None => None,
        }
    } else {
        None
    }
}

/// Whether the whole of `s` is one JSON number literal.
pub open spec fn is_number(s: Seq<char>) -> bool {
    number_end(s, 0) == Some(s.len() as int)
}

/// The character that stands for the digit `d`.
pub open spec fn digit_char(d: int) -> char {
    if d == 0 {
        '0'
    } else if d == 1 {
        '1'
    } else if d == 2 {
        '2'
    } else if d == 3 {
        '3'
    } else if d == 4 {
        '4'
    } else if d == 5 {
        '5'
    } else if d == 6 {
        '6'
    } else if d == 7 {
        '7'
    } else if d == 8 {
        '8'
    } else {
        '9'
    }
}

/// The digit that `c` stands for.
pub open spec fn digit_value(c: char) -> int {
    c as int - '0' as int
}

/// The decimal digits of a natural number, without leading zeros.
pub open spec fn nat_text(n: nat) -> Seq<char>
    decreases n,
{
    if n < 10 {
        seq![digit_char(n as int)]
    } else {
        nat_text(n / 10).push(digit_char((n % 10) as int))
    }
}

/// The decimal form of an integer: a minus sign if it is negative, then the
/// digits of its magnitude.
pub open spec fn int_text(n: int) -> Seq<char> {
    if n < 0 {
        seq!['-'] + nat_text((-n) as nat)
    } else {
        nat_text(n as nat)
    }
}

/// The number that a run of digits denotes, read from the left.
pub open spec fn digits_value(s: Seq<char>) -> nat
    decreases s.len(),
{
    if s.len() == 0 {
        0
    } else {
        (digits_value(s.drop_last()) * 10 + digit_value(s.last())) as nat
    }
}

/// Whether `c` is a decimal digit.
pub fn digit(c: char) -> (b: bool)
    ensures
        b == is_digit(c),
{
    '0' <= c && c <= '9'
}

/// The end of the digit run of `v` that starts at `i`, where the text that
/// is read starts at `base`.
pub fn scan_digits(v: &Vec<char>, base: usize, i: usize) -> (end: usize)
    requires
        base <= i <= v.len(),
    ensures
        end - base == digits_end(v@.skip(base as int), i - base),
        i <= end <= v.len(),
        forall|k: int| i <= k < end ==> is_digit(#[trigger] v@[k]),
        end < v.len() ==> !is_digit(v@[end as int]),
{
    let ghost s = v@.skip(base as int);
    let mut j: usize = i;
    while j < v.len() && digit(v[j])
        invariant
            base <= i <= j <= v.len(),
            s == v@.skip(base as int),
            digits_end(s, i - base) == digits_end(s, j - base),
            forall|k: int| i <= k < j ==> is_digit(#[trigger] v@[k]),
        decreases v.len() - j,
    {
        assert(s[j - base] == v@[j as int]);
        j += 1;
    }
    assert(j < v.len() ==> s[j - base] == v@[j as int]);
    j
}

/// The end of the JSON number literal of `v` that starts at `start`.
pub fn scan_number(v: &Vec<char>, start: usize) -> (end: Option<usize>)
    requires
        start <= v.len(),
    ensures
        match end {
            Some(e) => number_end(v@.skip(start as int), 0) == Some(e - start) && start < e
                <= v.len(),
            None => number_end(v@.skip(start as int), 0) is None,
        },
{
    let n = v.len();
    let ghost s = v@.skip(start as int);
    assert(s.len() == n - start);
    assert(start < n ==> s[0] == v@[start as int]);
    let a: usize = if start < n && v[start] == '-' {
        start + 1
    } else {
        start
    };
    assert(a < n ==> s[a - start] == v@[a as int]);
    if !(a < n && digit(v[a])) {
        return None;
    }
    let b: usize = if v[a] == '0' {
        a + 1
    } else {
        scan_digits(v, start, a)
    };
    assert(b < n ==> s[b - start] == v@[b as int]);
    assert(b + 1 < n ==> s[b + 1 - start] == v@[b + 1]);
    let c: usize = if b < n && v[b] == '.' {
        if b + 1 < n && digit(v[b + 1]) {
            scan_digits(v, start, b + 1)
        } else {
            return None;
        }
    } else {
        b
    };
    assert(c < n ==> s[c - start] == v@[c as int]);
    assert(c + 1 < n ==> s[c + 1 - start] == v@[c + 1]);
    if c < n && (v[c] == 'e' || v[c] == 'E') {
        let d: usize = if c + 1 < n && (v[c + 1] == '+' || v[c + 1] == '-') {
            c + 2
        } else {
            c + 1
        };
        assert(d < n ==> s[d - start] == v@[d as int]);
        if d < n && digit(v[d]) {
            Some(scan_digits(v, start, d))
        } else {
            None
        }
    } else {
        Some(c)
    }
}

/// The integer that `s` denotes when it is read as an optional minus sign
/// followed by digits.
pub open spec fn signed_value(s: Seq<char>) -> int {
    if s.len() > 0 && s[0] == '-' {
        -(digits_value(s.skip(1)) as int)
    } else {
        digits_value(s) as int
    }
}

/// The integer that `s` is the decimal form of, if it is the decimal form of
/// one: no fraction, no exponent, no leading zero, no `-0`.
pub open spec fn integer_of(s: Seq<char>) -> Option<int> {
    if int_text(signed_value(s)) == s {
        Some(signed_value(s))
    } else {
        None
    }
}

/// `digit_char` and `digit_value` undo each other on the ten digits.
pub proof fn lemma_digit_char(d: int)
    requires
        0 <= d < 10,
    ensures
        is_digit(digit_char(d)),
        digit_value(digit_char(d)) == d,
        (digit_char(d) == '0') == (d == 0),
{
}

/// The decimal digits of a natural number are digits, start with no zero
/// unless the number is zero, and denote the number.
pub proof fn lemma_nat_text(n: nat)
    ensures
        nat_text(n).len() >= 1,
        forall|k: int| 0 <= k < nat_text(n).len() ==> is_digit(#[trigger] nat_text(n)[k]),
        n > 0 ==> nat_text(n)[0] != '0',
        n == 0 ==> nat_text(n) == seq!['0'],
        digits_value(nat_text(n)) == n,
    decreases n,
{
    let t = nat_text(n);
    if n < 10 {
        lemma_digit_char(n as int);
        assert(t.drop_last() =~= Seq::<char>::empty());
        assert(digits_value(t.drop_last()) == 0);
        assert(t.last() == digit_char(n as int));
    } else {
        let h = nat_text(n / 10);
        lemma_nat_text(n / 10);
        lemma_digit_char((n % 10) as int);
        assert(t.drop_last() =~= h);
        assert(t.last() == digit_char((n % 10) as int));
        assert(t[0] == h[0]);
        assert forall|k: int| 0 <= k < t.len() implies is_digit(#[trigger] t[k]) by {
            if k < h.len() {
                assert(t[k] == h[k]);
            }
        }
    }
}

/// A run of digits that is closed by a non-digit or by the end of the text
/// is found whole.
pub proof fn lemma_digits_end_run(s: Seq<char>, i: int, j: int)
    requires
        0 <= i <= j <= s.len(),
        forall|k: int| i <= k < j ==> is_digit(#[trigger] s[k]),
        j < s.len() ==> !is_digit(s[j]),
    ensures
        digits_end(s, i) == j,
    decreases j - i,
{
    if i < j {
        lemma_digits_end_run(s, i + 1, j);
    }
}

/// The decimal form of an integer is a JSON number literal, and denotes that
/// integer.
pub proof fn lemma_int_text(n: int)
    ensures
        is_number(int_text(n)),
        integer_of(int_text(n)) == Some(n),
{
    let s = int_text(n);
    if n < 0 {
        let m = (-n) as nat;
        lemma_nat_text(m);
        assert(s.skip(1) =~= nat_text(m));
        assert(s[0] == '-');
        assert(s[1] == nat_text(m)[0]);
        assert forall|k: int| 1 <= k < s.len() implies is_digit(#[trigger] s[k]) by {
            assert(s[k] == nat_text(m)[k - 1]);
        }
        lemma_digits_end_run(s, 1, s.len() as int);
    } else {
        lemma_nat_text(n as nat);
        assert(is_digit(s[0]));
        lemma_digits_end_run(s, 0, s.len() as int);
    }
}

/// Adding digits at the end never makes the denoted number smaller.
pub proof fn lemma_digits_value_prefix(s: Seq<char>, k: int)
    requires
        0 <= k <= s.len(),
        forall|i: int| 0 <= i < s.len() ==> is_digit(#[trigger] s[i]),
    ensures
        digits_value(s.take(k)) <= digits_value(s),
    decreases s.len() - k,
{
    if k == s.len() {
        assert(s.take(k) =~= s);
    } else {
        lemma_digits_value_prefix(s, k + 1);
        let t = s.take(k + 1);
        assert(t.drop_last() =~= s.take(k));
        assert(t.last() == s[k]);
        assert(is_digit(s[k]));
    }
}


/// The character for a digit below ten.
fn digit_of(d: u64) -> (c: char)
    requires
        d < 10,
    ensures
        c == digit_char(d as int),
{
    if d == 0 {
        '0'
    } else if d == 1 {
        '1'
    } else if d == 2 {
        '2'
    } else if d == 3 {
        '3'
    } else if d == 4 {
        '4'
    } else if d == 5 {
        '5'
    } else if d == 6 {
        '6'
    } else if d == 7 {
        '7'
    } else if d == 8 {
        '8'
    } else {
        '9'
    }
}

/// Appends the decimal digits of `n` to `out`.
pub fn push_nat(out: &mut String, n: u64)
    ensures
        final(out)@ == old(out)@ + nat_text(n as nat),
    decreases n,
{
    if n >= 10 {
        push_nat(out, n / 10);
    }
    push_char(out, digit_of(n % 10));
    assert(final(out)@ =~= old(out)@ + nat_text(n as nat));
}

/// Appends the decimal form of `n` to `out`.
pub fn push_int(out: &mut String, n: i64)
    ensures
        final(out)@ == old(out)@ + int_text(n as int),
{
    if n < 0 {
        push_char(out, '-');
        let magnitude: u64 = if n == i64::MIN {
            0x8000_0000_0000_0000u64
        } else {
            (-n) as u64
        };
        push_nat(out, magnitude);
        assert(final(out)@ =~= old(out)@ + int_text(n as int));
    } else {
        push_nat(out, n as u64);
    }
}

/// A digit run ends at or behind its start, inside the text.
pub proof fn lemma_digits_end_bounds(s: Seq<char>, k: int)
    requires
        0 <= k <= s.len(),
    ensures
        k <= digits_end(s, k) <= s.len(),
    decreases s.len() - k,
{
    if k < s.len() && is_digit(s[k]) {
        lemma_digits_end_bounds(s, k + 1);
    }
}

/// A digit run that ends at or before `e` is the same in every text that
/// agrees up to `e` and holds no digit at `e`.
pub proof fn lemma_digits_end_agree(a: Seq<char>, b: Seq<char>, k: int, e: int)
    requires
        0 <= k <= e <= a.len(),
        e <= b.len(),
        forall|j: int| 0 <= j < e ==> a[j] == b[j],
        b.len() == e || !is_digit(b[e]),
        digits_end(a, k) <= e,
    ensures
        digits_end(b, k) == digits_end(a, k),
    decreases e - k,
{
    lemma_digits_end_bounds(a, k);
    if k < e {
        if is_digit(a[k]) {
            lemma_digits_end_agree(a, b, k + 1, e);
        }
    }
}

/// A number literal is not empty and ends inside the text.
pub proof fn lemma_number_end_bounds(s: Seq<char>, e: int)
    requires
        number_end(s, 0) == Some(e),
    ensures
        0 < e <= s.len(),
{
    let a0: int = if 0 < s.len() && s[0] == '-' { 1 } else { 0 };
    lemma_digits_end_bounds(s, a0 + 1);
    let b0 = if s[a0] == '0' { a0 + 1 } else { digits_end(s, a0) };
    if b0 < s.len() && s[b0] == '.' {
        lemma_digits_end_bounds(s, b0 + 2);
    }
    let c0 = fraction_end(s, b0)->0;
    if c0 < s.len() && (s[c0] == 'e' || s[c0] == 'E') {
        let d = if c0 + 1 < s.len() && (s[c0 + 1] == '+' || s[c0 + 1] == '-') {
            c0 + 2
        } else {
            c0 + 1
        };
        lemma_digits_end_bounds(s, d + 1);
    }
}

/// Whether a number literal could go on with `c`.
pub open spec fn continues_number(c: char) -> bool {
    is_digit(c) || c == '.' || c == 'e' || c == 'E'
}

/// A number literal that ends at `e` is found the same in every text that
/// agrees up to `e` and does not go on with a character that a literal
/// could hold there.
pub proof fn lemma_number_end_agree(a: Seq<char>, b: Seq<char>, e: int)
    requires
        number_end(a, 0) == Some(e),
        0 <= e <= b.len(),
        forall|j: int| 0 <= j < e ==> a[j] == b[j],
        b.len() == e || !continues_number(b[e]),
    ensures
        number_end(b, 0) == Some(e),
        0 < e <= a.len(),
{
    let a0: int = if 0 < a.len() && a[0] == '-' { 1 } else { 0 };
    assert(a0 < a.len() && is_digit(a[a0]));
    lemma_digits_end_bounds(a, a0 + 1);
    let b0 = if a[a0] == '0' { a0 + 1 } else { digits_end(a, a0) };
    assert(a0 < b0 <= a.len());
    let c0 = fraction_end(a, b0)->0;
    assert(fraction_end(a, b0) is Some);
    if b0 < a.len() && a[b0] == '.' {
        lemma_digits_end_bounds(a, b0 + 2);
        assert(b0 + 2 <= c0 <= a.len());
    }
    assert(b0 <= c0 <= a.len());
    assert(exponent_end(a, c0) == Some(e));
    if c0 < a.len() && (a[c0] == 'e' || a[c0] == 'E') {
        let d = if c0 + 1 < a.len() && (a[c0 + 1] == '+' || a[c0 + 1] == '-') {
            c0 + 2
        } else {
            c0 + 1
        };
        lemma_digits_end_bounds(a, d + 1);
        assert(d < e <= a.len());
        lemma_digits_end_agree(a, b, d, e);
    }
    assert(c0 <= e <= a.len());
    if a[a0] != '0' {
        lemma_digits_end_agree(a, b, a0, e);
    }
    if b0 < a.len() && a[b0] == '.' {
        lemma_digits_end_agree(a, b, b0 + 1, e);
    }
    assert(a[a0] == b[a0]);
    assert(b0 < e ==> a[b0] == b[b0]);
    assert(b0 + 1 < e ==> a[b0 + 1] == b[b0 + 1]);
    assert(c0 < e ==> a[c0] == b[c0]);
    assert(c0 + 1 < e ==> a[c0 + 1] == b[c0 + 1]);
    assert(c0 + 2 < e ==> a[c0 + 2] == b[c0 + 2]);
    assert(fraction_end(b, b0) == Some(c0));
}

/// A JSON number, kept as the literal that stands for it on the wire.
pub struct Number {
    text: String,
}

impl View for Number {
    type V = Seq<char>;

    /// The characters of the literal.
    closed spec fn view(&self) -> Seq<char> {
        self.text@
    }
}

impl Clone for Number {
    fn clone(&self) -> (r: Self)
        ensures
            r@ == self@,
            is_number(self@),
    {
        proof {
            use_type_invariant(self);
        }
        Number { text: self.text.clone() }
    }
}

impl Number {
    #[verifier::type_invariant]
    spec fn well_formed(self) -> bool {
        is_number(self.text@)
    }

    /// Reads a number literal: `Some` exactly when the whole of `text` is one.
    pub fn parse(text: &str) -> (r: Option<Number>)
        ensures
            r is Some <==> is_number(text@),
            r matches Some(n) ==> n@ == text@,
    {
        let v = chars_of(text);
        assert(v@.skip(0) =~= v@);
        match scan_number(&v, 0) {
            Some(end) => {
                if end == v.len() {
                    Some(Number { text: text.to_owned() })
                } else {
                    None
                }
            },
            None => None,
        }
    }

    /// Reads the number literal that starts at `start` in `v`, and gives it
    /// with the position behind it.
    pub fn scan(v: &Vec<char>, start: usize) -> (r: Option<(Number, usize)>)
        requires
            start <= v.len(),
        ensures
            match r {
                Some((n, e)) => {
                    &&& start < e <= v.len()
                    &&& number_end(v@.skip(start as int), 0) == Some(e - start)
                    &&& n@ == v@.skip(start as int).take(e - start)
                },
                None => number_end(v@.skip(start as int), 0) is None,
            },
    {
        match scan_number(v, start) {
            Some(e) => {
                let text = string_of(v, start, e);
                proof {
                    assert(text@ =~= v@.skip(start as int).take(e - start));
                    lemma_number_end_agree(v@.skip(start as int), text@, e - start);
                }
                Some((Number { text }, e))
            },
            None => None,
        }
    }

    /// The number `n`, written in decimal.
    pub fn from_i64(n: i64) -> (r: Number)
        ensures
            r@ == int_text(n as int),
    {
        let mut text = String::new();
        push_int(&mut text, n);
        proof {
            lemma_int_text(n as int);
            assert(text@ =~= int_text(n as int));
        }
        Number { text }
    }

    /// The literal itself, which is always a well-formed JSON number.
    pub fn as_str(&self) -> (s: &str)
        ensures
            s@ == self@,
            is_number(self@),
    {
        proof {
            use_type_invariant(self);
        }
        self.text.as_str()
    }

    /// The integer that the literal stands for: `Some(n)` exactly when the
    /// literal is the decimal form of an `n` that fits.
    pub fn as_i64(&self) -> (r: Option<i64>)
        ensures
            r == match integer_of(self@) {
                Some(n) => if i64::MIN <= n <= i64::MAX {
                    Some(n as i64)
                } else {
                    None
                },
                None => None,
            },
    {
        let v = chars_of(self.text.as_str());
        let ghost s = v@;
        let negative = v.len() > 0 && v[0] == '-';
        let first: usize = if negative {
            1
        } else {
            0
        };
        let ghost ds = s.skip(first as int);
        proof {
            if !negative {
                assert(ds =~= s);
            }
        }
        let ghost magnitude = digits_value(ds) as int;
        assert(signed_value(s) == if negative { -magnitude } else { magnitude });
        // Everything after the sign has to be a digit.
        let mut i: usize = first;
        while i < v.len()
            invariant
                first <= i <= v.len(),
                s == v@,
                s == self@,
                negative == (s.len() > 0 && s[0] == '-'),
                first == if negative { 1int } else { 0int },
                forall|k: int| first <= k < i ==> is_digit(#[trigger] s[k]),
            decreases v.len() - i,
        {
            if !digit(v[i]) {
                proof {
                    if int_text(signed_value(s)) == s {
                        lemma_int_text_digits(signed_value(s), i as int);
                    }
                }
                return None;
            }
            i += 1;
        }
        assert forall|k: int| 0 <= k < ds.len() implies is_digit(#[trigger] ds[k]) by {
            assert(ds[k] == s[k + first]);
        }
        let mut acc: u64 = 0;
        let mut j: usize = first;
        while j < v.len()
            invariant
                first <= j <= v.len(),
                s == v@,
                s == self@,
                ds == s.skip(first as int),
                magnitude == digits_value(ds),
                signed_value(s) == if negative { -magnitude } else { magnitude },
                forall|k: int| 0 <= k < ds.len() ==> is_digit(#[trigger] ds[k]),
                acc == digits_value(ds.take(j - first)),
            decreases v.len() - j,
        {
            assert(is_digit(ds[j - first]) && ds[j - first] == v@[j as int]);
            let d: u64 = (v[j] as u32 - '0' as u32) as u64;
            proof {
                let t = ds.take(j - first + 1);
                assert(t.drop_last() =~= ds.take(j - first));
                assert(t.last() == s[j as int]);
                assert(digits_value(t) == acc * 10 + d);
                lemma_digits_value_prefix(ds, j - first + 1);
            }
            if acc > (u64::MAX - d) / 10 {
                return None;
            }
            acc = acc * 10 + d;
            j += 1;
        }
        assert(ds.take(j - first) =~= ds);
        let value: i64 = if negative {
            if acc > 0x8000_0000_0000_0000u64 {
                return None;
            } else if acc == 0x8000_0000_0000_0000u64 {
                i64::MIN
            } else {
                -(acc as i64)
            }
        } else {
            if acc > 0x7fff_ffff_ffff_ffffu64 {
                return None;
            } else {
                acc as i64
            }
        };
        assert(value == signed_value(s));
        let canonical = Number::from_i64(value);
        if canonical.text == self.text {
            Some(value)
        } else {
            None
        }
    }
}

/// The decimal form of an integer holds nothing but digits after its sign.
pub proof fn lemma_int_text_digits(n: int, k: int)
    requires
        0 <= k < int_text(n).len(),
        !is_digit(int_text(n)[k]),
    ensures
        k == 0,
        int_text(n)[0] == '-',
{
    if n < 0 {
        lemma_nat_text((-n) as nat);
        if k > 0 {
            assert(int_text(n)[k] == nat_text((-n) as nat)[k - 1]);
        }
    } else {
        lemma_nat_text(n as nat);
    }
}

} // verus!
