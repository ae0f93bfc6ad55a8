//! Text as sequences of characters: order, decimal and hexadecimal
//! spellings, and the few building blocks every rendering shares.

use vstd::prelude::*;

verus! {

/// `String::push` appends one character to the end of the string.
pub assume_specification[ String::push ](s: &mut String, c: char)
    ensures
        final(s)@ == old(s)@.push(c),
;

/// `String::push_str` appends a string slice to the end of the string.
pub assume_specification[ String::push_str ](s: &mut String, text: &str)
    ensures
        final(s)@ == old(s)@ + text@,
;

/// `==` on string slices holds exactly when both spell the same characters.
pub assume_specification[ <str as PartialEq<str>>::eq ](a: &str, b: &str) -> (r: bool)
    ensures
        r == (a@ == b@),
;

/// What `format!("{:?}")` spells for a string slice: the text in double
/// quotes, with the escapes of the standard library's `Debug`.
pub uninterp spec fn debug_quoted(text: Seq<char>) -> Seq<char>;

/// `text` as the `{:?}` form of std's `format!` spells it.
#[verifier::external_body]
pub(crate) fn quoted(text: &str) -> (r: String)
    ensures
        r@ == debug_quoted(text@),
{
    format!("{:?}", text)
}

// ---------------------------------------------------------------------
// Characters and slices of them.

/// The characters of `text`, in order.
pub fn chars_of(text: &str) -> (r: Vec<char>)
    ensures
        r@ == text@,
{
    let mut out: Vec<char> = Vec::new();
    for c in it: text.chars()
        invariant
            out@ == it.seq().take(it.index() as int),
    {
        out.push(c);
    }
    assert(text@.take(text@.len() as int) == text@);
    out
}

/// The text `chars[from..to]` spells.
pub fn text_between(chars: &Vec<char>, from: usize, to: usize) -> (r: String)
    requires
        from <= to <= chars@.len(),
    ensures
        r@ == chars@.subrange(from as int, to as int),
{
    let mut out = String::new();
    let mut i: usize = from;
    while i < to
        invariant
            from <= i <= to <= chars@.len(),
            out@ == chars@.subrange(from as int, i as int),
        decreases to - i,
    {
        out.push(chars[i]);
        i = i + 1;
        assert(chars@.subrange(from as int, i as int) == chars@.subrange(
            from as int,
            i - 1,
        ).push(chars@[i - 1]));
    }
    out
}

/// Whether both texts spell the same characters.
pub fn same(a: &str, b: &str) -> (r: bool)
    ensures
        r == (a@ == b@),
{
    *a == *b
}

/// An owned copy of `text`.
pub fn owned(text: &str) -> (r: String)
    ensures
        r@ == text@,
{
    text.to_owned()
}

/// The two texts one after the other.
pub fn joined(a: &str, b: &str) -> (r: String)
    ensures
        r@ == a@ + b@,
{
    let mut out = owned(a);
    out.push_str(b);
    out
}

/// The characters an optional text spells.
pub open spec fn opt_text(text: Option<String>) -> Option<Seq<char>> {
    match text {
        Some(text) => Some(text@),
        None => None,
    }
}

/// An owned copy of an optional text.
pub fn owned_opt(text: &Option<String>) -> (r: Option<String>)
    ensures
        opt_text(r) == opt_text(*text),
{
    match text {
        Some(text) => Some(owned(text.as_str())),
        None => None,
    }
}

/// Whether two optional texts are both absent, or both spell the same.
pub fn same_opt(a: &Option<String>, b: &Option<String>) -> (r: bool)
    ensures
        r == (opt_text(*a) == opt_text(*b)),
{
    match (a, b) {
        (Some(a), Some(b)) => same(a.as_str(), b.as_str()),
        (None, None) => true,
        _ => false,
    }
}

/// The characters each of the texts spells.
pub open spec fn texts(items: Seq<String>) -> Seq<Seq<char>> {
    items.map_values(|text: String| text@)
}

/// Whether `text` is among `items`.
pub fn among(items: &Vec<String>, text: &str) -> (r: bool)
    ensures
        r == texts(items@).contains(text@),
{
    let mut i: usize = 0;
    while i < items.len()
        invariant
            i <= items@.len(),
            forall|j: int| 0 <= j < i ==> #[trigger] texts(items@)[j] != text@,
        decreases items@.len() - i,
    {
        if same(items[i].as_str(), text) {
            assert(texts(items@)[i as int] == text@);
            return true;
        }
        i = i + 1;
    }
    false
}

/// Whether `text` holds `c`.
pub fn holds(text: &str, c: char) -> (r: bool)
    ensures
        r == text@.contains(c),
{
    let chars = chars_of(text);
    let mut i: usize = 0;
    while i < chars.len()
        invariant
            i <= chars@.len(),
            chars@ == text@,
            forall|j: int| 0 <= j < i ==> text@[j] != c,
        decreases chars@.len() - i,
    {
        if chars[i] == c {
            return true;
        }
        i = i + 1;
    }
    false
}

/// Whether `text` begins with `prefix`.
pub open spec fn begins(text: Seq<char>, prefix: Seq<char>) -> bool {
    prefix.is_prefix_of(text)
}

/// Whether `text` begins with `prefix`.
pub fn begins_with(text: &str, prefix: &str) -> (r: bool)
    ensures
        r == begins(text@, prefix@),
{
    let a = chars_of(text);
    let b = chars_of(prefix);
    if a.len() < b.len() {
        return false;
    }
    let mut i: usize = 0;
    while i < b.len()
        invariant
            i <= b@.len() <= a@.len(),
            a@ == text@,
            b@ == prefix@,
            forall|j: int| 0 <= j < i ==> a@[j] == b@[j],
        decreases b@.len() - i,
    {
        if a[i] != b[i] {
            assert(text@.subrange(0, prefix@.len() as int)[i as int] != prefix@[i as int]);
            return false;
        }
        i = i + 1;
    }
    assert(text@.subrange(0, prefix@.len() as int) == prefix@);
    true
}

// ---------------------------------------------------------------------
// The order of texts.

/// Whether `a` comes strictly before `b`, comparing character by character
/// by code point; a text comes before every longer text it begins.
pub open spec fn lex_lt(a: Seq<char>, b: Seq<char>) -> bool
    decreases a.len(),
{
    if b.len() == 0 {
        false
    } else if a.len() == 0 {
        true
    } else if a[0] == b[0] {
        lex_lt(a.drop_first(), b.drop_first())
    } else {
        a[0] < b[0]
    }
}

/// No text comes before itself.
pub proof fn lex_irreflexive(a: Seq<char>)
    ensures
        !lex_lt(a, a),
    decreases a.len(),
{
    if a.len() > 0 {
        lex_irreflexive(a.drop_first());
    }
}

/// The order of texts is transitive.
pub proof fn lex_transitive(a: Seq<char>, b: Seq<char>, c: Seq<char>)
    requires
        lex_lt(a, b),
        lex_lt(b, c),
    ensures
        lex_lt(a, c),
    decreases a.len(),
{
    if a.len() > 0 && b.len() > 0 && c.len() > 0 && a[0] == b[0] && b[0] == c[0] {
        lex_transitive(a.drop_first(), b.drop_first(), c.drop_first());
    }
}

/// Of two different texts one comes first.
pub proof fn lex_total(a: Seq<char>, b: Seq<char>)
    ensures
        lex_lt(a, b) || lex_lt(b, a) || a == b,
    decreases a.len(),
{
    if a.len() > 0 && b.len() > 0 {
        if a[0] == b[0] {
            lex_total(a.drop_first(), b.drop_first());
            if a.drop_first() == b.drop_first() {
                assert(a =~= seq![a[0]] + a.drop_first());
                assert(b =~= seq![b[0]] + b.drop_first());
            }
        }
    } else if a.len() == 0 && b.len() == 0 {
        assert(a =~= b);
    }
}

/// Two texts never come before each other.
pub proof fn lex_asymmetric(a: Seq<char>, b: Seq<char>)
    requires
        lex_lt(a, b),
    ensures
        !lex_lt(b, a),
        a != b,
{
    lex_irreflexive(a);
    if lex_lt(b, a) {
        lex_transitive(a, b, a);
    }
}

/// Whether `a` comes strictly before `b`.
pub fn comes_before(a: &str, b: &str) -> (r: bool)
    ensures
        r == lex_lt(a@, b@),
{
    let x = chars_of(a);
    let y = chars_of(b);
    let mut i: usize = 0;
    assert(a@.skip(0) =~= a@);
    assert(b@.skip(0) =~= b@);
    while i < x.len() && i < y.len()
        invariant
            i <= x@.len(),
            i <= y@.len(),
            x@ == a@,
            y@ == b@,
            lex_lt(a@, b@) == lex_lt(a@.skip(i as int), b@.skip(i as int)),
        decreases x@.len() - i,
    {
        if x[i] != y[i] {
            return x[i] < y[i];
        }
        assert(a@.skip(i as int).drop_first() =~= a@.skip(i + 1));
        assert(b@.skip(i as int).drop_first() =~= b@.skip(i + 1));
        i = i + 1;
    }
    i < y.len()
}

// ---------------------------------------------------------------------
// Numbers.

/// The character of one decimal or hexadecimal digit.
pub open spec fn digit(d: int) -> char {
    if d < 10 {
        (48 + d) as char
    } else {
        (87 + d) as char
    }
}

/// The character of the digit `d`.
pub fn digit_char(d: u8) -> (c: char)
    requires
        d < 16,
    ensures
        c == digit(d as int),
{
    if d < 10 {
        (48 + d) as char
    } else {
        (87 + d) as char
    }
}

/// `n` spelled in base `base`, most significant digit first.
pub open spec fn digits(n: nat, base: nat) -> Seq<char>
    decreases n,
{
    if base < 2 || n < base {
        seq![digit(n as int)]
    } else {
        proof {
            assert(n / base < n) by (nonlinear_arith)
                requires
                    n >= base,
                    base >= 2,
            ;
        }
        digits(n / base, base).push(digit((n % base) as int))
    }
}

/// `n` in decimal.
pub open spec fn decimal(n: nat) -> Seq<char> {
    digits(n, 10)
}

/// `n` in lowercase hexadecimal.
pub open spec fn hex(n: nat) -> Seq<char> {
    digits(n, 16)
}

/// `n` in decimal, with a leading minus sign when it is negative.
pub open spec fn signed_decimal(n: int) -> Seq<char> {
    if n < 0 {
        seq!['-'] + decimal((-n) as nat)
    } else {
        decimal(n as nat)
    }
}

/// `n` spelled in base `base`.
fn digits_text(n: u64, base: u64) -> (r: String)
    requires
        base == 10 || base == 16,
    ensures
        r@ == digits(n as nat, base as nat),
    decreases n,
{
    if n < base {
        let mut out = String::new();
        out.push(digit_char(n as u8));
        assert(out@ =~= seq![digit(n as int)]);
        out
    } else {
        let mut out = digits_text(n / base, base);
        out.push(digit_char((n % base) as u8));
        out
    }
}

/// `n` in decimal.
pub fn decimal_text(n: u64) -> (r: String)
    ensures
        r@ == decimal(n as nat),
{
    digits_text(n, 10)
}

/// `n` in lowercase hexadecimal.
pub fn hex_text(n: u64) -> (r: String)
    ensures
        r@ == hex(n as nat),
{
    digits_text(n, 16)
}

/// `n` in decimal, with a leading minus sign when it is negative.
pub fn signed_text(n: i64) -> (r: String)
    ensures
        r@ == signed_decimal(n as int),
{
    if n >= 0 {
        decimal_text(n as u64)
    } else {
        let magnitude: u64 = (-(n as i128)) as u64;
        let mut out = String::new();
        out.push('-');
        let tail = decimal_text(magnitude);
        out.push_str(tail.as_str());
        assert(out@ =~= seq!['-'] + decimal((-n) as nat));
        out
    }
}

/// Whether every character is a decimal digit.
pub open spec fn all_digits(s: Seq<char>) -> bool {
    forall|i: int| 0 <= i < s.len() ==> '0' <= #[trigger] s[i] <= '9'
}

/// The number a run of decimal digits spells.
pub open spec fn digits_value(s: Seq<char>) -> nat
    decreases s.len(),
{
    if s.len() == 0 {
        0
    } else {
        (digits_value(s.drop_last()) * 10 + (s.last() as int - 48)) as nat
    }
}

/// The number a decimal text spells: an optional sign, then at least one
/// digit, within the range of `i64`.
pub open spec fn parsed_i64(s: Seq<char>) -> Option<int> {
    let signed = s.len() > 0 && (s[0] == '-' || s[0] == '+');
    let body = if signed {
        s.skip(1)
    } else {
        s
    };
    let value = if s.len() > 0 && s[0] == '-' {
        -(digits_value(body) as int)
    } else {
        digits_value(body) as int
    };
    if body.len() > 0 && all_digits(body) && i64::MIN <= value <= i64::MAX {
        Some(value)
    } else {
        None
    }
}

/// A value only grows as digits follow.
proof fn digits_value_grows(s: Seq<char>, k: int)
    requires
        all_digits(s),
        0 <= k <= s.len(),
    ensures
        digits_value(s.take(k)) <= digits_value(s),
    decreases s.len(),
{
    if k == s.len() {
        assert(s.take(k) =~= s);
    } else {
        assert(s.drop_last().take(k) =~= s.take(k));
        assert(all_digits(s.drop_last()));
        digits_value_grows(s.drop_last(), k);
        assert(s.last() == s[s.len() - 1]);
    }
}

/// The number `text` spells as a decimal `i64`, when it spells one.
pub fn parse_i64(text: &str) -> (r: Option<i64>)
    ensures
        r is Some <==> parsed_i64(text@) is Some,
        r is Some ==> r->0 == parsed_i64(text@)->0,
{
    let chars = chars_of(text);
    if chars.len() == 0 {
        return None;
    }
    let negative = chars[0] == '-';
    let signed = negative || chars[0] == '+';
    let start: usize = if signed {
        1
    } else {
        0
    };
    let ghost body = if signed {
        text@.skip(1)
    } else {
        text@
    };
    if chars.len() == start {
        return None;
    }
    let mut value: u128 = 0;
    let mut i: usize = start;
    assert(body.take(0) =~= Seq::<char>::empty());
    while i < chars.len()
        invariant
            start <= i <= chars@.len(),
            chars@ == text@,
            chars@.len() > start,
            signed == (text@[0] == '-' || text@[0] == '+'),
            start == if signed { 1int } else { 0int },
            body == if signed { text@.skip(1) } else { text@ },
            body.len() == text@.len() - start,
            all_digits(body.take(i - start)),
            value == digits_value(body.take(i - start)),
            value <= 0x8000_0000_0000_0000,
        decreases chars@.len() - i,
    {
        let c = chars[i];
        let ghost before = body.take(i - start);
        let ghost upto = body.take(i - start + 1);
        assert(upto =~= before.push(c));
        assert(upto.drop_last() =~= before);
        if !('0' <= c && c <= '9') {
            assert(body[i - start] == c);
            return None;
        }
        let next: u128 = value * 10 + ((c as u32) - 48) as u128;
        assert(all_digits(upto));
        assert(next == digits_value(upto));
        if next > 0x8000_0000_0000_0000 {
            proof {
                if all_digits(body) {
                    digits_value_grows(body, i - start + 1);
                }
            }
            return None;
        }
        value = next;
        i = i + 1;
    }
    assert(body.take(body.len() as int) =~= body);
    if negative {
        Some((-(value as i128)) as i64)
    } else if value <= 0x7fff_ffff_ffff_ffff {
        Some(value as i64)
    } else {
        None
    }
}

/// A decimal spelling is made of digits and spells its number.
pub proof fn decimal_spells(n: nat)
    ensures
        decimal(n).len() > 0,
        all_digits(decimal(n)),
        digits_value(decimal(n)) == n,
    decreases n,
{
    if n < 10 {
        assert(decimal(n).drop_last() =~= Seq::<char>::empty());
        assert(digits_value(Seq::<char>::empty()) == 0);
    } else {
        decimal_spells(n / 10);
        let head = decimal(n / 10);
        assert(decimal(n) == head.push(digit((n % 10) as int)));
        assert(decimal(n).drop_last() =~= head);
    }
}

/// Reading back the decimal spelling of an `i64` gives the number.
pub proof fn signed_decimal_parses(n: i64)
    ensures
        parsed_i64(signed_decimal(n as int)) == Some(n as int),
{
    if n < 0 {
        decimal_spells((-n) as nat);
        assert(signed_decimal(n as int).skip(1) =~= decimal((-n) as nat));
    } else {
        decimal_spells(n as nat);
    }
}

// ---------------------------------------------------------------------
// Searching and trimming.

/// Whether `part` stands in `text` at `at`.
pub open spec fn stands_at(text: Seq<char>, part: Seq<char>, at: int) -> bool {
    0 <= at && at + part.len() <= text.len() && text.subrange(at, at + part.len()) == part
}

/// Whether `part` stands anywhere in `text`.
pub open spec fn occurs(text: Seq<char>, part: Seq<char>) -> bool {
    exists|at: int| stands_at(text, part, at)
}

/// Whether `part` stands anywhere in `text`.
pub fn contains_text(text: &str, part: &str) -> (r: bool)
    ensures
        r == occurs(text@, part@),
{
    let chars = chars_of(text);
    let wanted = chars_of(part);
    if wanted.len() > chars.len() {
        return false;
    }
    let last: usize = chars.len() - wanted.len();
    let mut at: usize = 0;
    loop
        invariant
            chars@ == text@,
            wanted@ == part@,
            at <= last,
            last == chars.len() - wanted@.len(),
            forall|k: int| 0 <= k < at ==> !#[trigger] stands_at(text@, part@, k),
        decreases last - at,
    {
        let mut i: usize = 0;
        while i < wanted.len() && chars[at + i] == wanted[i]
            invariant
                chars@ == text@,
                wanted@ == part@,
                i <= wanted@.len(),
                at + wanted@.len() <= chars.len(),
                forall|k: int| 0 <= k < i ==> chars@[at + k] == wanted@[k],
            decreases wanted@.len() - i,
        {
            i = i + 1;
        }
        if i == wanted.len() {
            assert(text@.subrange(at as int, at + part@.len()) =~= part@);
            assert(stands_at(text@, part@, at as int));
            return true;
        }
        assert(!stands_at(text@, part@, at as int)) by {
            assert(text@.subrange(at as int, at + part@.len())[i as int] != part@[i as int]);
        }
        if at == last {
            assert forall|k: int| !#[trigger] stands_at(text@, part@, k) by {}
            return false;
        }
        at = at + 1;
    }
}

/// Whether a character is white space.
pub open spec fn is_space(c: char) -> bool {
    ||| '\u{9}' <= c <= '\u{d}'
    ||| c == ' '
    ||| c == '\u{85}'
    ||| c == '\u{a0}'
    ||| c == '\u{1680}'
    ||| '\u{2000}' <= c <= '\u{200a}'
    ||| c == '\u{2028}'
    ||| c == '\u{2029}'
    ||| c == '\u{202f}'
    ||| c == '\u{205f}'
    ||| c == '\u{3000}'
}

/// Whether a character is white space.
pub fn space(c: char) -> (r: bool)
    ensures
        r == is_space(c),
{
    ('\u{9}' <= c && c <= '\u{d}') || c == ' ' || c == '\u{85}' || c == '\u{a0}' || c == '\u{1680}' || (
    '\u{2000}' <= c && c <= '\u{200a}') || c == '\u{2028}' || c == '\u{2029}' || c == '\u{202f}' || c
        == '\u{205f}' || c == '\u{3000}'
}

/// A text without the white space at its end.
pub open spec fn trimmed_end(text: Seq<char>) -> Seq<char>
    decreases text.len(),
{
    if text.len() > 0 && is_space(text.last()) {
        trimmed_end(text.drop_last())
    } else {
        text
    }
}

/// A text without the white space at its start.
pub open spec fn trimmed_start(text: Seq<char>) -> Seq<char>
    decreases text.len(),
{
    if text.len() > 0 && is_space(text[0]) {
        trimmed_start(text.drop_first())
    } else {
        text
    }
}

/// A text without the white space around it.
pub open spec fn trimmed(text: Seq<char>) -> Seq<char> {
    trimmed_end(trimmed_start(text))
}

/// A text without the white space around it.
pub fn trim_text(text: &str) -> (r: String)
    ensures
        r@ == trimmed(text@),
{
    let chars = chars_of(text);
    let mut from: usize = 0;
    assert(text@.skip(0) =~= text@);
    while from < chars.len() && space(chars[from])
        invariant
            chars@ == text@,
            from <= chars@.len(),
            trimmed_start(text@) == trimmed_start(text@.skip(from as int)),
        decreases chars@.len() - from,
    {
        assert(text@.skip(from as int).drop_first() =~= text@.skip(from + 1));
        from = from + 1;
    }
    let ghost rest = text@.skip(from as int);
    assert(trimmed_start(text@) == rest);
    let mut to: usize = chars.len();
    assert(text@.subrange(from as int, to as int) =~= rest);
    while to > from && space(chars[to - 1])
        invariant
            chars@ == text@,
            from <= to <= chars@.len(),
            trimmed_end(rest) == trimmed_end(text@.subrange(from as int, to as int)),
        decreases to - from,
    {
        assert(text@.subrange(from as int, to as int).drop_last() =~= text@.subrange(
            from as int,
            to - 1,
        ));
        to = to - 1;
    }
    text_between(&chars, from, to)
}

/// Whether a text ends in another.
pub open spec fn ends(text: Seq<char>, suffix: Seq<char>) -> bool {
    suffix.len() <= text.len() && text.skip(text.len() - suffix.len()) == suffix
}

/// What is left of a text behind a prefix, when it begins with it.
pub open spec fn behind(text: Seq<char>, prefix: Seq<char>) -> Option<Seq<char>> {
    if begins(text, prefix) {
        Some(text.skip(prefix.len() as int))
    } else {
        None
    }
}

/// What is left of a text behind a prefix, when it begins with it.
pub fn strip_front(text: &str, prefix: &str) -> (r: Option<String>)
    ensures
        opt_text(r) == behind(text@, prefix@),
{
    if begins_with(text, prefix) {
        let chars = chars_of(text);
        let n = chars_of(prefix).len();
        let rest = text_between(&chars, n, chars.len());
        assert(rest@ =~= text@.skip(prefix@.len() as int));
        Some(rest)
    } else {
        None
    }
}

/// What is left of a text before a suffix, when it ends in it.
pub open spec fn ahead_of(text: Seq<char>, suffix: Seq<char>) -> Option<Seq<char>> {
    if ends(text, suffix) {
        Some(text.take(text.len() - suffix.len()))
    } else {
        None
    }
}

/// What is left of a text before a suffix, when it ends in it.
pub fn strip_back(text: &str, suffix: &str) -> (r: Option<String>)
    ensures
        opt_text(r) == ahead_of(text@, suffix@),
{
    let chars = chars_of(text);
    let wanted = chars_of(suffix);
    if wanted.len() > chars.len() {
        return None;
    }
    let cut: usize = chars.len() - wanted.len();
    let mut i: usize = 0;
    while i < wanted.len()
        invariant
            chars@ == text@,
            wanted@ == suffix@,
            i <= wanted@.len(),
            cut + wanted@.len() == chars.len(),
            forall|k: int| 0 <= k < i ==> chars@[cut + k] == wanted@[k],
        decreases wanted@.len() - i,
    {
        if chars[cut + i] != wanted[i] {
            assert(text@.skip(cut as int)[i as int] != suffix@[i as int]);
            return None;
        }
        i = i + 1;
    }
    assert(text@.skip(cut as int) =~= suffix@);
    let front = text_between(&chars, 0, cut);
    assert(front@ =~= text@.take(cut as int));
    Some(front)
}

// ---------------------------------------------------------------------
// Lists of texts.

/// The texts one after the other, `gap` between each two.
pub open spec fn joined_by(parts: Seq<Seq<char>>, gap: Seq<char>) -> Seq<char>
    decreases parts.len(),
{
    if parts.len() == 0 {
        Seq::empty()
    } else if parts.len() == 1 {
        parts[0]
    } else {
        joined_by(parts.drop_last(), gap) + gap + parts.last()
    }
}

/// The texts one after the other, `gap` between each two.
pub fn join_texts(parts: &Vec<String>, gap: &str) -> (r: String)
    ensures
        r@ == joined_by(texts(parts@), gap@),
{
    let ghost all = texts(parts@);
    let mut out = String::new();
    let mut i: usize = 0;
    assert(all.take(0) =~= Seq::empty());
    assert(out@ =~= joined_by(all.take(0), gap@));
    while i < parts.len()
        invariant
            i <= parts@.len(),
            all == texts(parts@),
            out@ == joined_by(all.take(i as int), gap@),
        decreases parts@.len() - i,
    {
        assert(all[i as int] == parts@[i as int]@);
        assert(all.take(i + 1).drop_last() =~= all.take(i as int));
        assert(all.take(i + 1).last() == all[i as int]);
        if i > 0 {
            out.push_str(gap);
        }
        out.push_str(parts[i].as_str());
        assert(out@ =~= joined_by(all.take(i + 1), gap@));
        i = i + 1;
    }
    assert(all.take(all.len() as int) =~= all);
    out
}

/// Add a text to a list.
pub fn add_text(list: &mut Vec<String>, text: String)
    ensures
        texts(final(list)@) == texts(old(list)@).push(text@),
{
    let ghost before = texts(list@);
    let ghost view = text@;
    list.push(text);
    assert(texts(list@) =~= before.push(view));
}

/// Add the texts of a list to another.
pub fn add_texts(list: &mut Vec<String>, more: &Vec<String>)
    ensures
        texts(final(list)@) == texts(old(list)@) + texts(more@),
{
    let ghost base = texts(list@);
    let ghost all = texts(more@);
    let mut i: usize = 0;
    assert(base + all.take(0) =~= base);
    while i < more.len()
        invariant
            i <= more@.len(),
            all == texts(more@),
            texts(list@) == base + all.take(i as int),
        decreases more@.len() - i,
    {
        assert(all[i as int] == more@[i as int]@);
        add_text(list, owned(more[i].as_str()));
        assert(base + all.take(i + 1) =~= (base + all.take(i as int)).push(all[i as int]));
        i = i + 1;
    }
    assert(all.take(all.len() as int) =~= all);
}

/// Two texts are ordered by the first place where they differ; where one is
/// the beginning of the other, the shorter is first.
pub proof fn first_difference_orders(a: Seq<char>, b: Seq<char>, at: int)
    requires
        0 <= at <= a.len(),
        at < b.len(),
        a.take(at) == b.take(at),
        at < a.len() ==> a[at] != b[at],
    ensures
        lex_lt(a, b) <==> (at == a.len() || a[at] < b[at]),
    decreases at,
{
    if at > 0 {
        assert(a[0] == a.take(at)[0] && b[0] == b.take(at)[0]);
        assert(a.drop_first().take(at - 1) =~= a.take(at).drop_first());
        assert(b.drop_first().take(at - 1) =~= b.take(at).drop_first());
        first_difference_orders(a.drop_first(), b.drop_first(), at - 1);
    }
}

/// Trimming takes blanks off both ends and nothing else: what is left
/// neither starts nor ends with one, and what went was blank.
pub proof fn trimming_takes_blanks(text: Seq<char>) -> (ends: (Seq<char>, Seq<char>))
    ensures
        text == ends.0 + trimmed(text) + ends.1,
        forall|i: int| 0 <= i < ends.0.len() ==> is_space(#[trigger] ends.0[i]),
        forall|i: int| 0 <= i < ends.1.len() ==> is_space(#[trigger] ends.1[i]),
        trimmed(text).len() > 0 ==> !is_space(trimmed(text)[0]) && !is_space(trimmed(text).last()),
{
    let lead = lead_of(text);
    let rest = trimmed_start(text);
    let tail = tail_of(rest);
    assert(text =~= lead + trimmed(text) + tail);
    if trimmed(text).len() > 0 {
        assert(trimmed(text)[0] == rest[0]);
    }
    (lead, tail)
}

/// The blanks in front.
proof fn lead_of(text: Seq<char>) -> (lead: Seq<char>)
    ensures
        text == lead + trimmed_start(text),
        forall|i: int| 0 <= i < lead.len() ==> is_space(#[trigger] lead[i]),
        trimmed_start(text).len() > 0 ==> !is_space(trimmed_start(text)[0]),
    decreases text.len(),
{
    if text.len() > 0 && is_space(text[0]) {
        let rest = lead_of(text.drop_first());
        let lead = seq![text[0]] + rest;
        assert(text =~= seq![text[0]] + text.drop_first());
        assert(text =~= lead + trimmed_start(text));
        lead
    } else {
        assert(text =~= Seq::empty() + text);
        Seq::empty()
    }
}

/// The blanks behind.
proof fn tail_of(text: Seq<char>) -> (tail: Seq<char>)
    ensures
        text == trimmed_end(text) + tail,
        forall|i: int| 0 <= i < tail.len() ==> is_space(#[trigger] tail[i]),
        trimmed_end(text).len() > 0 ==> !is_space(trimmed_end(text).last()),
    decreases text.len(),
{
    if text.len() > 0 && is_space(text.last()) {
        let rest = tail_of(text.drop_last());
        let tail = rest.push(text.last());
        assert(text =~= text.drop_last().push(text.last()));
        assert(text =~= trimmed_end(text) + tail);
        tail
    } else {
        assert(text =~= text + Seq::empty());
        Seq::empty()
    }
}

/// What stands behind a prefix is what was put there, and what stands ahead
/// of a suffix too; and there is either only where the text is made so.
pub proof fn parts_are_found(part: Seq<char>, rest: Seq<char>, text: Seq<char>)
    ensures
        behind(part + rest, part) == Some(rest),
        ahead_of(rest + part, part) == Some(rest),
        behind(text, part) == Some(rest) ==> text == part + rest,
        ahead_of(text, part) == Some(rest) ==> text == rest + part,
        begins(text, part) <==> behind(text, part) is Some,
        ends(text, part) <==> ahead_of(text, part) is Some,
{
    assert((part + rest).skip(part.len() as int) =~= rest);
    assert((rest + part).take(rest.len() as int) =~= rest);
    assert((rest + part).skip(rest.len() as int) =~= part);
    if begins(text, part) {
        assert(text =~= part + text.skip(part.len() as int));
    }
    if ends(text, part) {
        assert(text =~= text.take(text.len() - part.len()) + text.skip(text.len() - part.len()));
    }
}

/// A part occurs in a text exactly when the text is something, the part, and
/// something.
pub proof fn occurrences_are_found(text: Seq<char>, part: Seq<char>, before: Seq<char>, after: Seq<
    char,
>)
    ensures
        occurs(before + part + after, part),
        occurs(text, part) ==> exists|at: int|
            0 <= at <= text.len() && #[trigger] text.take(at) + part + text.skip(at + part.len())
                == text,
{
    let whole = before + part + after;
    assert(whole.subrange(before.len() as int, (before.len() + part.len()) as int) =~= part);
    assert(stands_at(whole, part, before.len() as int));
    if occurs(text, part) {
        let at = choose|at: int| stands_at(text, part, at);
        assert(text.take(at) + part + text.skip(at + part.len()) =~= text) by {
            assert(text =~= text.take(at) + text.subrange(at, at + part.len()) + text.skip(
                at + part.len(),
            ));
        }
    }
}

/// Joined texts come in order with one gap between neighbours: one text is
/// itself, and two lists join as their joins around a gap.
pub proof fn joins_are_chained(a: Seq<Seq<char>>, b: Seq<Seq<char>>, gap: Seq<char>)
    requires
        a.len() > 0,
        b.len() > 0,
    ensures
        a.len() == 1 ==> joined_by(a, gap) == a[0],
        joined_by(a + b, gap) == joined_by(a, gap) + gap + joined_by(b, gap),
    decreases b.len(),
{
    assert((a + b).last() == b.last());
    if b.len() == 1 {
        assert((a + b).drop_last() =~= a);
    } else {
        assert((a + b).drop_last() =~= a + b.drop_last());
        joins_are_chained(a, b.drop_last(), gap);
        assert(joined_by(a + b, gap) =~= joined_by(a, gap) + gap + joined_by(b, gap));
    }
}

/// A number is read from digits alone, with one sign in front at most; a
/// digit more reads ten times the number and the digit, and a `-` in front
/// reads the number below zero.
pub proof fn numbers_are_read(text: Seq<char>, c: char)
    ensures
        parsed_i64(text) is Some ==> forall|i: int|
            #![trigger text[i]]
            0 <= i < text.len() && !('0' <= text[i] <= '9') ==> i == 0 && text.len() > 1 && (
            text[i] == '-' || text[i] == '+'),
        '0' <= c <= '9' ==> parsed_i64(seq![c]) == Some(c as int - 48),
        parsed_i64(text) is Some && '0' <= c <= '9' && text[0] != '-' ==> ({
            let next = parsed_i64(text)->0 * 10 + (c as int - 48);
            parsed_i64(text.push(c)) == if next <= i64::MAX {
                Some(next)
            } else {
                None
            }
        }),
        parsed_i64(text) is Some && text[0] != '-' && text[0] != '+' ==> parsed_i64(
            seq!['-'] + text,
        ) == Some(-(parsed_i64(text)->0)) && parsed_i64(seq!['+'] + text) == parsed_i64(text),
{
    let one = seq![c];
    assert(one.drop_last() =~= Seq::<char>::empty());
    assert(digits_value(one.drop_last()) == 0);
    if parsed_i64(text) is Some {
        let signed = text[0] == '-' || text[0] == '+';
        let body = if signed {
            text.skip(1)
        } else {
            text
        };
        assert forall|i: int| #![trigger text[i]] 0 <= i < text.len() && !('0' <= text[i]
            <= '9') implies i == 0 && text.len() > 1 && (text[i] == '-' || text[i] == '+') by {
            if signed && i > 0 {
                assert(body[i - 1] == text[i]);
            }
            if !signed {
                assert(body[i] == text[i]);
            }
        }
        let longer = text.push(c);
        let longer_body = if signed {
            longer.skip(1)
        } else {
            longer
        };
        assert(longer[0] == text[0]);
        assert(longer_body =~= body.push(c));
        assert(longer_body.drop_last() =~= body);
        if '0' <= c <= '9' {
            assert(all_digits(longer_body));
        }
        assert((seq!['-'] + text).skip(1) =~= text);
        assert((seq!['+'] + text).skip(1) =~= text);
    }
}

/// The blanks are the characters that are white space in Unicode, each of
/// them and no other.
pub proof fn blanks_are_white_space(c: char)
    ensures
        is_space(c) <==> c == '\u{9}' || c == '\u{a}' || c == '\u{b}' || c == '\u{c}' || c ==
            '\u{d}' || c == '\u{20}' || c == '\u{85}' || c == '\u{a0}' || c == '\u{1680}' || c ==
            '\u{2000}' || c == '\u{2001}' || c == '\u{2002}' || c == '\u{2003}' || c == '\u{2004}'
            || c == '\u{2005}' || c == '\u{2006}' || c == '\u{2007}' || c == '\u{2008}' || c ==
            '\u{2009}' || c == '\u{200a}' || c == '\u{2028}' || c == '\u{2029}' || c == '\u{202f}'
            || c == '\u{205f}' || c == '\u{3000}',
{
}

/// A part at the end of a text occurs in it, and a part of a text still
/// occurs once more stands behind it.
pub proof fn parts_still_occur()
    ensures
        forall|a: Seq<char>, b: Seq<char>| #[trigger] occurs(a + b, b),
        forall|a: Seq<char>, b: Seq<char>, c: Seq<char>|
            occurs(a, c) ==> #[trigger] occurs(a + b, c),
        forall|a: Seq<char>| #[trigger] occurs(a, a),
{
    assert forall|a: Seq<char>, b: Seq<char>| #[trigger] occurs(a + b, b) by {
        occurrences_are_found(a, b, a, Seq::empty());
        assert(a + b + Seq::<char>::empty() =~= a + b);
    }
    assert forall|a: Seq<char>, b: Seq<char>, c: Seq<char>| occurs(a, c) implies #[trigger] occurs(
        a + b,
        c,
    ) by {
        occurrences_are_found(a, c, Seq::empty(), Seq::empty());
        let at = choose|at: int|
            0 <= at <= a.len() && #[trigger] a.take(at) + c + a.skip(at + c.len()) == a;
        occurrences_are_found(a, c, a.take(at), a.skip(at + c.len()) + b);
        assert(a.take(at) + c + (a.skip(at + c.len()) + b) =~= a + b);
    }
    assert forall|a: Seq<char>| #[trigger] occurs(a, a) by {
        occurrences_are_found(a, a, Seq::empty(), Seq::empty());
        assert(Seq::<char>::empty() + a + Seq::<char>::empty() =~= a);
    }
}

} // verus!
