//! Text helpers: strings as sequences of characters, and the byte order of strings.

use vstd::prelude::*;
use vstd::std_specs::iter::IteratorSpec;
use vstd::string::StringExecFns;
use crate::bindings::push_char;

verus! {

/// The characters of a string, in order.
pub fn chars_of(s: &str) -> (v: Vec<char>)
    ensures
        v@ == s@,
{
    let mut v: Vec<char> = Vec::new();
    for c in it: s.chars()
        invariant
            v@ == it.seq().take(it.index() as int),
            it.seq() == s@,
    {
        v.push(c);
    }
    v
}

/// The string made of the given characters, in order.
pub fn string_of(v: &Vec<char>) -> (s: String)
    ensures
        s@ == v@,
{
    let mut s = String::new();
    let mut i: usize = 0;
    while i < v.len()
        invariant
            i <= v.len(),
            s@ == v@.take(i as int),
        decreases v.len() - i,
    {
        push_char(&mut s, v[i]);
        i = i + 1;
    }
    s
}


/// Whether `a` comes before `b` when both are read from position `i` on,
/// byte by byte; a proper prefix comes before what it is a prefix of.
pub open spec fn less_from(a: Seq<u8>, b: Seq<u8>, i: int) -> bool
    decreases a.len() - i,
{
    if i < 0 || i >= b.len() {
        false
    } else if i >= a.len() {
        true
    } else if a[i] != b[i] {
        a[i] < b[i]
    } else {
        less_from(a, b, i + 1)
    }
}

/// The strict lexicographic order of byte sequences.
pub open spec fn bytes_less(a: Seq<u8>, b: Seq<u8>) -> bool {
    less_from(a, b, 0)
}

/// The order of strings: that of their UTF-8 bytes, which is the order std
/// gives to `str` and `String`.
pub open spec fn text_less(a: Seq<char>, b: Seq<char>) -> bool {
    bytes_less(vstd::utf8::encode_utf8(a), vstd::utf8::encode_utf8(b))
}

proof fn lemma_less_from_agree(a: Seq<u8>, b: Seq<u8>, i: int)
    requires
        0 <= i,
    ensures
        !(less_from(a, b, i) && less_from(b, a, i)),
    decreases a.len() - i,
{
    if i < a.len() && i < b.len() && a[i] == b[i] {
        lemma_less_from_agree(a, b, i + 1);
    }
}

proof fn lemma_less_from_total(a: Seq<u8>, b: Seq<u8>, i: int)
    requires
        0 <= i <= a.len(),
        i <= b.len(),
        a.take(i) == b.take(i),
        !less_from(a, b, i),
        !less_from(b, a, i),
    ensures
        a == b,
    decreases a.len() - i,
{
    if i < a.len() && i < b.len() {
        assert(a[i] == b[i]);
        assert(a.take(i + 1) =~= a.take(i).push(a[i]));
        assert(b.take(i + 1) =~= b.take(i).push(b[i]));
        lemma_less_from_total(a, b, i + 1);
    } else {
        assert(a.len() == b.len());
        assert(a.take(i) =~= a);
        assert(b.take(i) =~= b);
    }
}

proof fn lemma_less_from_trans(a: Seq<u8>, b: Seq<u8>, c: Seq<u8>, i: int)
    requires
        0 <= i,
        less_from(a, b, i),
        less_from(b, c, i),
    ensures
        less_from(a, c, i),
    decreases a.len() - i,
{
    if i < a.len() && i < b.len() && i < c.len() && a[i] == b[i] && b[i] == c[i] {
        lemma_less_from_trans(a, b, c, i + 1);
    }
}

/// No string comes before itself, and of two strings at most one comes before the other.
pub proof fn lemma_text_less_asymmetric(a: Seq<char>, b: Seq<char>)
    ensures
        !(text_less(a, b) && text_less(b, a)),
        !text_less(a, a),
{
    let x = vstd::utf8::encode_utf8(a);
    let y = vstd::utf8::encode_utf8(b);
    lemma_less_from_agree(x, y, 0);
    lemma_less_from_agree(x, x, 0);
}

/// The order is transitive.
pub proof fn lemma_text_less_transitive(a: Seq<char>, b: Seq<char>, c: Seq<char>)
    requires
        text_less(a, b),
        text_less(b, c),
    ensures
        text_less(a, c),
{
    lemma_less_from_trans(
        vstd::utf8::encode_utf8(a),
        vstd::utf8::encode_utf8(b),
        vstd::utf8::encode_utf8(c),
        0,
    );
}

/// Two different strings are ordered one way or the other.
pub proof fn lemma_text_less_total(a: Seq<char>, b: Seq<char>)
    ensures
        text_less(a, b) || text_less(b, a) || a == b,
{
    let x = vstd::utf8::encode_utf8(a);
    let y = vstd::utf8::encode_utf8(b);
    if !less_from(x, y, 0) && !less_from(y, x, 0) {
        assert(x.take(0) =~= y.take(0));
        lemma_less_from_total(x, y, 0);
        vstd::utf8::encode_utf8_decode_utf8(a);
        vstd::utf8::encode_utf8_decode_utf8(b);
    }
}

/// How one string stands to another in the order of strings.
#[derive(Clone, Copy, Debug, PartialEq, Eq)]
pub enum TextOrder {
    Before,
    Same,
    After,
}

/// Compares two strings by their bytes.
pub fn compare(a: &str, b: &str) -> (r: TextOrder)
    ensures
        r is Before <==> text_less(a@, b@),
        r is Same <==> a@ == b@,
        r is After <==> text_less(b@, a@),
{
    let x = a.as_bytes();
    let y = b.as_bytes();
    proof {
        lemma_text_less_asymmetric(a@, b@);
        lemma_text_less_asymmetric(b@, a@);
        lemma_text_less_total(a@, b@);
    }
    let mut i: usize = 0;
    while i < x.len() && i < y.len()
        invariant
            i <= x.len(),
            i <= y.len(),
            x@ == vstd::utf8::encode_utf8(a@),
            y@ == vstd::utf8::encode_utf8(b@),
            less_from(x@, y@, 0) == less_from(x@, y@, i as int),
            less_from(y@, x@, 0) == less_from(y@, x@, i as int),
        decreases x.len() - i,
    {
        if x[i] < y[i] {
            return TextOrder::Before;
        }
        if x[i] > y[i] {
            return TextOrder::After;
        }
        i = i + 1;
    }
    if i < y.len() {
        TextOrder::Before
    } else if i < x.len() {
        TextOrder::After
    } else {
        TextOrder::Same
    }
}

/// Whether two strings hold the same characters.
pub fn same_text(a: &str, b: &str) -> (r: bool)
    ensures
        r == (a@ == b@),
{
    match compare(a, b) {
        TextOrder::Same => true,
        _ => false,
    }
}


/// A copy of a list of strings.
pub fn clone_strings(v: &Vec<String>) -> (r: Vec<String>)
    ensures
        r.deep_view() == v.deep_view(),
{
    let r = v.clone();
    assert(r.deep_view() =~= v.deep_view());
    r
}

/// A copy of an optional string.
pub fn clone_optional(v: &Option<String>) -> (r: Option<String>)
    ensures
        r.deep_view() == v.deep_view(),
{
    match v {
        Some(s) => Some(s.clone()),
        None => None,
    }
}


/// Whether `s` begins with `prefix`.
pub open spec fn has_prefix(s: Seq<char>, prefix: Seq<char>) -> bool {
    prefix.len() <= s.len() && s.take(prefix.len() as int) == prefix
}

/// Whether `s` ends with `suffix`.
pub open spec fn has_suffix(s: Seq<char>, suffix: Seq<char>) -> bool {
    suffix.len() <= s.len() && s.skip(s.len() - suffix.len()) == suffix
}

/// Whether the characters of `part` stand in `whole` from position `at` on.
fn matches_at(whole: &Vec<char>, at: usize, part: &Vec<char>) -> (r: bool)
    requires
        at + part.len() <= whole.len(),
    ensures
        r == (whole@.subrange(at as int, at + part.len()) == part@),
{
    let mut i: usize = 0;
    while i < part.len()
        invariant
            i <= part.len(),
            at + part.len() <= whole.len(),
            forall|j: int| 0 <= j < i ==> whole[at + j] == part[j],
        decreases part.len() - i,
    {
        if whole[at + i] != part[i] {
            assert(whole@.subrange(at as int, at + part.len())[i as int] != part@[i as int]);
            return false;
        }
        i = i + 1;
    }
    assert(whole@.subrange(at as int, at + part.len()) =~= part@);
    true
}

/// Whether `s` begins with `prefix`.
pub fn starts_with(s: &str, prefix: &str) -> (r: bool)
    ensures
        r == has_prefix(s@, prefix@),
{
    let whole = chars_of(s);
    let part = chars_of(prefix);
    if part.len() > whole.len() {
        return false;
    }
    let r = matches_at(&whole, 0, &part);
    assert(whole@.subrange(0, part.len() as int) =~= whole@.take(part.len() as int));
    r
}

/// Whether `s` ends with `suffix`.
pub fn ends_with(s: &str, suffix: &str) -> (r: bool)
    ensures
        r == has_suffix(s@, suffix@),
{
    let whole = chars_of(s);
    let part = chars_of(suffix);
    if part.len() > whole.len() {
        return false;
    }
    let at = whole.len() - part.len();
    let r = matches_at(&whole, at, &part);
    assert(whole@.subrange(at as int, at + part.len()) =~= whole@.skip(whole.len() - part.len()));
    r
}

/// The characters `v[from..to]` as a string.
pub fn string_of_range(v: &Vec<char>, from: usize, to: usize) -> (s: String)
    requires
        from <= to <= v.len(),
    ensures
        s@ == v@.subrange(from as int, to as int),
{
    let mut s = String::new();
    let mut i: usize = from;
    while i < to
        invariant
            from <= i <= to <= v.len(),
            s@ == v@.subrange(from as int, i as int),
        decreases to - i,
    {
        push_char(&mut s, v[i]);
        assert(v@.subrange(from as int, i + 1) =~= v@.subrange(from as int, i as int).push(v[i as int]));
        i = i + 1;
    }
    s
}

/// What is left of `s` after its first `n` characters.
pub fn skip_chars(s: &str, n: usize) -> (r: String)
    requires
        n <= s@.len(),
    ensures
        r@ == s@.skip(n as int),
{
    let v = chars_of(s);
    let r = string_of_range(&v, n, v.len());
    assert(v@.subrange(n as int, v.len() as int) =~= v@.skip(n as int));
    r
}

/// `s` with every `from` replaced by `to`.
pub open spec fn replaced(s: Seq<char>, from: char, to: char) -> Seq<char> {
    Seq::new(s.len(), |i: int| if s[i] == from { to } else { s[i] })
}

/// A copy of `s` in which every `from` is replaced by `to`.
pub fn replace_char(s: &str, from: char, to: char) -> (r: String)
    ensures
        r@ == replaced(s@, from, to),
{
    let v = chars_of(s);
    let mut r = String::new();
    let mut i: usize = 0;
    while i < v.len()
        invariant
            i <= v.len(),
            r@ == replaced(v@, from, to).take(i as int),
        decreases v.len() - i,
    {
        let c = if v[i] == from { to } else { v[i] };
        push_char(&mut r, c);
        assert(replaced(v@, from, to).take(i + 1) =~= replaced(v@, from, to).take(i as int).push(c));
        i = i + 1;
    }
    assert(replaced(v@, from, to).take(v.len() as int) =~= replaced(v@, from, to));
    r
}


/// Whether a character is white space: the characters with the Unicode
/// property White_Space, which std's `char::is_whitespace` tests.
pub open spec fn is_whitespace(c: char) -> bool {
    let n = c as u32;
    (0x09 <= n <= 0x0d) || n == 0x20 || n == 0x85 || n == 0xa0 || n == 0x1680 || (0x2000 <= n <= 0x200a)
        || n == 0x2028 || n == 0x2029 || n == 0x202f || n == 0x205f || n == 0x3000
}

/// The first position from `i` on that holds no white space; the length where there is none.
pub open spec fn leading_end(s: Seq<char>, i: int) -> int
    decreases s.len() - i,
{
    if 0 <= i < s.len() && is_whitespace(s[i]) {
        leading_end(s, i + 1)
    } else {
        i
    }
}

/// The position behind the last character before `n` that is no white space; 0 where there is none.
pub open spec fn trailing_start(s: Seq<char>, n: int) -> int
    decreases n,
{
    if 0 < n <= s.len() && is_whitespace(s[n - 1]) {
        trailing_start(s, n - 1)
    } else {
        n
    }
}

/// `s` without the white space at its beginning and at its end.
pub open spec fn trimmed(s: Seq<char>) -> Seq<char> {
    let from = leading_end(s, 0);
    let to = trailing_start(s, s.len() as int);
    if from < to {
        s.subrange(from, to)
    } else {
        Seq::empty()
    }
}

proof fn lemma_leading_end(s: Seq<char>, i: int)
    requires
        0 <= i <= s.len(),
    ensures
        i <= leading_end(s, i) <= s.len(),
        leading_end(s, i) < s.len() ==> !is_whitespace(s[leading_end(s, i)]),
        forall|j: int| i <= j < leading_end(s, i) ==> is_whitespace(#[trigger] s[j]),
    decreases s.len() - i,
{
    if i < s.len() && is_whitespace(s[i]) {
        lemma_leading_end(s, i + 1);
    }
}

proof fn lemma_trailing_start(s: Seq<char>, n: int)
    requires
        0 <= n <= s.len(),
    ensures
        0 <= trailing_start(s, n) <= n,
        trailing_start(s, n) > 0 ==> !is_whitespace(s[trailing_start(s, n) - 1]),
        forall|j: int| trailing_start(s, n) <= j < n ==> is_whitespace(#[trigger] s[j]),
    decreases n,
{
    if 0 < n && is_whitespace(s[n - 1]) {
        lemma_trailing_start(s, n - 1);
    }
}

/// Trimming what is trimmed changes nothing.
pub proof fn lemma_trimmed_twice(s: Seq<char>)
    ensures
        trimmed(trimmed(s)) == trimmed(s),
{
    lemma_leading_end(s, 0);
    lemma_trailing_start(s, s.len() as int);
    let t = trimmed(s);
    if t.len() > 0 {
        let from = leading_end(s, 0);
        let to = trailing_start(s, s.len() as int);
        assert(t[0] == s[from]);
        assert(t[t.len() - 1] == s[to - 1]);
        assert(leading_end(t, 0) == 0);
        assert(trailing_start(t, t.len() as int) == t.len());
        assert(t.subrange(0, t.len() as int) =~= t);
    } else {
        assert(leading_end(t, 0) == 0);
    }
}

/// Whether a character is white space.
pub fn char_is_whitespace(c: char) -> (r: bool)
    ensures
        r == is_whitespace(c),
{
    let n: u32 = c as u32;
    (0x09 <= n && n <= 0x0d) || n == 0x20 || n == 0x85 || n == 0xa0 || n == 0x1680 || (0x2000 <= n && n <= 0x200a)
        || n == 0x2028 || n == 0x2029 || n == 0x202f || n == 0x205f || n == 0x3000
}

/// A copy of `s` without the white space at its beginning and at its end.
pub fn trim(s: &str) -> (r: String)
    ensures
        r@ == trimmed(s@),
{
    let v = chars_of(s);
    let mut from: usize = 0;
    while from < v.len() && char_is_whitespace(v[from])
        invariant
            from <= v.len(),
            leading_end(v@, 0) == leading_end(v@, from as int),
        decreases v.len() - from,
    {
        from = from + 1;
    }
    let mut to: usize = v.len();
    while to > 0 && char_is_whitespace(v[to - 1])
        invariant
            to <= v.len(),
            trailing_start(v@, v.len() as int) == trailing_start(v@, to as int),
        decreases to,
    {
        to = to - 1;
    }
    if from < to {
        string_of_range(&v, from, to)
    } else {
        String::new()
    }
}


/// The first position from `i` on that holds `c`; the length of `s` where there is none.
pub open spec fn position_of(s: Seq<char>, c: char, i: int) -> int
    decreases s.len() - i,
{
    if 0 <= i < s.len() && s[i] != c {
        position_of(s, c, i + 1)
    } else {
        i
    }
}

/// The first position from `i` on that holds `c`.
pub fn find_char(v: &Vec<char>, c: char, i: usize) -> (r: usize)
    requires
        i <= v.len(),
    ensures
        r == position_of(v@, c, i as int),
        i <= r <= v.len(),
{
    let mut at: usize = i;
    while at < v.len() && v[at] != c
        invariant
            i <= at <= v.len(),
            position_of(v@, c, i as int) == position_of(v@, c, at as int),
        decreases v.len() - at,
    {
        at = at + 1;
    }
    at
}


/// The decimal digit for a number below ten.
pub open spec fn digit(d: int) -> char {
    if d == 0 {
        '0'
    } else if d == 1 {
        '1'
    } else if d == 2 {
        '2'
    } else if d == 3 {
        '3'
    } else if d == 4 {
        '4'
    } else if d == 5 {
        '5'
    } else if d == 6 {
        '6'
    } else if d == 7 {
        '7'
    } else if d == 8 {
        '8'
    } else {
        '9'
    }
}

/// A number in decimal notation.
pub open spec fn decimal(n: nat) -> Seq<char>
    decreases n,
{
    if n < 10 {
        seq![digit(n as int)]
    } else {
        decimal(n / 10).push(digit((n % 10) as int))
    }
}

/// `count` blanks.
pub open spec fn blanks(count: int) -> Seq<char> {
    Seq::new(
        if count > 0 {
            count as nat
        } else {
            0
        },
        |i: int| ' ',
    )
}

/// `s` with blanks before it so that it has `width` characters at least.
pub open spec fn padded_left(s: Seq<char>, width: int) -> Seq<char> {
    blanks(width - s.len()) + s
}

/// `s` with blanks behind it so that it has `width` characters at least.
pub open spec fn padded_right(s: Seq<char>, width: int) -> Seq<char> {
    s + blanks(width - s.len())
}

/// The decimal digit for a number below ten.
fn digit_of(d: usize) -> (c: char)
    requires
        d < 10,
    ensures
        c == digit(d as int),
{
    if d == 0 {
        '0'
    } else if d == 1 {
        '1'
    } else if d == 2 {
        '2'
    } else if d == 3 {
        '3'
    } else if d == 4 {
        '4'
    } else if d == 5 {
        '5'
    } else if d == 6 {
        '6'
    } else if d == 7 {
        '7'
    } else if d == 8 {
        '8'
    } else {
        '9'
    }
}

/// Writes a number in decimal notation.
pub fn decimal_of(n: usize) -> (r: String)
    ensures
        r@ == decimal(n as nat),
    decreases n,
{
    if n < 10 {
        let mut r = String::new();
        push_char(&mut r, digit_of(n));
        assert(r@ =~= seq![digit(n as int)]);
        r
    } else {
        let mut r = decimal_of(n / 10);
        push_char(&mut r, digit_of(n % 10));
        r
    }
}

/// A string of `count` blanks.
pub fn blanks_of(count: usize) -> (r: String)
    ensures
        r@ == blanks(count as int),
{
    let mut r = String::new();
    let mut i: usize = 0;
    while i < count
        invariant
            i <= count,
            r@ == blanks(i as int),
        decreases count - i,
    {
        push_char(&mut r, ' ');
        assert(r@ =~= blanks(i + 1));
        i = i + 1;
    }
    r
}

/// Puts blanks before `s` so that it has `width` characters at least.
pub fn pad_left(s: &str, width: usize) -> (r: String)
    ensures
        r@ == padded_left(s@, width as int),
{
    let have = s.unicode_len();
    let mut r = if have < width {
        blanks_of(width - have)
    } else {
        String::new()
    };
    r.append(s);
    assert(r@ =~= padded_left(s@, width as int));
    r
}

/// Puts blanks behind `s` so that it has `width` characters at least.
pub fn pad_right(s: &str, width: usize) -> (r: String)
    ensures
        r@ == padded_right(s@, width as int),
{
    let have = s.unicode_len();
    let mut r = String::from_str(s);
    if have < width {
        r.append(blanks_of(width - have).as_str());
    }
    assert(r@ =~= padded_right(s@, width as int));
    r
}

} // verus!
