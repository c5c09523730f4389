use vstd::prelude::*;
use vstd::string::*;

verus! {

/// The views of a sequence of strings.
pub open spec fn strs(v: Seq<String>) -> Seq<Seq<char>> {
    v.map_values(|s: String| s@)
}

/// An upper-case ASCII letter maps to its lower-case form, every other
/// character to itself.
pub open spec fn ascii_lower(c: char) -> char {
    if 'A' <= c && c <= 'Z' {
        ((c as u32) + 32) as char
    } else {
        c
    }
}

/// A text with each ASCII letter in lower case.
pub open spec fn ascii_lowercase(s: Seq<char>) -> Seq<char> {
    s.map_values(|c: char| ascii_lower(c))
}

/// Whether two texts agree up to the case of their ASCII letters.
pub open spec fn eq_ignoring_ascii_case(a: Seq<char>, b: Seq<char>) -> bool {
    ascii_lowercase(a) == ascii_lowercase(b)
}

fn lower_code(c: char) -> (r: u32)
    ensures
        r == ascii_lower(c) as u32,
{
    let v: u32 = c as u32;
    if 65 <= v && v <= 90 {
        v + 32
    } else {
        v
    }
}

/// Compares two texts, taking an ASCII letter and its other case as equal.
pub fn eq_ignore_ascii_case(a: &str, b: &str) -> (r: bool)
    ensures
        r == eq_ignoring_ascii_case(a@, b@),
{
    let n = a.unicode_len();
    if b.unicode_len() != n {
        assert(ascii_lowercase(a@).len() != ascii_lowercase(b@).len());
        return false;
    }
    let mut i: usize = 0;
    while i < n
        invariant
            i <= n,
            n == a@.len(),
            n == b@.len(),
            forall|j: int| 0 <= j < i ==> ascii_lower(a@[j]) == ascii_lower(b@[j]),
        decreases n - i,
    {
        let ca = a.get_char(i);
        let cb = b.get_char(i);
        if lower_code(ca) != lower_code(cb) {
            assert(ascii_lowercase(a@)[i as int] != ascii_lowercase(b@)[i as int]);
            return false;
        }
        i = i + 1;
    }
    assert(ascii_lowercase(a@) =~= ascii_lowercase(b@));
    true
}

/// `str::to_ascii_lowercase` of the standard library, which its documentation
/// describes as a copy of the text in which the letters 'A' to 'Z' are
/// replaced by 'a' to 'z' and nothing else changes.
#[verifier::external_body]
pub(crate) fn to_ascii_lowercase(s: &str) -> (r: String)
    ensures
        r@ == ascii_lowercase(s@),
{
    s.to_ascii_lowercase()
}

/// The texts of `words` with one space between neighbours.
pub open spec fn joined_by_space(words: Seq<Seq<char>>) -> Seq<char>
    decreases words.len(),
{
    if words.len() == 0 {
        Seq::empty()
    } else if words.len() == 1 {
        words[0]
    } else {
        joined_by_space(words.drop_last()) + " "@ + words.last()
    }
}

/// Joins words with single spaces.
pub fn join_words(words: &Vec<String>) -> (r: String)
    ensures
        r@ == joined_by_space(strs(words@)),
{
    let mut out = String::new();
    let n = words.len();
    if n == 0 {
        return out;
    }
    out.append(words[0].as_str());
    assert(strs(words@).take(1) =~= seq![words@[0]@]);
    assert(out@ =~= joined_by_space(strs(words@).take(1)));
    let mut i: usize = 1;
    while i < n
        invariant
            1 <= i <= n,
            n == words@.len(),
            out@ == joined_by_space(strs(words@).take(i as int)),
        decreases n - i,
    {
        out.append(" ");
        out.append(words[i].as_str());
        proof {
            let next = strs(words@).take(i + 1);
            assert(next.drop_last() =~= strs(words@).take(i as int));
            assert(next.last() == words@[i as int]@);
        }
        i = i + 1;
    }
    assert(strs(words@).take(n as int) =~= strs(words@));
    out
}

/// What `str::split_whitespace` of the standard library yields for a text: its
/// maximal runs of characters that are not Unicode white space, in order.
pub uninterp spec fn whitespace_words(s: Seq<char>) -> Seq<Seq<char>>;

/// `str::split_whitespace` of the standard library, each piece copied into a
/// string of its own. The pieces are a function of the text alone.
#[verifier::external_body]
pub(crate) fn split_whitespace(s: &str) -> (r: Vec<String>)
    ensures
        strs(r@) == whitespace_words(s@),
{
    s.split_whitespace().map(|w| w.to_string()).collect()
}

/// The character of a decimal digit.
pub open spec fn digit_char(d: int) -> char
    recommends
        0 <= d <= 9,
{
    if d == 0 {
        '0'
    } else if d == 1 {
        '1'
    } else if d == 2 {
        '2'
    } else if d == 3 {
        '3'
    } else if d == 4 {
        '4'
    } else if d == 5 {
        '5'
    } else if d == 6 {
        '6'
    } else if d == 7 {
        '7'
    } else if d == 8 {
        '8'
    } else {
        '9'
    }
}

/// The decimal digits of a natural number, without leading zeros.
pub open spec fn decimal_digits(n: nat) -> Seq<char>
    decreases n,
{
    if n < 10 {
        seq![digit_char(n as int)]
    } else {
        decimal_digits(n / 10).push(digit_char((n % 10) as int))
    }
}

/// An integer written in decimal, with a minus sign if it is negative.
pub open spec fn decimal(n: int) -> Seq<char> {
    if n < 0 {
        seq!['-'] + decimal_digits((-n) as nat)
    } else {
        decimal_digits(n as nat)
    }
}

/// `ToString::to_string` of the standard library on an integer: the decimal
/// digits without leading zeros, after a minus sign for a negative number.
#[verifier::external_body]
pub(crate) fn int_to_string(n: i128) -> (r: String)
    ensures
        r@ == decimal(n as int),
{
    n.to_string()
}

/// What `char::to_uppercase` of the standard library yields for a character:
/// its upper-case mapping by the Unicode tables, which may be several
/// characters long.
pub uninterp spec fn uppercase_of(c: char) -> Seq<char>;

/// `char::to_uppercase` of the standard library, its characters collected
/// into a string.
#[verifier::external_body]
pub(crate) fn char_to_uppercase(c: char) -> (r: String)
    ensures
        r@ == uppercase_of(c),
{
    c.to_uppercase().collect()
}

/// Whether a character is ASCII punctuation: one of
/// ``! " # $ % & ' ( ) * + , - . /``, ``: ; < = > ? @``, ``[ \ ] ^ _ ` `` or
/// ``{ | } ~``.
pub open spec fn ascii_punctuation(c: char) -> bool {
    let v = c as u32;
    (33 <= v <= 47) || (58 <= v <= 64) || (91 <= v <= 96) || (123 <= v <= 126)
}

/// Tells whether a character is ASCII punctuation.
pub fn is_ascii_punctuation(c: char) -> (r: bool)
    ensures
        r == ascii_punctuation(c),
{
    let v: u32 = c as u32;
    (33 <= v && v <= 47) || (58 <= v && v <= 64) || (91 <= v && v <= 96) || (123 <= v && v
        <= 126)
}

/// `"is"` for at most one, `"are"` for more.
pub open spec fn are_text(len: int) -> Seq<char> {
    if len > 1 {
        "are"@
    } else {
        "is"@
    }
}

/// A noun, with an `s` appended when there is more than one.
pub open spec fn plural_text(len: int, noun: Seq<char>) -> Seq<char> {
    if len > 1 {
        noun + "s"@
    } else {
        noun
    }
}

/// Three texts, one after the other.
pub fn concat3(a: &str, b: &str, c: &str) -> (r: String)
    ensures
        r@ == a@ + b@ + c@,
{
    let mut out = String::from_str(a);
    out.append(b);
    out.append(c);
    out
}

/// Five texts, one after the other.
pub fn concat5(a: &str, b: &str, c: &str, d: &str, e: &str) -> (r: String)
    ensures
        r@ == a@ + b@ + c@ + d@ + e@,
{
    let mut out = concat3(a, b, c);
    out.append(d);
    out.append(e);
    out
}

/// Seven texts, one after the other.
pub fn concat7(a: &str, b: &str, c: &str, d: &str, e: &str, f: &str, g: &str) -> (r: String)
    ensures
        r@ == a@ + b@ + c@ + d@ + e@ + f@ + g@,
{
    let mut out = concat5(a, b, c, d, e);
    out.append(f);
    out.append(g);
    out
}

/// Whether a string reads as a given text.
pub fn is_text(s: &String, text: &str) -> (r: bool)
    ensures
        r == (s@ == text@),
{
    let other = String::from_str(text);
    s.eq(&other)
}

/// The number of bytes that a text takes in UTF-8.
pub open spec fn utf8_len(text: Seq<char>) -> nat {
    vstd::utf8::encode_utf8(text).len()
}

} // verus!
