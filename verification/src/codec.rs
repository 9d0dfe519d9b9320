//! Percent-encoding and decoding of query-string components.
//!
//! A fixed, explicit set of characters is escaped as `%XX` with uppercase
//! hexadecimal digits. The decoder applies the exact inverse substitutions
//! and additionally recognizes `%3F` -> `?`, an escape that the encoder
//! deliberately never produces. Percent sequences outside the table pass
//! through decoding untouched.

use vstd::prelude::*;
use vstd::string::StrSliceExecFns;

verus! {

/// The escape table: for a character that the encoder rewrites, the two
/// uppercase hexadecimal digits of its percent-escape; `None` for every
/// character that passes through unchanged.
pub open spec fn escape_code(c: char) -> Option<(char, char)> {
    if c == '%' {
        Some(('2', '5'))
    } else if c == ' ' {
        Some(('2', '0'))
    } else if c == '\r' {
        Some(('0', 'D'))
    } else if c == '\n' {
        Some(('0', 'A'))
    } else if c == '!' {
        Some(('2', '1'))
    } else if c == '"' {
        Some(('2', '2'))
    } else if c == '#' {
        Some(('2', '3'))
    } else if c == '$' {
        Some(('2', '4'))
    } else if c == '&' {
        Some(('2', '6'))
    } else if c == '\'' {
        Some(('2', '7'))
    } else if c == '(' {
        Some(('2', '8'))
    } else if c == ')' {
        Some(('2', '9'))
    } else if c == '*' {
        Some(('2', 'A'))
    } else if c == '+' {
        Some(('2', 'B'))
    } else if c == ',' {
        Some(('2', 'C'))
    } else if c == '/' {
        Some(('2', 'F'))
    } else if c == ':' {
        Some(('3', 'A'))
    } else if c == ';' {
        Some(('3', 'B'))
    } else if c == '=' {
        Some(('3', 'D'))
    } else if c == '@' {
        Some(('4', '0'))
    } else if c == '[' {
        Some(('5', 'B'))
    } else if c == ']' {
        Some(('5', 'D'))
    } else {
        None
    }
}

/// The decode table: the inverse of [`escape_code`], plus `%3F` -> `?`.
pub open spec fn unescape_char(a: char, b: char) -> Option<char> {
    if a == '2' && b == '5' {
        Some('%')
    } else if a == '2' && b == '0' {
        Some(' ')
    } else if a == '0' && b == 'D' {
        Some('\r')
    } else if a == '0' && b == 'A' {
        Some('\n')
    } else if a == '2' && b == '1' {
        Some('!')
    } else if a == '2' && b == '2' {
        Some('"')
    } else if a == '2' && b == '3' {
        Some('#')
    } else if a == '2' && b == '4' {
        Some('$')
    } else if a == '2' && b == '6' {
        Some('&')
    } else if a == '2' && b == '7' {
        Some('\'')
    } else if a == '2' && b == '8' {
        Some('(')
    } else if a == '2' && b == '9' {
        Some(')')
    } else if a == '2' && b == 'A' {
        Some('*')
    } else if a == '2' && b == 'B' {
        Some('+')
    } else if a == '2' && b == 'C' {
        Some(',')
    } else if a == '2' && b == 'F' {
        Some('/')
    } else if a == '3' && b == 'A' {
        Some(':')
    } else if a == '3' && b == 'B' {
        Some(';')
    } else if a == '3' && b == 'D' {
        Some('=')
    } else if a == '3' && b == 'F' {
        Some('?')
    } else if a == '4' && b == '0' {
        Some('@')
    } else if a == '5' && b == 'B' {
        Some('[')
    } else if a == '5' && b == 'D' {
        Some(']')
    } else {
        None
    }
}

/// What the encoder emits for one character: the three-character escape for
/// a character in the table, the character itself for every other.
pub open spec fn encode_char(c: char) -> Seq<char> {
    match escape_code(c) {
        Some((a, b)) => seq!['%', a, b],
        None => seq![c],
    }
}

/// The encoding of a whole component, character by character.
pub open spec fn encode_seq(s: Seq<char>) -> Seq<char>
    decreases s.len(),
{
    if s.len() == 0 {
        Seq::empty()
    } else {
        encode_char(s[0]) + encode_seq(s.drop_first())
    }
}

/// The decoding of a whole component: one left-to-right pass that rewrites
/// each escape from the decode table to its character and copies every other
/// character, unknown `%` sequences included, unchanged. The pass never
/// re-examines what it has produced, so a decoded `%` cannot join later
/// characters into a second escape: the effect is that of substituting
/// every other escape first and `%25` last.
pub open spec fn decode_seq(s: Seq<char>) -> Seq<char>
    decreases s.len(),
{
    if s.len() == 0 {
        Seq::empty()
    } else if s[0] == '%' && s.len() >= 3 && unescape_char(s[1], s[2]) is Some {
        seq![unescape_char(s[1], s[2])->0] + decode_seq(s.skip(3))
    } else {
        seq![s[0]] + decode_seq(s.drop_first())
    }
}

/// Decoding inverts encoding: the escape table is injective, its digits are
/// never themselves escaped, and `%` never survives encoding unescaped, so
/// the decoder finds exactly the escapes the encoder emitted.
pub proof fn lemma_decode_encode(s: Seq<char>)
    ensures
        decode_seq(encode_seq(s)) == s,
    decreases s.len(),
{
    if s.len() == 0 {
        assert(decode_seq(encode_seq(s)) =~= s);
    } else {
        let c = s[0];
        let rest = s.drop_first();
        lemma_decode_encode(rest);
        let e = encode_seq(s);
        match escape_code(c) {
            Some((a, b)) => {
                assert(e =~= seq!['%', a, b] + encode_seq(rest));
                assert(e[0] == '%' && e[1] == a && e[2] == b);
                assert(unescape_char(a, b) == Some(c));
                assert(e.skip(3) =~= encode_seq(rest));
                assert(decode_seq(e) =~= seq![c] + decode_seq(encode_seq(rest)));
                assert(decode_seq(encode_seq(s)) =~= s);
            },
            None => {
                assert(e =~= seq![c] + encode_seq(rest));
                assert(e[0] == c && c != '%');
                assert(e.drop_first() =~= encode_seq(rest));
                assert(decode_seq(e) =~= seq![c] + decode_seq(encode_seq(rest)));
                assert(decode_seq(encode_seq(s)) =~= s);
            },
        }
    }
}

/// The escape for `c` in the table, as executable code.
fn escape_of(c: char) -> (r: Option<(char, char)>)
    ensures
        r == escape_code(c),
{
    if c == '%' {
        Some(('2', '5'))
    } else if c == ' ' {
        Some(('2', '0'))
    } else if c == '\r' {
        Some(('0', 'D'))
    } else if c == '\n' {
        Some(('0', 'A'))
    } else if c == '!' {
        Some(('2', '1'))
    } else if c == '"' {
        Some(('2', '2'))
    } else if c == '#' {
        Some(('2', '3'))
    } else if c == '$' {
        Some(('2', '4'))
    } else if c == '&' {
        Some(('2', '6'))
    } else if c == '\'' {
        Some(('2', '7'))
    } else if c == '(' {
        Some(('2', '8'))
    } else if c == ')' {
        Some(('2', '9'))
    } else if c == '*' {
        Some(('2', 'A'))
    } else if c == '+' {
        Some(('2', 'B'))
    } else if c == ',' {
        Some(('2', 'C'))
    } else if c == '/' {
        Some(('2', 'F'))
    } else if c == ':' {
        Some(('3', 'A'))
    } else if c == ';' {
        Some(('3', 'B'))
    } else if c == '=' {
        Some(('3', 'D'))
    } else if c == '@' {
        Some(('4', '0'))
    } else if c == '[' {
        Some(('5', 'B'))
    } else if c == ']' {
        Some(('5', 'D'))
    } else {
        None
    }
}

/// The character for the escape digits `a`, `b` in the decode table, as
/// executable code.
fn unescape_of(a: char, b: char) -> (r: Option<char>)
    ensures
        r == unescape_char(a, b),
{
    if a == '2' && b == '5' {
        Some('%')
    } else if a == '2' && b == '0' {
        Some(' ')
    } else if a == '0' && b == 'D' {
        Some('\r')
    } else if a == '0' && b == 'A' {
        Some('\n')
    } else if a == '2' && b == '1' {
        Some('!')
    } else if a == '2' && b == '2' {
        Some('"')
    } else if a == '2' && b == '3' {
        Some('#')
    } else if a == '2' && b == '4' {
        Some('$')
    } else if a == '2' && b == '6' {
        Some('&')
    } else if a == '2' && b == '7' {
        Some('\'')
    } else if a == '2' && b == '8' {
        Some('(')
    } else if a == '2' && b == '9' {
        Some(')')
    } else if a == '2' && b == 'A' {
        Some('*')
    } else if a == '2' && b == 'B' {
        Some('+')
    } else if a == '2' && b == 'C' {
        Some(',')
    } else if a == '2' && b == 'F' {
        Some('/')
    } else if a == '3' && b == 'A' {
        Some(':')
    } else if a == '3' && b == 'B' {
        Some(';')
    } else if a == '3' && b == 'D' {
        Some('=')
    } else if a == '3' && b == 'F' {
        Some('?')
    } else if a == '4' && b == '0' {
        Some('@')
    } else if a == '5' && b == 'B' {
        Some('[')
    } else if a == '5' && b == 'D' {
        Some(']')
    } else {
        None
    }
}

/// The characters of `s`, in order.
pub(crate) fn str_to_chars(s: &str) -> (v: Vec<char>)
    ensures
        v@ == s@,
{
    let n = s.unicode_len();
    let mut v: Vec<char> = Vec::new();
    let mut i: usize = 0;
    while i < n
        invariant
            n == s@.len(),
            i <= n,
            v@ == s@.take(i as int),
        decreases n - i,
    {
        v.push(s.get_char(i));
        i = i + 1;
        assert(v@ =~= s@.take(i as int));
    }
    assert(v@ =~= s@);
    v
}

/// Relies on `String`'s `FromIterator` implementation: collecting characters
/// yields the string of exactly those characters, in order.
#[verifier::external_body]
pub(crate) fn chars_to_string(v: &Vec<char>) -> (s: String)
    ensures
        s@ == v@,
{
    v.iter().collect()
}

/// Percent-encodes a sequence of characters.
pub(crate) fn encode_chars(v: &Vec<char>) -> (r: Vec<char>)
    ensures
        r@ == encode_seq(v@),
{
    let mut r: Vec<char> = Vec::new();
    let mut i: usize = 0;
    assert(r@ + encode_seq(v@.skip(0)) =~= encode_seq(v@)) by {
        assert(v@.skip(0) =~= v@);
    }
    while i < v.len()
        invariant
            i <= v@.len(),
            encode_seq(v@) == r@ + encode_seq(v@.skip(i as int)),
        decreases v@.len() - i,
    {
        let ghost pending = v@.skip(i as int);
        let c = v[i];
        assert(pending[0] == c);
        assert(pending.drop_first() =~= v@.skip(i as int + 1));
        match escape_of(c) {
            Some((a, b)) => {
                r.push('%');
                r.push(a);
                r.push(b);
            },
            None => {
                r.push(c);
            },
        }
        i = i + 1;
        assert(encode_seq(v@) =~= r@ + encode_seq(v@.skip(i as int)));
    }
    assert(v@.skip(v@.len() as int) =~= Seq::<char>::empty());
    assert(r@ =~= encode_seq(v@));
    r
}

/// Percent-decodes a sequence of characters.
pub(crate) fn decode_chars(v: &Vec<char>) -> (r: Vec<char>)
    ensures
        r@ == decode_seq(v@),
{
    let mut r: Vec<char> = Vec::new();
    let mut i: usize = 0;
    assert(r@ + decode_seq(v@.skip(0)) =~= decode_seq(v@)) by {
        assert(v@.skip(0) =~= v@);
    }
    while i < v.len()
        invariant
            i <= v@.len(),
            decode_seq(v@) == r@ + decode_seq(v@.skip(i as int)),
        decreases v@.len() - i,
    {
        let ghost pending = v@.skip(i as int);
        let c = v[i];
        assert(pending[0] == c);
        if c == '%' && v.len() - i >= 3 {
            assert(pending.len() >= 3);
            assert(pending[1] == v@[i as int + 1] && pending[2] == v@[i as int + 2]);
            match unescape_of(v[i + 1], v[i + 2]) {
                Some(d) => {
                    r.push(d);
                    assert(pending.skip(3) =~= v@.skip(i as int + 3));
                    i = i + 3;
                },
                None => {
                    r.push(c);
                    assert(pending.drop_first() =~= v@.skip(i as int + 1));
                    i = i + 1;
                },
            }
        } else {
            r.push(c);
            assert(pending.drop_first() =~= v@.skip(i as int + 1));
            i = i + 1;
        }
        assert(decode_seq(v@) =~= r@ + decode_seq(v@.skip(i as int)));
    }
    assert(v@.skip(v@.len() as int) =~= Seq::<char>::empty());
    assert(r@ =~= decode_seq(v@));
    r
}

/// Percent-encodes every character of the escape table in `component` as
/// `%XX` with uppercase hexadecimal digits; all other characters, `?`
/// included, pass through unchanged.
pub fn encode_uri_component(component: &str) -> (r: String)
    ensures
        r@ == encode_seq(component@),
{
    let v = str_to_chars(component);
    let e = encode_chars(&v);
    chars_to_string(&e)
}

/// Rewrites every escape of the decode table in `component` to its
/// character, in one left-to-right pass; percent sequences outside the
/// table are left untouched.
pub fn decode_uri_component(component: &str) -> (r: String)
    ensures
        r@ == decode_seq(component@),
{
    let v = str_to_chars(component);
    let d = decode_chars(&v);
    chars_to_string(&d)
}

} // verus!
