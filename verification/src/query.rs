//! The parser and the builder: query string to mapping and back.
//!
//! A query string is a sequence of `key=value` tokens joined by `&`. The
//! parser splits on `&`, splits each token on its first `=` (the value keeps
//! any later `=`), decodes key and value, drops tokens with an empty key,
//! and lets a later token overwrite an earlier one with the same key. The
//! builder encodes each key and value and joins the pairs back together, in
//! the mapping's stored order. Malformed input never raises an error: a
//! token without `=` gets an empty value, and blank input gives the empty
//! mapping.

use vstd::prelude::*;

use crate::codec::chars_to_string;
use crate::codec::decode_chars;
use crate::codec::decode_seq;
use crate::codec::escape_code;
use crate::codec::encode_chars;
use crate::codec::encode_seq;
use crate::codec::lemma_decode_encode;
use crate::codec::str_to_chars;
use crate::params::SearchParams;
use crate::params::lemma_upsert_map;
use crate::params::map_of;

verus! {

/// The Unicode white-space characters, the set that `str::trim` removes.
pub open spec fn is_space(c: char) -> bool {
    ||| c == ' '
    ||| c == '\u{0009}'
    ||| c == '\u{000A}'
    ||| c == '\u{000B}'
    ||| c == '\u{000C}'
    ||| c == '\u{000D}'
    ||| c == '\u{0085}'
    ||| c == '\u{00A0}'
    ||| c == '\u{1680}'
    ||| c == '\u{2000}'
    ||| c == '\u{2001}'
    ||| c == '\u{2002}'
    ||| c == '\u{2003}'
    ||| c == '\u{2004}'
    ||| c == '\u{2005}'
    ||| c == '\u{2006}'
    ||| c == '\u{2007}'
    ||| c == '\u{2008}'
    ||| c == '\u{2009}'
    ||| c == '\u{200A}'
    ||| c == '\u{2028}'
    ||| c == '\u{2029}'
    ||| c == '\u{202F}'
    ||| c == '\u{205F}'
    ||| c == '\u{3000}'
}

/// A string of white space alone; the empty string included.
pub open spec fn is_blank(s: Seq<char>) -> bool {
    forall|i: int| 0 <= i < s.len() ==> is_space(s[i])
}

/// The segments of `s` between occurrences of `sep`: always one segment
/// more than there are separators, empty segments kept.
pub open spec fn split_on(s: Seq<char>, sep: char) -> Seq<Seq<char>>
    decreases s.len(),
{
    if s.len() == 0 {
        seq![Seq::<char>::empty()]
    } else {
        let rest = split_on(s.drop_first(), sep);
        if s[0] == sep {
            seq![Seq::<char>::empty()] + rest
        } else {
            seq![seq![s[0]] + rest[0]] + rest.drop_first()
        }
    }
}

/// The raw key of a token: everything before the first `=`, or the whole
/// token where it has none.
pub open spec fn token_key(t: Seq<char>) -> Seq<char>
    decreases t.len(),
{
    if t.len() == 0 {
        Seq::empty()
    } else if t[0] == '=' {
        Seq::empty()
    } else {
        seq![t[0]] + token_key(t.drop_first())
    }
}

/// The raw value of a token: everything after the first `=`, later `=`
/// characters included, or empty where the token has none.
pub open spec fn token_value(t: Seq<char>) -> Seq<char>
    decreases t.len(),
{
    if t.len() == 0 {
        Seq::empty()
    } else if t[0] == '=' {
        t.drop_first()
    } else {
        token_value(t.drop_first())
    }
}

/// One token applied to a mapping: dropped where its raw key is empty,
/// otherwise its decoded key set to its decoded value.
pub open spec fn apply_token(m: Map<Seq<char>, Seq<char>>, t: Seq<char>) -> Map<
    Seq<char>,
    Seq<char>,
> {
    if token_key(t).len() == 0 {
        m
    } else {
        m.insert(decode_seq(token_key(t)), decode_seq(token_value(t)))
    }
}

/// The mapping of a token sequence: tokens applied left to right, so that a
/// later token overwrites an earlier one with the same key.
pub open spec fn parse_tokens(toks: Seq<Seq<char>>) -> Map<Seq<char>, Seq<char>>
    decreases toks.len(),
{
    if toks.len() == 0 {
        Map::empty()
    } else {
        apply_token(parse_tokens(toks.drop_last()), toks.last())
    }
}

/// What parsing a query string yields: the empty mapping for blank input,
/// otherwise the mapping of its `&`-separated tokens.
pub open spec fn parse_spec(s: Seq<char>) -> Map<Seq<char>, Seq<char>> {
    if is_blank(s) {
        Map::empty()
    } else {
        parse_tokens(split_on(s, '&'))
    }
}

/// The serialized form of one pair: encoded key, `=`, encoded value.
pub open spec fn pair_string(k: Seq<char>, v: Seq<char>) -> Seq<char> {
    encode_seq(k) + seq!['='] + encode_seq(v)
}

/// What building a mapping yields: the pairs' serialized forms joined with
/// `&`, in the given order; the empty mapping gives the empty string.
pub open spec fn build_spec(pairs: Seq<(Seq<char>, Seq<char>)>) -> Seq<char>
    decreases pairs.len(),
{
    if pairs.len() == 0 {
        Seq::empty()
    } else if pairs.len() == 1 {
        pair_string(pairs[0].0, pairs[0].1)
    } else {
        pair_string(pairs[0].0, pairs[0].1) + seq!['&'] + build_spec(pairs.drop_first())
    }
}

/// Whether `c` is white space, as executable code.
fn space_char(c: char) -> (r: bool)
    ensures
        r == is_space(c),
{
    c == ' ' || c == '\u{0009}' || c == '\u{000A}' || c == '\u{000B}' || c == '\u{000C}' || c
        == '\u{000D}' || c == '\u{0085}' || c == '\u{00A0}' || c == '\u{1680}' || c == '\u{2000}'
        || c == '\u{2001}' || c == '\u{2002}' || c == '\u{2003}' || c == '\u{2004}' || c
        == '\u{2005}' || c == '\u{2006}' || c == '\u{2007}' || c == '\u{2008}' || c == '\u{2009}'
        || c == '\u{200A}' || c == '\u{2028}' || c == '\u{2029}' || c == '\u{202F}' || c
        == '\u{205F}' || c == '\u{3000}'
}

/// Whether the characters are white space alone.
fn all_space(v: &Vec<char>) -> (r: bool)
    ensures
        r == is_blank(v@),
{
    let mut i: usize = 0;
    while i < v.len()
        invariant
            i <= v@.len(),
            forall|t: int| 0 <= t < i ==> is_space(v@[t]),
        decreases v@.len() - i,
    {
        if !space_char(v[i]) {
            return false;
        }
        i = i + 1;
    }
    true
}

/// The position of the first `=` in the token, or the token's length where
/// it has none.
fn find_eq(v: &Vec<char>) -> (r: usize)
    ensures
        r <= v@.len(),
        forall|t: int| 0 <= t < r ==> v@[t] != '=',
        r < v@.len() ==> v@[r as int] == '=',
{
    let mut j: usize = 0;
    while j < v.len()
        invariant
            j <= v@.len(),
            forall|t: int| 0 <= t < j ==> v@[t] != '=',
        decreases v@.len() - j,
    {
        if v[j] == '=' {
            return j;
        }
        j = j + 1;
    }
    j
}

/// The characters of `v` from `from` up to `to`.
fn copy_range(v: &Vec<char>, from: usize, to: usize) -> (r: Vec<char>)
    requires
        from <= to <= v@.len(),
    ensures
        r@ == v@.subrange(from as int, to as int),
{
    let mut r: Vec<char> = Vec::new();
    let mut i: usize = from;
    while i < to
        invariant
            from <= i <= to <= v@.len(),
            r@ == v@.subrange(from as int, i as int),
        decreases to - i,
    {
        r.push(v[i]);
        assert(r@ =~= v@.subrange(from as int, i as int + 1));
        i = i + 1;
    }
    r
}

/// With no `=` before `e`, and `=` at `e` where `e` is inside the token,
/// the raw key and value are the pieces on either side of `e`.
proof fn lemma_token_parts(t: Seq<char>, e: int)
    requires
        0 <= e <= t.len(),
        forall|j: int| 0 <= j < e ==> t[j] != '=',
        e < t.len() ==> t[e] == '=',
    ensures
        token_key(t) == t.subrange(0, e),
        token_value(t) == (if e < t.len() {
            t.subrange(e + 1, t.len() as int)
        } else {
            Seq::<char>::empty()
        }),
    decreases t.len(),
{
    if t.len() == 0 {
        assert(token_key(t) =~= t.subrange(0, e));
    } else if e == 0 {
        if t[0] == '=' {
            assert(token_key(t) =~= t.subrange(0, 0));
            assert(token_value(t) =~= t.subrange(1, t.len() as int));
        } else {
            assert(e < t.len() && t[e] != '=');
        }
    } else {
        let r = t.drop_first();
        assert(forall|j: int| 0 <= j < e - 1 ==> r[j] != '=');
        lemma_token_parts(r, e - 1);
        assert(token_key(t) =~= t.subrange(0, e)) by {
            assert(r.subrange(0, e - 1) =~= t.subrange(1, e));
            assert(token_key(t) == seq![t[0]] + r.subrange(0, e - 1));
        }
        if e < t.len() {
            assert(token_value(t) =~= t.subrange(e + 1, t.len() as int)) by {
                assert(r.subrange(e, r.len() as int) =~= t.subrange(e + 1, t.len() as int));
            }
        }
    }
}

/// Splitting never yields an empty segment list.
proof fn lemma_split_nonempty(s: Seq<char>, sep: char)
    ensures
        split_on(s, sep).len() >= 1,
    decreases s.len(),
{
    if s.len() > 0 {
        lemma_split_nonempty(s.drop_first(), sep);
    }
}

/// Appending the separator closes the last segment and opens an empty one.
proof fn lemma_split_push_sep(s: Seq<char>, sep: char)
    ensures
        split_on(s.push(sep), sep) == split_on(s, sep).push(Seq::<char>::empty()),
    decreases s.len(),
{
    lemma_split_nonempty(s, sep);
    if s.len() == 0 {
        let p = s.push(sep);
        assert(p[0] == sep);
        assert(p.drop_first() =~= s);
        assert(split_on(p, sep) == seq![Seq::<char>::empty()] + split_on(s, sep));
        assert(split_on(s, sep) == seq![Seq::<char>::empty()]);
        assert(seq![Seq::<char>::empty()] + seq![Seq::<char>::empty()] =~= split_on(s, sep).push(
            Seq::<char>::empty(),
        ));
    } else {
        lemma_split_push_sep(s.drop_first(), sep);
        assert(s.push(sep).drop_first() =~= s.drop_first().push(sep));
        assert(s.push(sep)[0] == s[0]);
        assert(split_on(s.push(sep), sep) =~~= split_on(s, sep).push(Seq::<char>::empty()));
    }
}

/// Appending any other character extends the last segment.
proof fn lemma_split_push_other(s: Seq<char>, sep: char, c: char)
    requires
        c != sep,
    ensures
        split_on(s.push(c), sep) == split_on(s, sep).update(
            split_on(s, sep).len() - 1,
            split_on(s, sep).last().push(c),
        ),
    decreases s.len(),
{
    lemma_split_nonempty(s, sep);
    if s.len() == 0 {
        let p = s.push(c);
        let rest = split_on(s, sep);
        assert(p[0] == c);
        assert(p.drop_first() =~= s);
        assert(rest == seq![Seq::<char>::empty()]);
        assert(split_on(p, sep) == seq![seq![p[0]] + rest[0]] + rest.drop_first());
        assert(seq![p[0]] + rest[0] =~= rest.last().push(c));
        assert(rest.drop_first() =~= Seq::<Seq<char>>::empty());
        assert(split_on(p, sep) =~= rest.update(rest.len() - 1, rest.last().push(c)));
    } else {
        lemma_split_push_other(s.drop_first(), sep, c);
        lemma_split_nonempty(s.drop_first(), sep);
        assert(s.push(c).drop_first() =~= s.drop_first().push(c));
        assert(s.push(c)[0] == s[0]);
        assert(split_on(s.push(c), sep) =~~= split_on(s, sep).update(
            split_on(s, sep).len() - 1,
            split_on(s, sep).last().push(c),
        ));
    }
}

/// One token folded into the mapping under construction.
fn push_token(m: &mut SearchParams, tok: &Vec<char>)
    requires
        old(m).wf(),
    ensures
        final(m).wf(),
        final(m).as_map() == apply_token(old(m).as_map(), tok@),
{
    let e = find_eq(tok);
    proof {
        lemma_token_parts(tok@, e as int);
    }
    if e == 0 {
        return ;
    }
    let key_v = copy_range(tok, 0, e);
    let val_v = if e < tok.len() {
        copy_range(tok, e + 1, tok.len())
    } else {
        Vec::new()
    };
    assert(key_v@ == token_key(tok@));
    assert(val_v@ == token_value(tok@));
    let dk = decode_chars(&key_v);
    let dv = decode_chars(&val_v);
    let ks = chars_to_string(&dk);
    let vs = chars_to_string(&dv);
    let ghost pairs0 = m@;
    m.insert(ks, vs);
    proof {
        lemma_upsert_map(pairs0, ks@, vs@);
    }
}

/// Splits the query string on `&`, splits each token on its first `=` (the
/// value keeps any later `=`), percent-decodes keys and values, drops every
/// token whose raw key is empty, and lets a later token overwrite an
/// earlier one with the same key. Blank input gives the empty mapping.
pub fn parse_url_search_params(params: &str) -> (m: SearchParams)
    ensures
        m.wf(),
        m.as_map() == parse_spec(params@),
{
    let v = str_to_chars(params);
    if all_space(&v) {
        return SearchParams::new();
    }
    let mut m = SearchParams::new();
    let mut cur: Vec<char> = Vec::new();
    let mut i: usize = 0;
    proof {
        assert(v@.take(0) =~= Seq::<char>::empty());
    }
    while i < v.len()
        invariant
            i <= v@.len(),
            m.wf(),
            split_on(v@.take(i as int), '&').len() >= 1,
            m.as_map() == parse_tokens(split_on(v@.take(i as int), '&').drop_last()),
            cur@ == split_on(v@.take(i as int), '&').last(),
        decreases v@.len() - i,
    {
        let ghost pre = v@.take(i as int);
        let ghost segs = split_on(pre, '&');
        let c = v[i];
        assert(v@.take(i as int + 1) =~= pre.push(c));
        if c == '&' {
            push_token(&mut m, &cur);
            cur = Vec::new();
            proof {
                lemma_split_push_sep(pre, '&');
                let segs1 = split_on(pre.push('&'), '&');
                assert(segs1.drop_last() =~= segs);
                assert(parse_tokens(segs) == apply_token(parse_tokens(segs.drop_last()), segs.last()));
                assert(cur@ =~= segs1.last());
            }
        } else {
            cur.push(c);
            proof {
                lemma_split_push_other(pre, '&', c);
                let segs1 = split_on(pre.push(c), '&');
                assert(segs1.drop_last() =~= segs.drop_last());
                assert(cur@ == segs1.last());
            }
        }
        i = i + 1;
    }
    assert(v@.take(v@.len() as int) =~= v@);
    push_token(&mut m, &cur);
    proof {
        let segs = split_on(v@, '&');
        assert(m.as_map() == parse_tokens(segs));
    }
    m
}

/// Serializes each pair as `key=value`, key and value percent-encoded, and
/// joins the pairs with `&`, in the mapping's stored order; the empty
/// mapping gives the empty string.
pub fn build_url_search_params(params: SearchParams) -> (r: String)
    ensures
        r@ == build_spec(params@),
{
    let mut out: Vec<char> = Vec::new();
    let n = params.len();
    let mut i: usize = 0;
    proof {
        assert(params@.take(0) =~= Seq::<(Seq<char>, Seq<char>)>::empty());
    }
    while i < n
        invariant
            n == params@.len(),
            i <= n,
            out@ == build_spec(params@.take(i as int)),
        decreases n - i,
    {
        let ghost pre = params@.take(i as int);
        if i > 0 {
            out.push('&');
        }
        let kc = str_to_chars(params.key_at(i).as_str());
        let mut ek = encode_chars(&kc);
        out.append(&mut ek);
        out.push('=');
        let vc = str_to_chars(params.value_at(i).as_str());
        let mut ev = encode_chars(&vc);
        out.append(&mut ev);
        proof {
            lemma_build_push(pre, params@[i as int]);
            assert(params@.take(i as int + 1) =~= pre.push(params@[i as int]));
            assert(out@ =~= build_spec(params@.take(i as int + 1)));
        }
        i = i + 1;
    }
    assert(params@.take(n as int) =~= params@);
    chars_to_string(&out)
}

/// Serializing one more pair appends `&` and its serialized form, except at
/// the front.
proof fn lemma_build_push(pairs: Seq<(Seq<char>, Seq<char>)>, pr: (Seq<char>, Seq<char>))
    ensures
        build_spec(pairs.push(pr)) == if pairs.len() == 0 {
            pair_string(pr.0, pr.1)
        } else {
            build_spec(pairs) + seq!['&'] + pair_string(pr.0, pr.1)
        },
    decreases pairs.len(),
{
    let w = pairs.push(pr);
    if pairs.len() == 0 {
        assert(w.len() == 1 && w[0] == pr);
    } else {
        lemma_build_push(pairs.drop_first(), pr);
        assert(w.drop_first() =~= pairs.drop_first().push(pr));
        assert(w[0] == pairs[0]);
        if pairs.len() == 1 {
            assert(build_spec(w) =~= build_spec(pairs) + seq!['&'] + pair_string(pr.0, pr.1));
        } else {
            assert(build_spec(w) =~= build_spec(pairs) + seq!['&'] + pair_string(pr.0, pr.1));
        }
    }
}

/// No character of an encoded component is `&` or `=`: both stand in the
/// escape table, and no escape is written with them.
proof fn lemma_encode_plain(s: Seq<char>)
    ensures
        forall|i: int|
            0 <= i < encode_seq(s).len() ==> encode_seq(s)[i] != '&' && encode_seq(s)[i] != '=',
    decreases s.len(),
{
    if s.len() > 0 {
        lemma_encode_plain(s.drop_first());
        let head = crate::codec::encode_char(s[0]);
        assert forall|i: int|
            0 <= i < encode_seq(s).len() implies encode_seq(s)[i] != '&' && encode_seq(s)[i]
            != '=' by {
            if i < head.len() {
                match escape_code(s[0]) {
                    Some((a, b)) => {
                        assert(a != '&' && a != '=' && b != '&' && b != '=');
                    },
                    None => {
                        assert(s[0] != '&' && s[0] != '=');
                    },
                }
            } else {
                assert(encode_seq(s)[i] == encode_seq(s.drop_first())[i - head.len()]);
            }
        }
    }
}

/// An encoded component is at least as long as its source; in particular
/// the encoding of a nonempty component is nonempty.
proof fn lemma_encode_len(s: Seq<char>)
    ensures
        encode_seq(s).len() >= s.len(),
    decreases s.len(),
{
    if s.len() > 0 {
        lemma_encode_len(s.drop_first());
    }
}

/// A segment free of the separator splits into itself alone.
proof fn lemma_split_whole(t: Seq<char>, sep: char)
    requires
        forall|i: int| 0 <= i < t.len() ==> t[i] != sep,
    ensures
        split_on(t, sep) == seq![t],
    decreases t.len(),
{
    if t.len() == 0 {
        assert(split_on(t, sep) =~~= seq![t]);
    } else {
        lemma_split_whole(t.drop_first(), sep);
        let rest = split_on(t.drop_first(), sep);
        assert(rest[0] == t.drop_first());
        assert(seq![t[0]] + t.drop_first() =~= t);
        assert(rest.drop_first() =~= Seq::<Seq<char>>::empty());
        assert(split_on(t, sep) =~= seq![t]);
    }
}

/// Splitting `head ++ sep ++ rest`, with no separator in `head`, yields
/// `head` and the segments of `rest`.
proof fn lemma_split_concat(head: Seq<char>, rest: Seq<char>, sep: char)
    requires
        forall|i: int| 0 <= i < head.len() ==> head[i] != sep,
    ensures
        split_on(head + seq![sep] + rest, sep) == seq![head] + split_on(rest, sep),
    decreases head.len(),
{
    let w = head + seq![sep] + rest;
    if head.len() == 0 {
        assert(w[0] == sep);
        assert(w.drop_first() =~= rest);
        assert(split_on(w, sep) == seq![Seq::<char>::empty()] + split_on(rest, sep));
        assert(Seq::<char>::empty() =~= head);
        assert(split_on(w, sep) =~= seq![head] + split_on(rest, sep));
    } else {
        assert(w[0] == head[0]);
        assert(w.drop_first() =~= head.drop_first() + seq![sep] + rest);
        lemma_split_concat(head.drop_first(), rest, sep);
        let r2 = split_on(head.drop_first() + seq![sep] + rest, sep);
        assert(r2[0] == head.drop_first());
        assert(seq![w[0]] + r2[0] =~= head);
        assert(r2.drop_first() =~= split_on(rest, sep));
        assert(split_on(w, sep) =~= seq![head] + split_on(rest, sep));
    }
}

/// The serialized forms of the pairs, in order.
pub open spec fn pair_tokens(pairs: Seq<(Seq<char>, Seq<char>)>) -> Seq<Seq<char>> {
    Seq::new(pairs.len(), |i: int| pair_string(pairs[i].0, pairs[i].1))
}

/// No character of a serialized pair is `&`.
proof fn lemma_pair_no_amp(k: Seq<char>, v: Seq<char>)
    ensures
        forall|i: int| 0 <= i < pair_string(k, v).len() ==> pair_string(k, v)[i] != '&',
{
    lemma_encode_plain(k);
    lemma_encode_plain(v);
    let t = pair_string(k, v);
    assert forall|i: int| 0 <= i < t.len() implies t[i] != '&' by {
        if i < encode_seq(k).len() {
            assert(t[i] == encode_seq(k)[i]);
        } else if i == encode_seq(k).len() {
            assert(t[i] == '=');
        } else {
            assert(t[i] == encode_seq(v)[i - encode_seq(k).len() - 1]);
        }
    }
}

/// A built query string splits on `&` into exactly the serialized pairs.
proof fn lemma_split_build(pairs: Seq<(Seq<char>, Seq<char>)>)
    requires
        pairs.len() >= 1,
    ensures
        split_on(build_spec(pairs), '&') == pair_tokens(pairs),
    decreases pairs.len(),
{
    let t = pair_string(pairs[0].0, pairs[0].1);
    lemma_pair_no_amp(pairs[0].0, pairs[0].1);
    if pairs.len() == 1 {
        lemma_split_whole(t, '&');
        assert(split_on(build_spec(pairs), '&') =~= pair_tokens(pairs));
    } else {
        lemma_split_concat(t, build_spec(pairs.drop_first()), '&');
        lemma_split_build(pairs.drop_first());
        assert(pair_tokens(pairs.drop_first()) =~= pair_tokens(pairs).drop_first());
        assert(split_on(build_spec(pairs), '&') =~= pair_tokens(pairs));
    }
}

/// A serialized pair splits on its first `=` back into the encoded key and
/// the encoded value.
proof fn lemma_token_pair(k: Seq<char>, v: Seq<char>)
    ensures
        token_key(pair_string(k, v)) == encode_seq(k),
        token_value(pair_string(k, v)) == encode_seq(v),
{
    lemma_encode_plain(k);
    let t = pair_string(k, v);
    let e = encode_seq(k).len() as int;
    assert(forall|j: int| 0 <= j < e ==> t[j] == encode_seq(k)[j]);
    assert(t[e] == '=');
    lemma_token_parts(t, e);
    assert(t.subrange(0, e) =~= encode_seq(k));
    assert(t.subrange(e + 1, t.len() as int) =~= encode_seq(v));
}

/// The serialized pairs, with their nonempty keys, parse back to the
/// mapping of those very pairs.
proof fn lemma_parse_tokens_pairs(pairs: Seq<(Seq<char>, Seq<char>)>)
    requires
        forall|i: int| 0 <= i < pairs.len() ==> pairs[i].0.len() > 0,
    ensures
        parse_tokens(pair_tokens(pairs)) == map_of(pairs),
    decreases pairs.len(),
{
    if pairs.len() == 0 {
        assert(pair_tokens(pairs).len() == 0);
    } else {
        let toks = pair_tokens(pairs);
        let front = pairs.drop_last();
        assert(forall|i: int| 0 <= i < front.len() ==> front[i] == pairs[i]);
        assert(toks.drop_last() =~= pair_tokens(front));
        lemma_parse_tokens_pairs(front);
        let pk = pairs.last().0;
        let pv = pairs.last().1;
        assert(toks.last() == pair_string(pk, pv));
        lemma_token_pair(pk, pv);
        lemma_encode_len(pk);
        assert(token_key(toks.last()).len() > 0);
        lemma_decode_encode(pk);
        lemma_decode_encode(pv);
        assert(parse_tokens(toks) == parse_tokens(toks.drop_last()).insert(pk, pv));
        assert(parse_tokens(pair_tokens(pairs)) == map_of(pairs));
    }
}

/// The round trip: parsing a built query string restores the mapping
/// exactly, for every mapping whose keys are nonempty, whatever characters
/// its keys and values hold — the codec escapes `&`, `=` and `%` before
/// they can disturb the query string's structure. A pair with an empty key
/// is the one exception: the parser drops its token by design.
pub proof fn lemma_parse_build_roundtrip(pairs: Seq<(Seq<char>, Seq<char>)>)
    requires
        forall|i: int| 0 <= i < pairs.len() ==> pairs[i].0.len() > 0,
    ensures
        parse_spec(build_spec(pairs)) == map_of(pairs),
{
    if pairs.len() == 0 {
        assert(build_spec(pairs) == Seq::<char>::empty());
        assert(parse_spec(build_spec(pairs)) =~= map_of(pairs));
    } else {
        let b = build_spec(pairs);
        let k0 = pairs[0].0;
        let t = pair_string(pairs[0].0, pairs[0].1);
        let e = encode_seq(k0).len() as int;
        lemma_encode_len(k0);
        assert(t[e] == '=');
        assert(b[e] == '=');
        assert(!is_space('='));
        assert(!is_blank(b)) by {
            assert(0 <= e < b.len() && !is_space(b[e]));
        }
        lemma_split_build(pairs);
        lemma_parse_tokens_pairs(pairs);
        assert(parse_spec(b) == map_of(pairs));
    }
}

} // verus!
