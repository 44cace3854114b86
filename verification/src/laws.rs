//! General laws of the parser, proved once over all inputs: every
//! well-formed request line parses to exactly its components, the
//! failure taxonomy fires exactly where stated, parsed query keys are
//! unique, and parsing is a pure function of the buffer.

use crate::request::find_char;
use crate::request::find_delim;
use crate::request::is_delim;
use crate::request::lemma_find_char_at;
use crate::request::lemma_find_char_none;
use crate::request::lemma_find_delim;
use crate::request::lemma_find_delim_at;
use crate::request::lemma_spec_find_key;
use crate::request::lemma_spec_find_key_at;
use crate::request::lemma_spec_find_key_none;
use crate::request::spec_find_key;
use crate::request::spec_insert;
use crate::request::spec_method;
use crate::request::spec_next_word;
use crate::request::spec_parse_request;
use crate::request::spec_parse_text;
use crate::request::spec_query;
use crate::request::spec_query_from;
use crate::request::spec_split_kv;
use crate::request::Method;
use crate::request::ParamSpec;
use crate::request::ParseError;
use crate::request::RequestSpec;
use vstd::prelude::*;

verus! {

/// The exact token each method writes in a request line.
pub open spec fn spec_method_token(m: Method) -> Seq<char> {
    match m {
        Method::GET => "GET"@,
        Method::POST => "POST"@,
        Method::PUT => "PUT"@,
        Method::PATCH => "PATCH"@,
        Method::DELETE => "DELETE"@,
        Method::OPTION => "OPTION"@,
        Method::HEAD => "HEAD"@,
        Method::CONNECT => "CONNECT"@,
        Method::TRACE => "TRACE"@,
    }
}

/// Each method's own token parses back to that method, and no token of
/// the closed set holds a delimiter.
pub proof fn lemma_method_token(m: Method)
    ensures
        spec_method(spec_method_token(m)) == Some(m),
        forall|j: int|
            0 <= j < spec_method_token(m).len() ==> !is_delim(#[trigger] spec_method_token(m)[j]),
{
    reveal_strlit("GET");
    reveal_strlit("POST");
    reveal_strlit("PUT");
    reveal_strlit("PATCH");
    reveal_strlit("DELETE");
    reveal_strlit("OPTION");
    reveal_strlit("HEAD");
    reveal_strlit("CONNECT");
    reveal_strlit("TRACE");
    assert("GET"@.len() == 3 && "GET"@[0] == 'G');
    assert("POST"@.len() == 4 && "POST"@[0] == 'P' && "POST"@[1] == 'O');
    assert("PUT"@.len() == 3 && "PUT"@[0] == 'P' && "PUT"@[1] == 'U');
    assert("PATCH"@.len() == 5 && "PATCH"@[0] == 'P' && "PATCH"@[1] == 'A');
    assert("DELETE"@.len() == 6 && "DELETE"@[0] == 'D');
    assert("OPTION"@.len() == 6 && "OPTION"@[0] == 'O');
    assert("HEAD"@.len() == 4 && "HEAD"@[0] == 'H');
    assert("CONNECT"@.len() == 7 && "CONNECT"@[0] == 'C');
    assert("TRACE"@.len() == 5 && "TRACE"@[0] == 'T');
}

/// Taking the next word of `word + delimiter + rest` yields exactly
/// `word` and `rest`.
pub proof fn lemma_next_word_concat(word: Seq<char>, d: char, rest: Seq<char>)
    requires
        forall|j: int| 0 <= j < word.len() ==> !is_delim(#[trigger] word[j]),
        is_delim(d),
    ensures
        spec_next_word(word + seq![d] + rest) == Some((word, rest)),
{
    let s = word + seq![d] + rest;
    assert(s[word.len() as int] == d);
    assert forall|j: int| 0 <= j < word.len() implies !is_delim(s[j]) by {
        assert(s[j] == word[j]);
    }
    lemma_find_delim_at(s, word.len() as int);
    assert(s.subrange(0, word.len() as int) =~= word);
    assert(s.subrange(word.len() as int + 1, s.len() as int) =~= rest);
}

/// The protocol token holds no delimiter.
pub proof fn lemma_protocol_token_clean()
    ensures
        forall|j: int| 0 <= j < "HTTP/1.1"@.len() ==> !is_delim(#[trigger] "HTTP/1.1"@[j]),
{
    reveal_strlit("HTTP/1.1");
}

/// Every well-formed request line parses, and yields exactly its
/// method, its path (the part of the target before any `?`), and its
/// raw query fragment (the part after the first `?`), whatever follows
/// the carriage return that ends the line.
pub proof fn lemma_valid_request_line_parses(
    m: Method,
    path: Seq<char>,
    query: Option<Seq<char>>,
    tail: Seq<char>,
)
    requires
        forall|j: int| 0 <= j < path.len() ==> !is_delim(#[trigger] path[j]) && path[j] != '?',
        match query {
            Some(q) => forall|j: int| 0 <= j < q.len() ==> !is_delim(#[trigger] q[j]),
            None => true,
        },
    ensures
        ({
            let target = match query {
                None => path,
                Some(q) => path + seq!['?'] + q,
            };
            let text = spec_method_token(m) + seq![' '] + target + seq![' '] + "HTTP/1.1"@
                + seq!['\r'] + tail;
            spec_parse_text(text) == Ok::<RequestSpec, ParseError>(
                RequestSpec { method: m, path, query },
            )
        }),
{
    let target = match query {
        None => path,
        Some(q) => path + seq!['?'] + q,
    };
    let text = spec_method_token(m) + seq![' '] + target + seq![' '] + "HTTP/1.1"@ + seq!['\r']
        + tail;
    let rest1 = target + seq![' '] + "HTTP/1.1"@ + seq!['\r'] + tail;
    let rest2 = "HTTP/1.1"@ + seq!['\r'] + tail;
    lemma_method_token(m);
    lemma_protocol_token_clean();
    assert forall|j: int| 0 <= j < target.len() implies !is_delim(#[trigger] target[j]) by {
        match query {
            None => {},
            Some(q) => {
                if j < path.len() {
                    assert(target[j] == path[j]);
                } else if j == path.len() {
                    assert(target[j] == '?');
                } else {
                    assert(target[j] == q[j - path.len() - 1]);
                }
            },
        }
    }
    assert(text =~= spec_method_token(m) + seq![' '] + rest1);
    lemma_next_word_concat(spec_method_token(m), ' ', rest1);
    assert(rest1 =~= target + seq![' '] + rest2);
    lemma_next_word_concat(target, ' ', rest2);
    lemma_next_word_concat("HTTP/1.1"@, '\r', tail);
    match query {
        None => {
            lemma_find_char_none(target, '?');
        },
        Some(q) => {
            assert(target[path.len() as int] == '?');
            assert forall|j: int| 0 <= j < path.len() implies target[j] != '?' by {
                assert(target[j] == path[j]);
            }
            lemma_find_char_at(target, '?', path.len() as int);
            assert(target.subrange(0, path.len() as int) =~= path);
            assert(target.subrange(path.len() as int + 1, target.len() as int) =~= q);
        },
    }
}

/// A protocol token other than exactly `HTTP/1.1` is rejected with
/// `InvalidProtocol`, whatever the method token holds.
pub proof fn lemma_wrong_protocol_rejected(
    method_tok: Seq<char>,
    target: Seq<char>,
    protocol: Seq<char>,
    tail: Seq<char>,
)
    requires
        forall|j: int| 0 <= j < method_tok.len() ==> !is_delim(#[trigger] method_tok[j]),
        forall|j: int| 0 <= j < target.len() ==> !is_delim(#[trigger] target[j]),
        forall|j: int| 0 <= j < protocol.len() ==> !is_delim(#[trigger] protocol[j]),
        protocol != "HTTP/1.1"@,
    ensures
        spec_parse_text(
            method_tok + seq![' '] + target + seq![' '] + protocol + seq!['\r'] + tail,
        ) == Err::<RequestSpec, ParseError>(ParseError::InvalidProtocol),
{
    let text = method_tok + seq![' '] + target + seq![' '] + protocol + seq!['\r'] + tail;
    let rest1 = target + seq![' '] + protocol + seq!['\r'] + tail;
    let rest2 = protocol + seq!['\r'] + tail;
    assert(text =~= method_tok + seq![' '] + rest1);
    lemma_next_word_concat(method_tok, ' ', rest1);
    assert(rest1 =~= target + seq![' '] + rest2);
    lemma_next_word_concat(target, ' ', rest2);
    lemma_next_word_concat(protocol, '\r', tail);
}

/// A method token outside the closed set is rejected with
/// `InvalidMethod`, once the protocol token reads `HTTP/1.1`.
pub proof fn lemma_unknown_method_rejected(
    method_tok: Seq<char>,
    target: Seq<char>,
    tail: Seq<char>,
)
    requires
        forall|j: int| 0 <= j < method_tok.len() ==> !is_delim(#[trigger] method_tok[j]),
        forall|j: int| 0 <= j < target.len() ==> !is_delim(#[trigger] target[j]),
        spec_method(method_tok) is None,
    ensures
        spec_parse_text(
            method_tok + seq![' '] + target + seq![' '] + "HTTP/1.1"@ + seq!['\r'] + tail,
        ) == Err::<RequestSpec, ParseError>(ParseError::InvalidMethod),
{
    let text = method_tok + seq![' '] + target + seq![' '] + "HTTP/1.1"@ + seq!['\r'] + tail;
    let rest1 = target + seq![' '] + "HTTP/1.1"@ + seq!['\r'] + tail;
    let rest2 = "HTTP/1.1"@ + seq!['\r'] + tail;
    lemma_protocol_token_clean();
    assert(text =~= method_tok + seq![' '] + rest1);
    lemma_next_word_concat(method_tok, ' ', rest1);
    assert(rest1 =~= target + seq![' '] + rest2);
    lemma_next_word_concat(target, ' ', rest2);
    lemma_next_word_concat("HTTP/1.1"@, '\r', tail);
}

/// How many delimiters a text holds.
pub open spec fn count_delims(s: Seq<char>) -> nat
    decreases s.len(),
{
    if s.len() == 0 {
        0
    } else {
        (if is_delim(s[0]) {
            1nat
        } else {
            0nat
        }) + count_delims(s.drop_first())
    }
}

/// A text holds a delimiter exactly when it counts one.
pub proof fn lemma_count_delims_zero(s: Seq<char>)
    ensures
        (count_delims(s) == 0) <==> (find_delim(s) < 0),
    decreases s.len(),
{
    if s.len() == 0 {
    } else {
        lemma_count_delims_zero(s.drop_first());
    }
}

/// Taking a word consumes exactly one delimiter.
pub proof fn lemma_count_delims_after(s: Seq<char>)
    requires
        find_delim(s) >= 0,
    ensures
        count_delims(s) == 1 + count_delims(s.subrange(find_delim(s) + 1, s.len() as int)),
    decreases s.len(),
{
    lemma_find_delim(s);
    if is_delim(s[0]) {
        assert(s.subrange(1, s.len() as int) =~= s.drop_first());
    } else {
        lemma_count_delims_after(s.drop_first());
        assert(s.drop_first().subrange(
            find_delim(s.drop_first()) + 1,
            s.drop_first().len() as int,
        ) =~= s.subrange(find_delim(s) + 1, s.len() as int));
    }
}

/// A buffer with fewer than three delimited tokens is rejected with
/// `InvalidRequest`; so is a buffer that is not valid UTF-8.
pub proof fn lemma_few_tokens_rejected(bytes: Seq<u8>)
    requires
        vstd::utf8::valid_utf8(bytes) ==> count_delims(vstd::utf8::decode_utf8(bytes)) < 3,
    ensures
        spec_parse_request(bytes) == Err::<RequestSpec, ParseError>(ParseError::InvalidRequest),
{
    if vstd::utf8::valid_utf8(bytes) {
        let text = vstd::utf8::decode_utf8(bytes);
        lemma_count_delims_zero(text);
        if find_delim(text) >= 0 {
            lemma_count_delims_after(text);
            let rest1 = text.subrange(find_delim(text) + 1, text.len() as int);
            lemma_count_delims_zero(rest1);
            if find_delim(rest1) >= 0 {
                lemma_count_delims_after(rest1);
                let rest2 = rest1.subrange(find_delim(rest1) + 1, rest1.len() as int);
                lemma_count_delims_zero(rest2);
            }
        }
    }
}

/// Parsing is a pure function of the buffer: two parses of equal byte
/// buffers yield equal outcomes, with no hidden state in between.
pub proof fn lemma_parse_idempotent(b1: Seq<u8>, b2: Seq<u8>)
    requires
        b1 == b2,
    ensures
        spec_parse_request(b1) == spec_parse_request(b2),
{
}

/// No two entries of a parameter list share a key.
pub open spec fn distinct_keys(ps: Seq<(Seq<char>, ParamSpec)>) -> bool {
    forall|i: int, j: int| 0 <= i < j < ps.len() ==> ps[i].0 != ps[j].0
}

/// Inserting a key/value pair keeps the keys distinct.
proof fn lemma_insert_distinct(ps: Seq<(Seq<char>, ParamSpec)>, k: Seq<char>, v: Seq<char>)
    requires
        distinct_keys(ps),
    ensures
        distinct_keys(spec_insert(ps, k, v)),
{
    lemma_spec_find_key(ps, k);
    let f = spec_find_key(ps, k);
    let ps2 = spec_insert(ps, k, v);
    if f < 0 {
        assert forall|i: int, j: int| 0 <= i < j < ps2.len() implies ps2[i].0 != ps2[j].0 by {
            if j == ps.len() {
                assert(ps2[i].0 == ps[i].0);
                assert(ps[i].0 != k);
            } else {
                assert(ps2[i].0 == ps[i].0 && ps2[j].0 == ps[j].0);
            }
        }
    } else {
        assert(ps2[f].0 == ps[f].0);
        assert forall|i: int, j: int| 0 <= i < j < ps2.len() implies ps2[i].0 != ps2[j].0 by {
            assert(ps2[i].0 == ps[i].0 && ps2[j].0 == ps[j].0);
        }
    }
}

/// Folding query segments into a list with distinct keys keeps the
/// keys distinct.
proof fn lemma_query_from_distinct(ps: Seq<(Seq<char>, ParamSpec)>, raw: Seq<char>)
    requires
        distinct_keys(ps),
    ensures
        distinct_keys(spec_query_from(ps, raw)),
    decreases raw.len(),
{
    let i = find_char(raw, '&');
    if 0 <= i < raw.len() {
        let seg = raw.subrange(0, i);
        let kv = spec_split_kv(seg);
        lemma_insert_distinct(ps, kv.0, kv.1);
        lemma_query_from_distinct(
            spec_insert(ps, kv.0, kv.1),
            raw.subrange(i + 1, raw.len() as int),
        );
    } else {
        let kv = spec_split_kv(raw);
        lemma_insert_distinct(ps, kv.0, kv.1);
    }
}

/// The keys of a parsed query fragment are unique.
pub proof fn lemma_query_keys_unique(raw: Seq<char>)
    ensures
        distinct_keys(spec_query(raw)),
{
    lemma_query_from_distinct(Seq::empty(), raw);
}

/// The values of the segments of `raw` whose key is `k`, in encounter
/// order.
pub open spec fn seg_values(raw: Seq<char>, k: Seq<char>) -> Seq<Seq<char>>
    decreases raw.len(),
{
    let i = find_char(raw, '&');
    if 0 <= i < raw.len() {
        let kv = spec_split_kv(raw.subrange(0, i));
        (if kv.0 == k {
            seq![kv.1]
        } else {
            Seq::<Seq<char>>::empty()
        }) + seg_values(raw.subrange(i + 1, raw.len() as int), k)
    } else {
        let kv = spec_split_kv(raw);
        if kv.0 == k {
            seq![kv.1]
        } else {
            Seq::<Seq<char>>::empty()
        }
    }
}

/// The parameter list stores under `k` exactly the values `vs`: absent
/// for none, `Single` for one, `Multiple` of all of them for several.
pub open spec fn key_state_ok(
    ps: Seq<(Seq<char>, ParamSpec)>,
    k: Seq<char>,
    vs: Seq<Seq<char>>,
) -> bool {
    let i = spec_find_key(ps, k);
    &&& (vs.len() == 0 <==> i < 0)
    &&& (vs.len() == 1 ==> i >= 0 && ps[i].1 == ParamSpec::Single(vs[0]))
    &&& (vs.len() >= 2 ==> i >= 0 && ps[i].1 == ParamSpec::Multiple(vs))
}

/// One insertion extends the values stored under `k` by the inserted
/// value when the keys agree, and leaves them alone otherwise.
proof fn lemma_insert_key_state(
    ps: Seq<(Seq<char>, ParamSpec)>,
    k: Seq<char>,
    vs: Seq<Seq<char>>,
    ik: Seq<char>,
    iv: Seq<char>,
)
    requires
        key_state_ok(ps, k, vs),
    ensures
        key_state_ok(
            spec_insert(ps, ik, iv),
            k,
            if ik == k {
                vs.push(iv)
            } else {
                vs
            },
        ),
{
    lemma_spec_find_key(ps, ik);
    lemma_spec_find_key(ps, k);
    let f = spec_find_key(ps, ik);
    let i = spec_find_key(ps, k);
    let ps2 = spec_insert(ps, ik, iv);
    if f < 0 {
        if ik == k {
            assert(vs.len() == 0);
            lemma_spec_find_key_at(ps2, k, ps.len() as int);
            assert(vs.push(iv)[0] == iv);
        } else {
            if i >= 0 {
                lemma_spec_find_key_at(ps2, k, i);
                assert(ps2[i] == ps[i]);
            } else {
                lemma_spec_find_key_none(ps2, k);
            }
        }
    } else {
        assert(ps[f].0 == ik);
        assert(ps2[f].0 == ik);
        if ik == k {
            assert(f == i);
            assert(vs.len() >= 1);
            lemma_spec_find_key_at(ps2, k, i);
            if vs.len() == 1 {
                assert(ps[i].1 == ParamSpec::Single(vs[0]));
                assert(seq![vs[0], iv] =~= vs.push(iv));
            } else {
                assert(ps[i].1 == ParamSpec::Multiple(vs));
            }
        } else {
            assert(i != f);
            if i >= 0 {
                lemma_spec_find_key_at(ps2, k, i);
                assert(ps2[i] == ps[i]);
            } else {
                lemma_spec_find_key_none(ps2, k);
            }
        }
    }
}

/// Folding the segments of `raw` into `ps` appends, under each key,
/// that key's segment values in encounter order.
proof fn lemma_query_from_key_state(
    ps: Seq<(Seq<char>, ParamSpec)>,
    raw: Seq<char>,
    k: Seq<char>,
    vs: Seq<Seq<char>>,
)
    requires
        key_state_ok(ps, k, vs),
    ensures
        key_state_ok(spec_query_from(ps, raw), k, vs + seg_values(raw, k)),
    decreases raw.len(),
{
    let i = find_char(raw, '&');
    if 0 <= i < raw.len() {
        let kv = spec_split_kv(raw.subrange(0, i));
        let rest = raw.subrange(i + 1, raw.len() as int);
        lemma_insert_key_state(ps, k, vs, kv.0, kv.1);
        if kv.0 == k {
            lemma_query_from_key_state(spec_insert(ps, kv.0, kv.1), rest, k, vs.push(kv.1));
            assert(vs.push(kv.1) + seg_values(rest, k) =~= vs + (seq![kv.1] + seg_values(
                rest,
                k,
            )));
        } else {
            lemma_query_from_key_state(spec_insert(ps, kv.0, kv.1), rest, k, vs);
            assert(vs + seg_values(rest, k) =~= vs + (Seq::<Seq<char>>::empty() + seg_values(
                rest,
                k,
            )));
        }
    } else {
        let kv = spec_split_kv(raw);
        lemma_insert_key_state(ps, k, vs, kv.0, kv.1);
        if kv.0 == k {
            assert(vs.push(kv.1) =~= vs + seq![kv.1]);
        } else {
            assert(vs =~= vs + Seq::<Seq<char>>::empty());
        }
    }
}

/// What a parsed query holds under each key: nothing when no segment
/// names the key; `Single` of its value when exactly one does;
/// `Multiple` of all its values, in encounter order, when several do.
pub proof fn lemma_query_param_of_key(raw: Seq<char>, k: Seq<char>)
    ensures
        key_state_ok(spec_query(raw), k, seg_values(raw, k)),
{
    let none: Seq<(Seq<char>, ParamSpec)> = Seq::empty();
    lemma_query_from_key_state(none, raw, k, Seq::empty());
    assert(Seq::<Seq<char>>::empty() + seg_values(raw, k) =~= seg_values(raw, k));
}

} // verus!

