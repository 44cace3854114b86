//! Parsing of a raw HTTP/1.1 request line: tokenization, the method
//! enumeration, the query string, and the request itself.
//!
//! All string data extracted from the input buffer is a borrowed,
//! zero-copy view into that buffer.  Every parsing step is specified
//! against spec functions over `Seq<char>`, so the behaviour of the
//! parser on every input is pinned down by the contracts.

use vstd::prelude::*;
use vstd::string::StrSliceExecFns;
use vstd::string::StringSliceAdditionalSpecFns;

verus! {

/// True of the characters that end a token of the request line.
pub open spec fn is_delim(c: char) -> bool {
    c == ' ' || c == '\r'
}

/// Index of the first token delimiter in `s`, or `-1` when there is none.
pub open spec fn find_delim(s: Seq<char>) -> int
    decreases s.len(),
{
    if s.len() == 0 {
        -1
    } else if is_delim(s[0]) {
        0
    } else if find_delim(s.drop_first()) < 0 {
        -1
    } else {
        find_delim(s.drop_first()) + 1
    }
}

/// Index of the first occurrence of `c` in `s`, or `-1` when there is none.
pub open spec fn find_char(s: Seq<char>, c: char) -> int
    decreases s.len(),
{
    if s.len() == 0 {
        -1
    } else if s[0] == c {
        0
    } else if find_char(s.drop_first(), c) < 0 {
        -1
    } else {
        find_char(s.drop_first(), c) + 1
    }
}

/// `find_delim` returns a valid index of a delimiter, preceded only by
/// non-delimiters, or `-1` when the sequence holds no delimiter at all.
pub proof fn lemma_find_delim(s: Seq<char>)
    ensures
        find_delim(s) >= 0 ==> find_delim(s) < s.len() && is_delim(s[find_delim(s)]),
        find_delim(s) >= 0 ==> forall|j: int| 0 <= j < find_delim(s) ==> !is_delim(s[j]),
        find_delim(s) < 0 ==> forall|j: int| 0 <= j < s.len() ==> !is_delim(s[j]),
    decreases s.len(),
{
    if s.len() == 0 {
    } else if is_delim(s[0]) {
    } else {
        lemma_find_delim(s.drop_first());
        if find_delim(s) >= 0 {
            assert(s.drop_first()[find_delim(s) - 1] == s[find_delim(s)]);
            assert forall|j: int| 0 <= j < find_delim(s) implies !is_delim(s[j]) by {
                if j > 0 {
                    assert(s.drop_first()[j - 1] == s[j]);
                    assert(!is_delim(s.drop_first()[j - 1]));
                }
            }
        } else {
            assert forall|j: int| 0 <= j < s.len() implies !is_delim(s[j]) by {
                if j > 0 {
                    assert(s.drop_first()[j - 1] == s[j]);
                    assert(!is_delim(s.drop_first()[j - 1]));
                }
            }
        }
    }
}

/// The delimiter search is pinned by its witness: if `s[i]` is the first
/// delimiter, then `find_delim(s) == i`.
pub proof fn lemma_find_delim_at(s: Seq<char>, i: int)
    requires
        0 <= i < s.len(),
        is_delim(s[i]),
        forall|j: int| 0 <= j < i ==> !is_delim(s[j]),
    ensures
        find_delim(s) == i,
    decreases i,
{
    if i == 0 {
    } else {
        assert(!is_delim(s[0]));
        assert(s.drop_first()[i - 1] == s[i]);
        assert(forall|j: int| 0 <= j < i - 1 ==> s.drop_first()[j] == s[j + 1]);
        lemma_find_delim_at(s.drop_first(), i - 1);
    }
}

/// A sequence without delimiters makes `find_delim` return `-1`.
pub proof fn lemma_find_delim_none(s: Seq<char>)
    requires
        forall|j: int| 0 <= j < s.len() ==> !is_delim(s[j]),
    ensures
        find_delim(s) < 0,
    decreases s.len(),
{
    if s.len() == 0 {
    } else {
        assert(forall|j: int| 0 <= j < s.drop_first().len() ==> s.drop_first()[j] == s[j + 1]);
        lemma_find_delim_none(s.drop_first());
    }
}

/// The character search is pinned by its witness: if `s[i]` is the first
/// occurrence of `c`, then `find_char(s, c) == i`.
pub proof fn lemma_find_char_at(s: Seq<char>, c: char, i: int)
    requires
        0 <= i < s.len(),
        s[i] == c,
        forall|j: int| 0 <= j < i ==> s[j] != c,
    ensures
        find_char(s, c) == i,
    decreases i,
{
    if i == 0 {
    } else {
        assert(s[0] != c);
        assert(s.drop_first()[i - 1] == s[i]);
        assert(forall|j: int| 0 <= j < i - 1 ==> s.drop_first()[j] == s[j + 1]);
        lemma_find_char_at(s.drop_first(), c, i - 1);
    }
}

/// A sequence without `c` makes `find_char` return `-1`.
pub proof fn lemma_find_char_none(s: Seq<char>, c: char)
    requires
        forall|j: int| 0 <= j < s.len() ==> s[j] != c,
    ensures
        find_char(s, c) < 0,
    decreases s.len(),
{
    if s.len() == 0 {
    } else {
        assert(forall|j: int| 0 <= j < s.drop_first().len() ==> s.drop_first()[j] == s[j + 1]);
        lemma_find_char_none(s.drop_first(), c);
    }
}

/// `find_char` returns a valid index of `c`, preceded only by other
/// characters, or `-1` when the sequence does not hold `c` at all.
pub proof fn lemma_find_char(s: Seq<char>, c: char)
    ensures
        find_char(s, c) >= 0 ==> find_char(s, c) < s.len() && s[find_char(s, c)] == c,
        find_char(s, c) >= 0 ==> forall|j: int| 0 <= j < find_char(s, c) ==> s[j] != c,
        find_char(s, c) < 0 ==> forall|j: int| 0 <= j < s.len() ==> s[j] != c,
    decreases s.len(),
{
    if s.len() == 0 {
    } else if s[0] == c {
    } else {
        lemma_find_char(s.drop_first(), c);
        if find_char(s, c) >= 0 {
            assert(s.drop_first()[find_char(s, c) - 1] == s[find_char(s, c)]);
            assert forall|j: int| 0 <= j < find_char(s, c) implies s[j] != c by {
                if j > 0 {
                    assert(s.drop_first()[j - 1] == s[j]);
                    assert(s.drop_first()[j - 1] != c);
                }
            }
        } else {
            assert forall|j: int| 0 <= j < s.len() implies s[j] != c by {
                if j > 0 {
                    assert(s.drop_first()[j - 1] == s[j]);
                    assert(s.drop_first()[j - 1] != c);
                }
            }
        }
    }
}

/// The word before the first delimiter of `s`, and the remainder after
/// that delimiter; `None` when `s` holds no delimiter.
pub open spec fn spec_next_word(s: Seq<char>) -> Option<(Seq<char>, Seq<char>)> {
    let i = find_delim(s);
    if i < 0 {
        None
    } else {
        Some((s.subrange(0, i), s.subrange(i + 1, s.len() as int)))
    }
}

/// Splits `raw_request` at its first space or carriage return: the word
/// before the delimiter and the remainder after it, both borrowed from
/// the input.  `None` when the input holds no delimiter.
pub fn get_next_word(raw_request: &str) -> (r: Option<(&str, &str)>)
    ensures
        match r {
            Some(pair) => {
                &&& find_delim(raw_request@) >= 0
                &&& pair.0@ == raw_request@.subrange(0, find_delim(raw_request@))
                &&& pair.1@ == raw_request@.subrange(
                    find_delim(raw_request@) + 1,
                    raw_request@.len() as int,
                )
            },
            None => find_delim(raw_request@) < 0,
        },
{
    let n = raw_request.unicode_len();
    let mut i: usize = 0;
    while i < n
        invariant
            n == raw_request@.len(),
            i <= n,
            forall|j: int| 0 <= j < i ==> !is_delim(raw_request@[j]),
        decreases n - i,
    {
        let c = raw_request.get_char(i);
        if c == ' ' || c == '\r' {
            proof {
                lemma_find_delim_at(raw_request@, i as int);
            }
            let word = raw_request.substring_char(0, i);
            let rest = raw_request.substring_char(i + 1, n);
            return Some((word, rest));
        }
        i = i + 1;
    }
    proof {
        lemma_find_delim_none(raw_request@);
    }
    None
}

/// Finds the first occurrence of `c` in `s`, as an index usable for
/// slicing; `None` when `s` does not hold `c`.
pub fn find_char_in(s: &str, c: char) -> (r: Option<usize>)
    ensures
        match r {
            Some(i) => find_char(s@, c) == i as int,
            None => find_char(s@, c) < 0,
        },
{
    let n = s.unicode_len();
    let mut i: usize = 0;
    while i < n
        invariant
            n == s@.len(),
            i <= n,
            forall|j: int| 0 <= j < i ==> s@[j] != c,
        decreases n - i,
    {
        if s.get_char(i) == c {
            proof {
                lemma_find_char_at(s@, c, i as int);
            }
            return Some(i);
        }
        i = i + 1;
    }
    proof {
        lemma_find_char_none(s@, c);
    }
    None
}

/// Character-wise string equality, decided against the views.
pub fn str_eq(a: &str, b: &str) -> (r: bool)
    ensures
        r == (a@ == b@),
{
    let an = a.unicode_len();
    let bn = b.unicode_len();
    if an != bn {
        return false;
    }
    let mut i: usize = 0;
    while i < an
        invariant
            an == a@.len(),
            an == b@.len(),
            i <= an,
            forall|j: int| 0 <= j < i ==> a@[j] == b@[j],
        decreases an - i,
    {
        if a.get_char(i) != b.get_char(i) {
            return false;
        }
        i = i + 1;
    }
    proof {
        assert(a@ =~= b@);
    }
    true
}

/// The closed set of HTTP verbs the parser recognizes.
#[derive(Clone, Copy, Debug, PartialEq, Eq, Structural)]
pub enum Method {
    GET,
    POST,
    PUT,
    PATCH,
    DELETE,
    OPTION,
    HEAD,
    CONNECT,
    TRACE,
}

/// Failure of `Method::from_str` on a token outside the closed set.
#[derive(Clone, Copy, Debug, PartialEq, Eq, Structural)]
pub struct UnknownMethodError;

/// The method a token names, or `None` for a token outside the closed
/// set.  Matching is exact-case, with no normalization.
pub open spec fn spec_method(s: Seq<char>) -> Option<Method> {
    if s == "GET"@ {
        Some(Method::GET)
    } else if s == "POST"@ {
        Some(Method::POST)
    } else if s == "PUT"@ {
        Some(Method::PUT)
    } else if s == "PATCH"@ {
        Some(Method::PATCH)
    } else if s == "DELETE"@ {
        Some(Method::DELETE)
    } else if s == "OPTION"@ {
        Some(Method::OPTION)
    } else if s == "HEAD"@ {
        Some(Method::HEAD)
    } else if s == "CONNECT"@ {
        Some(Method::CONNECT)
    } else if s == "TRACE"@ {
        Some(Method::TRACE)
    } else {
        None
    }
}

impl Method {
    /// Parses a method token: the matching verb, or a typed failure for
    /// a token outside the closed set.
    pub fn from_str(s: &str) -> (r: Result<Method, UnknownMethodError>)
        ensures
            match r {
                Ok(m) => spec_method(s@) == Some(m),
                Err(_) => spec_method(s@) is None,
            },
    {
        if str_eq(s, "GET") {
            Ok(Method::GET)
        } else if str_eq(s, "POST") {
            Ok(Method::POST)
        } else if str_eq(s, "PUT") {
            Ok(Method::PUT)
        } else if str_eq(s, "PATCH") {
            Ok(Method::PATCH)
        } else if str_eq(s, "DELETE") {
            Ok(Method::DELETE)
        } else if str_eq(s, "OPTION") {
            Ok(Method::OPTION)
        } else if str_eq(s, "HEAD") {
            Ok(Method::HEAD)
        } else if str_eq(s, "CONNECT") {
            Ok(Method::CONNECT)
        } else if str_eq(s, "TRACE") {
            Ok(Method::TRACE)
        } else {
            Err(UnknownMethodError)
        }
    }
}

/// The ways a raw buffer can fail to parse as a request.  Every failure
/// is fatal to the parse; none is retried.
#[derive(Clone, Copy, Debug, PartialEq, Eq, Structural)]
pub enum ParseError {
    InvalidRequest,
    InvalidEncoding,
    InvalidProtocol,
    InvalidMethod,
}

/// The short diagnostic phrase each parse failure carries.
pub open spec fn spec_message(e: ParseError) -> Seq<char> {
    match e {
        ParseError::InvalidRequest => "Invalid Request"@,
        ParseError::InvalidEncoding => "Invalid Encoding"@,
        ParseError::InvalidProtocol => "Invalid Protocol"@,
        ParseError::InvalidMethod => "Invalid Method"@,
    }
}

impl ParseError {
    /// The short human-readable reason phrase for this failure.
    pub fn message(&self) -> (r: &'static str)
        ensures
            r@ == spec_message(*self),
    {
        match self {
            ParseError::InvalidRequest => "Invalid Request",
            ParseError::InvalidEncoding => "Invalid Encoding",
            ParseError::InvalidProtocol => "Invalid Protocol",
            ParseError::InvalidMethod => "Invalid Method",
        }
    }
}

/// One query value: a single value, or the list a repeated key collects,
/// in encounter order.
#[derive(Clone, Debug, PartialEq)]
pub enum QueryParam<'buf> {
    Single(&'buf str),
    Multiple(Vec<&'buf str>),
}

/// Spec-level counterpart of `QueryParam`, over character sequences.
#[verifier::ext_equal]
pub enum ParamSpec {
    Single(Seq<char>),
    Multiple(Seq<Seq<char>>),
}

impl<'buf> View for QueryParam<'buf> {
    type V = ParamSpec;

    open spec fn view(&self) -> ParamSpec {
        match self {
            QueryParam::Single(v) => ParamSpec::Single(v@),
            QueryParam::Multiple(vs) => ParamSpec::Multiple(vs.deep_view()),
        }
    }
}

/// The key/value views of a parameter list, in its order.
pub open spec fn params_view_of<'buf>(params: Seq<(&'buf str, QueryParam<'buf>)>) -> Seq<
    (Seq<char>, ParamSpec),
> {
    Seq::new(params.len(), |i: int| (params[i].0@, params[i].1@))
}

/// Key and value of one query segment: split at the first `=`; a
/// segment without `=` is all key, with an empty value.
pub open spec fn spec_split_kv(seg: Seq<char>) -> (Seq<char>, Seq<char>) {
    let i = find_char(seg, '=');
    if i < 0 {
        (seg, Seq::<char>::empty())
    } else {
        (seg.subrange(0, i), seg.subrange(i + 1, seg.len() as int))
    }
}

/// Index of `k` among the keys of `ps`, or `-1` when `k` is absent.
pub open spec fn spec_find_key(ps: Seq<(Seq<char>, ParamSpec)>, k: Seq<char>) -> int
    decreases ps.len(),
{
    if ps.len() == 0 {
        -1
    } else if ps[0].0 == k {
        0
    } else if spec_find_key(ps.drop_first(), k) < 0 {
        -1
    } else {
        spec_find_key(ps.drop_first(), k) + 1
    }
}

/// The key search is pinned by its witness: if `ps[i]` holds the first
/// occurrence of key `k`, then `spec_find_key(ps, k) == i`.
pub proof fn lemma_spec_find_key_at(ps: Seq<(Seq<char>, ParamSpec)>, k: Seq<char>, i: int)
    requires
        0 <= i < ps.len(),
        ps[i].0 == k,
        forall|j: int| 0 <= j < i ==> ps[j].0 != k,
    ensures
        spec_find_key(ps, k) == i,
    decreases i,
{
    if i == 0 {
    } else {
        assert(ps[0].0 != k);
        assert(ps.drop_first()[i - 1] == ps[i]);
        assert(forall|j: int| 0 <= j < i - 1 ==> ps.drop_first()[j] == ps[j + 1]);
        lemma_spec_find_key_at(ps.drop_first(), k, i - 1);
    }
}

/// A parameter list without key `k` makes `spec_find_key` return `-1`.
pub proof fn lemma_spec_find_key_none(ps: Seq<(Seq<char>, ParamSpec)>, k: Seq<char>)
    requires
        forall|j: int| 0 <= j < ps.len() ==> ps[j].0 != k,
    ensures
        spec_find_key(ps, k) < 0,
    decreases ps.len(),
{
    if ps.len() == 0 {
    } else {
        assert(forall|j: int| 0 <= j < ps.drop_first().len() ==> ps.drop_first()[j] == ps[j + 1]);
        lemma_spec_find_key_none(ps.drop_first(), k);
    }
}

/// The key search returns a valid index holding `k`, preceded only by
/// other keys, or `-1` when no entry holds `k`.
pub proof fn lemma_spec_find_key(ps: Seq<(Seq<char>, ParamSpec)>, k: Seq<char>)
    ensures
        spec_find_key(ps, k) >= 0 ==> spec_find_key(ps, k) < ps.len() && ps[spec_find_key(
            ps,
            k,
        )].0 == k,
        spec_find_key(ps, k) >= 0 ==> forall|j: int|
            0 <= j < spec_find_key(ps, k) ==> ps[j].0 != k,
        spec_find_key(ps, k) < 0 ==> forall|j: int| 0 <= j < ps.len() ==> ps[j].0 != k,
    decreases ps.len(),
{
    if ps.len() == 0 {
    } else if ps[0].0 == k {
    } else {
        lemma_spec_find_key(ps.drop_first(), k);
        if spec_find_key(ps, k) >= 0 {
            assert(ps.drop_first()[spec_find_key(ps, k) - 1] == ps[spec_find_key(ps, k)]);
            assert forall|j: int| 0 <= j < spec_find_key(ps, k) implies ps[j].0 != k by {
                if j > 0 {
                    assert(ps.drop_first()[j - 1] == ps[j]);
                    assert(ps.drop_first()[j - 1].0 != k);
                }
            }
        } else {
            assert forall|j: int| 0 <= j < ps.len() implies ps[j].0 != k by {
                if j > 0 {
                    assert(ps.drop_first()[j - 1] == ps[j]);
                    assert(ps.drop_first()[j - 1].0 != k);
                }
            }
        }
    }
}

/// A repeated key promotes its single value to a two-element list, or
/// appends to the list it already collected.
pub open spec fn spec_promote(p: ParamSpec, v: Seq<char>) -> ParamSpec {
    match p {
        ParamSpec::Single(v0) => ParamSpec::Multiple(seq![v0, v]),
        ParamSpec::Multiple(vs) => ParamSpec::Multiple(vs.push(v)),
    }
}

/// Inserting one key/value pair into the parameter list: a new key is
/// appended as `Single`, a present key has its value promoted in place.
pub open spec fn spec_insert(
    ps: Seq<(Seq<char>, ParamSpec)>,
    k: Seq<char>,
    v: Seq<char>,
) -> Seq<(Seq<char>, ParamSpec)> {
    let i = spec_find_key(ps, k);
    if i < 0 {
        ps.push((k, ParamSpec::Single(v)))
    } else {
        ps.update(i, (k, spec_promote(ps[i].1, v)))
    }
}

/// Folds the segments of `raw` (split on `&`) into `ps`, left to right.
pub open spec fn spec_query_from(
    ps: Seq<(Seq<char>, ParamSpec)>,
    raw: Seq<char>,
) -> Seq<(Seq<char>, ParamSpec)>
    decreases raw.len(),
{
    let i = find_char(raw, '&');
    if 0 <= i < raw.len() {
        let kv = spec_split_kv(raw.subrange(0, i));
        spec_query_from(spec_insert(ps, kv.0, kv.1), raw.subrange(i + 1, raw.len() as int))
    } else {
        let kv = spec_split_kv(raw);
        spec_insert(ps, kv.0, kv.1)
    }
}

/// The parameter list a raw query fragment denotes.
pub open spec fn spec_query(raw: Seq<char>) -> Seq<(Seq<char>, ParamSpec)> {
    spec_query_from(Seq::empty(), raw)
}

/// The parsed query string: the raw fragment and its key/value mapping.
/// Keys are unique; a repeated key collects its values in encounter order.
#[derive(Clone, Debug, PartialEq)]
pub struct QueryString<'buf> {
    pub raw: &'buf str,
    pub params: Vec<(&'buf str, QueryParam<'buf>)>,
}

/// Finds the position of `key` in the parameter list, scanning in order.
fn find_key_index<'buf>(params: &Vec<(&'buf str, QueryParam<'buf>)>, key: &str) -> (r: Option<
    usize,
>)
    ensures
        match r {
            Some(i) => i < params@.len() && spec_find_key(params_view_of(params@), key@) == i as int,
            None => spec_find_key(params_view_of(params@), key@) < 0,
        },
{
    let n = params.len();
    let mut i: usize = 0;
    while i < n
        invariant
            n == params@.len(),
            i <= n,
            forall|j: int| 0 <= j < i ==> params_view_of(params@)[j].0 != key@,
        decreases n - i,
    {
        if str_eq(params[i].0, key) {
            proof {
                assert(params_view_of(params@)[i as int].0 == key@);
                lemma_spec_find_key_at(params_view_of(params@), key@, i as int);
            }
            return Some(i);
        }
        proof {
            assert(params_view_of(params@)[i as int].0 == params@[i as int].0@);
        }
        i = i + 1;
    }
    proof {
        lemma_spec_find_key_none(params_view_of(params@), key@);
    }
    None
}

impl<'buf> QueryString<'buf> {
    /// The key/value views of the stored parameters, in first-seen order.
    pub open spec fn params_view(&self) -> Seq<(Seq<char>, ParamSpec)> {
        params_view_of(self.params@)
    }

    /// Builds the mapping from a raw query fragment (without a leading
    /// `?`): split on `&` into segments, each segment split at its first
    /// `=`; a repeated key collects its values in encounter order.
    pub fn from(raw_query_string: &'buf str) -> (r: QueryString<'buf>)
        ensures
            r.raw@ == raw_query_string@,
            r.params_view() == spec_query(raw_query_string@),
    {
        let mut params: Vec<(&'buf str, QueryParam<'buf>)> = Vec::new();
        let mut rest: &'buf str = raw_query_string;
        proof {
            assert(params_view_of(params@) =~= Seq::<(Seq<char>, ParamSpec)>::empty());
        }
        loop
            invariant_except_break
                spec_query_from(params_view_of(params@), rest@) == spec_query(raw_query_string@),
            ensures
                params_view_of(params@) == spec_query(raw_query_string@),
            decreases rest@.len(),
        {
            let ghost prev_view = params_view_of(params@);
            proof {
                lemma_find_char(rest@, '&');
            }
            let amp = find_char_in(rest, '&');
            let (segment, next_rest): (&'buf str, Option<&'buf str>) = match amp {
                Some(i) => {
                    let n = rest.unicode_len();
                    (rest.substring_char(0, i), Some(rest.substring_char(i + 1, n)))
                },
                None => (rest, None),
            };
            proof {
                lemma_find_char(segment@, '=');
            }
            let eq = find_char_in(segment, '=');
            let (key, val): (&'buf str, &'buf str) = match eq {
                Some(i) => {
                    let n = segment.unicode_len();
                    (segment.substring_char(0, i), segment.substring_char(i + 1, n))
                },
                None => (segment, ""),
            };
            proof {
                reveal_strlit("");
                assert((key@, val@) == spec_split_kv(segment@));
            }
            match find_key_index(&params, key) {
                None => {
                    params.push((key, QueryParam::Single(val)));
                    proof {
                        assert(params_view_of(params@) =~= spec_insert(prev_view, key@, val@));
                    }
                },
                Some(j) => {
                    let ghost old_params = params@;
                    let entry = params.remove(j);
                    let new_param = match entry.1 {
                        QueryParam::Single(v0) => QueryParam::Multiple(vec![v0, val]),
                        QueryParam::Multiple(mut vs) => {
                            vs.push(val);
                            QueryParam::Multiple(vs)
                        },
                    };
                    params.insert(j, (entry.0, new_param));
                    proof {
                        lemma_spec_find_key(prev_view, key@);
                        assert(entry.0@ == key@);
                        assert(params@ =~= old_params.update(j as int, (entry.0, new_param)));
                        assert(new_param@ =~= spec_promote(prev_view[j as int].1, val@));
                        assert(params_view_of(params@) =~= spec_insert(prev_view, key@, val@));
                    }
                },
            }
            match next_rest {
                Some(nr) => {
                    rest = nr;
                },
                None => {
                    break ;
                },
            }
        }
        QueryString { raw: raw_query_string, params }
    }

    /// Looks a key up: the stored variant, or nothing for an absent key.
    pub fn get(&self, key: &str) -> (r: Option<&QueryParam<'buf>>)
        ensures
            match r {
                Some(p) => spec_find_key(self.params_view(), key@) >= 0 && p@ == self.params_view(
                )[spec_find_key(self.params_view(), key@)].1,
                None => spec_find_key(self.params_view(), key@) < 0,
            },
    {
        match find_key_index(&self.params, key) {
            Some(i) => Some(&self.params[i].1),
            None => None,
        }
    }
}

/// A parsed request line: path, optional query string, and method.
/// All string data borrows from the single input buffer; nothing is
/// copied, and the value is immutable once constructed.
#[derive(Debug, PartialEq)]
pub struct Request<'buf> {
    pub path: &'buf str,
    pub query_string: Option<QueryString<'buf>>,
    pub method: Method,
}

/// Spec-level outcome of a successful parse: the method, the path
/// (before any `?`), and the raw query fragment (after the first `?`),
/// when there is one.
#[verifier::ext_equal]
pub struct RequestSpec {
    pub method: Method,
    pub path: Seq<char>,
    pub query: Option<Seq<char>>,
}

/// The outcome of parsing a decoded request line.  Three words are
/// taken in sequence (method, target, protocol); a missing delimiter is
/// `InvalidRequest`, a protocol other than exactly `HTTP/1.1` is
/// `InvalidProtocol`, an unrecognized verb is `InvalidMethod`.  The
/// target splits at its first `?` into path and raw query fragment.
pub open spec fn spec_parse_text(text: Seq<char>) -> Result<RequestSpec, ParseError> {
    match spec_next_word(text) {
        None => Err(ParseError::InvalidRequest),
        Some((method_tok, rest1)) => match spec_next_word(rest1) {
            None => Err(ParseError::InvalidRequest),
            Some((target, rest2)) => match spec_next_word(rest2) {
                None => Err(ParseError::InvalidRequest),
                Some((protocol, _)) => if protocol != "HTTP/1.1"@ {
                    Err(ParseError::InvalidProtocol)
                } else {
                    match spec_method(method_tok) {
                        None => Err(ParseError::InvalidMethod),
                        Some(m) => {
                            let qi = find_char(target, '?');
                            if qi < 0 {
                                Ok(RequestSpec { method: m, path: target, query: None })
                            } else {
                                Ok(
                                    RequestSpec {
                                        method: m,
                                        path: target.subrange(0, qi),
                                        query: Some(
                                            target.subrange(qi + 1, target.len() as int),
                                        ),
                                    },
                                )
                            }
                        },
                    }
                },
            },
        },
    }
}

/// The outcome of parsing a raw byte buffer: a buffer that is not valid
/// UTF-8 is `InvalidRequest`; otherwise the decoded text is parsed.
pub open spec fn spec_parse_request(bytes: Seq<u8>) -> Result<RequestSpec, ParseError> {
    if !vstd::utf8::valid_utf8(bytes) {
        Err(ParseError::InvalidRequest)
    } else {
        spec_parse_text(vstd::utf8::decode_utf8(bytes))
    }
}

/// Relies on `core::str::from_utf8`: it returns `Ok` exactly when the
/// bytes are valid UTF-8, and the returned view borrows those same bytes.
#[verifier::external_body]
fn decode_utf8_bytes(buf: &[u8]) -> (r: Option<&str>)
    ensures
        r is Some <==> vstd::utf8::valid_utf8(buf@),
        r matches Some(s) ==> s.spec_bytes() == buf@,
{
    core::str::from_utf8(buf).ok()
}

impl<'buf> Request<'buf> {
    /// True when this request carries exactly the components of `rs`.
    pub open spec fn matches_spec(&self, rs: RequestSpec) -> bool {
        &&& self.method == rs.method
        &&& self.path@ == rs.path
        &&& match (self.query_string, rs.query) {
            (None, None) => true,
            (Some(qs), Some(q)) => qs.raw@ == q && qs.params_view() == spec_query(q),
            _ => false,
        }
    }

    /// Parses a raw byte buffer into a request whose string data borrows
    /// from that buffer.  The result is exactly what `spec_parse_request`
    /// says for the buffer's bytes, error cases included.
    pub fn try_from(buf: &'buf [u8]) -> (r: Result<Request<'buf>, ParseError>)
        ensures
            match r {
                Ok(req) => spec_parse_request(buf@) is Ok && req.matches_spec(
                    spec_parse_request(buf@)->Ok_0,
                ),
                Err(e) => spec_parse_request(buf@) == Err::<RequestSpec, ParseError>(e),
            },
    {
        let raw_request = match decode_utf8_bytes(buf) {
            Some(s) => s,
            None => {
                return Err(ParseError::InvalidRequest);
            },
        };
        proof {
            vstd::utf8::encode_utf8_decode_utf8(raw_request@);
            assert(vstd::utf8::decode_utf8(buf@) == raw_request@);
        }
        let (method_tok, rest1) = match get_next_word(raw_request) {
            Some(p) => p,
            None => {
                return Err(ParseError::InvalidRequest);
            },
        };
        let (target, rest2) = match get_next_word(rest1) {
            Some(p) => p,
            None => {
                return Err(ParseError::InvalidRequest);
            },
        };
        let (protocol, _rest3) = match get_next_word(rest2) {
            Some(p) => p,
            None => {
                return Err(ParseError::InvalidRequest);
            },
        };
        if !str_eq(protocol, "HTTP/1.1") {
            return Err(ParseError::InvalidProtocol);
        }
        let method = match Method::from_str(method_tok) {
            Ok(m) => m,
            Err(_) => {
                return Err(ParseError::InvalidMethod);
            },
        };
        proof {
            lemma_find_char(target@, '?');
        }
        match find_char_in(target, '?') {
            Some(i) => {
                let n = target.unicode_len();
                let raw_query = target.substring_char(i + 1, n);
                let query_string = QueryString::from(raw_query);
                let path = target.substring_char(0, i);
                Ok(Request { method, path, query_string: Some(query_string) })
            },
            None => Ok(Request { method, path: target, query_string: None }),
        }
    }

    /// The path portion of the request target, before any `?`.
    pub fn path(&self) -> (r: &str)
        ensures
            r@ == self.path@,
    {
        self.path
    }

    /// The parsed method.
    pub fn method(&self) -> (r: &Method)
        ensures
            *r == self.method,
    {
        &self.method
    }

    /// The parsed query string, when the target carried one.
    pub fn query_string(&self) -> (r: Option<&QueryString<'buf>>)
        ensures
            match r {
                Some(qs) => self.query_string matches Some(q) && *qs == q,
                None => self.query_string is None,
            },
    {
        self.query_string.as_ref()
    }
}

} // verus!
