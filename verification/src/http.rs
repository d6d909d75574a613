//! The raw request/response text protocol. A request is written as a line
//! `METHOD SP URL`, header lines `Name: Value` up to the first blank line,
//! and an optional verbatim body after that blank line; a response is the
//! same with a status line `VERSION SP CODE SP REASON` in front. Parsing
//! accepts CRLF or LF endings and ignores leading blank lines; duplicate
//! headers are kept apart, in order. Serialization writes the same form
//! back, so the two directions of the protocol are symmetric.

use vstd::prelude::*;
use crate::digits::{
    all_digits, dec_rep, dec_string, is_digit, lemma_dec_rep, num_val, parse_bounded,
};
use crate::text::{
    find_char, find_char_in, is_trimmed, kv_view, lemma_find_char_at, lemma_find_char_spec,
    lemma_split_concat, lemma_trim_space_prefix, lemma_trim_trimmed, line_clean, line_of,
    rest_after_line, split_line, trim, trim_str,
};

verus! {

/// The recognized HTTP verbs.
#[derive(Clone, Copy, PartialEq, Eq, Structural, Debug)]
pub enum Method {
    Get,
    Post,
    Put,
    Delete,
    Patch,
    Head,
    Options,
    Trace,
    Connect,
}

/// ASCII uppercasing of one character; anything but a lowercase letter is
/// left alone.
pub open spec fn upper_char(c: char) -> char {
    if c == 'a' {
        'A'
    } else if c == 'b' {
        'B'
    } else if c == 'c' {
        'C'
    } else if c == 'd' {
        'D'
    } else if c == 'e' {
        'E'
    } else if c == 'f' {
        'F'
    } else if c == 'g' {
        'G'
    } else if c == 'h' {
        'H'
    } else if c == 'i' {
        'I'
    } else if c == 'j' {
        'J'
    } else if c == 'k' {
        'K'
    } else if c == 'l' {
        'L'
    } else if c == 'm' {
        'M'
    } else if c == 'n' {
        'N'
    } else if c == 'o' {
        'O'
    } else if c == 'p' {
        'P'
    } else if c == 'q' {
        'Q'
    } else if c == 'r' {
        'R'
    } else if c == 's' {
        'S'
    } else if c == 't' {
        'T'
    } else if c == 'u' {
        'U'
    } else if c == 'v' {
        'V'
    } else if c == 'w' {
        'W'
    } else if c == 'x' {
        'X'
    } else if c == 'y' {
        'Y'
    } else if c == 'z' {
        'Z'
    } else {
        c
    }
}

/// ASCII uppercasing of a text.
pub open spec fn upper_seq(s: Seq<char>) -> Seq<char> {
    Seq::new(s.len(), |i: int| upper_char(s[i]))
}

/// The canonical (upper-case) name of a verb.
pub open spec fn method_name(m: Method) -> Seq<char> {
    match m {
        Method::Get => "GET"@,
        Method::Post => "POST"@,
        Method::Put => "PUT"@,
        Method::Delete => "DELETE"@,
        Method::Patch => "PATCH"@,
        Method::Head => "HEAD"@,
        Method::Options => "OPTIONS"@,
        Method::Trace => "TRACE"@,
        Method::Connect => "CONNECT"@,
    }
}

/// The verb a token names, compared without regard to case.
pub open spec fn method_of(s: Seq<char>) -> Option<Method> {
    if upper_seq(s) == "GET"@ {
        Some(Method::Get)
    } else if upper_seq(s) == "POST"@ {
        Some(Method::Post)
    } else if upper_seq(s) == "PUT"@ {
        Some(Method::Put)
    } else if upper_seq(s) == "DELETE"@ {
        Some(Method::Delete)
    } else if upper_seq(s) == "PATCH"@ {
        Some(Method::Patch)
    } else if upper_seq(s) == "HEAD"@ {
        Some(Method::Head)
    } else if upper_seq(s) == "OPTIONS"@ {
        Some(Method::Options)
    } else if upper_seq(s) == "TRACE"@ {
        Some(Method::Trace)
    } else if upper_seq(s) == "CONNECT"@ {
        Some(Method::Connect)
    } else {
        None
    }
}

/// ASCII uppercasing of one character.
pub fn to_upper(c: char) -> (r: char)
    ensures
        r == upper_char(c),
{
    if c == 'a' {
        'A'
    } else if c == 'b' {
        'B'
    } else if c == 'c' {
        'C'
    } else if c == 'd' {
        'D'
    } else if c == 'e' {
        'E'
    } else if c == 'f' {
        'F'
    } else if c == 'g' {
        'G'
    } else if c == 'h' {
        'H'
    } else if c == 'i' {
        'I'
    } else if c == 'j' {
        'J'
    } else if c == 'k' {
        'K'
    } else if c == 'l' {
        'L'
    } else if c == 'm' {
        'M'
    } else if c == 'n' {
        'N'
    } else if c == 'o' {
        'O'
    } else if c == 'p' {
        'P'
    } else if c == 'q' {
        'Q'
    } else if c == 'r' {
        'R'
    } else if c == 's' {
        'S'
    } else if c == 't' {
        'T'
    } else if c == 'u' {
        'U'
    } else if c == 'v' {
        'V'
    } else if c == 'w' {
        'W'
    } else if c == 'x' {
        'X'
    } else if c == 'y' {
        'Y'
    } else if c == 'z' {
        'Z'
    } else {
        c
    }
}

/// Whether `tok`, uppercased, reads as `target`.
fn eq_upper(tok: &str, target: &str) -> (r: bool)
    ensures
        r == (upper_seq(tok@) == target@),
{
    let n: usize = tok.unicode_len();
    if n != target.unicode_len() {
        return false;
    }
    let mut i: usize = 0;
    while i < n
        invariant
            n == tok@.len(),
            n == target@.len(),
            0 <= i <= n,
            forall|j: int| 0 <= j < i ==> upper_char(tok@[j]) == target@[j],
        decreases n - i,
    {
        if to_upper(tok.get_char(i)) != target.get_char(i) {
            return false;
        }
        i += 1;
    }
    proof {
        assert(upper_seq(tok@) =~= target@);
    }
    true
}

/// The verb a token names, compared without regard to case.
pub fn method_of_str(tok: &str) -> (r: Option<Method>)
    ensures
        r == method_of(tok@),
{
    if eq_upper(tok, "GET") {
        Some(Method::Get)
    } else if eq_upper(tok, "POST") {
        Some(Method::Post)
    } else if eq_upper(tok, "PUT") {
        Some(Method::Put)
    } else if eq_upper(tok, "DELETE") {
        Some(Method::Delete)
    } else if eq_upper(tok, "PATCH") {
        Some(Method::Patch)
    } else if eq_upper(tok, "HEAD") {
        Some(Method::Head)
    } else if eq_upper(tok, "OPTIONS") {
        Some(Method::Options)
    } else if eq_upper(tok, "TRACE") {
        Some(Method::Trace)
    } else if eq_upper(tok, "CONNECT") {
        Some(Method::Connect)
    } else {
        None
    }
}

/// The canonical name of a verb.
pub fn method_str(m: Method) -> (r: &'static str)
    ensures
        r@ == method_name(m),
{
    match m {
        Method::Get => "GET",
        Method::Post => "POST",
        Method::Put => "PUT",
        Method::Delete => "DELETE",
        Method::Patch => "PATCH",
        Method::Head => "HEAD",
        Method::Options => "OPTIONS",
        Method::Trace => "TRACE",
        Method::Connect => "CONNECT",
    }
}

/// A verb's name is non-empty and free of spaces and line breaks.
pub proof fn lemma_method_name_clean(m: Method)
    ensures
        method_name(m).len() > 0,
        forall|i: int|
            0 <= i < method_name(m).len() ==> method_name(m)[i] != ' ' && method_name(m)[i] != '\n'
                && method_name(m)[i] != '\r',
{
    reveal_strlit("GET");
    reveal_strlit("POST");
    reveal_strlit("PUT");
    reveal_strlit("DELETE");
    reveal_strlit("PATCH");
    reveal_strlit("HEAD");
    reveal_strlit("OPTIONS");
    reveal_strlit("TRACE");
    reveal_strlit("CONNECT");
}

/// Parsing a verb's canonical name yields the verb back.
pub proof fn lemma_method_round_trip(m: Method)
    ensures
        method_of(method_name(m)) == Some(m),
{
    reveal_strlit("GET");
    reveal_strlit("POST");
    reveal_strlit("PUT");
    reveal_strlit("DELETE");
    reveal_strlit("PATCH");
    reveal_strlit("HEAD");
    reveal_strlit("OPTIONS");
    reveal_strlit("TRACE");
    reveal_strlit("CONNECT");
    match m {
        Method::Get => {
            assert(upper_seq("GET"@) =~= "GET"@);
            assert(method_of("GET"@) == Some(Method::Get));
        },
        Method::Post => {
            assert(upper_seq("POST"@) =~= "POST"@);
            assert(method_of("POST"@) == Some(Method::Post));
        },
        Method::Put => {
            assert(upper_seq("PUT"@) =~= "PUT"@);
            assert("PUT"@[0] == 'P');
            assert("GET"@[0] == 'G');
            assert(method_of("PUT"@) == Some(Method::Put));
        },
        Method::Delete => {
            assert(upper_seq("DELETE"@) =~= "DELETE"@);
            assert(method_of("DELETE"@) == Some(Method::Delete));
        },
        Method::Patch => {
            assert(upper_seq("PATCH"@) =~= "PATCH"@);
            assert(method_of("PATCH"@) == Some(Method::Patch));
        },
        Method::Head => {
            assert(upper_seq("HEAD"@) =~= "HEAD"@);
            assert("HEAD"@[0] == 'H');
            assert("POST"@[0] == 'P');
            assert(method_of("HEAD"@) == Some(Method::Head));
        },
        Method::Options => {
            assert(upper_seq("OPTIONS"@) =~= "OPTIONS"@);
            assert(method_of("OPTIONS"@) == Some(Method::Options));
        },
        Method::Trace => {
            assert(upper_seq("TRACE"@) =~= "TRACE"@);
            assert("TRACE"@[0] == 'T');
            assert("PATCH"@[0] == 'P');
            assert(method_of("TRACE"@) == Some(Method::Trace));
        },
        Method::Connect => {
            assert(upper_seq("CONNECT"@) =~= "CONNECT"@);
            assert("CONNECT"@[0] == 'C');
            assert("OPTIONS"@[0] == 'O');
            assert(method_of("CONNECT"@) == Some(Method::Connect));
        },
    }
}

/// Why compiled text failed to parse as a request.
#[derive(Clone, Copy, PartialEq, Eq, Structural, Debug)]
pub enum MalformedRequestError {
    /// No non-blank line to read a request line from.
    Empty,
    /// The request line carries no URL after the verb.
    MissingUrl,
    /// The request line does not begin with a recognized verb.
    UnknownMethod,
    /// A header line carries no colon separator.
    HeaderMissingColon,
}

/// Why raw text failed to parse as a response.
#[derive(Clone, Copy, PartialEq, Eq, Structural, Debug)]
pub enum MalformedResponseError {
    /// No non-blank line to read a status line from.
    Empty,
    /// The status line carries no version or no code.
    MissingStatus,
    /// The status code is not a number a status can hold.
    BadStatusCode,
    /// A header line carries no colon separator.
    HeaderMissingColon,
}

/// Mathematical form of a structured request.
#[verifier::ext_equal]
pub struct ReqV {
    pub method: Method,
    pub url: Seq<char>,
    pub headers: Seq<(Seq<char>, Seq<char>)>,
    pub body: Option<Seq<char>>,
}

/// Mathematical form of a structured response.
#[verifier::ext_equal]
pub struct RespV {
    pub version: Seq<char>,
    pub status: int,
    pub reason: Seq<char>,
    pub headers: Seq<(Seq<char>, Seq<char>)>,
    pub body: Option<Seq<char>>,
}

/// A parsed HTTP request: verb, URL, ordered header pairs (duplicates kept),
/// optional body.
#[derive(PartialEq, Eq, Debug)]
pub struct StructuredRequest {
    pub method: Method,
    pub url: String,
    pub headers: Vec<(String, String)>,
    pub body: Option<String>,
}

/// A parsed HTTP response: status line parts, ordered header pairs, optional
/// body.
#[derive(PartialEq, Eq, Debug)]
pub struct StructuredResponse {
    pub version: String,
    pub status: u16,
    pub reason: String,
    pub headers: Vec<(String, String)>,
    pub body: Option<String>,
}

/// View of an optional owned text.
pub open spec fn opt_str_view(b: Option<String>) -> Option<Seq<char>> {
    match b {
        Some(s) => Some(s@),
        None => None,
    }
}

impl View for StructuredRequest {
    type V = ReqV;

    open spec fn view(&self) -> ReqV {
        ReqV {
            method: self.method,
            url: self.url@,
            headers: kv_view(self.headers@),
            body: opt_str_view(self.body),
        }
    }
}

impl View for StructuredResponse {
    type V = RespV;

    open spec fn view(&self) -> RespV {
        RespV {
            version: self.version@,
            status: self.status as int,
            reason: self.reason@,
            headers: kv_view(self.headers@),
            body: opt_str_view(self.body),
        }
    }
}

// ------------------------- the grammar, as specification -------------------------

/// A header line splits at its first colon; name and value are trimmed.
pub open spec fn parse_header_line(line: Seq<char>) -> Option<(Seq<char>, Seq<char>)> {
    match find_char(line, ':') {
        None => None,
        Some(i) => if 0 <= i < line.len() {
            Some((trim(line.take(i)), trim(line.skip(i + 1))))
        } else {
            None
        },
    }
}

/// Header lines up to the first blank line, then the verbatim body: absent
/// when the text ends at the blank line or has none.
pub open spec fn parse_headers(s: Seq<char>) -> Result<
    (Seq<(Seq<char>, Seq<char>)>, Option<Seq<char>>),
    MalformedRequestError,
>
    decreases s.len(),
{
    if s.len() == 0 {
        Ok((Seq::<(Seq<char>, Seq<char>)>::empty(), None))
    } else {
        let line = line_of(s);
        let rest = rest_after_line(s);
        if line.len() == 0 {
            Ok(
                (
                    Seq::<(Seq<char>, Seq<char>)>::empty(),
                    if rest.len() > 0 {
                        Some(rest)
                    } else {
                        None
                    },
                ),
            )
        } else {
            match parse_header_line(line) {
                None => Err(MalformedRequestError::HeaderMissingColon),
                Some(h) => match parse_headers(rest) {
                    Ok((hs, b)) => Ok((seq![h] + hs, b)),
                    Err(e) => Err(e),
                },
            }
        }
    }
}

/// The first non-blank line and what follows it, skipping leading blank
/// lines.
pub open spec fn first_content_line(s: Seq<char>) -> Option<(Seq<char>, Seq<char>)>
    decreases s.len(),
{
    if s.len() == 0 {
        None
    } else {
        let l = line_of(s);
        let r = rest_after_line(s);
        if l.len() == 0 {
            first_content_line(r)
        } else {
            Some((l, r))
        }
    }
}

/// A request line is a recognized verb, one space, and a non-empty trimmed
/// URL.
pub open spec fn parse_request_line(line: Seq<char>) -> Result<
    (Method, Seq<char>),
    MalformedRequestError,
> {
    match find_char(line, ' ') {
        None => Err(MalformedRequestError::MissingUrl),
        Some(i) => if 0 <= i < line.len() {
            let mtok = line.take(i);
            let url = trim(line.skip(i + 1));
            match method_of(mtok) {
                None => Err(MalformedRequestError::UnknownMethod),
                Some(m) => if url.len() == 0 {
                    Err(MalformedRequestError::MissingUrl)
                } else {
                    Ok((m, url))
                },
            }
        } else {
            Err(MalformedRequestError::MissingUrl)
        },
    }
}

/// What raw text parses to as a request.
pub open spec fn parse_request_spec(t: Seq<char>) -> Result<ReqV, MalformedRequestError> {
    match first_content_line(t) {
        None => Err(MalformedRequestError::Empty),
        Some((line, rest)) => match parse_request_line(line) {
            Err(e) => Err(e),
            Ok((m, url)) => match parse_headers(rest) {
                Err(e) => Err(e),
                Ok((hs, body)) => Ok(ReqV { method: m, url, headers: hs, body }),
            },
        },
    }
}

/// A status line is a version token, the status code in decimal, and the
/// verbatim reason phrase.
pub open spec fn parse_status_line(line: Seq<char>) -> Result<
    (Seq<char>, int, Seq<char>),
    MalformedResponseError,
> {
    match find_char(line, ' ') {
        None => Err(MalformedResponseError::MissingStatus),
        Some(i) => if 0 <= i < line.len() {
            let version = line.take(i);
            let rest = line.skip(i + 1);
            if version.len() == 0 {
                Err(MalformedResponseError::MissingStatus)
            } else {
                let split = match find_char(rest, ' ') {
                    Some(k) => if 0 <= k < rest.len() {
                        (rest.take(k), rest.skip(k + 1))
                    } else {
                        (rest, Seq::<char>::empty())
                    },
                    None => (rest, Seq::<char>::empty()),
                };
                if split.0.len() > 0 && all_digits(split.0) && num_val(split.0) <= 65535 {
                    Ok((version, num_val(split.0), split.1))
                } else {
                    Err(MalformedResponseError::BadStatusCode)
                }
            }
        } else {
            Err(MalformedResponseError::MissingStatus)
        },
    }
}

/// What raw text parses to as a response.
pub open spec fn parse_response_spec(t: Seq<char>) -> Result<RespV, MalformedResponseError> {
    match first_content_line(t) {
        None => Err(MalformedResponseError::Empty),
        Some((line, rest)) => match parse_status_line(line) {
            Err(e) => Err(e),
            Ok((version, status, reason)) => match parse_headers(rest) {
                Err(_) => Err(MalformedResponseError::HeaderMissingColon),
                Ok((hs, body)) => Ok(RespV { version, status, reason, headers: hs, body }),
            },
        },
    }
}

/// The serialized form of one header pair, line ending included.
pub open spec fn header_line(h: (Seq<char>, Seq<char>)) -> Seq<char> {
    h.0 + ": "@ + h.1 + "\n"@
}

/// The serialized header block, one line per pair, in order.
pub open spec fn ser_headers(hs: Seq<(Seq<char>, Seq<char>)>) -> Seq<char>
    decreases hs.len(),
{
    if hs.len() == 0 {
        Seq::<char>::empty()
    } else {
        header_line(hs[0]) + ser_headers(hs.drop_first())
    }
}

/// The serialized body: a blank line and the verbatim body, or nothing.
pub open spec fn ser_body(b: Option<Seq<char>>) -> Seq<char> {
    match b {
        None => Seq::<char>::empty(),
        Some(x) => "\n"@ + x,
    }
}

/// The serialized form of a request.
pub open spec fn ser_request_spec(r: ReqV) -> Seq<char> {
    method_name(r.method) + " "@ + r.url + "\n"@ + ser_headers(r.headers) + ser_body(r.body)
}

/// The serialized form of a response.
pub open spec fn ser_response_spec(r: RespV) -> Seq<char> {
    r.version + " "@ + dec_rep(r.status) + " "@ + r.reason + "\n"@ + ser_headers(r.headers)
        + ser_body(r.body)
}

/// A header pair that serialization can carry faithfully: no line breaks, no
/// colon in the name, both sides trimmed.
pub open spec fn wf_header(h: (Seq<char>, Seq<char>)) -> bool {
    line_clean(h.0) && line_clean(h.1) && find_char(h.0, ':') is None && is_trimmed(h.0)
        && is_trimmed(h.1)
}

/// A request that serialization carries faithfully: a clean, trimmed,
/// non-empty URL, well-formed headers, and a non-empty body if any.
pub open spec fn wf_request(r: ReqV) -> bool {
    line_clean(r.url) && is_trimmed(r.url) && r.url.len() > 0 && (forall|i: int|
        0 <= i < r.headers.len() ==> wf_header(#[trigger] r.headers[i])) && (r.body is Some
        ==> r.body->0.len() > 0)
}

/// A response that serialization carries faithfully.
pub open spec fn wf_response(r: RespV) -> bool {
    line_clean(r.version) && r.version.len() > 0 && find_char(r.version, ' ') is None && 0
        <= r.status <= 65535 && line_clean(r.reason) && (forall|i: int|
        0 <= i < r.headers.len() ==> wf_header(#[trigger] r.headers[i])) && (r.body is Some
        ==> r.body->0.len() > 0)
}

// ------------------------- executable parsing -------------------------

/// Reads the header block and body of `s`: every header line up to the
/// first blank line, then the verbatim body.
pub fn parse_header_block(s: &str) -> (r: Result<
    (Vec<(String, String)>, Option<String>),
    MalformedRequestError,
>)
    ensures
        match r {
            Ok(p) => parse_headers(s@) == Ok::<_, MalformedRequestError>(
                (kv_view(p.0@), opt_str_view(p.1)),
            ),
            Err(e) => parse_headers(s@) == Err::<(Seq<(Seq<char>, Seq<char>)>, Option<Seq<char>>), _>(e),
        },
{
    let ghost orig = s@;
    let mut cur: String = s.to_owned();
    let mut hs: Vec<(String, String)> = Vec::new();
    loop
        invariant
            orig == s@,
            match parse_headers(cur@) {
                Ok(p) => parse_headers(orig) == Ok::<_, MalformedRequestError>(
                    (kv_view(hs@) + p.0, p.1),
                ),
                Err(e) => parse_headers(orig) == Err::<
                    (Seq<(Seq<char>, Seq<char>)>, Option<Seq<char>>),
                    _,
                >(e),
            },
        decreases cur@.len(),
    {
        if cur.as_str().unicode_len() == 0 {
            proof {
                assert(kv_view(hs@) + Seq::<(Seq<char>, Seq<char>)>::empty() =~= kv_view(hs@));
            }
            return Ok((hs, None));
        }
        let pair = split_line(cur.as_str());
        let line = pair.0;
        let rest = pair.1;
        if line.as_str().unicode_len() == 0 {
            proof {
                assert(kv_view(hs@) + Seq::<(Seq<char>, Seq<char>)>::empty() =~= kv_view(hs@));
            }
            if rest.as_str().unicode_len() > 0 {
                return Ok((hs, Some(rest)));
            } else {
                return Ok((hs, None));
            }
        }
        let ln: usize = line.as_str().unicode_len();
        match find_char_in(line.as_str(), ':') {
            None => {
                return Err(MalformedRequestError::HeaderMissingColon);
            },
            Some(ci) => {
                proof {
                    lemma_find_char_spec(line@, ':');
                }
                let name = trim_str(line.as_str().substring_char(0, ci));
                let value = trim_str(line.as_str().substring_char(ci + 1, ln));
                proof {
                    assert(line@.subrange(0, ci as int) =~= line@.take(ci as int));
                    assert(line@.subrange(ci + 1, ln as int) =~= line@.skip(ci + 1));
                }
                let ghost before = kv_view(hs@);
                hs.push((name, value));
                proof {
                    assert(kv_view(hs@) =~= before.push((name@, value@)));
                    match parse_headers(rest@) {
                        Ok(p) => {
                            assert((before + (seq![(name@, value@)] + p.0)) =~= (before.push(
                                (name@, value@),
                            ) + p.0));
                        },
                        Err(e) => {},
                    }
                }
                cur = rest;
            },
        }
    }
}

/// Parses raw text as a request, exactly as `parse_request_spec` states.
pub fn parse_request(text: &str) -> (r: Result<StructuredRequest, MalformedRequestError>)
    ensures
        match r {
            Ok(req) => parse_request_spec(text@) == Ok::<_, MalformedRequestError>(req@),
            Err(e) => parse_request_spec(text@) == Err::<ReqV, _>(e),
        },
{
    let mut cur: String = text.to_owned();
    loop
        invariant
            first_content_line(text@) == first_content_line(cur@),
        decreases cur@.len(),
    {
        if cur.as_str().unicode_len() == 0 {
            return Err(MalformedRequestError::Empty);
        }
        let pair = split_line(cur.as_str());
        let line = pair.0;
        let rest = pair.1;
        if line.as_str().unicode_len() == 0 {
            cur = rest;
        } else {
            let ln: usize = line.as_str().unicode_len();
            match find_char_in(line.as_str(), ' ') {
                None => {
                    return Err(MalformedRequestError::MissingUrl);
                },
                Some(i) => {
                    proof {
                        lemma_find_char_spec(line@, ' ');
                    }
                    let mtok = line.as_str().substring_char(0, i);
                    let url = trim_str(line.as_str().substring_char(i + 1, ln));
                    proof {
                        assert(line@.subrange(0, i as int) =~= line@.take(i as int));
                        assert(line@.subrange(i + 1, ln as int) =~= line@.skip(i + 1));
                    }
                    match method_of_str(mtok) {
                        None => {
                            return Err(MalformedRequestError::UnknownMethod);
                        },
                        Some(m) => {
                            if url.as_str().unicode_len() == 0 {
                                return Err(MalformedRequestError::MissingUrl);
                            }
                            match parse_header_block(rest.as_str()) {
                                Err(e) => {
                                    return Err(e);
                                },
                                Ok(hb) => {
                                    return Ok(
                                        StructuredRequest {
                                            method: m,
                                            url,
                                            headers: hb.0,
                                            body: hb.1,
                                        },
                                    );
                                },
                            }
                        },
                    }
                },
            }
        }
    }
}

/// Parses raw text as a response, exactly as `parse_response_spec` states.
pub fn parse_response(text: &str) -> (r: Result<StructuredResponse, MalformedResponseError>)
    ensures
        match r {
            Ok(resp) => parse_response_spec(text@) == Ok::<_, MalformedResponseError>(resp@),
            Err(e) => parse_response_spec(text@) == Err::<RespV, _>(e),
        },
{
    let mut cur: String = text.to_owned();
    loop
        invariant
            first_content_line(text@) == first_content_line(cur@),
        decreases cur@.len(),
    {
        if cur.as_str().unicode_len() == 0 {
            return Err(MalformedResponseError::Empty);
        }
        let pair = split_line(cur.as_str());
        let line = pair.0;
        let rest = pair.1;
        if line.as_str().unicode_len() == 0 {
            cur = rest;
        } else {
            let ln: usize = line.as_str().unicode_len();
            match find_char_in(line.as_str(), ' ') {
                None => {
                    return Err(MalformedResponseError::MissingStatus);
                },
                Some(i) => {
                    proof {
                        lemma_find_char_spec(line@, ' ');
                    }
                    let version = line.as_str().substring_char(0, i);
                    let after = line.as_str().substring_char(i + 1, ln);
                    proof {
                        assert(line@.subrange(0, i as int) =~= line@.take(i as int));
                        assert(line@.subrange(i + 1, ln as int) =~= line@.skip(i + 1));
                    }
                    if version.unicode_len() == 0 {
                        return Err(MalformedResponseError::MissingStatus);
                    }
                    let an: usize = after.unicode_len();
                    let code_reason = match find_char_in(after, ' ') {
                        Some(k) => {
                            proof {
                                lemma_find_char_spec(after@, ' ');
                            }
                            let c = after.substring_char(0, k);
                            let rsn = after.substring_char(k + 1, an);
                            proof {
                                assert(after@.subrange(0, k as int) =~= after@.take(k as int));
                                assert(after@.subrange(k + 1, an as int) =~= after@.skip(k + 1));
                            }
                            (c, rsn)
                        },
                        None => {
                            proof {
                                assert(after@.subrange(0, an as int) =~= after@);
                                assert(""@ =~= Seq::<char>::empty()) by {
                                    reveal_strlit("");
                                }
                            }
                            (after.substring_char(0, an), "")
                        },
                    };
                    match parse_bounded(code_reason.0, 65535) {
                        None => {
                            return Err(MalformedResponseError::BadStatusCode);
                        },
                        Some(code) => {
                            match parse_header_block(rest.as_str()) {
                                Err(_) => {
                                    return Err(MalformedResponseError::HeaderMissingColon);
                                },
                                Ok(hb) => {
                                    return Ok(
                                        StructuredResponse {
                                            version: version.to_owned(),
                                            status: code as u16,
                                            reason: code_reason.1.to_owned(),
                                            headers: hb.0,
                                            body: hb.1,
                                        },
                                    );
                                },
                            }
                        },
                    }
                },
            }
        }
    }
}

// ------------------------- executable serialization -------------------------

/// Concatenation of serialized header blocks splits at the list boundary.
pub proof fn lemma_ser_headers_app(a: Seq<(Seq<char>, Seq<char>)>, b: Seq<(Seq<char>, Seq<char>)>)
    ensures
        ser_headers(a + b) == ser_headers(a) + ser_headers(b),
    decreases a.len(),
{
    if a.len() == 0 {
        assert(a + b =~= b);
        assert(Seq::<char>::empty() + ser_headers(b) =~= ser_headers(b));
    } else {
        assert((a + b).drop_first() =~= a.drop_first() + b);
        lemma_ser_headers_app(a.drop_first(), b);
        assert((a + b)[0] == a[0]);
        assert(header_line(a[0]) + (ser_headers(a.drop_first()) + ser_headers(b)) =~= (header_line(
            a[0],
        ) + ser_headers(a.drop_first())) + ser_headers(b));
    }
}

/// Writes the serialized header block of `hs` onto `out`.
fn append_headers(out: &mut String, hs: &Vec<(String, String)>)
    ensures
        final (out)@ == old(out)@ + ser_headers(kv_view(hs@)),
{
    let ghost base = out@;
    let mut i: usize = 0;
    while i < hs.len()
        invariant
            0 <= i <= hs.len(),
            out@ == base + ser_headers(kv_view(hs@).take(i as int)),
        decreases hs.len() - i,
    {
        out.append(hs[i].0.as_str());
        out.append(": ");
        out.append(hs[i].1.as_str());
        out.append("\n");
        proof {
            let hv = kv_view(hs@);
            assert(hv.take(i + 1) =~= hv.take(i as int) + seq![hv[i as int]]);
            lemma_ser_headers_app(hv.take(i as int), seq![hv[i as int]]);
            assert(seq![hv[i as int]].drop_first() =~= Seq::<(Seq<char>, Seq<char>)>::empty());
            assert(ser_headers(seq![hv[i as int]]) == header_line(hv[i as int]) + ser_headers(
                Seq::<(Seq<char>, Seq<char>)>::empty(),
            ));
            assert(out@ =~= base + ser_headers(hv.take(i + 1)));
        }
        i += 1;
    }
    proof {
        assert(kv_view(hs@).take(hs@.len() as int) =~= kv_view(hs@));
    }
}

/// Serializes a request into the raw line-oriented text form.
pub fn serialize_request(r: &StructuredRequest) -> (s: String)
    ensures
        s@ == ser_request_spec(r@),
{
    let mut out: String = method_str(r.method).to_owned();
    out.append(" ");
    out.append(r.url.as_str());
    out.append("\n");
    append_headers(&mut out, &r.headers);
    match &r.body {
        None => {
            proof {
                assert(out@ =~= ser_request_spec(r@));
            }
        },
        Some(b) => {
            out.append("\n");
            out.append(b.as_str());
            proof {
                assert(out@ =~= ser_request_spec(r@));
            }
        },
    }
    out
}

/// Serializes a response into the same raw text form: status line, headers,
/// blank line, body.
pub fn serialize_response(r: &StructuredResponse) -> (s: String)
    ensures
        s@ == ser_response_spec(r@),
{
    let mut out: String = r.version.clone();
    out.append(" ");
    out.append(dec_string(r.status as u64).as_str());
    out.append(" ");
    out.append(r.reason.as_str());
    out.append("\n");
    append_headers(&mut out, &r.headers);
    match &r.body {
        None => {
            proof {
                assert(out@ =~= ser_response_spec(r@));
            }
        },
        Some(b) => {
            out.append("\n");
            out.append(b.as_str());
            proof {
                assert(out@ =~= ser_response_spec(r@));
            }
        },
    }
    out
}

// ------------------------- round-trip laws -------------------------

/// A well-formed header pair reads back from its serialized line.
proof fn lemma_parse_header_line_rt(h: (Seq<char>, Seq<char>))
    requires
        wf_header(h),
    ensures
        parse_header_line(h.0 + ": "@ + h.1) == Some(h),
{
    reveal_strlit(": ");
    let line = h.0 + ": "@ + h.1;
    let i = h.0.len() as int;
    assert(line[i] == ':');
    lemma_find_char_spec(h.0, ':');
    assert forall|j: int| 0 <= j < i implies line[j] != ':' by {
        assert(line[j] == h.0[j]);
    }
    lemma_find_char_at(line, ':', i);
    assert(line.take(i) =~= h.0);
    lemma_trim_trimmed(h.0);
    assert(line.skip(i + 1) =~= seq![' '] + h.1);
    lemma_trim_space_prefix(h.1);
    assert(parse_header_line(line) == Some((h.0, h.1)));
    assert(h == (h.0, h.1));
}

/// A well-formed header list and body read back from their serialized form.
proof fn lemma_parse_headers_rt(hs: Seq<(Seq<char>, Seq<char>)>, body: Option<Seq<char>>)
    requires
        forall|i: int| 0 <= i < hs.len() ==> wf_header(#[trigger] hs[i]),
        body is Some ==> body->0.len() > 0,
    ensures
        parse_headers(ser_headers(hs) + ser_body(body)) == Ok::<
            (Seq<(Seq<char>, Seq<char>)>, Option<Seq<char>>),
            MalformedRequestError,
        >((hs, body)),
    decreases hs.len(),
{
    reveal_strlit("\n");
    reveal_strlit(": ");
    let s = ser_headers(hs) + ser_body(body);
    if hs.len() == 0 {
        assert(hs =~= Seq::<(Seq<char>, Seq<char>)>::empty());
        match body {
            None => {
                assert(s =~= Seq::<char>::empty());
            },
            Some(x) => {
                assert(s =~= seq!['\n'] + x);
                lemma_find_char_at(s, '\n', 0);
                assert(s.take(0) =~= Seq::<char>::empty());
                assert(s.skip(1) =~= x);
            },
        }
    } else {
        let h = hs[0];
        let lineb = h.0 + ": "@ + h.1;
        let tail = ser_headers(hs.drop_first()) + ser_body(body);
        assert(s =~= lineb + seq!['\n'] + tail);
        assert forall|j: int| 0 <= j < lineb.len() implies lineb[j] != '\n' && lineb[j] != '\r' by {
            if j < h.0.len() {
                assert(lineb[j] == h.0[j]);
            } else if j < h.0.len() + 2 {
                assert(lineb[j] == ": "@[j - h.0.len()]);
            } else {
                assert(lineb[j] == h.1[j - h.0.len() - 2]);
            }
        }
        lemma_split_concat(lineb, tail);
        lemma_parse_header_line_rt(h);
        assert forall|i: int| 0 <= i < hs.drop_first().len() implies wf_header(
            #[trigger] hs.drop_first()[i],
        ) by {
            assert(hs.drop_first()[i] == hs[i + 1]);
        }
        lemma_parse_headers_rt(hs.drop_first(), body);
        assert(seq![h] + hs.drop_first() =~= hs);
    }
}

/// Parsing the serialized form of a well-formed structured request yields an
/// equal structure: the round-trip law for requests.
pub proof fn lemma_request_round_trip(r: ReqV)
    requires
        wf_request(r),
    ensures
        parse_request_spec(ser_request_spec(r)) == Ok::<ReqV, MalformedRequestError>(r),
{
    reveal_strlit(" ");
    let mn = method_name(r.method);
    let line = mn + " "@ + r.url;
    let rest = ser_headers(r.headers) + ser_body(r.body);
    let s = ser_request_spec(r);
    lemma_method_name_clean(r.method);
    assert(s =~= line + seq!['\n'] + rest) by {
        reveal_strlit("\n");
    }
    assert forall|j: int| 0 <= j < line.len() implies line[j] != '\n' && line[j] != '\r' by {
        if j < mn.len() {
            assert(line[j] == mn[j]);
        } else if j == mn.len() {
            assert(line[j] == ' ');
        } else {
            assert(line[j] == r.url[j - mn.len() - 1]);
        }
    }
    lemma_split_concat(line, rest);
    let i = mn.len() as int;
    assert(line[i] == ' ');
    assert forall|j: int| 0 <= j < i implies line[j] != ' ' by {
        assert(line[j] == mn[j]);
    }
    lemma_find_char_at(line, ' ', i);
    assert(line.take(i) =~= mn);
    assert(line.skip(i + 1) =~= r.url);
    lemma_method_round_trip(r.method);
    lemma_trim_trimmed(r.url);
    lemma_parse_headers_rt(r.headers, r.body);
    assert(parse_request_spec(s) == Ok::<ReqV, MalformedRequestError>(
        ReqV { method: r.method, url: r.url, headers: r.headers, body: r.body },
    ));
    assert(ReqV { method: r.method, url: r.url, headers: r.headers, body: r.body } == r);
}

/// Parsing the serialized form of a well-formed structured response yields
/// an equal structure: the round-trip law for responses.
pub proof fn lemma_response_round_trip(r: RespV)
    requires
        wf_response(r),
    ensures
        parse_response_spec(ser_response_spec(r)) == Ok::<RespV, MalformedResponseError>(r),
{
    reveal_strlit(" ");
    let dg = dec_rep(r.status);
    lemma_dec_rep(r.status);
    let line = r.version + " "@ + dg + " "@ + r.reason;
    let rest = ser_headers(r.headers) + ser_body(r.body);
    let s = ser_response_spec(r);
    assert(s =~= line + seq!['\n'] + rest) by {
        reveal_strlit("\n");
    }
    assert forall|j: int| 0 <= j < line.len() implies line[j] != '\n' && line[j] != '\r' by {
        if j < r.version.len() {
            assert(line[j] == r.version[j]);
        } else if j == r.version.len() {
            assert(line[j] == ' ');
        } else if j < r.version.len() + 1 + dg.len() {
            let d = line[j];
            assert(d == dg[j - r.version.len() - 1]);
            assert(is_digit(d));
        } else if j == r.version.len() + 1 + dg.len() {
            assert(line[j] == ' ');
        } else {
            assert(line[j] == r.reason[j - r.version.len() - 2 - dg.len()]);
        }
    }
    lemma_split_concat(line, rest);
    let i = r.version.len() as int;
    assert(line[i] == ' ');
    lemma_find_char_spec(r.version, ' ');
    assert forall|j: int| 0 <= j < i implies line[j] != ' ' by {
        assert(line[j] == r.version[j]);
    }
    lemma_find_char_at(line, ' ', i);
    assert(line.take(i) =~= r.version);
    let restl = line.skip(i + 1);
    assert(restl =~= dg + " "@ + r.reason);
    let k = dg.len() as int;
    assert(restl[k] == ' ');
    assert forall|j: int| 0 <= j < k implies restl[j] != ' ' by {
        assert(restl[j] == dg[j]);
        assert(is_digit(dg[j]));
    }
    lemma_find_char_at(restl, ' ', k);
    assert(restl.take(k) =~= dg);
    assert(restl.skip(k + 1) =~= r.reason);
    lemma_parse_headers_rt(r.headers, r.body);
    assert(parse_response_spec(s) == Ok::<RespV, MalformedResponseError>(
        RespV {
            version: r.version,
            status: r.status,
            reason: r.reason,
            headers: r.headers,
            body: r.body,
        },
    ));
    assert(RespV {
        version: r.version,
        status: r.status,
        reason: r.reason,
        headers: r.headers,
        body: r.body,
    } == r);
}

} // verus!
