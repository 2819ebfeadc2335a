use vstd::prelude::*;
use vstd::utf8::encode_utf8;

use super::headers::{Headers, headers_map, insert_entry, keys_distinct, lemma_insert_entry};
use super::text::{
    chars_of, find, find_in, lines, parse_usize_spec, parse_usize, same_text, split_once,
    strip_cr, lacks, occurs_at, lemma_lacks_concat, lemma_find_char_after, lemma_find_from_is,
    lemma_find_none,
};

verus! {

/// The request method named on the request line.
#[derive(Debug)]
pub enum Method {
    Get,
    Post,
    Put,
    Delete,
    Head,
    Options,
    Patch,
    Unknown(String),
}

/// A request method as a mathematical value.
pub enum MethodView {
    Get,
    Post,
    Put,
    Delete,
    Head,
    Options,
    Patch,
    Unknown(Seq<char>),
}

impl View for Method {
    type V = MethodView;

    open spec fn view(&self) -> MethodView {
        match self {
            Method::Get => MethodView::Get,
            Method::Post => MethodView::Post,
            Method::Put => MethodView::Put,
            Method::Delete => MethodView::Delete,
            Method::Head => MethodView::Head,
            Method::Options => MethodView::Options,
            Method::Patch => MethodView::Patch,
            Method::Unknown(s) => MethodView::Unknown(s@),
        }
    }
}

/// The method that a method token names; tokens are case-sensitive.
pub open spec fn method_from_text(s: Seq<char>) -> MethodView {
    if s == "GET"@ {
        MethodView::Get
    } else if s == "POST"@ {
        MethodView::Post
    } else if s == "PUT"@ {
        MethodView::Put
    } else if s == "DELETE"@ {
        MethodView::Delete
    } else if s == "HEAD"@ {
        MethodView::Head
    } else if s == "OPTIONS"@ {
        MethodView::Options
    } else if s == "PATCH"@ {
        MethodView::Patch
    } else {
        MethodView::Unknown(s)
    }
}

impl Method {
    /// The method named by a method token.
    pub fn from_str(s: &str) -> (m: Method)
        ensures
            m@ == method_from_text(s@),
    {
        if same_text(s, "GET") {
            Method::Get
        } else if same_text(s, "POST") {
            Method::Post
        } else if same_text(s, "PUT") {
            Method::Put
        } else if same_text(s, "DELETE") {
            Method::Delete
        } else if same_text(s, "HEAD") {
            Method::Head
        } else if same_text(s, "OPTIONS") {
            Method::Options
        } else if same_text(s, "PATCH") {
            Method::Patch
        } else {
            Method::Unknown(String::from_str(s))
        }
    }
}

/// Why a request could not be parsed.
#[derive(Debug)]
pub enum ParseError {
    EmptyRequest,
    MalformedRequestLine,
    MalformedHeader(String),
}

/// A parse error as a mathematical value.
pub enum ParseErrorView {
    EmptyRequest,
    MalformedRequestLine,
    MalformedHeader(Seq<char>),
}

impl View for ParseError {
    type V = ParseErrorView;

    open spec fn view(&self) -> ParseErrorView {
        match self {
            ParseError::EmptyRequest => ParseErrorView::EmptyRequest,
            ParseError::MalformedRequestLine => ParseErrorView::MalformedRequestLine,
            ParseError::MalformedHeader(h) => ParseErrorView::MalformedHeader(h@),
        }
    }
}

/// The text that describes a parse error.
pub open spec fn parse_error_message(e: ParseErrorView) -> Seq<char> {
    match e {
        ParseErrorView::EmptyRequest => "request is empty"@,
        ParseErrorView::MalformedRequestLine => "malformed request line"@,
        ParseErrorView::MalformedHeader(h) => "malformed header: "@ + h,
    }
}

impl ParseError {
    /// The text that describes the error.
    pub fn message(&self) -> (s: String)
        ensures
            s@ == parse_error_message(self@),
    {
        match self {
            ParseError::EmptyRequest => String::from_str("request is empty"),
            ParseError::MalformedRequestLine => String::from_str("malformed request line"),
            ParseError::MalformedHeader(h) => {
                let mut s = String::from_str("malformed header: ");
                s.append(h.as_str());
                s
            },
        }
    }
}

/// A parsed request as a mathematical value.
pub struct RequestView {
    pub method: MethodView,
    pub path: Seq<char>,
    pub version: Seq<char>,
    pub headers: Seq<(Seq<char>, Seq<char>)>,
    pub body: Option<Seq<u8>>,
}

/// A parsed HTTP request.
#[derive(Debug)]
pub struct HttpRequest {
    pub method: Method,
    pub path: String,
    pub version: String,
    pub headers: Headers,
    pub body: Option<Vec<u8>>,
}

/// The bytes of an optional body.
pub open spec fn body_view(b: Option<Vec<u8>>) -> Option<Seq<u8>> {
    match b {
        Some(v) => Some(v@),
        None => None,
    }
}

impl View for HttpRequest {
    type V = RequestView;

    open spec fn view(&self) -> RequestView {
        RequestView {
            method: self.method@,
            path: self.path@,
            version: self.version@,
            headers: self.headers@,
            body: body_view(self.body),
        }
    }
}

/// The blank line that ends the head of a request.
pub open spec fn head_terminator() -> Seq<char> {
    seq!['\r', '\n', '\r', '\n']
}

/// The head and body of a raw request: split at the first blank line, or all head.
pub open spec fn head_and_body(raw: Seq<char>) -> (Seq<char>, Seq<char>) {
    match split_once(raw, head_terminator()) {
        Some(p) => p,
        None => (raw, Seq::empty()),
    }
}

/// The method token, target and version of a request line: the text before the first
/// space, between the first and second spaces, and after the second space.
pub open spec fn request_line_parts(l: Seq<char>) -> Option<(Seq<char>, Seq<char>, Seq<char>)> {
    match find(l, seq![' ']) {
        None => None,
        Some(i) => {
            let rest = l.skip(i + 1);
            match find(rest, seq![' ']) {
                None => None,
                Some(j) => Some((l.take(i), rest.take(j), rest.skip(j + 1))),
            }
        },
    }
}

/// The header lines read in order up to the first empty line, each split at its first
/// `": "` and set in `acc`; the first line without `": "` is an error.
pub open spec fn fold_headers(ls: Seq<Seq<char>>, acc: Seq<(Seq<char>, Seq<char>)>) -> Result<
    Seq<(Seq<char>, Seq<char>)>,
    ParseErrorView,
>
    decreases ls.len(),
{
    if ls.len() == 0 || ls[0].len() == 0 {
        Ok(acc)
    } else {
        match split_once(ls[0], seq![':', ' ']) {
            None => Err(ParseErrorView::MalformedHeader(ls[0])),
            Some((k, v)) => fold_headers(ls.drop_first(), insert_entry(acc, k, v)),
        }
    }
}

/// What a raw request text parses to.
pub open spec fn parse_request(raw: Seq<char>) -> Result<RequestView, ParseErrorView> {
    let (head, body) = head_and_body(raw);
    let ls = lines(head);
    if ls.len() == 0 {
        Err(ParseErrorView::EmptyRequest)
    } else {
        match request_line_parts(ls[0]) {
            None => Err(ParseErrorView::MalformedRequestLine),
            Some((m, p, v)) => match fold_headers(ls.drop_first(), Seq::empty()) {
                Err(e) => Err(e),
                Ok(h) => Ok(
                    RequestView {
                        method: method_from_text(m),
                        path: p,
                        version: v,
                        headers: h,
                        body: if body.len() == 0 {
                            None
                        } else {
                            Some(encode_utf8(body))
                        },
                    },
                ),
            },
        }
    }
}

proof fn lemma_fold_headers_distinct(ls: Seq<Seq<char>>, acc: Seq<(Seq<char>, Seq<char>)>)
    requires
        keys_distinct(acc),
    ensures
        fold_headers(ls, acc) matches Ok(h) ==> keys_distinct(h),
    decreases ls.len(),
{
    if ls.len() > 0 && ls[0].len() > 0 {
        if let Some((k, v)) = split_once(ls[0], seq![':', ' ']) {
            lemma_insert_entry(acc, k, v);
            lemma_fold_headers_distinct(ls.drop_first(), insert_entry(acc, k, v));
        }
    }
}

/// A parsed request holds each header name once: a name sent twice keeps the value sent last.
pub proof fn lemma_parsed_headers_distinct(raw: Seq<char>)
    ensures
        parse_request(raw) matches Ok(v) ==> keys_distinct(v.headers),
{
    let ls = lines(head_and_body(raw).0);
    if ls.len() > 0 {
        lemma_fold_headers_distinct(ls.drop_first(), Seq::empty());
    }
}

/// The value of the `Content-Length` header read as a number; 0 where it is absent or
/// not a `usize`.
pub open spec fn content_length_of(headers: Seq<(Seq<char>, Seq<char>)>) -> usize {
    let m = headers_map(headers);
    if m.contains_key("Content-Length"@) {
        match parse_usize_spec(m["Content-Length"@]) {
            Some(n) => n,
            None => 0,
        }
    } else {
        0
    }
}

/// The line of `cs[pos..end]` that starts at `pos`: its bounds without the line ending,
/// and where the next line starts.
fn next_line(cs: &Vec<char>, pos: usize, end: usize) -> (r: (usize, usize, usize))
    requires
        pos < end <= cs.len(),
    ensures
        pos <= r.0 <= r.1 <= r.2 <= end,
        r.0 == pos,
        r.2 > pos,
        lines(cs@.subrange(pos as int, end as int)) == seq![
            cs@.subrange(r.0 as int, r.1 as int),
        ] + lines(cs@.subrange(r.2 as int, end as int)),
{
    let ghost t = cs@.subrange(pos as int, end as int);
    let nl = vec!['\n'];
    proof {
        super::text::lemma_find_from(t, seq!['\n'], 0);
    }
    assert(nl@ =~= seq!['\n']);
    match find_in(cs, pos, end, &nl) {
        Some(i) => {
            let hi = if i > 0 && cs[pos + i - 1] == '\r' {
                pos + i - 1
            } else {
                pos + i
            };
            assert(t.skip(i + 1) =~= cs@.subrange(pos + i + 1, end as int));
            assert(strip_cr(t.take(i as int)) =~= cs@.subrange(pos as int, hi as int));
            (pos, hi, pos + i + 1)
        },
        None => {
            assert(t =~= cs@.subrange(pos as int, end as int));
            assert(cs@.subrange(end as int, end as int) =~= Seq::<char>::empty());
            assert(seq![t] + lines(Seq::<char>::empty()) =~= seq![t]);
            (pos, end, end)
        },
    }
}

/// The method, target and version of the request line `cs[lo..hi]`.
fn read_request_line(raw: &str, cs: &Vec<char>, lo: usize, hi: usize) -> (r: Option<
    (Method, String, String),
>)
    requires
        cs@ == raw@,
        lo <= hi <= cs.len(),
    ensures
        match request_line_parts(cs@.subrange(lo as int, hi as int)) {
            Some((m, p, v)) => r matches Some((mm, pp, vv)) && mm@ == method_from_text(m) && pp@
                == p && vv@ == v,
            None => r is None,
        },
{
    let ghost l0 = cs@.subrange(lo as int, hi as int);
    let sp = vec![' '];
    assert(sp@ =~= seq![' ']);
    let i = match find_in(cs, lo, hi, &sp) {
        Some(i) => i,
        None => {
            return None;
        },
    };
    proof {
        super::text::lemma_find_from(l0, seq![' '], 0);
    }
    assert(l0.skip(i + 1) =~= cs@.subrange(lo + i + 1, hi as int));
    let j = match find_in(cs, lo + i + 1, hi, &sp) {
        Some(j) => j,
        None => {
            return None;
        },
    };
    proof {
        super::text::lemma_find_from(l0.skip(i + 1), seq![' '], 0);
    }
    let method_text = raw.substring_char(lo, lo + i);
    assert(method_text@ =~= l0.take(i as int));
    let method = Method::from_str(method_text);
    let path = String::from_str(raw.substring_char(lo + i + 1, lo + i + 1 + j));
    assert(path@ =~= l0.skip(i + 1).take(j as int));
    let version = String::from_str(raw.substring_char(lo + i + 1 + j + 1, hi));
    assert(version@ =~= l0.skip(i + 1).skip(j + 1));
    Some((method, path, version))
}

/// The header lines of `cs[pos..end]` read into a header collection.
fn read_headers(raw: &str, cs: &Vec<char>, start: usize, end: usize) -> (r: Result<
    Headers,
    ParseError,
>)
    requires
        cs@ == raw@,
        start <= end <= cs.len(),
    ensures
        match r {
            Ok(h) => fold_headers(lines(cs@.subrange(start as int, end as int)), Seq::empty())
                == Ok::<Seq<(Seq<char>, Seq<char>)>, ParseErrorView>(h@),
            Err(e) => fold_headers(lines(cs@.subrange(start as int, end as int)), Seq::empty())
                == Err::<Seq<(Seq<char>, Seq<char>)>, ParseErrorView>(e@),
        },
{
    let ghost total = fold_headers(lines(cs@.subrange(start as int, end as int)), Seq::empty());
    let colon = vec![':', ' '];
    assert(colon@ =~= seq![':', ' ']);
    let mut headers = Headers::new();
    let mut pos = start;
    while pos < end
        invariant
            cs@ == raw@,
            end <= cs.len(),
            start <= pos <= end,
            colon@ == seq![':', ' '],
            total == fold_headers(lines(cs@.subrange(start as int, end as int)), Seq::empty()),
            total == fold_headers(lines(cs@.subrange(pos as int, end as int)), headers@),
        decreases end - pos,
    {
        let ghost rest = lines(cs@.subrange(pos as int, end as int));
        let (lo, hi, next) = next_line(cs, pos, end);
        let ghost line = cs@.subrange(lo as int, hi as int);
        assert(rest[0] == line);
        assert(rest.drop_first() =~= lines(cs@.subrange(next as int, end as int)));
        if lo == hi {
            assert(line.len() == 0);
            assert(total == Ok::<Seq<(Seq<char>, Seq<char>)>, ParseErrorView>(headers@));
            return Ok(headers);
        }
        match find_in(cs, lo, hi, &colon) {
            None => {
                let text = String::from_str(raw.substring_char(lo, hi));
                assert(text@ =~= line);
                assert(split_once(line, seq![':', ' ']) is None);
                return Err(ParseError::MalformedHeader(text));
            },
            Some(k) => {
                proof {
                    super::text::lemma_find_from(line, seq![':', ' '], 0);
                }
                let key = String::from_str(raw.substring_char(lo, lo + k));
                assert(key@ =~= line.take(k as int));
                let value = String::from_str(raw.substring_char(lo + k + 2, hi));
                assert(value@ =~= line.skip(k + 2));
                headers.insert(key, value);
            },
        }
        pos = next;
    }
    assert(cs@.subrange(pos as int, end as int) =~= Seq::<char>::empty());
    Ok(headers)
}

impl HttpRequest {
    /// Parses the text of a request: the request line, the headers up to the first empty
    /// line, and the body after the first blank line.
    pub fn parse(raw: &str) -> (r: Result<HttpRequest, ParseError>)
        ensures
            match r {
                Ok(req) => parse_request(raw@) == Ok::<RequestView, ParseErrorView>(req@),
                Err(e) => parse_request(raw@) == Err::<RequestView, ParseErrorView>(e@),
            },
    {
        let cs = chars_of(raw);
        let n = cs.len();
        let sep = vec!['\r', '\n', '\r', '\n'];
        assert(sep@ =~= head_terminator());
        assert(cs@.subrange(0, n as int) =~= raw@);
        proof {
            super::text::lemma_find_from(raw@, head_terminator(), 0);
        }
        let (head_end, body_start) = match find_in(&cs, 0, n, &sep) {
            Some(i) => (i, i + 4),
            None => (n, n),
        };
        let ghost head = head_and_body(raw@).0;
        let ghost body = head_and_body(raw@).1;
        assert(head =~= cs@.subrange(0, head_end as int));
        assert(body =~= cs@.subrange(body_start as int, n as int));
        if head_end == 0 {
            assert(head.len() == 0);
            return Err(ParseError::EmptyRequest);
        }
        let (l_lo, l_hi, pos) = next_line(&cs, 0, head_end);
        let ghost ls = lines(head);
        assert(ls[0] == cs@.subrange(l_lo as int, l_hi as int));
        assert(ls.drop_first() =~= lines(cs@.subrange(pos as int, head_end as int)));
        let (method, path, version) = match read_request_line(raw, &cs, l_lo, l_hi) {
            Some(parts) => parts,
            None => {
                return Err(ParseError::MalformedRequestLine);
            },
        };
        let headers = match read_headers(raw, &cs, pos, head_end) {
            Ok(h) => h,
            Err(e) => {
                return Err(e);
            },
        };
        let body_bytes = if body_start == n {
            None
        } else {
            Some(raw.substring_char(body_start, n).as_bytes_vec())
        };
        let req = HttpRequest { method, path, version, headers, body: body_bytes };
        assert(req@.body == (if body.len() == 0 {
            None
        } else {
            Some(encode_utf8(body))
        }));
        Ok(req)
    }

    /// The `Content-Length` header read as a number, or 0 where it is absent or not a
    /// `usize`.
    pub fn content_length(&self) -> (n: usize)
        ensures
            n == content_length_of(self.headers@),
    {
        match self.headers.get("Content-Length") {
            Some(v) => match parse_usize(v.as_str()) {
                Some(n) => n,
                None => 0,
            },
            None => 0,
        }
    }

    /// The value of the `Content-Type` header, if there is one.
    pub fn content_type(&self) -> (r: Option<&str>)
        ensures
            match r {
                Some(t) => self.headers.as_map().contains_key("Content-Type"@)
                    && self.headers.as_map()["Content-Type"@] == t@,
                None => !self.headers.as_map().contains_key("Content-Type"@),
            },
    {
        match self.headers.get("Content-Type") {
            Some(v) => Some(v.as_str()),
            None => None,
        }
    }
}

/// A line ending.
pub open spec fn crlf() -> Seq<char> {
    seq!['\r', '\n']
}

/// Lines joined with CRLF between them.
pub open spec fn join_crlf(ps: Seq<Seq<char>>) -> Seq<char>
    decreases ps.len(),
{
    if ps.len() == 0 {
        Seq::empty()
    } else if ps.len() == 1 {
        ps[0]
    } else {
        ps[0] + crlf() + join_crlf(ps.drop_first())
    }
}

/// The header line `key: value`.
pub open spec fn header_line(h: (Seq<char>, Seq<char>)) -> Seq<char> {
    h.0 + seq![':', ' '] + h.1
}

/// The text of a request with method token `m`, target `p`, version `v`, the header lines
/// `hs` in order, a blank line, and the body.
pub open spec fn request_text(
    m: Seq<char>,
    p: Seq<char>,
    v: Seq<char>,
    hs: Seq<(Seq<char>, Seq<char>)>,
    body: Seq<char>,
) -> Seq<char> {
    join_crlf(seq![m + seq![' '] + p + seq![' '] + v] + hs.map_values(|h: (Seq<char>, Seq<char>)| header_line(h)))
        + head_terminator() + body
}

/// Every piece is non-empty and has no line feed.
pub open spec fn plain_lines(ps: Seq<Seq<char>>) -> bool {
    forall|i: int| 0 <= i < ps.len() ==> (#[trigger] ps[i]).len() > 0 && lacks(ps[i], '\n')
}

proof fn lemma_char_at_occurrence(s: Seq<char>, pat: Seq<char>, j: int, k: int)
    requires
        occurs_at(s, pat, j),
        0 <= k < pat.len(),
    ensures
        s[j + k] == pat[k],
{
    assert(s.subrange(j, j + pat.len())[k] == s[j + k]);
}

/// After the first piece of joined lines, followed by text that starts with a carriage
/// return, comes a carriage return; before it, the first piece.
proof fn lemma_join_prefix(ps: Seq<Seq<char>>, tail: Seq<char>)
    requires
        ps.len() > 0,
        tail.len() > 0,
        tail[0] == '\r',
    ensures
        (join_crlf(ps) + tail).len() > ps[0].len(),
        (join_crlf(ps) + tail)[ps[0].len() as int] == '\r',
        forall|k: int| 0 <= k < ps[0].len() ==> (join_crlf(ps) + tail)[k] == ps[0][k],
{
    if ps.len() == 1 {
    } else {
        assert(join_crlf(ps) == ps[0] + crlf() + join_crlf(ps.drop_first()));
    }
}

/// Lines joined with CRLF split back into the same lines.
proof fn lemma_lines_join(ps: Seq<Seq<char>>)
    requires
        ps.len() > 0,
        plain_lines(ps),
    ensures
        lines(join_crlf(ps)) == ps,
    decreases ps.len(),
{
    let p0 = ps[0];
    assert(p0.len() > 0 && lacks(p0, '\n'));
    if ps.len() == 1 {
        assert forall|j: int| 0 <= j implies !occurs_at(p0, seq!['\n'], j) by {
            if occurs_at(p0, seq!['\n'], j) {
                lemma_char_at_occurrence(p0, seq!['\n'], j, 0);
            }
        }
        lemma_find_none(p0, seq!['\n']);
        assert(lines(p0) == seq![p0]);
        assert(seq![p0] =~= ps);
    } else {
        let rest = ps.drop_first();
        assert forall|i: int| 0 <= i < rest.len() implies (#[trigger] rest[i]).len() > 0 && lacks(
            rest[i],
            '\n',
        ) by {
            assert(rest[i] == ps[i + 1]);
        }
        lemma_lines_join(rest);
        let s = join_crlf(ps);
        let a = p0 + seq!['\r'];
        let b = seq!['\n'] + join_crlf(rest);
        assert(s =~= a + b);
        lemma_lacks_concat(p0, seq!['\r'], '\n');
        lemma_find_char_after(a, b, '\n');
        assert(s.take(p0.len() as int + 1) =~= a);
        assert(strip_cr(a) =~= p0);
        assert(s.skip(p0.len() as int + 2) =~= join_crlf(rest));
        assert(lines(s) == seq![p0] + lines(join_crlf(rest)));
        assert(seq![p0] + rest =~= ps);
    }
}

/// The blank line after joined lines is the first blank line of the text.
proof fn lemma_terminator_first(ps: Seq<Seq<char>>, tail: Seq<char>)
    requires
        ps.len() > 0,
        plain_lines(ps),
    ensures
        forall|j: int|
            0 <= j < join_crlf(ps).len() ==> !occurs_at(
                join_crlf(ps) + head_terminator() + tail,
                head_terminator(),
                j,
            ),
    decreases ps.len(),
{
    let t = head_terminator();
    let p0 = ps[0];
    assert(p0.len() > 0 && lacks(p0, '\n'));
    let s = join_crlf(ps) + t + tail;
    lemma_join_prefix(ps, t + tail);
    assert(s =~= join_crlf(ps) + (t + tail));
    if ps.len() == 1 {
        assert forall|j: int| 0 <= j < join_crlf(ps).len() implies !occurs_at(s, t, j) by {
            if occurs_at(s, t, j) {
                lemma_char_at_occurrence(s, t, j, 1);
                if j + 1 < p0.len() {
                    assert(s[j + 1] == p0[j + 1]);
                }
            }
        }
    } else {
        let rest = ps.drop_first();
        assert forall|i: int| 0 <= i < rest.len() implies (#[trigger] rest[i]).len() > 0 && lacks(
            rest[i],
            '\n',
        ) by {
            assert(rest[i] == ps[i + 1]);
        }
        assert(rest[0] == ps[1]);
        lemma_terminator_first(rest, tail);
        let s2 = join_crlf(rest) + t + tail;
        lemma_join_prefix(rest, t + tail);
        assert(s2 =~= join_crlf(rest) + (t + tail));
        let n0 = p0.len() as int;
        assert(s =~= p0 + crlf() + s2);
        assert forall|j: int| 0 <= j < join_crlf(ps).len() implies !occurs_at(s, t, j) by {
            if occurs_at(s, t, j) {
                lemma_char_at_occurrence(s, t, j, 0);
                lemma_char_at_occurrence(s, t, j, 1);
                lemma_char_at_occurrence(s, t, j, 3);
                if j + 1 < n0 {
                    assert(s[j + 1] == p0[j + 1]);
                } else if j + 1 == n0 {
                    assert(s[j + 1] == '\r');
                } else if j == n0 {
                    assert(s[j + 3] == s2[1]);
                    if 1 < rest[0].len() {
                        assert(s2[1] == rest[0][1]);
                    }
                } else if j == n0 + 1 {
                    assert(s[j] == '\n');
                } else {
                    let j2 = j - n0 - 2;
                    assert(s.subrange(j, j + 4) =~= s2.subrange(j2, j2 + 4));
                    assert(occurs_at(s2, t, j2));
                }
            }
        }
    }
}

/// A request line `m p v`, where the method token and the target have no spaces, splits into
/// exactly those three parts.
proof fn lemma_request_line_text(m: Seq<char>, p: Seq<char>, v: Seq<char>)
    requires
        lacks(m, ' '),
        lacks(p, ' '),
    ensures
        request_line_parts(m + seq![' '] + p + seq![' '] + v) == Some((m, p, v)),
{
    let l = m + seq![' '] + p + seq![' '] + v;
    let b = seq![' '] + p + seq![' '] + v;
    assert(l =~= m + b);
    lemma_find_char_after(m, b, ' ');
    let rest = l.skip(m.len() as int + 1);
    assert(rest =~= p + (seq![' '] + v));
    lemma_find_char_after(p, seq![' '] + v, ' ');
    assert(l.take(m.len() as int) =~= m);
    assert(rest.take(p.len() as int) =~= p);
    assert(rest.skip(p.len() as int + 1) =~= v);
}

/// A header line whose name has no colon splits into exactly its name and value.
proof fn lemma_header_line_split(h: (Seq<char>, Seq<char>))
    requires
        lacks(h.0, ':'),
    ensures
        split_once(header_line(h), seq![':', ' ']) == Some((h.0, h.1)),
{
    let s = header_line(h);
    let sep = seq![':', ' '];
    let n = h.0.len() as int;
    assert(s.subrange(n, n + 2) =~= sep);
    assert forall|j: int| 0 <= j < n implies !occurs_at(s, sep, j) by {
        if occurs_at(s, sep, j) {
            lemma_char_at_occurrence(s, sep, j, 0);
            assert(s[j] == h.0[j]);
        }
    }
    lemma_find_from_is(s, sep, 0, n);
    assert(s.take(n) =~= h.0);
    assert(s.skip(n + 2) =~= h.1);
}

/// `h` is `acc` with the header lines `hs` read into it: each name of `hs` bound to the value
/// of its last line, names of `acc` not sent again keeping their values, no other name.
pub open spec fn keeps_headers(
    hs: Seq<(Seq<char>, Seq<char>)>,
    acc: Seq<(Seq<char>, Seq<char>)>,
    h: Seq<(Seq<char>, Seq<char>)>,
) -> bool {
    &&& keys_distinct(h)
    &&& forall|q: Seq<char>|
        #[trigger] headers_map(h).contains_key(q) <==> (headers_map(acc).contains_key(q)
            || exists|i: int| 0 <= i < hs.len() && hs[i].0 == q)
    &&& forall|i: int|
        0 <= i < hs.len() && (forall|j: int| i < j < hs.len() ==> hs[j].0 != hs[i].0)
            ==> headers_map(h)[#[trigger] hs[i].0] == hs[i].1
    &&& forall|q: Seq<char>|
        headers_map(acc).contains_key(q) && (forall|i: int| 0 <= i < hs.len() ==> hs[i].0 != q)
            ==> #[trigger] headers_map(h)[q] == headers_map(acc)[q]
}

proof fn lemma_keeps_headers_step(
    hs: Seq<(Seq<char>, Seq<char>)>,
    acc: Seq<(Seq<char>, Seq<char>)>,
    h: Seq<(Seq<char>, Seq<char>)>,
)
    requires
        hs.len() > 0,
        keys_distinct(acc),
        keeps_headers(hs.drop_first(), insert_entry(acc, hs[0].0, hs[0].1), h),
    ensures
        keeps_headers(hs, acc, h),
{
    let h0 = hs[0];
    let hs1 = hs.drop_first();
    let acc1 = insert_entry(acc, h0.0, h0.1);
    lemma_insert_entry(acc, h0.0, h0.1);
    let m0 = headers_map(acc);
    let mh = headers_map(h);
    assert forall|q: Seq<char>| #[trigger] mh.contains_key(q) <==> (m0.contains_key(q)
        || exists|i: int| 0 <= i < hs.len() && hs[i].0 == q) by {
        if exists|i: int| 0 <= i < hs.len() && hs[i].0 == q {
            let i = choose|i: int| 0 <= i < hs.len() && hs[i].0 == q;
            if i > 0 {
                assert(hs1[i - 1].0 == q);
            }
        }
        if exists|i: int| 0 <= i < hs1.len() && hs1[i].0 == q {
            let i = choose|i: int| 0 <= i < hs1.len() && hs1[i].0 == q;
            assert(hs[i + 1].0 == q);
        }
    }
    assert forall|i: int|
        0 <= i < hs.len() && (forall|j: int| i < j < hs.len() ==> hs[j].0 != hs[i].0)
            implies mh[#[trigger] hs[i].0] == hs[i].1 by {
        if i == 0 {
            assert forall|k: int| 0 <= k < hs1.len() implies hs1[k].0 != h0.0 by {
                assert(hs1[k] == hs[k + 1]);
            }
        } else {
            assert(hs1[i - 1] == hs[i]);
            assert forall|j: int| i - 1 < j < hs1.len() implies (#[trigger] hs1[j]).0 != hs1[i
                - 1].0 by {
                assert(hs1[j] == hs[j + 1]);
            }
        }
    }
    assert forall|q: Seq<char>|
        m0.contains_key(q) && (forall|i: int| 0 <= i < hs.len() ==> hs[i].0 != q) implies #[trigger] mh[q]
        == m0[q] by {
        assert(hs[0].0 != q);
        assert forall|k: int| 0 <= k < hs1.len() implies hs1[k].0 != q by {
            assert(hs1[k] == hs[k + 1]);
        }
    }
}

/// Reading header lines into `acc` keeps every one: each name ends up bound to the value of
/// its last line, names already in `acc` and not sent again keep their values, and no other
/// name appears.
proof fn lemma_fold_header_lines(hs: Seq<(Seq<char>, Seq<char>)>, acc: Seq<(Seq<char>, Seq<char>)>)
    requires
        keys_distinct(acc),
        forall|i: int| 0 <= i < hs.len() ==> lacks(#[trigger] hs[i].0, ':'),
    ensures
        fold_headers(hs.map_values(|h: (Seq<char>, Seq<char>)| header_line(h)), acc) matches Ok(h)
            && keeps_headers(hs, acc, h),
    decreases hs.len(),
{
    let ls = hs.map_values(|h: (Seq<char>, Seq<char>)| header_line(h));
    if hs.len() == 0 {
        assert(fold_headers(ls, acc) == Ok::<Seq<(Seq<char>, Seq<char>)>, ParseErrorView>(acc));
    } else {
        let h0 = hs[0];
        assert(ls[0] == header_line(h0));
        assert(header_line(h0).len() >= 2);
        lemma_header_line_split(h0);
        let acc1 = insert_entry(acc, h0.0, h0.1);
        lemma_insert_entry(acc, h0.0, h0.1);
        let hs1 = hs.drop_first();
        assert forall|i: int| 0 <= i < hs1.len() implies lacks(#[trigger] hs1[i].0, ':') by {
            assert(hs1[i] == hs[i + 1]);
        }
        lemma_fold_header_lines(hs1, acc1);
        assert(ls.drop_first() =~= hs1.map_values(|h: (Seq<char>, Seq<char>)| header_line(h)));
        assert(fold_headers(ls, acc) == fold_headers(ls.drop_first(), acc1));
        let h = fold_headers(ls, acc)->Ok_0;
        lemma_keeps_headers_step(hs, acc, h);
    }
}

/// Parsing the text of a request gives back what it was built from: the method, target and
/// version of its request line; every header line kept, however many there are, each name
/// bound to the value of its last line and no other name present; and the text after the
/// first blank line as the body. The method token and target have no spaces, no part has a
/// line feed, and header names have no colon.
pub proof fn lemma_parse_request_text(
    m: Seq<char>,
    p: Seq<char>,
    v: Seq<char>,
    hs: Seq<(Seq<char>, Seq<char>)>,
    body: Seq<char>,
)
    requires
        lacks(m, ' '),
        lacks(m, '\n'),
        lacks(p, ' '),
        lacks(p, '\n'),
        lacks(v, '\n'),
        forall|i: int|
            0 <= i < hs.len() ==> lacks(#[trigger] hs[i].0, ':') && lacks(hs[i].0, '\n') && lacks(
                hs[i].1,
                '\n',
            ),
    ensures
        parse_request(request_text(m, p, v, hs, body)) matches Ok(r) && r.method == method_from_text(
            m,
        ) && r.path == p && r.version == v && r.body == (if body.len() == 0 {
            None
        } else {
            Some(encode_utf8(body))
        }) && (forall|i: int|
            0 <= i < hs.len() ==> headers_map(r.headers).contains_key(#[trigger] hs[i].0)) && (
        forall|q: Seq<char>|
            #[trigger] headers_map(r.headers).contains_key(q) ==> exists|i: int|
                0 <= i < hs.len() && hs[i].0 == q) && (forall|i: int|
            0 <= i < hs.len() && (forall|j: int| i < j < hs.len() ==> hs[j].0 != hs[i].0)
                ==> headers_map(r.headers)[#[trigger] hs[i].0] == hs[i].1),
{
    let rl = m + seq![' '] + p + seq![' '] + v;
    let hl = hs.map_values(|h: (Seq<char>, Seq<char>)| header_line(h));
    let ps = seq![rl] + hl;
    let raw = request_text(m, p, v, hs, body);
    let t = head_terminator();
    lemma_lacks_concat(m, seq![' '], '\n');
    lemma_lacks_concat(m + seq![' '], p, '\n');
    lemma_lacks_concat(m + seq![' '] + p, seq![' '], '\n');
    lemma_lacks_concat(m + seq![' '] + p + seq![' '], v, '\n');
    assert forall|i: int| 0 <= i < ps.len() implies (#[trigger] ps[i]).len() > 0 && lacks(
        ps[i],
        '\n',
    ) by {
        if i == 0 {
            assert(ps[0] == rl);
        } else {
            let h = hs[i - 1];
            assert(ps[i] == header_line(h));
            lemma_lacks_concat(h.0, seq![':', ' '], '\n');
            lemma_lacks_concat(h.0 + seq![':', ' '], h.1, '\n');
        }
    }
    let head = join_crlf(ps);
    let n = head.len() as int;
    assert(raw == head + t + body);
    lemma_terminator_first(ps, body);
    assert(raw.subrange(n, n + 4) =~= t);
    lemma_find_from_is(raw, t, 0, n);
    assert(raw.take(n) =~= head);
    assert(raw.skip(n + 4) =~= body);
    assert(head_and_body(raw) == (head, body));
    lemma_lines_join(ps);
    assert(lines(head) == ps);
    assert(ps[0] == rl);
    assert(ps.drop_first() =~= hl);
    lemma_request_line_text(m, p, v);
    assert forall|i: int| 0 <= i < hs.len() implies lacks(#[trigger] hs[i].0, ':') by {}
    lemma_fold_header_lines(hs, Seq::empty());
    let empty: Seq<(Seq<char>, Seq<char>)> = Seq::empty();
    assert(headers_map(empty) =~= Map::<Seq<char>, Seq<char>>::empty());
}

} // verus!
