//! Requests: the method enumeration, the status line, and framing of a raw
//! request text into a `Request`.
use vstd::prelude::*;
use crate::text_map::TextMap;
use crate::text::{split_on, char_views, chars_of, split_chars, text_of};

verus! {

/// A parsed request; `params` is filled in by the router at dispatch.
pub struct Request {
    pub status_line: StatusLine,
    pub headers: TextMap,
    pub body: String,
    pub params: TextMap,
}

/// The three tokens of a request's first line.
pub struct StatusLine {
    pub method: String,
    pub path: String,
    pub http_version: String,
}

#[derive(Debug, Clone, Copy, PartialEq, Eq, Hash, Structural)]
pub enum Method {
    GET,
    POST,
    PUT,
    DELETE,
    OPTIONS,
    TRACE,
    HEAD,
    PATCH,
    CONNECT,
}

/// The token that names `m` on the wire.
pub open spec fn method_name(m: Method) -> Seq<char> {
    match m {
        Method::GET => "GET"@,
        Method::POST => "POST"@,
        Method::PUT => "PUT"@,
        Method::DELETE => "DELETE"@,
        Method::OPTIONS => "OPTIONS"@,
        Method::TRACE => "TRACE"@,
        Method::HEAD => "HEAD"@,
        Method::PATCH => "PATCH"@,
        Method::CONNECT => "CONNECT"@,
    }
}

/// The method whose token is exactly `s`, if any.
pub open spec fn method_named(s: Seq<char>) -> Option<Method> {
    if s == "GET"@ {
        Some(Method::GET)
    } else if s == "POST"@ {
        Some(Method::POST)
    } else if s == "PUT"@ {
        Some(Method::PUT)
    } else if s == "DELETE"@ {
        Some(Method::DELETE)
    } else if s == "OPTIONS"@ {
        Some(Method::OPTIONS)
    } else if s == "TRACE"@ {
        Some(Method::TRACE)
    } else if s == "HEAD"@ {
        Some(Method::HEAD)
    } else if s == "PATCH"@ {
        Some(Method::PATCH)
    } else if s == "CONNECT"@ {
        Some(Method::CONNECT)
    } else {
        None
    }
}

impl Method {
    /// The token that names this method on the wire.
    pub fn name(&self) -> (r: &'static str)
        ensures
            r@ == method_name(*self),
    {
        match self {
            Method::GET => "GET",
            Method::POST => "POST",
            Method::PUT => "PUT",
            Method::DELETE => "DELETE",
            Method::OPTIONS => "OPTIONS",
            Method::TRACE => "TRACE",
            Method::HEAD => "HEAD",
            Method::PATCH => "PATCH",
            Method::CONNECT => "CONNECT",
        }
    }

    /// The method whose token is exactly `s` (case matters).
    pub fn from_name(s: &str) -> (r: Option<Method>)
        ensures
            r == method_named(s@),
    {
        if crate::text::text_eq(s, "GET") {
            Some(Method::GET)
        } else if crate::text::text_eq(s, "POST") {
            Some(Method::POST)
        } else if crate::text::text_eq(s, "PUT") {
            Some(Method::PUT)
        } else if crate::text::text_eq(s, "DELETE") {
            Some(Method::DELETE)
        } else if crate::text::text_eq(s, "OPTIONS") {
            Some(Method::OPTIONS)
        } else if crate::text::text_eq(s, "TRACE") {
            Some(Method::TRACE)
        } else if crate::text::text_eq(s, "HEAD") {
            Some(Method::HEAD)
        } else if crate::text::text_eq(s, "PATCH") {
            Some(Method::PATCH)
        } else if crate::text::text_eq(s, "CONNECT") {
            Some(Method::CONNECT)
        } else {
            None
        }
    }
}

/// `s` without its carriage returns.
pub open spec fn drop_cr(s: Seq<char>) -> Seq<char>
    decreases s.len(),
{
    if s.len() == 0 {
        s
    } else if s.last() == '\r' {
        drop_cr(s.drop_last())
    } else {
        drop_cr(s.drop_last()).push(s.last())
    }
}

/// The lines of a request text, carriage returns removed.
pub open spec fn request_lines(text: Seq<char>) -> Seq<Seq<char>> {
    split_on(drop_cr(text), '\n')
}

/// The `i`-th space-separated token of `line`, or empty if there is none.
pub open spec fn status_token(line: Seq<char>, i: int) -> Seq<char> {
    let tokens = split_on(line, ' ');
    if i < tokens.len() {
        tokens[i]
    } else {
        Seq::empty()
    }
}

/// The lines between the status line and the blank line before the body.
pub open spec fn header_lines(lines: Seq<Seq<char>>) -> Seq<Seq<char>> {
    if lines.len() >= 3 {
        lines.subrange(1, lines.len() - 2)
    } else {
        Seq::empty()
    }
}

/// `": "` starts at index `i` of `line`.
pub open spec fn separator_at(line: Seq<char>, i: int) -> bool {
    0 <= i && i + 1 < line.len() && line[i] == ':' && line[i + 1] == ' '
}

pub open spec fn first_separator(line: Seq<char>, i: int) -> bool {
    separator_at(line, i) && forall|j: int| 0 <= j < i ==> !separator_at(line, j)
}

/// A header line split at its first `": "`: the key before it and the
/// value after it. A line without one is not a header.
pub open spec fn header_split(line: Seq<char>) -> Option<(Seq<char>, Seq<char>)> {
    if exists|i: int| first_separator(line, i) {
        let i = choose|i: int| first_separator(line, i);
        Some((line.take(i), line.skip(i + 2)))
    } else {
        None
    }
}

/// The header map of `lines`, a later line overwriting an earlier key.
pub open spec fn headers_of(lines: Seq<Seq<char>>) -> Map<Seq<char>, Seq<char>>
    decreases lines.len(),
{
    if lines.len() == 0 {
        Map::empty()
    } else {
        let m = headers_of(lines.drop_last());
        match header_split(lines.last()) {
            Some(kv) => m.insert(kv.0, kv.1),
            None => m,
        }
    }
}

/// The body: the last line, when there is more than one line.
pub open spec fn request_body(lines: Seq<Seq<char>>) -> Seq<char> {
    if lines.len() >= 2 {
        lines.last()
    } else {
        Seq::empty()
    }
}

/// `st` holds the three tokens of `line`.
pub open spec fn status_of(line: Seq<char>, st: StatusLine) -> bool {
    &&& st.method@ == status_token(line, 0)
    &&& st.path@ == status_token(line, 1)
    &&& st.http_version@ == status_token(line, 2)
}

/// `r` is the request that the text `text` frames, with no parameters yet.
pub open spec fn parses_to(text: Seq<char>, r: Request) -> bool {
    let lines = request_lines(text);
    &&& status_of(lines[0], r.status_line)
    &&& r.headers@ == headers_of(header_lines(lines))
    &&& r.body@ == request_body(lines)
    &&& r.params@ == Map::<Seq<char>, Seq<char>>::empty()
}

/// The position of the first `": "` of `line`.
fn find_separator(line: &Vec<char>) -> (r: Option<usize>)
    ensures
        r matches Some(i) ==> i + 2 <= line@.len() && header_split(line@) == Some(
            (line@.take(i as int), line@.skip(i + 2)),
        ),
        r is None ==> header_split(line@) is None,
{
    let mut i: usize = 0;
    while i < line.len()
        invariant
            i <= line@.len(),
            forall|j: int| 0 <= j < i ==> !separator_at(line@, j),
        decreases line.len() - i,
    {
        if i + 1 < line.len() && line[i] == ':' && line[i + 1] == ' ' {
            assert(first_separator(line@, i as int));
            let ghost c = choose|c: int| first_separator(line@, c);
            assert(c == i) by {
                if c < i {
                    assert(!separator_at(line@, c));
                } else if c > i {
                    assert(!separator_at(line@, i as int));
                }
            }
            return Some(i);
        }
        i += 1;
    }
    assert forall|j: int| !first_separator(line@, j) by {
        if first_separator(line@, j) && j >= i {
            assert(j + 1 < line@.len());
        }
    }
    None
}

impl StatusLine {
    /// Splits a status line on spaces into method, path and version; a
    /// missing token is empty.
    pub fn new(status_line: String) -> (r: StatusLine)
        ensures
            status_of(status_line@, r),
    {
        let cs = chars_of(status_line.as_str());
        let tokens = split_chars(&cs, ' ');
        proof {
            crate::text::lemma_split_on_len(cs@, ' ');
        }
        let ghost views = char_views(tokens@);
        let method = text_of(&tokens[0], 0, tokens[0].len());
        assert(views[0] =~= method@);
        let path = if tokens.len() > 1 {
            let p = text_of(&tokens[1], 0, tokens[1].len());
            assert(views[1] =~= p@);
            p
        } else {
            String::new()
        };
        let http_version = if tokens.len() > 2 {
            let v = text_of(&tokens[2], 0, tokens[2].len());
            assert(views[2] =~= v@);
            v
        } else {
            String::new()
        };
        StatusLine { method, path, http_version }
    }
}

impl Request {
    /// Frames a raw request text: carriage returns are dropped, the first
    /// line is the status line, the last line is the body, and the lines in
    /// between but the blank one before the body are headers.
    pub fn from_string(buffer: String) -> (r: Self)
        ensures
            parses_to(buffer@, r),
    {
        let cs = chars_of(buffer.as_str());
        let mut text: Vec<char> = Vec::new();
        let mut i: usize = 0;
        while i < cs.len()
            invariant
                i <= cs@.len(),
                text@ == drop_cr(cs@.take(i as int)),
            decreases cs.len() - i,
        {
            assert(cs@.take(i + 1).drop_last() =~= cs@.take(i as int));
            if cs[i] != '\r' {
                text.push(cs[i]);
            }
            i += 1;
        }
        assert(cs@.take(cs@.len() as int) =~= cs@);
        let lines = split_chars(&text, '\n');
        let ghost views = char_views(lines@);
        proof {
            crate::text::lemma_split_on_len(text@, '\n');
        }
        let n = lines.len();
        let first = text_of(&lines[0], 0, lines[0].len());
        assert(views[0] =~= first@);
        let status_line = StatusLine::new(first);
        let mut headers = TextMap::new();
        if n >= 3 {
            let ghost hl = header_lines(views);
            let mut k: usize = 1;
            while k < n - 2
                invariant
                    n == lines@.len(),
                    n >= 3,
                    1 <= k <= n - 2,
                    views == char_views(lines@),
                    hl == views.subrange(1, n - 2),
                    headers@ == headers_of(hl.take(k - 1)),
                decreases n - 2 - k,
            {
                assert(hl.take(k as int).drop_last() =~= hl.take(k - 1));
                assert(hl.take(k as int).last() == views[k as int]);
                let line = &lines[k];
                match find_separator(line) {
                    Some(j) => {
                        let len = line.len();
                        assert(j + 2 <= len);
                        let key = text_of(line, 0, j);
                        let value = text_of(line, j + 2, len);
                        assert(key@ =~= line@.take(j as int));
                        assert(value@ =~= line@.skip(j + 2));
                        headers.insert(key, value);
                    },
                    None => {},
                }
                k += 1;
            }
            assert(hl.take(n - 3) =~= hl);
        } else {
            assert(header_lines(views) =~= Seq::<Seq<char>>::empty());
        }
        let body = if n >= 2 {
            let b = text_of(&lines[n - 1], 0, lines[n - 1].len());
            assert(views.last() =~= b@);
            b
        } else {
            String::new()
        };
        Request { status_line, headers, body, params: TextMap::new() }
    }
}

} // verus!
