//! The gateway's wire-facing data: a parsed request, a response under
//! construction, the router's error type, and the gateway's defaults.
//! Reading from and writing to sockets happens at the program's edge;
//! here the data and the status phrase table are pinned down.

use vstd::prelude::*;
use crate::binfmt::push_char;

verus! {

/// A parsed request: method, path, headers, body bytes.
pub struct Request {
    pub method: String,
    pub path: String,
    pub headers: Vec<(String, String)>,
    pub body: Vec<u8>,
}

/// A response under construction: status code, headers, body bytes.
#[derive(Debug)]
pub struct Response {
    pub status: u16,
    pub headers: Vec<(String, String)>,
    pub body: Vec<u8>,
}

impl Response {
    /// A fresh `200` response with a plain-text content type.
    pub fn new() -> (r: Response)
        ensures
            r.status == 200,
            r.headers@.len() == 1,
            r.headers@[0].0@ == "Content-Type"@,
            r.headers@[0].1@ == "text/plain"@,
            r.body@ == Seq::<u8>::empty(),
    {
        let mut headers: Vec<(String, String)> = Vec::new();
        headers.push(("Content-Type".to_owned(), "text/plain".to_owned()));
        Response { status: 200, headers, body: Vec::new() }
    }

    /// The phrase of the status line: `200`, `404` and `500` carry their
    /// standard phrases; every other code reads `Unknown`.
    pub fn status_message(&self) -> (r: &'static str)
        ensures
            self.status == 200 ==> r@ == "OK"@,
            self.status == 404 ==> r@ == "Not Found"@,
            self.status == 500 ==> r@ == "Internal Server Error"@,
            self.status != 200 && self.status != 404 && self.status != 500
                ==> r@ == "Unknown"@,
    {
        if self.status == 200 {
            "OK"
        } else if self.status == 404 {
            "Not Found"
        } else if self.status == 500 {
            "Internal Server Error"
        } else {
            "Unknown"
        }
    }
}

/// What can go wrong in the router: an I/O failure at the edge, or a
/// handler's own failure. I/O details arrive as plain text.
#[derive(Debug)]
pub enum RouterError {
    Io(String),
    New(String),
}

impl RouterError {
    /// A readable rendering, one line.
    pub fn message(&self) -> (r: String)
        ensures
            match self {
                RouterError::Io(m) => r@ == "IO error: "@ + m@,
                RouterError::New(m) => r@ == "Graph error: "@ + m@,
            },
    {
        match self {
            RouterError::Io(m) => {
                let mut s: String = "IO error: ".to_owned();
                s.append(m.as_str());
                s
            },
            RouterError::New(m) => {
                let mut s: String = "Graph error: ".to_owned();
                s.append(m.as_str());
                s
            },
        }
    }
}

// ---- the head of a request, as the wire protocol fixes it ----

/// Position after the run of blanks at `pos`.
pub open spec fn spec_ws_end(s: Seq<char>, pos: int) -> int
    decreases s.len() - pos,
{
    if 0 <= pos < s.len() && s[pos] == ' ' {
        spec_ws_end(s, pos + 1)
    } else {
        pos
    }
}

/// Position after the run of word characters at `pos`: anything but a
/// blank or a line break.
pub open spec fn spec_word_end(s: Seq<char>, pos: int) -> int
    decreases s.len() - pos,
{
    if 0 <= pos < s.len() && s[pos] != ' ' && s[pos] != '\r' && s[pos] != '\n' {
        spec_word_end(s, pos + 1)
    } else {
        pos
    }
}

/// The next blank-separated word on the line at `pos`, and the position
/// after it; `None` at a line break or the end.
pub open spec fn spec_word(s: Seq<char>, pos: int) -> Option<(Seq<char>, int)> {
    let b = spec_ws_end(s, pos);
    if 0 <= b < s.len() && s[b] != '\r' && s[b] != '\n' {
        Some((s.subrange(b, spec_word_end(s, b)), spec_word_end(s, b)))
    } else {
        None
    }
}

/// Position of the line's end at `pos`: the first line-break character.
pub open spec fn spec_eol(s: Seq<char>, pos: int) -> int
    decreases s.len() - pos,
{
    if 0 <= pos < s.len() && s[pos] != '\r' && s[pos] != '\n' {
        spec_eol(s, pos + 1)
    } else {
        pos
    }
}

/// Position after the line at `pos`: past its end and one `\r\n`,
/// `\r` or `\n`.
pub open spec fn spec_next_line(s: Seq<char>, pos: int) -> int {
    let e = spec_eol(s, pos);
    let e2 = if e < s.len() && s[e] == '\r' {
        e + 1
    } else {
        e
    };
    if e2 < s.len() && s[e2] == '\n' {
        e2 + 1
    } else {
        e2
    }
}

/// Position just after the first line's method and path words.
pub open spec fn spec_request_line_end(s: Seq<char>) -> int {
    match spec_word(s, 0) {
        Some((m, p1)) => match spec_word(s, p1) {
            Some((w, p2)) => p2,
            None => p1,
        },
        None => 0,
    }
}

/// The request's method: the first word of line one, `GET` when absent.
pub open spec fn spec_method(s: Seq<char>) -> Seq<char> {
    match spec_word(s, 0) {
        Some((m, p1)) => m,
        None => "GET"@,
    }
}

/// The request's path: the second word of line one, `/` when absent.
pub open spec fn spec_path(s: Seq<char>) -> Seq<char> {
    match spec_word(s, 0) {
        Some((m, p1)) => match spec_word(s, p1) {
            Some((w, p2)) => w,
            None => "/"@,
        },
        None => "/"@,
    }
}

/// One `Key: Value` line split at its first colon, with one optional
/// blank after the colon dropped; `None` without a colon.
pub open spec fn spec_header_of_line(line: Seq<char>) -> Option<(Seq<char>, Seq<char>)> {
    let c = spec_colon_at(line, 0);
    if c < line.len() {
        let vstart = if c + 1 < line.len() && line[c + 1] == ' ' {
            c + 2
        } else {
            c + 1
        };
        Some((line.subrange(0, c), line.subrange(vstart, line.len() as int)))
    } else {
        None
    }
}

/// Position of the first colon at or after `pos`.
pub open spec fn spec_colon_at(s: Seq<char>, pos: int) -> int
    decreases s.len() - pos,
{
    if 0 <= pos < s.len() && s[pos] != ':' {
        spec_colon_at(s, pos + 1)
    } else {
        pos
    }
}

/// The header pairs of the lines from `pos` to the first empty line or
/// the end; a line without a colon contributes nothing.
pub open spec fn spec_headers(s: Seq<char>, pos: int) -> Seq<(Seq<char>, Seq<char>)>
    decreases s.len() - pos,
{
    if 0 <= pos < s.len() {
        let line = s.subrange(pos, spec_eol(s, pos));
        let nxt = spec_next_line(s, pos);
        if line.len() == 0 {
            Seq::empty()
        } else if !(pos < nxt <= s.len()) {
            Seq::empty()
        } else {
            match spec_header_of_line(line) {
                Some(kv) => seq![kv] + spec_headers(s, nxt),
                None => spec_headers(s, nxt),
            }
        }
    } else {
        Seq::empty()
    }
}

/// The header pairs a request carries, as character sequences.
pub open spec fn headers_view(hs: Seq<(String, String)>) -> Seq<(Seq<char>, Seq<char>)> {
    Seq::new(hs.len(), |i: int| (hs[i].0@, hs[i].1@))
}

/// The sequence holds only decimal digits.
pub open spec fn all_digits(s: Seq<char>) -> bool {
    forall|i: int| 0 <= i < s.len() ==> '0' <= #[trigger] s[i] && s[i] <= '9'
}

/// The number a run of decimal digits spells.
pub open spec fn digits_value(s: Seq<char>) -> int
    decreases s.len(),
{
    if s.len() == 0 {
        0
    } else {
        digits_value(s.drop_last()) * 10 + (s.last() as int - '0' as int)
    }
}

/// The digit run is nonempty and spells exactly `n`.
pub open spec fn spells_decimal(v: Seq<char>, n: int) -> bool {
    v.len() > 0 && all_digits(v) && digits_value(v) == n
}

impl Request {
    /// Parses the buffered head of a request: the first line gives the
    /// method and the path (`GET` and `/` when absent), every following
    /// `Key: Value` line up to the first empty line gives a header. The
    /// body stays empty; the caller reads it per `Content-Length`.
    pub fn parse_head(head: &str) -> (r: Request)
        ensures
            r.method@ == spec_method(head@),
            r.path@ == spec_path(head@),
            headers_view(r.headers@)
                == spec_headers(head@, spec_next_line(head@, spec_request_line_end(head@))),
            r.body@.len() == 0,
    {
        let cs = line_chars(head);
        let n = cs.len();
        let mut pos: usize = 0;
        let method = match next_word(&cs, pos) {
            Some((w, p)) => {
                pos = p;
                w
            },
            None => "GET".to_owned(),
        };
        let path = match next_word(&cs, pos) {
            Some((w, p)) => {
                pos = p;
                w
            },
            None => "/".to_owned(),
        };
        proof {
            assert(pos as int == spec_request_line_end(head@));
        }
        pos = skip_line(&cs, pos);
        let ghost hstart = pos as int;
        let mut headers: Vec<(String, String)> = Vec::new();
        while pos < n
            invariant_except_break
                spec_headers(cs@, hstart)
                    == headers_view(headers@) + spec_headers(cs@, pos as int),
            invariant
                cs@ == head@,
                pos <= cs@.len(),
                n == cs@.len(),
            ensures
                headers_view(headers@) == spec_headers(cs@, hstart),
            decreases cs@.len() - pos,
        {
            let ghost pos0 = pos as int;
            let (line, p) = take_line(&cs, pos);
            pos = p;
            if line.as_str().unicode_len() == 0 {
                proof {
                    assert(spec_headers(cs@, pos0) =~= Seq::<(Seq<char>, Seq<char>)>::empty());
                    assert(headers_view(headers@) + spec_headers(cs@, pos0)
                        =~= headers_view(headers@));
                }
                break;
            }
            let ghost hpre = headers@;
            match split_header(line.as_str()) {
                Some(pair) => {
                    headers.push(pair);
                    proof {
                        assert(headers_view(headers@)
                            =~= headers_view(hpre).push((pair.0@, pair.1@)));
                        assert(headers_view(hpre) + (seq![(pair.0@, pair.1@)]
                            + spec_headers(cs@, pos as int))
                            =~= headers_view(headers@) + spec_headers(cs@, pos as int));
                    }
                },
                None => {
                },
            }
        }
        Request { method, path, headers, body: Vec::new() }
    }

    /// The value of the first header under the key, if one was sent.
    pub fn header_value<'a>(&'a self, key: &str) -> (r: Option<&'a String>)
        ensures
            match r {
                Some(v) => exists|i: int| {
                    &&& 0 <= i < self.headers@.len()
                    &&& (#[trigger] self.headers@[i]).0@ == key@
                    &&& self.headers@[i].1 == v
                    &&& forall|j: int| 0 <= j < i ==> (#[trigger] self.headers@[j]).0@ != key@
                },
                None => forall|i: int| 0 <= i < self.headers@.len()
                    ==> (#[trigger] self.headers@[i]).0@ != key@,
            },
    {
        let n = self.headers.len();
        let mut i: usize = 0;
        while i < n
            invariant
                i <= n,
                n == self.headers@.len(),
                forall|j: int| 0 <= j < i ==> (#[trigger] self.headers@[j]).0@ != key@,
            decreases n - i,
        {
            if crate::value::str_eq(self.headers[i].0.as_str(), key) {
                return Some(&self.headers[i].1);
            }
            i = i + 1;
        }
        None
    }

    /// The announced body length: the first `Content-Length` header read
    /// as a decimal number, `None` when absent or malformed or too
    /// large to hold.
    pub fn content_length(&self) -> (r: Option<usize>)
        ensures
            match r {
                Some(nv) => exists|i: int| {
                    &&& 0 <= i < self.headers@.len()
                    &&& (#[trigger] self.headers@[i]).0@ == "Content-Length"@
                    &&& forall|j: int| 0 <= j < i
                        ==> (#[trigger] self.headers@[j]).0@ != "Content-Length"@
                    &&& spells_decimal(self.headers@[i].1@, nv as int)
                },
                None => (forall|i: int| 0 <= i < self.headers@.len()
                    ==> (#[trigger] self.headers@[i]).0@ != "Content-Length"@)
                    || exists|i: int| {
                        &&& 0 <= i < self.headers@.len()
                        &&& (#[trigger] self.headers@[i]).0@ == "Content-Length"@
                        &&& forall|j: int| 0 <= j < i
                            ==> (#[trigger] self.headers@[j]).0@ != "Content-Length"@
                        &&& !(exists|nv: int| 0 <= nv <= usize::MAX
                            && spells_decimal(self.headers@[i].1@, nv))
                    },
            },
    {
        let v = match self.header_value("Content-Length") {
            Some(v) => v,
            None => {
                return None;
            },
        };
        parse_decimal(v.as_str())
    }
}

/// The characters of one string.
fn line_chars(s: &str) -> (r: Vec<char>)
    ensures
        r@ == s@,
{
    let n = s.unicode_len();
    let mut out: Vec<char> = Vec::new();
    let mut i: usize = 0;
    while i < n
        invariant
            i <= n,
            n == s@.len(),
            out@ == s@.take(i as int),
        decreases n - i,
    {
        out.push(s.get_char(i));
        proof {
            assert(out@ =~= s@.take(i + 1));
        }
        i = i + 1;
    }
    proof {
        assert(s@.take(n as int) =~= s@);
    }
    out
}

/// Reads the next blank-separated word on the first line.
fn next_word(cs: &Vec<char>, pos: usize) -> (r: Option<(String, usize)>)
    requires
        pos <= cs@.len(),
    ensures
        match r {
            Some(t) => spec_word(cs@, pos as int) == Some((t.0@, t.1 as int))
                && pos < t.1 <= cs@.len(),
            None => spec_word(cs@, pos as int) is None,
        },
{
    let n = cs.len();
    let mut p = pos;
    while p < n && cs[p] == ' '
        invariant
            pos <= p <= n,
            n == cs@.len(),
            spec_ws_end(cs@, pos as int) == spec_ws_end(cs@, p as int),
        decreases n - p,
    {
        p = p + 1;
    }
    proof {
        assert(spec_ws_end(cs@, p as int) == p as int);
    }
    if p >= n || cs[p] == '\r' || cs[p] == '\n' {
        return None;
    }
    let mut w = String::new();
    let start = p;
    while p < n && cs[p] != ' ' && cs[p] != '\r' && cs[p] != '\n'
        invariant
            start <= p <= n,
            n == cs@.len(),
            w@ == cs@.subrange(start as int, p as int),
            spec_word_end(cs@, start as int) == spec_word_end(cs@, p as int),
        decreases n - p,
    {
        push_char(&mut w, cs[p]);
        proof {
            assert(w@ =~= cs@.subrange(start as int, p + 1));
        }
        p = p + 1;
    }
    proof {
        assert(spec_word_end(cs@, p as int) == p as int);
        assert(p > start);
    }
    Some((w, p))
}

/// Skips to just after the current line's break.
fn skip_line(cs: &Vec<char>, pos: usize) -> (p: usize)
    requires
        pos <= cs@.len(),
    ensures
        pos <= p <= cs@.len(),
        p as int == spec_next_line(cs@, pos as int),
{
    let n = cs.len();
    let mut p = pos;
    while p < n && cs[p] != '\r' && cs[p] != '\n'
        invariant
            pos <= p <= n,
            n == cs@.len(),
            spec_eol(cs@, pos as int) == spec_eol(cs@, p as int),
        decreases n - p,
    {
        p = p + 1;
    }
    proof {
        assert(spec_eol(cs@, p as int) == p as int);
    }
    if p < n && cs[p] == '\r' {
        p = p + 1;
    }
    if p < n && cs[p] == '\n' {
        p = p + 1;
    }
    p
}

/// Reads one line without its break, and the position after the break.
fn take_line(cs: &Vec<char>, pos: usize) -> (r: (String, usize))
    requires
        pos < cs@.len(),
    ensures
        r.0@ == cs@.subrange(pos as int, spec_eol(cs@, pos as int)),
        r.1 as int == spec_next_line(cs@, pos as int),
        pos < r.1 <= cs@.len(),
{
    let n = cs.len();
    let mut p = pos;
    let mut line = String::new();
    while p < n && cs[p] != '\n' && cs[p] != '\r'
        invariant
            pos <= p <= n,
            n == cs@.len(),
            line@ == cs@.subrange(pos as int, p as int),
            spec_eol(cs@, pos as int) == spec_eol(cs@, p as int),
        decreases n - p,
    {
        push_char(&mut line, cs[p]);
        proof {
            assert(line@ =~= cs@.subrange(pos as int, p + 1));
        }
        p = p + 1;
    }
    proof {
        assert(spec_eol(cs@, p as int) == p as int);
    }
    if p < n && cs[p] == '\r' {
        p = p + 1;
    }
    if p < n && cs[p] == '\n' {
        p = p + 1;
    }
    (line, p)
}

/// Splits one `Key: Value` header line at the first colon, dropping one
/// optional blank after it.
fn split_header(line: &str) -> (r: Option<(String, String)>)
    ensures
        match r {
            Some(t) => spec_header_of_line(line@) == Some((t.0@, t.1@)),
            None => spec_header_of_line(line@) is None,
        },
{
    let cs = line_chars(line);
    let n = cs.len();
    let mut i: usize = 0;
    let mut key = String::new();
    while i < n && cs[i] != ':'
        invariant
            i <= n,
            n == cs@.len(),
            cs@ == line@,
            key@ == cs@.subrange(0, i as int),
            spec_colon_at(cs@, 0) == spec_colon_at(cs@, i as int),
        decreases n - i,
    {
        push_char(&mut key, cs[i]);
        proof {
            assert(key@ =~= cs@.subrange(0, i + 1));
        }
        i = i + 1;
    }
    proof {
        assert(spec_colon_at(cs@, i as int) == i as int);
    }
    if i >= n {
        return None;
    }
    i = i + 1;
    if i < n && cs[i] == ' ' {
        i = i + 1;
    }
    let ghost vstart = i as int;
    let mut value = String::new();
    while i < n
        invariant
            0 <= vstart,
            vstart <= i as int <= n as int,
            n == cs@.len(),
            cs@ == line@,
            value@ == cs@.subrange(vstart, i as int),
        decreases n - i,
    {
        push_char(&mut value, cs[i]);
        proof {
            assert(value@ =~= cs@.subrange(vstart, i + 1));
        }
        i = i + 1;
    }
    Some((key, value))
}

/// Appending one more digit keeps the spelled value at least as large.
proof fn lemma_digits_monotone(s: Seq<char>, k: int)
    requires
        all_digits(s),
        0 <= k <= s.len(),
    ensures
        digits_value(s) >= digits_value(s.take(k)),
        digits_value(s) >= 0,
    decreases s.len(),
{
    if s.len() == 0 {
        assert(s.take(k) =~= s);
    } else {
        assert(forall|i: int| 0 <= i < s.drop_last().len()
            ==> s.drop_last()[i] == s[i]);
        lemma_digits_monotone(s.drop_last(), if k > s.len() - 1 { s.len() - 1 } else { k });
        if k == s.len() {
            assert(s.take(k) =~= s);
        } else {
            assert(s.drop_last().take(k) =~= s.take(k));
        }
    }
}

/// Reads a nonempty all-digit string as a decimal number; `None` on any
/// other character, and on a value past the platform's word.
fn parse_decimal(s: &str) -> (r: Option<usize>)
    ensures
        match r {
            Some(nv) => spells_decimal(s@, nv as int),
            None => !(exists|nv: int| 0 <= nv <= usize::MAX && spells_decimal(s@, nv)),
        },
{
    let cs = line_chars(s);
    let n = cs.len();
    if n == 0 {
        return None;
    }
    let mut acc: usize = 0;
    let mut i: usize = 0;
    while i < n
        invariant
            i <= n,
            n == cs@.len(),
            cs@ == s@,
            all_digits(cs@.take(i as int)),
            acc as int == digits_value(cs@.take(i as int)),
        decreases n - i,
    {
        let c = cs[i];
        if !('0' <= c && c <= '9') {
            proof {
                assert(!all_digits(s@));
            }
            return None;
        }
        let d = ((c as u32) - ('0' as u32)) as usize;
        proof {
            assert(cs@.take(i + 1).drop_last() =~= cs@.take(i as int));
            assert(cs@.take(i + 1).last() == cs@[i as int]);
            assert(all_digits(cs@.take(i + 1)));
        }
        if acc > usize::MAX / 10 || (acc == usize::MAX / 10 && d > usize::MAX % 10) {
            proof {
                assert(usize::MAX as int == 10 * ((usize::MAX / 10) as int)
                    + ((usize::MAX % 10) as int)) by {
                    vstd::arithmetic::div_mod::lemma_fundamental_div_mod(
                        usize::MAX as int, 10);
                }
                assert(digits_value(cs@.take(i + 1)) > usize::MAX as int);
                if all_digits(s@) {
                    lemma_digits_monotone(s@, i + 1);
                }
            }
            return None;
        }
        proof {
            assert(usize::MAX as int == 10 * ((usize::MAX / 10) as int)
                + ((usize::MAX % 10) as int)) by {
                vstd::arithmetic::div_mod::lemma_fundamental_div_mod(usize::MAX as int, 10);
            }
            assert(acc as int * 10 + d as int <= usize::MAX as int);
        }
        acc = acc * 10 + d;
        i = i + 1;
    }
    proof {
        assert(cs@.take(n as int) =~= s@);
    }
    Some(acc)
}

// ---- the response head, as the wire protocol fixes it ----

/// The character of one decimal digit.
pub open spec fn digit_ch(d: int) -> char {
    if d == 0 {
        '0'
    } else if d == 1 {
        '1'
    } else if d == 2 {
        '2'
    } else if d == 3 {
        '3'
    } else if d == 4 {
        '4'
    } else if d == 5 {
        '5'
    } else if d == 6 {
        '6'
    } else if d == 7 {
        '7'
    } else if d == 8 {
        '8'
    } else {
        '9'
    }
}

/// The decimal rendering of a nonnegative number.
pub open spec fn dec_chars(n: int) -> Seq<char>
    decreases n,
{
    if n < 10 {
        seq![digit_ch(n)]
    } else {
        dec_chars(n / 10).push(digit_ch(n % 10))
    }
}

/// The status phrase of the §6 table: three codes by name, the rest
/// `Unknown`.
pub open spec fn phrase_chars(status: u16) -> Seq<char> {
    if status == 200 {
        "OK"@
    } else if status == 404 {
        "Not Found"@
    } else if status == 500 {
        "Internal Server Error"@
    } else {
        "Unknown"@
    }
}

/// One `Key: Value` line per header, each ended by the line break.
pub open spec fn header_lines_chars(hs: Seq<(Seq<char>, Seq<char>)>) -> Seq<char>
    decreases hs.len(),
{
    if hs.len() == 0 {
        Seq::empty()
    } else {
        header_lines_chars(hs.drop_last()) + hs.last().0 + ": "@ + hs.last().1 + "\r\n"@
    }
}

/// The whole response head: status line, the headers, the content
/// length, and the blank line before the body.
pub open spec fn response_head_chars(status: u16, hs: Seq<(Seq<char>, Seq<char>)>, body_len: int) -> Seq<char> {
    "HTTP/1.1 "@ + dec_chars(status as int) + " "@ + phrase_chars(status) + "\r\n"@
        + header_lines_chars(hs)
        + "Content-Length: "@ + dec_chars(body_len) + "\r\n"@ + "\r\n"@
}

/// One decimal digit as its character.
fn digit_char_of(d: usize) -> (r: char)
    requires
        d < 10,
    ensures
        r == digit_ch(d as int),
{
    if d == 0 {
        '0'
    } else if d == 1 {
        '1'
    } else if d == 2 {
        '2'
    } else if d == 3 {
        '3'
    } else if d == 4 {
        '4'
    } else if d == 5 {
        '5'
    } else if d == 6 {
        '6'
    } else if d == 7 {
        '7'
    } else if d == 8 {
        '8'
    } else {
        '9'
    }
}

/// The decimal rendering of a number.
pub fn dec_string(n: usize) -> (r: String)
    ensures
        r@ == dec_chars(n as int),
    decreases n,
{
    if n < 10 {
        let mut s = String::new();
        push_char(&mut s, digit_char_of(n));
        proof {
            assert(s@ =~= dec_chars(n as int));
        }
        s
    } else {
        let mut s = dec_string(n / 10);
        push_char(&mut s, digit_char_of(n % 10));
        s
    }
}

impl Response {
    /// The response head's text, byte for byte what the wire carries
    /// before the body.
    pub fn head_text(&self) -> (r: String)
        ensures
            r@ == response_head_chars(
                self.status,
                headers_view(self.headers@),
                self.body@.len() as int,
            ),
    {
        let mut s: String = "HTTP/1.1 ".to_owned();
        s.append(dec_string(self.status as usize).as_str());
        s.append(" ");
        s.append(self.status_message());
        s.append("\r\n");
        let ghost hv = headers_view(self.headers@);
        proof {
            assert(s@ =~= "HTTP/1.1 "@ + dec_chars(self.status as int) + " "@
                + phrase_chars(self.status) + "\r\n"@
                + header_lines_chars(hv.take(0)));
        }
        let ghost base = s@;
        let n = self.headers.len();
        let mut i: usize = 0;
        while i < n
            invariant
                hv == headers_view(self.headers@),
                n == self.headers@.len(),
                i <= n,
                s@ == base + header_lines_chars(hv.take(i as int)),
            decreases n - i,
        {
            s.append(self.headers[i].0.as_str());
            s.append(": ");
            s.append(self.headers[i].1.as_str());
            s.append("\r\n");
            proof {
                assert(hv.take(i + 1).drop_last() =~= hv.take(i as int));
                assert(hv.take(i + 1).last() == hv[i as int]);
                assert(s@ =~= base + header_lines_chars(hv.take(i + 1)));
            }
            i = i + 1;
        }
        s.append("Content-Length: ");
        let body_len = self.body.len();
        s.append(dec_string(body_len).as_str());
        s.append("\r\n");
        s.append("\r\n");
        proof {
            assert(hv.take(n as int) =~= hv);
            assert(s@ =~= response_head_chars(self.status, hv, self.body@.len() as int));
        }
        s
    }
}

/// The gateway's fixed defaults.
pub struct GatewayOpts;

impl GatewayOpts {
    /// The default worker-pool size.
    pub fn default_pool_size() -> (r: usize)
        ensures
            r == 10,
    {
        10
    }
}

} // verus!
