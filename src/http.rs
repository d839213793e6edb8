//! The framing of a request: a request line, header lines and a blank line,
//! each line closed by CR LF, then the body.
use vstd::prelude::*;

use crate::errors::GiftError;
use crate::text::{copy_range, find_byte, index_of, lemma_find_byte_bounds};

verus! {

/// A header as it stands on the wire.
pub struct Header {
    pub name: Vec<u8>,
    pub value: Vec<u8>,
}

/// A request cut into its parts.
pub struct Request {
    pub method: Vec<u8>,
    pub path: Vec<u8>,
    pub version: Vec<u8>,
    pub headers: Vec<Header>,
    pub body: Vec<u8>,
}

/// The parts of a request, as values.
pub struct RequestView {
    pub method: Seq<u8>,
    pub path: Seq<u8>,
    pub version: Seq<u8>,
    pub headers: Seq<(Seq<u8>, Seq<u8>)>,
    pub body: Seq<u8>,
}

pub open spec fn header_view(h: Header) -> (Seq<u8>, Seq<u8>) {
    (h.name@, h.value@)
}

pub open spec fn headers_view(hs: Seq<Header>) -> Seq<(Seq<u8>, Seq<u8>)> {
    hs.map_values(|h: Header| header_view(h))
}

pub open spec fn lines_view(ls: Seq<Vec<u8>>) -> Seq<Seq<u8>> {
    ls.map_values(|l: Vec<u8>| l@)
}

impl Request {
    pub open spec fn view(&self) -> RequestView {
        RequestView {
            method: self.method@,
            path: self.path@,
            version: self.version@,
            headers: headers_view(self.headers@),
            body: self.body@,
        }
    }
}

/// There is a CR LF at `p`.
pub open spec fn crlf_at(buf: Seq<u8>, p: int) -> bool {
    0 <= p && p + 1 < buf.len() && buf[p] == 13 && buf[p + 1] == 10
}

/// The lines of the head, from the line that starts at `start` (scanned from
/// `p` on) up to the blank line, and where the body starts; `None` where no
/// blank line closes the head.
pub open spec fn split_head(buf: Seq<u8>, start: nat, p: nat) -> Option<(Seq<Seq<u8>>, nat)>
    decreases buf.len() - p,
{
    if p + 1 >= buf.len() {
        None
    } else if crlf_at(buf, p as int) {
        if p == start {
            Some((Seq::empty(), p + 2))
        } else {
            match split_head(buf, p + 2, p + 2) {
                None => None,
                Some(t) => Some((seq![buf.subrange(start as int, p as int)] + t.0, t.1)),
            }
        }
    } else {
        split_head(buf, start, p + 1)
    }
}

/// The method, the path and the version of a request line, which are
/// separated by the first two spaces.
pub open spec fn split_request_line(line: Seq<u8>) -> Option<(Seq<u8>, Seq<u8>, Seq<u8>)> {
    let a = find_byte(line, 32, 0);
    if a >= line.len() {
        None
    } else {
        let b = find_byte(line, 32, a + 1);
        if b >= line.len() {
            None
        } else {
            Some(
                (
                    line.subrange(0, a as int),
                    line.subrange(a as int + 1, b as int),
                    line.subrange(b as int + 1, line.len() as int),
                ),
            )
        }
    }
}

/// What follows the colon of a header line, without one leading space.
pub open spec fn header_value(rest: Seq<u8>) -> Seq<u8> {
    if rest.len() > 0 && rest[0] == 32 {
        rest.drop_first()
    } else {
        rest
    }
}

/// The name and the value of a header line: a non-empty name, a colon, the
/// value.
pub open spec fn split_header_line(line: Seq<u8>) -> Option<(Seq<u8>, Seq<u8>)> {
    let c = find_byte(line, 58, 0);
    if c == 0 || c >= line.len() {
        None
    } else {
        Some((line.subrange(0, c as int), header_value(line.subrange(c as int + 1, line.len() as int))))
    }
}

pub open spec fn parse_header_lines(lines: Seq<Seq<u8>>) -> Option<Seq<(Seq<u8>, Seq<u8>)>>
    decreases lines.len(),
{
    if lines.len() == 0 {
        Some(Seq::empty())
    } else {
        match split_header_line(lines[0]) {
            None => None,
            Some(h) => match parse_header_lines(lines.drop_first()) {
                None => None,
                Some(hs) => Some(seq![h] + hs),
            },
        }
    }
}

/// The request that `buf` frames, if it frames one.
pub open spec fn parse_request_spec(buf: Seq<u8>) -> Option<RequestView> {
    match split_head(buf, 0, 0) {
        None => None,
        Some(t) => if t.0.len() == 0 {
            None
        } else {
            match split_request_line(t.0[0]) {
                None => None,
                Some(rl) => match parse_header_lines(t.0.drop_first()) {
                    None => None,
                    Some(hs) => Some(
                        RequestView {
                            method: rl.0,
                            path: rl.1,
                            version: rl.2,
                            headers: hs,
                            body: buf.subrange(t.1 as int, buf.len() as int),
                        },
                    ),
                },
            }
        },
    }
}

pub open spec fn prepend_lines(
    acc: Seq<Seq<u8>>,
    o: Option<(Seq<Seq<u8>>, nat)>,
) -> Option<(Seq<Seq<u8>>, nat)> {
    match o {
        None => None,
        Some(t) => Some((acc + t.0, t.1)),
    }
}

pub open spec fn prepend_headers(
    acc: Seq<(Seq<u8>, Seq<u8>)>,
    o: Option<Seq<(Seq<u8>, Seq<u8>)>>,
) -> Option<Seq<(Seq<u8>, Seq<u8>)>> {
    match o {
        None => None,
        Some(hs) => Some(acc + hs),
    }
}

/// The lines of the head and where the body starts.
fn split_head_exec(buf: &[u8]) -> (r: Option<(Vec<Vec<u8>>, usize)>)
    ensures
        match r {
            None => split_head(buf@, 0, 0) is None,
            Some(t) => split_head(buf@, 0, 0) == Some((lines_view(t.0@), t.1 as nat)),
        },
{
    let n: usize = buf.len();
    let mut lines: Vec<Vec<u8>> = Vec::new();
    let mut start: usize = 0;
    let mut p: usize = 0;
    assert(lines_view(lines@) =~= Seq::<Seq<u8>>::empty());
    assert(prepend_lines(Seq::empty(), split_head(buf@, 0, 0)) == split_head(buf@, 0, 0)) by {
        match split_head(buf@, 0, 0) {
            None => {},
            Some(t) => {
                assert(Seq::<Seq<u8>>::empty() + t.0 =~= t.0);
            },
        }
    }
    while n - p > 1
        invariant
            n == buf@.len(),
            start <= p <= n,
            split_head(buf@, 0, 0) == prepend_lines(
                lines_view(lines@),
                split_head(buf@, start as nat, p as nat),
            ),
        decreases n - p,
    {
        if buf[p] == 13 && buf[p + 1] == 10 {
            if p == start {
                return Some((lines, p + 2));
            }
            let line = copy_range(buf, start, p);
            let ghost before = lines_view(lines@);
            let ghost tail = split_head(buf@, (p + 2) as nat, (p + 2) as nat);
            lines.push(line);
            proof {
                assert(lines_view(lines@) =~= before.push(line@));
                match tail {
                    None => {},
                    Some(t) => {
                        assert(before + (seq![line@] + t.0) =~= before.push(line@) + t.0);
                    },
                }
            }
            start = p + 2;
            p = p + 2;
        } else {
            p = p + 1;
        }
    }
    None
}

/// The name and the value of a header line.
fn split_header_line_exec(line: &[u8]) -> (r: Option<Header>)
    ensures
        match r {
            None => split_header_line(line@) is None,
            Some(h) => split_header_line(line@) == Some(header_view(h)),
        },
{
    let c = index_of(line, 58, 0);
    if c == 0 || c >= line.len() {
        return None;
    }
    let name = copy_range(line, 0, c);
    let value = if c + 1 < line.len() && line[c + 1] == 32 {
        copy_range(line, c + 2, line.len())
    } else {
        copy_range(line, c + 1, line.len())
    };
    proof {
        let rest = line@.subrange(c + 1, line@.len() as int);
        if c + 1 < line@.len() && line@[c + 1] == 32 {
            assert(rest.drop_first() =~= line@.subrange(c + 2, line@.len() as int));
        }
    }
    Some(Header { name, value })
}

/// Cuts a request into its request line, its headers and its body.
pub fn parse_request(buf: &[u8]) -> (r: Result<Request, GiftError>)
    ensures
        match parse_request_spec(buf@) {
            None => r == Err::<Request, GiftError>(GiftError::HttpInvalidRequest),
            Some(v) => r is Ok && r->Ok_0.view() == v,
        },
{
    let (lines, body_start) = match split_head_exec(buf) {
        None => return Err(GiftError::HttpInvalidRequest),
        Some(t) => t,
    };
    let ghost lv = lines_view(lines@);
    proof {
        lemma_split_head_bounds(buf@, 0, 0);
    }
    if lines.len() == 0 {
        return Err(GiftError::HttpInvalidRequest);
    }
    assert(lv[0] == lines@[0]@);
    let first: &[u8] = lines[0].as_slice();
    let a = index_of(first, 32, 0);
    if a >= first.len() {
        return Err(GiftError::HttpInvalidRequest);
    }
    proof {
        lemma_find_byte_bounds(first@, 32, 0);
    }
    let b = index_of(first, 32, a + 1);
    if b >= first.len() {
        return Err(GiftError::HttpInvalidRequest);
    }
    proof {
        lemma_find_byte_bounds(first@, 32, (a + 1) as nat);
    }
    let method = copy_range(first, 0, a);
    let path = copy_range(first, a + 1, b);
    let version = copy_range(first, b + 1, first.len());
    let mut headers: Vec<Header> = Vec::new();
    let mut i: usize = 1;
    assert(headers_view(headers@) =~= Seq::<(Seq<u8>, Seq<u8>)>::empty());
    assert(lv.subrange(1, lv.len() as int) =~= lv.drop_first());
    proof {
        match parse_header_lines(lv.drop_first()) {
            None => {},
            Some(hs) => {
                assert(Seq::<(Seq<u8>, Seq<u8>)>::empty() + hs =~= hs);
            },
        }
    }
    assert(split_request_line(lv[0]) == Some((method@, path@, version@)));
    while i < lines.len()
        invariant
            lv == lines_view(lines@),
            lv.len() > 0,
            split_request_line(lv[0]) == Some((method@, path@, version@)),
            split_head(buf@, 0, 0) == Some((lv, body_start as nat)),
            body_start <= buf@.len(),
            1 <= i <= lines@.len(),
            parse_header_lines(lv.drop_first()) == prepend_headers(
                headers_view(headers@),
                parse_header_lines(lv.subrange(i as int, lv.len() as int)),
            ),
        decreases lines@.len() - i,
    {
        let ghost rest = lv.subrange(i as int, lv.len() as int);
        assert(rest[0] == lines@[i as int]@);
        assert(rest.drop_first() =~= lv.subrange(i + 1, lv.len() as int));
        match split_header_line_exec(lines[i].as_slice()) {
            None => {
                assert(parse_header_lines(rest) is None);
                assert(parse_header_lines(lv.drop_first()) is None);
                return Err(GiftError::HttpInvalidRequest);
            },
            Some(h) => {
                let ghost before = headers_view(headers@);
                let ghost tail = parse_header_lines(lv.subrange(i + 1, lv.len() as int));
                headers.push(h);
                proof {
                    assert(headers_view(headers@) =~= before.push(header_view(h)));
                    match tail {
                        None => {},
                        Some(hs) => {
                            assert(before + (seq![header_view(h)] + hs) =~= before.push(
                                header_view(h),
                            ) + hs);
                        },
                    }
                }
            },
        }
        i = i + 1;
    }
    proof {
        assert(lv.subrange(i as int, lv.len() as int) =~= Seq::<Seq<u8>>::empty());
        assert(headers_view(headers@) + Seq::<(Seq<u8>, Seq<u8>)>::empty() =~= headers_view(
            headers@,
        ));
    }
    let body = copy_range(buf, body_start, buf.len());
    Ok(Request { method, path, version, headers, body })
}

pub proof fn lemma_split_head_bounds(buf: Seq<u8>, start: nat, p: nat)
    requires
        start <= p,
    ensures
        match split_head(buf, start, p) {
            None => true,
            Some(t) => t.1 <= buf.len(),
        },
    decreases buf.len() - p,
{
    if p + 1 >= buf.len() {
    } else if crlf_at(buf, p as int) {
        if p != start {
            lemma_split_head_bounds(buf, p + 2, p + 2);
        }
    } else {
        lemma_split_head_bounds(buf, start, p + 1);
    }
}

} // verus!
