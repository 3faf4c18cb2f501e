//! The request framer: recognizes one HTTP/1.1 request head inside a byte
//! buffer, decodes the start line and the header fields, and hands back the
//! bytes that follow the header terminator.
//!
//! The decode is specified by a functional model: `spec_split_crlf` cuts the
//! head into lines, `first_line_apply` reads the start line, and
//! `spec_header_fold` folds the header lines into a [`ReqM`] record. Every
//! executable function is proved equal to that model.

use vstd::prelude::*;

use crate::bytes::{
    all_digits, append_bytes, ascii_of, bytes_eq, copy_bytes, dec_value, find_byte, find_in,
    first_at, has_sub, idx_of, is_at, is_space, is_ws, lemma_sub_idx_at, lemma_sub_idx_none,
    spec_split_ws, spec_trim_start, split_ws, str_bytes, sub_idx, subvec, trim_start,
};
use crate::http::{spec_method_of, spec_method_token, IoErrorKind, Method, ResponseCode, State};

verus! {

/// The line separator.
pub open spec fn crlf() -> Seq<u8> {
    seq![13u8, 10u8]
}

/// The header terminator: an empty line.
pub open spec fn crlf2() -> Seq<u8> {
    seq![13u8, 10u8, 13u8, 10u8]
}

/// The line separator as a vector.
pub fn crlf_vec() -> (r: Vec<u8>)
    ensures
        r@ == crlf(),
{
    let mut v: Vec<u8> = Vec::new();
    v.push(13);
    v.push(10);
    proof {
        assert(v@ =~= crlf());
    }
    v
}

/// The header terminator as a vector.
pub fn crlf2_vec() -> (r: Vec<u8>)
    ensures
        r@ == crlf2(),
{
    let mut v: Vec<u8> = Vec::new();
    v.push(13);
    v.push(10);
    v.push(13);
    v.push(10);
    proof {
        assert(v@ =~= crlf2());
    }
    v
}

/// Cuts `buf` at the first header terminator: the head before it and the
/// tail after it. `None` while no terminator has arrived.
pub fn frame(buf: &[u8]) -> (r: Option<(Vec<u8>, Vec<u8>)>)
    ensures
        match r {
            Some(pair) => {
                &&& first_at(buf@, crlf2(), pair.0@.len() as int)
                &&& buf@ == pair.0@ + crlf2() + pair.1@
            },
            None => !has_sub(buf@, crlf2()),
        },
{
    let sep = crlf2_vec();
    let n = buf.len();
    match find_in(buf, sep.as_slice()) {
        Some(d) => {
            let head = subvec(buf, 0, d);
            proof {
                assert(d + 4 <= n);
            }
            let tail = subvec(buf, d + 4, n);
            proof {
                assert(buf@ =~= head@ + crlf2() + tail@);
            }
            Some((head, tail))
        },
        None => None,
    }
}

/// The head split into lines at each first line separator.
pub open spec fn spec_split_crlf(s: Seq<u8>) -> Seq<Seq<u8>>
    decreases s.len(),
{
    let d = sub_idx(s, crlf());
    if d < 0 || d + 2 > s.len() {
        seq![s]
    } else {
        seq![s.subrange(0, d)] + spec_split_crlf(s.subrange(d + 2, s.len() as int))
    }
}

/// Splits `s` into its lines.
pub fn split_crlf(s: &[u8]) -> (r: Vec<Vec<u8>>)
    ensures
        r@.map_values(|v: Vec<u8>| v@) == spec_split_crlf(s@),
        r@.len() >= 1,
{
    let sep = crlf_vec();
    let n = s.len();
    let mut out: Vec<Vec<u8>> = Vec::new();
    let mut start: usize = 0;
    proof {
        assert(s@.subrange(0, s@.len() as int) =~= s@);
        assert(out@.map_values(|v: Vec<u8>| v@) =~= Seq::<Seq<u8>>::empty());
    }
    loop
        invariant
            sep@ == crlf(),
            start <= s@.len(),
            n == s@.len(),
            spec_split_crlf(s@) == out@.map_values(|v: Vec<u8>| v@) + spec_split_crlf(
                s@.subrange(start as int, s@.len() as int),
            ),
        decreases s@.len() - start,
    {
        let ghost rem = s@.subrange(start as int, s@.len() as int);
        let ghost outv = out@.map_values(|v: Vec<u8>| v@);
        let piece = vstd::slice::slice_subrange(s, start, s.len());
        match find_in(piece, sep.as_slice()) {
            Some(d) => {
                proof {
                    lemma_sub_idx_at(rem, crlf(), d as int);
                }
                let line = subvec(piece, 0, d);
                out.push(line);
                proof {
                    assert(out@.map_values(|v: Vec<u8>| v@) =~= outv.push(rem.subrange(0, d as int)));
                    assert(rem.subrange(d + 2, rem.len() as int) =~= s@.subrange(
                        start + d + 2,
                        s@.len() as int,
                    ));
                    assert(outv + (seq![rem.subrange(0, d as int)] + spec_split_crlf(
                        rem.subrange(d + 2, rem.len() as int),
                    )) =~= outv.push(rem.subrange(0, d as int)) + spec_split_crlf(
                        s@.subrange(start + d + 2, s@.len() as int),
                    ));
                }
                start = start + d + 2;
            },
            None => {
                proof {
                    lemma_sub_idx_none(rem, crlf());
                }
                let line = subvec(piece, 0, piece.len());
                proof {
                    assert(line@ =~= rem);
                }
                out.push(line);
                proof {
                    assert(out@.map_values(|v: Vec<u8>| v@) =~= outv.push(rem));
                    assert(outv + seq![rem] =~= outv.push(rem));
                }
                return out;
            },
        }
    }
}

/// The decoded form of a request head.
pub ghost struct ReqM {
    pub method: Method,
    pub http_version: Seq<u8>,
    pub path: Seq<u8>,
    pub query: Option<Seq<u8>>,
    pub accept: Option<Seq<u8>>,
    pub host: Option<Seq<u8>>,
    pub headers: Seq<(Seq<u8>, Seq<u8>)>,
    pub content_length: Option<int>,
    pub content_type: Option<Seq<u8>>,
    pub state: State,
    pub keep_connection_alive: bool,
}

/// The state of a fresh request.
pub open spec fn spec_default_req() -> ReqM {
    ReqM {
        method: Method::UNDEFINED,
        http_version: Seq::empty(),
        path: Seq::empty(),
        query: None,
        accept: None,
        host: None,
        headers: Seq::empty(),
        content_length: None,
        content_type: None,
        state: State::Undefined,
        keep_connection_alive: true,
    }
}

/// A decoded request; the framer fills it, the rest of the pipeline reads
/// it. Its mathematical form is [`ReqM`].
#[derive(Debug)]
pub struct Request {
    pub method: Method,
    pub http_version: Vec<u8>,
    pub path: Vec<u8>,
    pub query: Option<Vec<u8>>,
    pub accept: Option<Vec<u8>>,
    pub host: Option<Vec<u8>>,
    pub headers: Vec<(Vec<u8>, Vec<u8>)>,
    pub content_length: Option<usize>,
    pub content_type: Option<Vec<u8>>,
    pub state: State,
    pub keep_connection_alive: bool,
}

impl View for Request {
    type V = ReqM;

    open spec fn view(&self) -> ReqM {
        ReqM {
            method: self.method,
            http_version: self.http_version@,
            path: self.path@,
            query: match self.query {
                Some(q) => Some(q@),
                None => None,
            },
            accept: match self.accept {
                Some(a) => Some(a@),
                None => None,
            },
            host: match self.host {
                Some(h) => Some(h@),
                None => None,
            },
            headers: self.headers@.map_values(|p: (Vec<u8>, Vec<u8>)| (p.0@, p.1@)),
            content_length: match self.content_length {
                Some(n) => Some(n as int),
                None => None,
            },
            content_type: match self.content_type {
                Some(c) => Some(c@),
                None => None,
            },
            state: self.state,
            keep_connection_alive: self.keep_connection_alive,
        }
    }
}

impl Default for Request {
    /// A fresh request: everything unset, keep-alive on.
    fn default() -> (r: Request)
        ensures
            r@ == spec_default_req(),
    {
        let r = Request {
            method: Method::UNDEFINED,
            http_version: Vec::new(),
            path: Vec::new(),
            query: None,
            accept: None,
            host: None,
            headers: Vec::new(),
            content_length: None,
            content_type: None,
            state: State::Undefined,
            keep_connection_alive: true,
        };
        proof {
            assert(r@.http_version =~= spec_default_req().http_version);
            assert(r@.path =~= spec_default_req().path);
            assert(r@.headers =~= spec_default_req().headers);
        }
        r
    }
}

/// The request target split at its first `?`: the path, and the query when
/// one is present.
pub open spec fn spec_split_target(t: Seq<u8>) -> (Seq<u8>, Option<Seq<u8>>) {
    let q = idx_of(t, 63);
    if q == t.len() {
        (t, None)
    } else {
        (t.subrange(0, q), Some(t.subrange(q + 1, t.len() as int)))
    }
}

/// Does the start line hold exactly three whitespace-separated tokens?
pub open spec fn first_line_ok(line: Seq<u8>) -> bool {
    spec_split_ws(line).len() == 3
}

/// The effect of the start line on a request: method, path, query and
/// version are read from its three tokens.
pub open spec fn first_line_apply(m: ReqM, line: Seq<u8>) -> ReqM {
    let toks = spec_split_ws(line);
    let t = spec_split_target(toks[1]);
    ReqM {
        method: spec_method_of(toks[0]),
        path: t.0,
        query: match t.1 {
            Some(q) => Some(q),
            None => m.query,
        },
        http_version: toks[2],
        ..m
    }
}

/// The index of `name` in the header list; its length when absent.
pub open spec fn hdr_idx(hs: Seq<(Seq<u8>, Seq<u8>)>, name: Seq<u8>) -> int
    decreases hs.len(),
{
    if hs.len() == 0 {
        0
    } else if hs[0].0 == name {
        0
    } else {
        1 + hdr_idx(hs.drop_first(), name)
    }
}

pub proof fn lemma_hdr_idx(hs: Seq<(Seq<u8>, Seq<u8>)>, name: Seq<u8>)
    ensures
        0 <= hdr_idx(hs, name) <= hs.len(),
        hdr_idx(hs, name) < hs.len() ==> hs[hdr_idx(hs, name)].0 == name,
        forall|k: int| 0 <= k < hdr_idx(hs, name) ==> hs[k].0 != name,
    decreases hs.len(),
{
    if hs.len() > 0 && hs[0].0 != name {
        let t = hs.drop_first();
        lemma_hdr_idx(t, name);
        assert forall|k: int| 0 <= k < hdr_idx(hs, name) implies hs[k].0 != name by {
            if k > 0 {
                assert(hs[k] == t[k - 1]);
            }
        }
    }
}

proof fn lemma_hdr_idx_at(hs: Seq<(Seq<u8>, Seq<u8>)>, name: Seq<u8>, i: int)
    requires
        0 <= i <= hs.len(),
        forall|k: int| 0 <= k < i ==> hs[k].0 != name,
        i < hs.len() ==> hs[i].0 == name,
    ensures
        hdr_idx(hs, name) == i,
    decreases i,
{
    if i == 0 {
    } else {
        let t = hs.drop_first();
        assert(forall|k: int| 0 <= k < i - 1 ==> t[k].0 != name);
        lemma_hdr_idx_at(t, name, i - 1);
    }
}

/// The effect of one header line on the request; `None` is a 400.
pub open spec fn spec_header_step(m: ReqM, line: Seq<u8>) -> Option<ReqM> {
    let c = idx_of(line, 58);
    if c == line.len() {
        None
    } else {
        let name = line.subrange(0, c);
        let value = spec_trim_start(line.subrange(c + 1, line.len() as int));
        if name == ascii_of("Host"@) {
            if m.host is Some {
                None
            } else {
                Some(ReqM { host: Some(value), ..m })
            }
        } else if name == ascii_of("Connection"@) {
            if value == ascii_of("close"@) {
                Some(ReqM { keep_connection_alive: false, ..m })
            } else {
                Some(m)
            }
        } else if name == ascii_of("Accept"@) {
            match m.accept {
                None => Some(ReqM { accept: Some(value), ..m }),
                Some(a) => Some(ReqM { accept: Some(a + ascii_of(" "@) + value), ..m }),
            }
        } else if name == ascii_of("Content-Length"@) {
            if m.content_length is Some {
                None
            } else if value.len() >= 1 && all_digits(value) && dec_value(value) <= usize::MAX {
                Some(ReqM { content_length: Some(dec_value(value)), ..m })
            } else {
                None
            }
        } else if name == ascii_of("Content-Type"@) {
            if m.content_type is Some {
                None
            } else {
                Some(ReqM { content_type: Some(value), ..m })
            }
        } else {
            let i = hdr_idx(m.headers, name);
            if i == m.headers.len() {
                Some(ReqM { headers: m.headers.push((name, value)), ..m })
            } else {
                Some(
                    ReqM {
                        headers: m.headers.update(
                            i,
                            (name, m.headers[i].1 + ascii_of("  "@) + value),
                        ),
                        ..m
                    },
                )
            }
        }
    }
}

/// Folds the header lines into the request, stopping at an empty line.
pub open spec fn spec_header_fold(m: ReqM, lines: Seq<Seq<u8>>) -> Option<ReqM>
    decreases lines.len(),
{
    if lines.len() == 0 {
        Some(m)
    } else if lines[0].len() == 0 {
        Some(m)
    } else {
        match spec_header_step(m, lines[0]) {
            None => None,
            Some(m2) => spec_header_fold(m2, lines.drop_first()),
        }
    }
}

/// The decode of a whole request head, line list form.
pub open spec fn spec_deserialize(lines: Seq<Seq<u8>>) -> Option<ReqM> {
    if lines.len() == 0 || !first_line_ok(lines[0]) {
        None
    } else {
        spec_header_fold(first_line_apply(spec_default_req(), lines[0]), lines.drop_first())
    }
}

/// The decode of a whole request head, raw byte form.
pub open spec fn spec_parse_request(s: Seq<u8>) -> Option<ReqM> {
    spec_deserialize(spec_split_crlf(s))
}

impl Request {
    /// Decodes the start line into this request.
    pub fn parse_first_line(&mut self, line: &[u8]) -> (r: Result<(), ResponseCode>)
        ensures
            match r {
                Ok(_) => first_line_ok(line@) && final(self)@ == first_line_apply(
                    old(self)@,
                    line@,
                ),
                Err(rc) => !first_line_ok(line@) && rc.code == 400 && final(self)@ == old(self)@,
            },
    {
        let toks = split_ws(line);
        let ghost toksv = toks@.map_values(|v: Vec<u8>| v@);
        if toks.len() != 3 {
            proof {
                reveal_strlit("invalid header: first line invalid");
            }
            return Err(ResponseCode::new(400, str_bytes("invalid header: first line invalid").as_slice()));
        }
        proof {
            assert(toks@[0]@ == toksv[0]);
            assert(toks@[1]@ == toksv[1]);
            assert(toks@[2]@ == toksv[2]);
        }
        self.method = Method::from_token(toks[0].as_slice());
        self.add_path(toks[1].as_slice());
        self.http_version = copy_bytes(&toks[2]);
        Ok(())
    }

    /// Stores the target: the part before the first `?` becomes the path,
    /// the part after it the query.
    pub fn add_path(&mut self, path: &[u8])
        ensures
            final(self)@ == (ReqM {
                path: spec_split_target(path@).0,
                query: match spec_split_target(path@).1 {
                    Some(q) => Some(q),
                    None => old(self)@.query,
                },
                ..old(self)@
            }),
    {
        let q = find_byte(path, 63);
        proof {
            crate::bytes::lemma_idx_of(path@, 63);
        }
        if q == path.len() {
            self.path = subvec(path, 0, path.len());
            proof {
                assert(self.path@ =~= path@);
            }
        } else {
            self.path = subvec(path, 0, q);
            self.query = Some(subvec(path, q + 1, path.len()));
        }
    }

    /// Decodes the header lines after the start line into this request,
    /// stopping at an empty line. A malformed or duplicate header is a 400.
    pub fn parse_other_lines(&mut self, lines: &Vec<Vec<u8>>, from: usize) -> (r: Result<
        (),
        ResponseCode,
    >)
        requires
            from <= lines@.len(),
        ensures
            match r {
                Ok(_) => spec_header_fold(
                    old(self)@,
                    lines@.map_values(|v: Vec<u8>| v@).skip(from as int),
                ) == Some(final(self)@),
                Err(rc) => spec_header_fold(
                    old(self)@,
                    lines@.map_values(|v: Vec<u8>| v@).skip(from as int),
                ) is None && rc.code == 400,
            },
    {
        let ghost linesv = lines@.map_values(|v: Vec<u8>| v@);
        let mut i: usize = from;
        proof {
            assert(linesv.skip(from as int) =~= linesv.skip(i as int));
        }
        while i < lines.len()
            invariant
                from <= i <= lines@.len(),
                linesv == lines@.map_values(|v: Vec<u8>| v@),
                spec_header_fold(old(self)@, linesv.skip(from as int)) == spec_header_fold(
                    self@,
                    linesv.skip(i as int),
                ),
            decreases lines@.len() - i,
        {
            let ghost rest = linesv.skip(i as int);
            proof {
                assert(rest.len() > 0);
                assert(rest[0] == linesv[i as int]);
                assert(rest.drop_first() =~= linesv.skip(i + 1));
                assert(lines@[i as int]@ == linesv[i as int]);
            }
            let line: &Vec<u8> = &lines[i];
            if line.len() == 0 {
                proof {
                    assert(rest[0].len() == 0);
                    assert(spec_header_fold(self@, rest) == Some(self@));
                }
                return Ok(());
            }
            match self.header_line(line.as_slice()) {
                Ok(_) => (),
                Err(rc) => {
                    return Err(rc);
                },
            }
            i = i + 1;
        }
        proof {
            assert(linesv.skip(i as int).len() == 0);
        }
        Ok(())
    }

    /// Applies one non-empty header line to this request.
    fn header_line(&mut self, line: &[u8]) -> (r: Result<(), ResponseCode>)
        requires
            line@.len() > 0,
        ensures
            match r {
                Ok(_) => spec_header_step(old(self)@, line@) == Some(final(self)@),
                Err(rc) => spec_header_step(old(self)@, line@) is None && rc.code == 400,
            },
    {
        let c = find_byte(line, 58);
        proof {
            crate::bytes::lemma_idx_of(line@, 58);
        }
        if c == line.len() {
            proof {
                reveal_strlit("invalid header");
            }
            return Err(ResponseCode::new(400, str_bytes("invalid header").as_slice()));
        }
        let name = subvec(line, 0, c);
        let value = trim_start(vstd::slice::slice_subrange(line, c + 1, line.len()));
        proof {
            reveal_strlit("Host");
            reveal_strlit("Connection");
            reveal_strlit("close");
            reveal_strlit("Accept");
            reveal_strlit(" ");
            reveal_strlit("Content-Length");
            reveal_strlit("Content-Type");
            reveal_strlit("  ");
            reveal_strlit("duplicate header: Host");
            reveal_strlit("invalid header: Content-Length");
            reveal_strlit("invalid header: Content-Type: duplicated header");
        }
        if bytes_eq(name.as_slice(), str_bytes("Host").as_slice()) {
            if self.host.is_some() {
                return Err(ResponseCode::new(400, str_bytes("duplicate header: Host").as_slice()));
            }
            self.host = Some(value);
        } else if bytes_eq(name.as_slice(), str_bytes("Connection").as_slice()) {
            if bytes_eq(value.as_slice(), str_bytes("close").as_slice()) {
                self.keep_connection_alive = false;
            }
        } else if bytes_eq(name.as_slice(), str_bytes("Accept").as_slice()) {
            let acc_old = self.accept.take();
            match acc_old {
                None => {
                    self.accept = Some(value);
                },
                Some(a) => {
                    let mut a2 = a;
                    a2.push(32);
                    append_bytes(&mut a2, value.as_slice());
                    proof {
                        assert(a2@ =~= old(self)@.accept.arrow_Some_0() + ascii_of(" "@) + value@);
                    }
                    self.accept = Some(a2);
                },
            }
        } else if bytes_eq(name.as_slice(), str_bytes("Content-Length").as_slice()) {
            if self.content_length.is_some() {
                return Err(
                    ResponseCode::new(400, str_bytes("invalid header: Content-Length").as_slice()),
                );
            }
            match crate::bytes::parse_usize(value.as_slice()) {
                Some(n) => {
                    self.content_length = Some(n);
                },
                None => {
                    return Err(
                        ResponseCode::new(
                            400,
                            str_bytes("invalid header: Content-Length").as_slice(),
                        ),
                    );
                },
            }
        } else if bytes_eq(name.as_slice(), str_bytes("Content-Type").as_slice()) {
            if self.content_type.is_some() {
                return Err(
                    ResponseCode::new(
                        400,
                        str_bytes("invalid header: Content-Type: duplicated header").as_slice(),
                    ),
                );
            }
            self.content_type = Some(value);
        } else {
            let ghost hs = self@.headers;
            let mut j: usize = 0;
            let mut found = false;
            while j < self.headers.len() && !found
                invariant
                    j <= self.headers@.len(),
                    hs == self@.headers,
                    hs.len() == self.headers@.len(),
                    forall|k: int| 0 <= k < hs.len() ==> hs[k] == (self.headers@[k].0@, self.headers@[k].1@),
                    !found ==> forall|k: int| 0 <= k < j ==> hs[k].0 != name@,
                    found ==> j < hs.len() && hs[j as int].0 == name@ && (forall|k: int|
                        0 <= k < j ==> hs[k].0 != name@),
                decreases self.headers@.len() - j + (if found { 0int } else { 1int }),
            {
                if bytes_eq(self.headers[j].0.as_slice(), name.as_slice()) {
                    found = true;
                } else {
                    j = j + 1;
                }
            }
            if found {
                proof {
                    lemma_hdr_idx_at(hs, name@, j as int);
                }
                let k2 = copy_bytes(&self.headers[j].0);
                let mut v2 = copy_bytes(&self.headers[j].1);
                v2.push(32);
                v2.push(32);
                append_bytes(&mut v2, value.as_slice());
                proof {
                    assert(v2@ =~= hs[j as int].1 + ascii_of("  "@) + value@);
                }
                let ghost hs_old = self.headers@;
                self.headers[j] = (k2, v2);
                proof {
                    assert(self@.headers =~= hs.update(j as int, (name@, v2@)));
                }
            } else {
                proof {
                    lemma_hdr_idx_at(hs, name@, j as int);
                }
                self.headers.push((name, value));
                proof {
                    assert(self@.headers =~= hs.push((name@, value@)));
                }
            }
        }
        Ok(())
    }

    /// Decodes a request head given as its list of lines.
    pub fn deserialize(lines: &Vec<Vec<u8>>) -> (r: Result<Request, ResponseCode>)
        ensures
            match r {
                Ok(req) => spec_deserialize(lines@.map_values(|v: Vec<u8>| v@)) == Some(req@),
                Err(rc) => spec_deserialize(lines@.map_values(|v: Vec<u8>| v@)) is None && rc.code
                    == 400,
            },
    {
        let ghost linesv = lines@.map_values(|v: Vec<u8>| v@);
        if lines.len() == 0 {
            proof {
                reveal_strlit("empty header");
            }
            return Err(ResponseCode::new(400, str_bytes("empty header").as_slice()));
        }
        let mut request = Request::default();
        proof {
            assert(lines@[0]@ == linesv[0]);
        }
        match request.parse_first_line(lines[0].as_slice()) {
            Ok(_) => (),
            Err(rc) => {
                return Err(rc);
            },
        }
        proof {
            assert(linesv.skip(1) =~= linesv.drop_first());
        }
        match request.parse_other_lines(lines, 1) {
            Ok(_) => Ok(request),
            Err(rc) => Err(rc),
        }
    }

    /// Decodes a request head from its raw bytes (everything before the
    /// header terminator). A malformed head is a 400.
    pub fn try_from(value: &[u8]) -> (r: Result<Request, ResponseCode>)
        ensures
            match r {
                Ok(req) => spec_parse_request(value@) == Some(req@),
                Err(rc) => spec_parse_request(value@) is None && rc.code == 400,
            },
    {
        let lines = split_crlf(value);
        Self::deserialize(&lines)
    }

    /// The value of the named non-special header, if one was seen.
    pub fn get(&self, header: &[u8]) -> (r: Option<&Vec<u8>>)
        ensures
            match r {
                Some(v) => {
                    &&& hdr_idx(self@.headers, header@) < self@.headers.len()
                    &&& v@ == self@.headers[hdr_idx(self@.headers, header@)].1
                },
                None => hdr_idx(self@.headers, header@) == self@.headers.len(),
            },
    {
        let ghost hs = self@.headers;
        let mut j: usize = 0;
        while j < self.headers.len()
            invariant
                j <= self.headers@.len(),
                hs == self@.headers,
                hs.len() == self.headers@.len(),
                forall|k: int| 0 <= k < hs.len() ==> hs[k] == (self.headers@[k].0@, self.headers@[k].1@),
                forall|k: int| 0 <= k < j ==> hs[k].0 != header@,
            decreases self.headers@.len() - j,
        {
            if bytes_eq(self.headers[j].0.as_slice(), header) {
                proof {
                    lemma_hdr_idx_at(hs, header@, j as int);
                }
                return Some(&self.headers[j].1);
            }
            j = j + 1;
        }
        proof {
            lemma_hdr_idx_at(hs, header@, j as int);
        }
        None
    }

    pub fn state(&self) -> (r: &State)
        ensures
            r == self.state,
    {
        &self.state
    }

    pub fn method(&self) -> (r: &Method)
        ensures
            r == self.method,
    {
        &self.method
    }

    pub fn path(&self) -> (r: &Vec<u8>)
        ensures
            r@ == self@.path,
    {
        &self.path
    }

    pub fn set_path(&mut self, path: Vec<u8>)
        ensures
            final(self)@ == (ReqM { path: path@, ..old(self)@ }),
    {
        self.path = path;
    }

    pub fn accept(&self) -> (r: Option<&Vec<u8>>)
        ensures
            match r {
                Some(a) => self@.accept == Some(a@),
                None => self@.accept is None,
            },
    {
        self.accept.as_ref()
    }

    pub fn host(&self) -> (r: Option<&Vec<u8>>)
        ensures
            match r {
                Some(h) => self@.host == Some(h@),
                None => self@.host is None,
            },
    {
        self.host.as_ref()
    }

    pub fn content_length(&self) -> (r: Option<&usize>)
        ensures
            match r {
                Some(n) => self@.content_length == Some(*n as int),
                None => self@.content_length is None,
            },
    {
        self.content_length.as_ref()
    }

    pub fn keep_connection_alive(&self) -> (r: bool)
        ensures
            r == self@.keep_connection_alive,
    {
        self.keep_connection_alive
    }

    pub fn http_version(&self) -> (r: &Vec<u8>)
        ensures
            r@ == self@.http_version,
    {
        &self.http_version
    }

    pub fn content_type(&self) -> (r: Option<&Vec<u8>>)
        ensures
            match r {
                Some(c) => self@.content_type == Some(c@),
                None => self@.content_type is None,
            },
    {
        self.content_type.as_ref()
    }

    pub fn headers(&self) -> (r: &Vec<(Vec<u8>, Vec<u8>)>)
        ensures
            r@.map_values(|p: (Vec<u8>, Vec<u8>)| (p.0@, p.1@)) == self@.headers,
    {
        &self.headers
    }

    pub fn query(&self) -> (r: Option<&Vec<u8>>)
        ensures
            match r {
                Some(q) => self@.query == Some(q@),
                None => self@.query is None,
            },
    {
        self.query.as_ref()
    }
}

/// What went wrong while a request was read: a malformed head, or a stream
/// failure with its kind and text.
#[derive(Debug)]
pub struct RequestError {
    pub invalid_request: bool,
    pub io_error: bool,
    pub io_error_kind: Option<IoErrorKind>,
    pub error_string: Vec<u8>,
}

impl Default for RequestError {
    fn default() -> (r: RequestError)
        ensures
            !r.invalid_request,
            !r.io_error,
            r.io_error_kind is None,
            r.error_string@ == Seq::<u8>::empty(),
    {
        RequestError {
            invalid_request: false,
            io_error: false,
            io_error_kind: None,
            error_string: Vec::new(),
        }
    }
}

impl RequestError {
    /// The error for a malformed request, with its message.
    pub fn from_string(value: Vec<u8>) -> (r: RequestError)
        ensures
            r.invalid_request,
            !r.io_error,
            r.io_error_kind is None,
            r.error_string == value,
    {
        RequestError {
            invalid_request: true,
            io_error: false,
            io_error_kind: None,
            error_string: value,
        }
    }

    /// The error for a stream failure, with its kind and message.
    pub fn from_io(kind: IoErrorKind, msg: Vec<u8>) -> (r: RequestError)
        ensures
            !r.invalid_request,
            r.io_error,
            r.io_error_kind == Some(kind),
            r.error_string == msg,
    {
        RequestError {
            invalid_request: false,
            io_error: true,
            io_error_kind: Some(kind),
            error_string: msg,
        }
    }
}

/// Pipelining at the framing layer: when the buffer holds two well-formed
/// request heads back to back, the framer yields the first head and leaves
/// the second intact, and framing the remainder yields the second head with
/// nothing left over. Well-formed means: the head holds no header
/// terminator and does not end with a line separator.
pub proof fn lemma_pipelined_frames(r1: Seq<u8>, r2: Seq<u8>)
    requires
        !has_sub(r1, crlf2()),
        !(r1.len() >= 2 && r1[r1.len() - 2] == 13 && r1[r1.len() - 1] == 10),
        !has_sub(r2, crlf2()),
        !(r2.len() >= 2 && r2[r2.len() - 2] == 13 && r2[r2.len() - 1] == 10),
    ensures
        first_at(r1 + crlf2() + (r2 + crlf2()), crlf2(), r1.len() as int),
        (r1 + crlf2() + (r2 + crlf2())).subrange(0, r1.len() as int) == r1,
        (r1 + crlf2() + (r2 + crlf2())).subrange(
            r1.len() as int + 4,
            (r1 + crlf2() + (r2 + crlf2())).len() as int,
        ) == r2 + crlf2(),
        first_at(r2 + crlf2(), crlf2(), r2.len() as int),
        (r2 + crlf2()).subrange(r2.len() as int + 4, (r2 + crlf2()).len() as int) == Seq::<u8>::empty(),
{
    lemma_terminator_first(r1, r2 + crlf2());
    lemma_terminator_first(r2, Seq::empty());
    let w = r1 + crlf2() + (r2 + crlf2());
    let w2 = r2 + crlf2() + Seq::<u8>::empty();
    assert(w2 =~= r2 + crlf2());
    assert(first_at(r2 + crlf2(), crlf2(), r2.len() as int));
    assert(w.subrange(0, r1.len() as int) =~= r1);
    assert(w.subrange(r1.len() as int + 4, w.len() as int) =~= r2 + crlf2());
    assert((r2 + crlf2()).subrange(r2.len() as int + 4, (r2 + crlf2()).len() as int)
        =~= Seq::<u8>::empty());
}

/// In `head + terminator + rest`, the first header terminator stands
/// exactly at the end of a well-formed head.
proof fn lemma_terminator_first(head: Seq<u8>, rest: Seq<u8>)
    requires
        !has_sub(head, crlf2()),
        !(head.len() >= 2 && head[head.len() - 2] == 13 && head[head.len() - 1] == 10),
    ensures
        first_at(head + crlf2() + rest, crlf2(), head.len() as int),
{
    let w = head + crlf2() + rest;
    let n = head.len() as int;
    assert(forall|k: int| 0 <= k < n ==> w[k] == head[k]);
    assert(forall|k: int| 0 <= k < 4 ==> w[n + k] == crlf2()[k]);
    assert(is_at(w, crlf2(), n));
    assert forall|j: int| 0 <= j < n implies !is_at(w, crlf2(), j) by {
        if is_at(w, crlf2(), j) {
            if j + 4 <= n {
                assert(forall|k: int| 0 <= k < 4 ==> head[j + k] == #[trigger] w[j + k]);
                assert(is_at(head, crlf2(), j));
                assert(false);
            } else if j == n - 1 {
                assert(w[j + 1] == crlf2()[0]);
                assert(w[j + 1] == 13 && crlf2()[1] == 10);
                assert(false);
            } else if j == n - 2 {
                assert(head[n - 2] == w[n - 2] && head[n - 1] == w[n - 1]);
                assert(head[n - 2] == 13 && head[n - 1] == 10);
                assert(false);
            } else {
                assert(j == n - 3);
                assert(w[j + 3] == crlf2()[1]);
                assert(w[j + 3] == 13 && crlf2()[3] == 10);
                assert(false);
            }
        }
    }
}

/// The lines joined with line separators.
pub open spec fn spec_join_crlf(lines: Seq<Seq<u8>>) -> Seq<u8>
    decreases lines.len(),
{
    if lines.len() == 0 {
        Seq::empty()
    } else if lines.len() == 1 {
        lines[0]
    } else {
        lines[0] + crlf() + spec_join_crlf(lines.drop_first())
    }
}

/// Splitting inverts joining: lines holding no separator come back as
/// they went in.
pub proof fn lemma_split_crlf_of_join(lines: Seq<Seq<u8>>)
    requires
        lines.len() >= 1,
        forall|i: int| 0 <= i < lines.len() ==> !has_sub(#[trigger] lines[i], crlf()),
    ensures
        spec_split_crlf(spec_join_crlf(lines)) == lines,
    decreases lines.len(),
{
    let l0 = lines[0];
    if lines.len() == 1 {
        lemma_sub_idx_none(l0, crlf());
        assert(spec_split_crlf(spec_join_crlf(lines)) =~= lines);
    } else {
        let rest = spec_join_crlf(lines.drop_first());
        let s = l0 + crlf() + rest;
        assert(spec_join_crlf(lines) == s);
        let d = l0.len() as int;
        assert(forall|k: int| 0 <= k < d ==> s[k] == l0[k]);
        assert(s[d] == 13 && s[d + 1] == 10);
        assert(is_at(s, crlf(), d));
        assert forall|j: int| 0 <= j < d implies !is_at(s, crlf(), j) by {
            if is_at(s, crlf(), j) {
                if j + 2 <= d {
                    assert(l0[j] == s[j] && l0[j + 1] == s[j + 1]);
                    assert(is_at(l0, crlf(), j));
                    assert(false);
                } else {
                    assert(j == d - 1);
                    assert(s[j + 1] == 13);
                    assert(s[j + 1] == crlf()[1]);
                    assert(false);
                }
            }
        }
        lemma_sub_idx_at(s, crlf(), d);
        assert(s.subrange(0, d) =~= l0);
        assert(s.subrange(d + 2, s.len() as int) =~= rest);
        lemma_split_crlf_of_join(lines.drop_first());
        assert(seq![l0] + lines.drop_first() =~= lines);
    }
}

/// No byte of `s` is whitespace.
pub open spec fn no_ws(s: Seq<u8>) -> bool {
    forall|i: int| 0 <= i < s.len() ==> !is_ws(#[trigger] s[i])
}

proof fn lemma_acc_token(t: Seq<u8>, rest: Seq<u8>, cur: Seq<u8>, acc: Seq<Seq<u8>>)
    requires
        no_ws(t),
    ensures
        crate::bytes::split_ws_acc(t + rest, cur, acc) == crate::bytes::split_ws_acc(
            rest,
            cur + t,
            acc,
        ),
    decreases t.len(),
{
    if t.len() == 0 {
        assert(t + rest =~= rest);
        assert(cur + t =~= cur);
    } else {
        let s = t + rest;
        assert(s[0] == t[0]);
        assert(!is_ws(s[0]));
        assert(s.drop_first() =~= t.drop_first() + rest);
        assert(no_ws(t.drop_first()));
        lemma_acc_token(t.drop_first(), rest, cur.push(t[0]), acc);
        assert(cur.push(t[0]) + t.drop_first() =~= cur + t);
    }
}

proof fn lemma_acc_space(rest: Seq<u8>, cur: Seq<u8>, acc: Seq<Seq<u8>>)
    requires
        cur.len() > 0,
    ensures
        crate::bytes::split_ws_acc(ascii_of(" "@) + rest, cur, acc) == crate::bytes::split_ws_acc(
            rest,
            Seq::empty(),
            acc.push(cur),
        ),
{
    reveal_strlit(" ");
    let s = ascii_of(" "@) + rest;
    assert(s[0] == 32);
    assert(is_ws(s[0]));
    assert(s.drop_first() =~= rest);
}

/// The start line of a request, as framed for the wire.
pub open spec fn spec_encode_start_line(m: Method, path: Seq<u8>) -> Seq<u8> {
    ascii_of(spec_method_token(m)) + ascii_of(" "@) + path + ascii_of(" "@) + ascii_of(
        "HTTP/1.1"@,
    )
}

/// One header field, as framed for the wire.
pub open spec fn spec_encode_header(p: (Seq<u8>, Seq<u8>)) -> Seq<u8> {
    p.0 + ascii_of(": "@) + p.1
}

/// A whole request head, as framed for the wire: the start line and the
/// header fields, each on its own line.
pub open spec fn spec_encode_request(m: Method, path: Seq<u8>, hs: Seq<(Seq<u8>, Seq<u8>)>) -> Seq<
    u8,
> {
    spec_join_crlf(
        seq![spec_encode_start_line(m, path)] + hs.map_values(
            |p: (Seq<u8>, Seq<u8>)| spec_encode_header(p),
        ),
    )
}

/// A known verb's token decodes back to the verb.
proof fn lemma_method_token_round_trip(m: Method)
    requires
        m != Method::UNKNOWN,
        m != Method::UNDEFINED,
    ensures
        spec_method_of(ascii_of(spec_method_token(m))) == m,
{
    reveal_strlit("GET");
    reveal_strlit("POST");
    reveal_strlit("DELETE");
    reveal_strlit("OPTIONS");
    reveal_strlit("HEAD");
    reveal_strlit("PUT");
    reveal_strlit("PATCH");
    reveal_strlit("TRACE");
    reveal_strlit("CONNECT");
    assert(ascii_of("GET"@).len() == 3 && ascii_of("GET"@)[0] == 71);
    assert(ascii_of("POST"@).len() == 4 && ascii_of("POST"@)[0] == 80);
    assert(ascii_of("DELETE"@).len() == 6 && ascii_of("DELETE"@)[0] == 68);
    assert(ascii_of("OPTIONS"@).len() == 7 && ascii_of("OPTIONS"@)[0] == 79);
    assert(ascii_of("HEAD"@).len() == 4 && ascii_of("HEAD"@)[0] == 72);
    assert(ascii_of("PUT"@).len() == 3 && ascii_of("PUT"@)[0] == 80);
    assert(ascii_of("PATCH"@).len() == 5 && ascii_of("PATCH"@)[0] == 80);
    assert(ascii_of("TRACE"@).len() == 5 && ascii_of("TRACE"@)[0] == 84);
    assert(ascii_of("CONNECT"@).len() == 7 && ascii_of("CONNECT"@)[0] == 67);
    assert(ascii_of("PUT"@)[1] == 85 && ascii_of("GET"@)[1] == 69);
    assert(ascii_of("HEAD"@)[1] == 69 && ascii_of("POST"@)[1] == 79);
    assert(ascii_of("PATCH"@)[1] == 65 && ascii_of("TRACE"@)[1] == 82);
    assert(ascii_of("CONNECT"@)[1] == 79 && ascii_of("OPTIONS"@)[1] == 80);
}

/// A header field whose encoding stays on one line: a non-empty name
/// without colon or line break, and a value without line breaks or a
/// leading blank.
pub open spec fn line_safe_header(p: (Seq<u8>, Seq<u8>)) -> bool {
    &&& p.0.len() >= 1
    &&& (forall|i: int|
        0 <= i < p.0.len() ==> #[trigger] p.0[i] != 58 && p.0[i] != 13 && p.0[i] != 10)
    &&& (forall|i: int| 0 <= i < p.1.len() ==> #[trigger] p.1[i] != 13 && p.1[i] != 10)
    &&& (p.1.len() == 0 || !is_space(p.1[0]))
}

/// An ordinary header: line-safe, and none of the five special names.
pub open spec fn plain_header(p: (Seq<u8>, Seq<u8>)) -> bool {
    &&& line_safe_header(p)
    &&& p.0 != ascii_of("Host"@)
    &&& p.0 != ascii_of("Connection"@)
    &&& p.0 != ascii_of("Accept"@)
    &&& p.0 != ascii_of("Content-Length"@)
    &&& p.0 != ascii_of("Content-Type"@)
}

/// How the parser takes an encoded header line apart: the colon stands
/// right after the name, and trimming the rest gives back the value.
proof fn lemma_encode_header_parts(p: (Seq<u8>, Seq<u8>))
    requires
        line_safe_header(p),
    ensures
        ({
            let line = spec_encode_header(p);
            let nlen = p.0.len() as int;
            &&& idx_of(line, 58) == nlen
            &&& nlen < line.len()
            &&& line.subrange(0, nlen) == p.0
            &&& spec_trim_start(line.subrange(nlen + 1, line.len() as int)) == p.1
        }),
{
    reveal_strlit(": ");
    let line = spec_encode_header(p);
    let nlen = p.0.len() as int;
    assert(line[nlen] == 58);
    assert(forall|k: int| 0 <= k < nlen ==> line[k] == p.0[k]);
    crate::bytes::lemma_idx_of_at(line, 58, nlen);
    assert(line.subrange(0, nlen) =~= p.0);
    let after = line.subrange(nlen + 1, line.len() as int);
    assert(after.len() == p.1.len() + 1);
    assert(after[0] == 32);
    assert(after.drop_first() =~= p.1);
    assert(spec_trim_start(after) == spec_trim_start(p.1));
    if p.1.len() == 0 {
        assert(spec_trim_start(p.1) =~= p.1);
    } else {
        assert(!is_space(p.1[0]));
        assert(spec_trim_start(p.1) == p.1);
    }
}

proof fn lemma_plain_header_step(m: ReqM, p: (Seq<u8>, Seq<u8>))
    requires
        plain_header(p),
        hdr_idx(m.headers, p.0) == m.headers.len(),
    ensures
        spec_header_step(m, spec_encode_header(p)) == Some(
            ReqM { headers: m.headers.push(p), ..m },
        ),
{
    lemma_encode_header_parts(p);
    assert(ReqM { headers: m.headers.push(p), ..m } == ReqM {
        headers: m.headers.push((p.0, p.1)),
        ..m
    });
}

/// The step for an ordinary name already present: the new value joins
/// the stored one after two blanks.
proof fn lemma_plain_header_step_dup(m: ReqM, p: (Seq<u8>, Seq<u8>))
    requires
        plain_header(p),
        hdr_idx(m.headers, p.0) < m.headers.len(),
    ensures
        spec_header_step(m, spec_encode_header(p)) == Some(
            ReqM {
                headers: m.headers.update(
                    hdr_idx(m.headers, p.0),
                    (p.0, m.headers[hdr_idx(m.headers, p.0)].1 + ascii_of("  "@) + p.1),
                ),
                ..m
            },
        ),
{
    lemma_encode_header_parts(p);
}

proof fn lemma_fold_plain_headers(m: ReqM, hs: Seq<(Seq<u8>, Seq<u8>)>)
    requires
        forall|i: int| 0 <= i < hs.len() ==> plain_header(#[trigger] hs[i]),
        forall|i: int, j: int| 0 <= i < j < hs.len() ==> hs[i].0 != hs[j].0,
        forall|i: int, j: int|
            0 <= i < hs.len() && 0 <= j < m.headers.len() ==> (#[trigger] hs[i].0) != (
            #[trigger] m.headers[j].0),
    ensures
        spec_header_fold(m, hs.map_values(|p: (Seq<u8>, Seq<u8>)| spec_encode_header(p))) == Some(
            ReqM { headers: m.headers + hs, ..m },
        ),
    decreases hs.len(),
{
    let lines = hs.map_values(|p: (Seq<u8>, Seq<u8>)| spec_encode_header(p));
    if hs.len() == 0 {
        assert(m.headers + hs =~= m.headers);
        assert(ReqM { headers: m.headers + hs, ..m } == m);
    } else {
        let p = hs[0];
        assert(lines[0] == spec_encode_header(p));
        assert(lines[0].len() > 0);
        lemma_hdr_idx_at(m.headers, p.0, m.headers.len() as int);
        lemma_plain_header_step(m, p);
        let m2 = ReqM { headers: m.headers.push(p), ..m };
        let t = hs.drop_first();
        assert(forall|i: int| 0 <= i < t.len() ==> plain_header(#[trigger] t[i]));
        assert forall|i: int, j: int| 0 <= i < j < t.len() implies t[i].0 != t[j].0 by {
            assert(t[i] == hs[i + 1] && t[j] == hs[j + 1]);
        }
        assert forall|i: int, j: int|
            0 <= i < t.len() && 0 <= j < m2.headers.len() implies (#[trigger] t[i].0) != (
            #[trigger] m2.headers[j].0) by {
            assert(t[i] == hs[i + 1]);
            if j < m.headers.len() {
                assert(m2.headers[j] == m.headers[j]);
            } else {
                assert(m2.headers[j] == hs[0]);
            }
        }
        lemma_fold_plain_headers(m2, t);
        assert(lines.drop_first() =~= t.map_values(
            |q: (Seq<u8>, Seq<u8>)| spec_encode_header(q),
        ));
        assert(m2.headers + t =~= m.headers + hs);
    }
}

/// Framing a head from a known verb, a plain path and line-safe headers,
/// then decoding it, reaches the start-line state and folds exactly the
/// encoded header lines.
proof fn lemma_parse_encoded_head(m: Method, path: Seq<u8>, hs: Seq<(Seq<u8>, Seq<u8>)>)
    requires
        m != Method::UNKNOWN,
        m != Method::UNDEFINED,
        path.len() >= 1,
        no_ws(path),
        forall|i: int| 0 <= i < path.len() ==> #[trigger] path[i] != 63,
        forall|i: int| 0 <= i < hs.len() ==> line_safe_header(#[trigger] hs[i]),
    ensures
        spec_parse_request(spec_encode_request(m, path, hs)) == spec_header_fold(
            (ReqM { method: m, http_version: ascii_of("HTTP/1.1"@), path: path, ..spec_default_req() }),
            hs.map_values(|p: (Seq<u8>, Seq<u8>)| spec_encode_header(p)),
        ),
{
    reveal_strlit(" ");
    reveal_strlit(": ");
    reveal_strlit("HTTP/1.1");
    reveal_strlit("GET");
    reveal_strlit("POST");
    reveal_strlit("DELETE");
    reveal_strlit("OPTIONS");
    reveal_strlit("HEAD");
    reveal_strlit("PUT");
    reveal_strlit("PATCH");
    reveal_strlit("TRACE");
    reveal_strlit("CONNECT");
    reveal_strlit("UNKNOWN");
    let start = spec_encode_start_line(m, path);
    let lines = seq![start] + hs.map_values(|p: (Seq<u8>, Seq<u8>)| spec_encode_header(p));
    let wire = spec_encode_request(m, path, hs);

    // Every line is free of separators, so the split undoes the join.
    assert forall|i: int| 0 <= i < lines.len() implies !has_sub(#[trigger] lines[i], crlf()) by {
        if i == 0 {
            let tok = ascii_of(spec_method_token(m));
            assert(no_ws(tok)) by {
                lemma_method_token_round_trip(m);
            }
            assert forall|j: int| !is_at(start, crlf(), j) by {
                if 0 <= j && j + 2 <= start.len() {
                    if is_at(start, crlf(), j) {
                        assert(start[j] == 13);
                        assert(is_ws(13));
                        assert(false);
                    }
                }
            }
        } else {
            let p = hs[i - 1];
            assert(lines[i] == spec_encode_header(p));
            assert forall|j: int| !is_at(lines[i], crlf(), j) by {
                if 0 <= j && j + 2 <= lines[i].len() {
                    if is_at(lines[i], crlf(), j) {
                        assert(lines[i][j] == 13);
                        let line = spec_encode_header(p);
                        let nlen = p.0.len() as int;
                        if j < nlen {
                            assert(line[j] == p.0[j]);
                        } else if j == nlen {
                            assert(line[j] == 58);
                        } else if j == nlen + 1 {
                            assert(line[j] == 32);
                        } else {
                            assert(line[j] == p.1[j - nlen - 2]);
                        }
                        assert(false);
                    }
                }
            }
        }
    }
    lemma_split_crlf_of_join(lines);
    assert(spec_split_crlf(wire) == lines);
    assert(lines[0] == start);

    // The start line tokenizes into exactly the three tokens.
    let tok = ascii_of(spec_method_token(m));
    assert(tok.len() >= 1 && no_ws(tok)) by {
        lemma_method_token_round_trip(m);
    }
    let v11 = ascii_of("HTTP/1.1"@);
    assert(v11.len() == 8 && no_ws(v11));
    let empty_toks = Seq::<Seq<u8>>::empty();
    assert(start =~= tok + (ascii_of(" "@) + (path + (ascii_of(" "@) + (v11
        + Seq::<u8>::empty())))));
    lemma_acc_token(tok, ascii_of(" "@) + (path + (ascii_of(" "@) + (v11 + Seq::<u8>::empty()))),
        Seq::empty(), empty_toks);
    assert(Seq::<u8>::empty() + tok =~= tok);
    lemma_acc_space(path + (ascii_of(" "@) + (v11 + Seq::<u8>::empty())), tok, empty_toks);
    lemma_acc_token(path, ascii_of(" "@) + (v11 + Seq::<u8>::empty()), Seq::empty(),
        empty_toks.push(tok));
    assert(Seq::<u8>::empty() + path =~= path);
    lemma_acc_space(v11 + Seq::<u8>::empty(), path, empty_toks.push(tok));
    lemma_acc_token(v11, Seq::<u8>::empty(), Seq::empty(), empty_toks.push(tok).push(path));
    assert(Seq::<u8>::empty() + v11 =~= v11);
    assert(crate::bytes::split_ws_acc(Seq::<u8>::empty(), v11, empty_toks.push(tok).push(path))
        == empty_toks.push(tok).push(path).push(v11));
    let toks = empty_toks.push(tok).push(path).push(v11);
    assert(spec_split_ws(start) == toks);
    assert(toks.len() == 3);
    assert(first_line_ok(start));

    // The start line decodes to the verb, the path, and the version.
    lemma_method_token_round_trip(m);
    assert(toks[0] == tok && toks[1] == path && toks[2] == v11);
    crate::bytes::lemma_idx_of_at(path, 63, path.len() as int);
    assert(spec_split_target(path) == (path, Option::<Seq<u8>>::None));
    let m0 = first_line_apply(spec_default_req(), start);
    assert(m0 == (ReqM {
        method: m,
        http_version: v11,
        path: path,
        ..spec_default_req()
    }));
    assert(lines.drop_first() =~= hs.map_values(|p: (Seq<u8>, Seq<u8>)| spec_encode_header(p)));
    assert(spec_deserialize(lines) == spec_header_fold(m0, lines.drop_first()));
}

/// Wire round trip: a request head framed from a known verb, a plain
/// path, and ordinary distinct headers decodes back to exactly that verb,
/// that path, and those headers.
pub proof fn lemma_request_round_trip(m: Method, path: Seq<u8>, hs: Seq<(Seq<u8>, Seq<u8>)>)
    requires
        m != Method::UNKNOWN,
        m != Method::UNDEFINED,
        path.len() >= 1,
        no_ws(path),
        forall|i: int| 0 <= i < path.len() ==> #[trigger] path[i] != 63,
        forall|i: int| 0 <= i < hs.len() ==> plain_header(#[trigger] hs[i]),
        forall|i: int, j: int| 0 <= i < j < hs.len() ==> hs[i].0 != hs[j].0,
    ensures
        spec_parse_request(spec_encode_request(m, path, hs)) == Some(
            ReqM {
                method: m,
                http_version: ascii_of("HTTP/1.1"@),
                path: path,
                headers: hs,
                ..spec_default_req()
            },
        ),
{
    assert(forall|i: int| 0 <= i < hs.len() ==> line_safe_header(#[trigger] hs[i]));
    lemma_parse_encoded_head(m, path, hs);
    let m0 = ReqM { method: m, http_version: ascii_of("HTTP/1.1"@), path: path, ..spec_default_req() };
    assert(m0.headers.len() == 0);
    lemma_fold_plain_headers(m0, hs);
    assert(m0.headers + hs =~= hs);
}

/// Duplicate-header concatenation: a head carrying the same ordinary
/// name twice decodes to one entry whose value is the first value, two
/// blanks, and the second value.
pub proof fn lemma_duplicate_header_concat(m: Method, path: Seq<u8>, name: Seq<u8>, v1: Seq<u8>, v2: Seq<u8>)
    requires
        m != Method::UNKNOWN,
        m != Method::UNDEFINED,
        path.len() >= 1,
        no_ws(path),
        forall|i: int| 0 <= i < path.len() ==> #[trigger] path[i] != 63,
        plain_header((name, v1)),
        plain_header((name, v2)),
    ensures
        spec_parse_request(spec_encode_request(m, path, seq![(name, v1), (name, v2)])) == Some(
            ReqM {
                method: m,
                http_version: ascii_of("HTTP/1.1"@),
                path: path,
                headers: seq![(name, v1 + ascii_of("  "@) + v2)],
                ..spec_default_req()
            },
        ),
{
    let hs = seq![(name, v1), (name, v2)];
    assert(forall|i: int| 0 <= i < hs.len() ==> line_safe_header(#[trigger] hs[i]));
    lemma_parse_encoded_head(m, path, hs);
    let m0 = ReqM { method: m, http_version: ascii_of("HTTP/1.1"@), path: path, ..spec_default_req() };
    let lines = hs.map_values(|p: (Seq<u8>, Seq<u8>)| spec_encode_header(p));
    assert(lines[0] == spec_encode_header(hs[0]));
    assert(lines[0].len() > 0);
    lemma_hdr_idx_at(m0.headers, name, 0);
    lemma_plain_header_step(m0, (name, v1));
    let m1 = ReqM { headers: m0.headers.push((name, v1)), ..m0 };
    assert(m1.headers =~= seq![(name, v1)]);
    assert(lines.drop_first()[0] == spec_encode_header(hs[1]));
    assert(lines.drop_first()[0].len() > 0);
    lemma_hdr_idx_at(m1.headers, name, 0);
    lemma_plain_header_step_dup(m1, (name, v2));
    assert(m1.headers[0] == (name, v1));
    let m2 = ReqM {
        headers: m1.headers.update(0, (name, m1.headers[0].1 + ascii_of("  "@) + v2)),
        ..m1
    };
    let l1 = lines.drop_first();
    let l2 = l1.drop_first();
    assert(l2.len() == 0);
    assert(spec_header_fold(m2, l2) == Some(m2));
    assert(spec_header_fold(m1, l1) == Some(m2));
    assert(spec_header_fold(m0, lines) == Some(m2));
    assert(m2.headers =~= seq![(name, v1 + ascii_of("  "@) + v2)]);
}

/// The `Accept` step: a first value is stored, a repeated one joins the
/// stored value after one blank.
proof fn lemma_accept_step(m: ReqM, v: Seq<u8>)
    requires
        forall|i: int| 0 <= i < v.len() ==> #[trigger] v[i] != 13 && v[i] != 10,
        v.len() == 0 || !is_space(v[0]),
    ensures
        spec_header_step(m, spec_encode_header((ascii_of("Accept"@), v))) == Some(
            match m.accept {
                None => ReqM { accept: Some(v), ..m },
                Some(a) => ReqM { accept: Some(a + ascii_of(" "@) + v), ..m },
            },
        ),
{
    reveal_strlit("Accept");
    reveal_strlit("Host");
    reveal_strlit("Connection");
    reveal_strlit(" ");
    let name = ascii_of("Accept"@);
    assert(name.len() == 6);
    assert(name[0] == 65 && name[1] == 99 && name[2] == 99 && name[3] == 101 && name[4] == 112
        && name[5] == 116);
    assert(line_safe_header((name, v))) by {
        assert forall|i: int| 0 <= i < name.len() implies #[trigger] name[i] != 58 && name[i] != 13
            && name[i] != 10 by {
            assert(name[i] == 65 || name[i] == 99 || name[i] == 101 || name[i] == 112 || name[i]
                == 116);
        }
    }
    lemma_encode_header_parts((name, v));
    assert(ascii_of("Host"@).len() == 4);
    assert(ascii_of("Connection"@).len() == 10);
    assert(name != ascii_of("Host"@));
    assert(name != ascii_of("Connection"@));
}

/// Repeated `Accept` values accumulate: a head carrying `Accept` twice
/// decodes with the two values joined by one blank.
pub proof fn lemma_accept_concat(m: Method, path: Seq<u8>, v1: Seq<u8>, v2: Seq<u8>)
    requires
        m != Method::UNKNOWN,
        m != Method::UNDEFINED,
        path.len() >= 1,
        no_ws(path),
        forall|i: int| 0 <= i < path.len() ==> #[trigger] path[i] != 63,
        forall|i: int| 0 <= i < v1.len() ==> #[trigger] v1[i] != 13 && v1[i] != 10,
        v1.len() == 0 || !is_space(v1[0]),
        forall|i: int| 0 <= i < v2.len() ==> #[trigger] v2[i] != 13 && v2[i] != 10,
        v2.len() == 0 || !is_space(v2[0]),
    ensures
        spec_parse_request(
            spec_encode_request(
                m,
                path,
                seq![(ascii_of("Accept"@), v1), (ascii_of("Accept"@), v2)],
            ),
        ) == Some(
            ReqM {
                method: m,
                http_version: ascii_of("HTTP/1.1"@),
                path: path,
                accept: Some(v1 + ascii_of(" "@) + v2),
                ..spec_default_req()
            },
        ),
{
    reveal_strlit("Accept");
    let name = ascii_of("Accept"@);
    let hs = seq![(name, v1), (name, v2)];
    assert(forall|i: int| 0 <= i < hs.len() ==> line_safe_header(#[trigger] hs[i])) by {
        assert(name.len() == 6);
        assert(name[0] == 65 && name[1] == 99 && name[2] == 99 && name[3] == 101 && name[4] == 112
            && name[5] == 116);
        assert forall|i: int| 0 <= i < name.len() implies #[trigger] name[i] != 58 && name[i] != 13
            && name[i] != 10 by {
            assert(name[i] == 65 || name[i] == 99 || name[i] == 101 || name[i] == 112 || name[i]
                == 116);
        }
        assert(line_safe_header(hs[0]));
        assert(line_safe_header(hs[1]));
    }
    lemma_parse_encoded_head(m, path, hs);
    let m0 = ReqM { method: m, http_version: ascii_of("HTTP/1.1"@), path: path, ..spec_default_req() };
    let lines = hs.map_values(|p: (Seq<u8>, Seq<u8>)| spec_encode_header(p));
    assert(lines[0] == spec_encode_header(hs[0]));
    assert(lines[0].len() > 0);
    lemma_accept_step(m0, v1);
    let m1 = ReqM { accept: Some(v1), ..m0 };
    assert(lines.drop_first()[0] == spec_encode_header(hs[1]));
    assert(lines.drop_first()[0].len() > 0);
    lemma_accept_step(m1, v2);
    let m2 = ReqM { accept: Some(v1 + ascii_of(" "@) + v2), ..m1 };
    let l1 = lines.drop_first();
    let l2 = l1.drop_first();
    assert(l2.len() == 0);
    assert(spec_header_fold(m2, l2) == Some(m2));
    assert(spec_header_fold(m1, l1) == Some(m2));
    assert(spec_header_fold(m0, lines) == Some(m2));
}

} // verus!
