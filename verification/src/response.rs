//! Response building and serialization: the status line, the headers with
//! their `Content-Length`, the body policy for HEAD / 204 / 304, and the
//! synthesized directory listing. The wire form of a response is specified
//! byte for byte, and the `Content-Length` a header carries always equals
//! the number of body bytes emitted before the trailing line break.

use vstd::prelude::*;

use crate::bytes::{ascii_of, copy_bytes, dec_digits, fmt_usize, str_bytes};
use crate::config::{assoc_idx, cgi_view, lemma_assoc_idx, upsert};
use crate::http::{Method, ResponseCode};
use crate::request::crlf;

verus! {

/// A body handed over as either inline text or a file path.
pub struct Body {
    pub string: Option<Vec<u8>>,
    pub path: Option<Vec<u8>>,
}

impl Body {
    pub fn from_string(content: Vec<u8>) -> (r: Body)
        ensures
            r.string == Some(content),
            r.path is None,
    {
        Body { string: Some(content), path: None }
    }

    pub fn from_path(path: Vec<u8>) -> (r: Body)
        ensures
            r.string is None,
            r.path == Some(path),
    {
        Body { string: None, path: Some(path) }
    }
}

/// A response being assembled: its status, its headers in emission order,
/// the method of the request it answers, and its body — inline bytes, or
/// a file of known length that the driver streams.
pub struct Response {
    pub code: ResponseCode,
    pub headers: Vec<(Vec<u8>, Vec<u8>)>,
    pub request_method: Method,
    pub file_len: Option<usize>,
    pub content: Vec<u8>,
}

/// May this response carry a body? Not for 204, 304, or an answer to
/// HEAD.
pub open spec fn spec_body_allowed(code: u16, method: Method) -> bool {
    !(code == 204 || code == 304 || method == Method::HEAD)
}

/// The byte count of the body that will be emitted before the trailing
/// line break.
pub open spec fn spec_body_len(r: Response) -> int {
    match r.file_len {
        Some(n) => n as int,
        None => r.content@.len() as int,
    }
}

/// One header line: `name: value` and a line break.
pub open spec fn spec_header_line(p: (Seq<u8>, Seq<u8>)) -> Seq<u8> {
    p.0 + ascii_of(": "@) + p.1 + crlf()
}

/// All header lines in order.
pub open spec fn spec_header_lines(hs: Seq<(Seq<u8>, Seq<u8>)>) -> Seq<u8>
    decreases hs.len(),
{
    if hs.len() == 0 {
        Seq::empty()
    } else {
        spec_header_line(hs[0]) + spec_header_lines(hs.drop_first())
    }
}

/// The serialized head: status line, header lines, and the blank line.
pub open spec fn spec_serialized_head(code: u16, msg: Seq<u8>, hs: Seq<(Seq<u8>, Seq<u8>)>) -> Seq<
    u8,
> {
    ascii_of("HTTP/1.1 "@) + dec_digits(code as nat) + ascii_of(" "@) + msg + crlf()
        + spec_header_lines(hs) + crlf()
}

impl Response {
    /// A response for a status: the reason phrase becomes the default
    /// body, and a redirect status brings its `Location` header.
    pub fn new(code: ResponseCode, request_method: Method) -> (r: Response)
        ensures
            r.code == code,
            r.request_method == request_method,
            r.file_len is None,
            r.content@ == code.msg@,
            cgi_view(r.headers@) == (match crate::config::opt_view(code.redirect) {
                Some(t) => Seq::<(Seq<u8>, Seq<u8>)>::empty().push((ascii_of("Location"@), t)),
                None => Seq::<(Seq<u8>, Seq<u8>)>::empty(),
            }),
    {
        proof {
            reveal_strlit("Location");
        }
        let mut headers: Vec<(Vec<u8>, Vec<u8>)> = Vec::new();
        proof {
            assert(cgi_view(headers@) =~= Seq::<(Seq<u8>, Seq<u8>)>::empty());
        }
        if let Some(t) = &code.redirect {
            headers.push((str_bytes("Location"), copy_bytes(t)));
            proof {
                assert(cgi_view(headers@) =~= Seq::<(Seq<u8>, Seq<u8>)>::empty().push(
                    (ascii_of("Location"@), t@)));
            }
        }
        let content = copy_bytes(&code.msg);
        Response { code, headers, request_method, file_len: None, content }
    }

    /// Marks the body as a file of this many bytes; the driver streams it.
    pub fn file(self, len: usize) -> (r: Response)
        ensures
            r == (Response { file_len: Some(len), ..self }),
    {
        Response { file_len: Some(len), ..self }
    }

    /// Stores a header, replacing one of the same name.
    pub fn add_header(&mut self, key: Vec<u8>, value: Vec<u8>)
        ensures
            cgi_view(final(self).headers@) == upsert(cgi_view(old(self).headers@), key@, value@),
            final(self).code == old(self).code,
            final(self).request_method == old(self).request_method,
            final(self).file_len == old(self).file_len,
            final(self).content == old(self).content,
    {
        crate::config::upsert_pair(&mut self.headers, key, value);
    }

    pub fn content(&self) -> (r: &Vec<u8>)
        ensures
            r == self.content,
    {
        &self.content
    }

    pub fn set_content(&mut self, content: Vec<u8>)
        ensures
            *final(self) == (Response { content: content, ..*old(self) }),
    {
        self.content = content;
    }

    /// May this response carry a body?
    pub fn body_allowed(&self) -> (r: bool)
        ensures
            r == spec_body_allowed(self.code.code, self.request_method),
    {
        if self.code.code == 204 || self.code.code == 304 {
            false
        } else if matches!(self.request_method, Method::HEAD) {
            false
        } else {
            true
        }
    }

    /// Serializes the head. When a body is allowed, a `Content-Length`
    /// header equal to the body byte count is stored first; when not, no
    /// length is emitted.
    pub fn serialize_header(&mut self) -> (r: Vec<u8>)
        ensures
            final(self).code == old(self).code,
            final(self).request_method == old(self).request_method,
            final(self).file_len == old(self).file_len,
            final(self).content == old(self).content,
            cgi_view(final(self).headers@) == (if spec_body_allowed(
                old(self).code.code,
                old(self).request_method,
            ) {
                upsert(
                    cgi_view(old(self).headers@),
                    ascii_of("Content-Length"@),
                    dec_digits(spec_body_len(*old(self)) as nat),
                )
            } else {
                cgi_view(old(self).headers@)
            }),
            r@ == spec_serialized_head(
                old(self).code.code,
                old(self).code.msg@,
                cgi_view(final(self).headers@),
            ),
    {
        proof {
            reveal_strlit("Content-Length");
            reveal_strlit("HTTP/1.1 ");
            reveal_strlit(" ");
            reveal_strlit(": ");
        }
        if self.body_allowed() {
            let blen = match &self.file_len {
                Some(n) => *n,
                None => self.content.len(),
            };
            self.add_header(str_bytes("Content-Length"), fmt_usize(blen));
        }
        let mut out = str_bytes("HTTP/1.1 ");
        let code_digits = fmt_usize(self.code.code as usize);
        crate::bytes::append_bytes(&mut out, code_digits.as_slice());
        crate::bytes::append_bytes(&mut out, str_bytes(" ").as_slice());
        crate::bytes::append_bytes(&mut out, self.code.msg.as_slice());
        out.push(13);
        out.push(10);
        let ghost hs = cgi_view(self.headers@);
        let ghost head_prefix = out@;
        let mut j: usize = 0;
        while j < self.headers.len()
            invariant
                j <= self.headers@.len(),
                hs == cgi_view(self.headers@),
                hs.len() == self.headers@.len(),
                forall|k: int| 0 <= k < hs.len() ==> hs[k] == (self.headers@[k].0@, self.headers@[k].1@),
                out@ == head_prefix + spec_header_lines(hs.take(j as int)),
            decreases self.headers@.len() - j,
        {
            let ghost pre = out@;
            proof {
                reveal_strlit(": ");
            }
            crate::bytes::append_bytes(&mut out, self.headers[j].0.as_slice());
            crate::bytes::append_bytes(&mut out, str_bytes(": ").as_slice());
            crate::bytes::append_bytes(&mut out, self.headers[j].1.as_slice());
            out.push(13);
            out.push(10);
            proof {
                assert(out@ =~= pre + spec_header_line(hs[j as int]));
                assert(hs.take(j + 1) =~= hs.take(j as int).push(hs[j as int]));
                lemma_header_lines_push(hs.take(j as int), hs[j as int]);
                assert(out@ =~= head_prefix + spec_header_lines(hs.take(j + 1)));
            }
            j = j + 1;
        }
        out.push(13);
        out.push(10);
        proof {
            assert(hs.take(hs.len() as int) =~= hs);
            assert(out@ =~= spec_serialized_head(self.code.code, self.code.msg@, hs));
        }
        out
    }

    /// The whole wire form of a response whose body is inline: the head,
    /// then — when a body is allowed — the body bytes and the trailing
    /// line break. The `Content-Length` stored in the head equals the
    /// body bytes emitted before that line break.
    pub fn wire_bytes(&mut self) -> (r: Vec<u8>)
        requires
            old(self).file_len is None,
        ensures
            final(self).content == old(self).content,
            r@ == spec_serialized_head(
                old(self).code.code,
                old(self).code.msg@,
                cgi_view(final(self).headers@),
            ) + (if spec_body_allowed(old(self).code.code, old(self).request_method) {
                old(self).content@ + crlf()
            } else {
                Seq::<u8>::empty()
            }),
            cgi_view(final(self).headers@) == (if spec_body_allowed(
                old(self).code.code,
                old(self).request_method,
            ) {
                upsert(
                    cgi_view(old(self).headers@),
                    ascii_of("Content-Length"@),
                    dec_digits(old(self).content@.len() as nat),
                )
            } else {
                cgi_view(old(self).headers@)
            }),
    {
        let mut out = self.serialize_header();
        if self.body_allowed() {
            crate::bytes::append_bytes(&mut out, self.content.as_slice());
            out.push(13);
            out.push(10);
            proof {
                assert(out@ =~= spec_serialized_head(
                    self.code.code,
                    self.code.msg@,
                    cgi_view(self.headers@),
                ) + (self.content@ + crlf()));
            }
        }
        out
    }
}

proof fn lemma_header_lines_push(a: Seq<(Seq<u8>, Seq<u8>)>, x: (Seq<u8>, Seq<u8>))
    ensures
        spec_header_lines(a.push(x)) == spec_header_lines(a) + spec_header_line(x),
    decreases a.len(),
{
    if a.len() == 0 {
        assert(a.push(x).drop_first() =~= Seq::<(Seq<u8>, Seq<u8>)>::empty());
        assert(a.push(x)[0] == x);
        assert(spec_header_lines(Seq::<(Seq<u8>, Seq<u8>)>::empty()) =~= Seq::<u8>::empty());
        assert(spec_header_lines(a.push(x)) =~= spec_header_line(x));
        assert(spec_header_lines(a) + spec_header_line(x) =~= spec_header_line(x));
    } else {
        assert(a.push(x).drop_first() =~= a.drop_first().push(x));
        assert(a.push(x)[0] == a[0]);
        lemma_header_lines_push(a.drop_first(), x);
        assert(spec_header_line(a[0]) + (spec_header_lines(a.drop_first()) + spec_header_line(x))
            =~= (spec_header_line(a[0]) + spec_header_lines(a.drop_first())) + spec_header_line(x));
    }
}

/// Byte-wise lexicographic order.
pub open spec fn lex_le(a: Seq<u8>, b: Seq<u8>) -> bool
    decreases a.len(),
{
    if a.len() == 0 {
        true
    } else if b.len() == 0 {
        false
    } else if a[0] < b[0] {
        true
    } else if a[0] > b[0] {
        false
    } else {
        lex_le(a.drop_first(), b.drop_first())
    }
}

/// Two byte strings always compare one way or the other.
pub proof fn lemma_lex_total(a: Seq<u8>, b: Seq<u8>)
    ensures
        lex_le(a, b) || lex_le(b, a),
    decreases a.len(),
{
    if a.len() > 0 && b.len() > 0 && a[0] == b[0] {
        lemma_lex_total(a.drop_first(), b.drop_first());
    }
}

proof fn lemma_lex_skip(a: Seq<u8>, b: Seq<u8>, i: int)
    requires
        0 <= i <= a.len(),
        i <= b.len(),
        forall|k: int| 0 <= k < i ==> a[k] == b[k],
    ensures
        lex_le(a, b) == lex_le(a.skip(i), b.skip(i)),
    decreases i,
{
    if i == 0 {
        assert(a.skip(0) =~= a);
        assert(b.skip(0) =~= b);
    } else {
        let a2 = a.drop_first();
        let b2 = b.drop_first();
        assert(forall|k: int| 0 <= k < i - 1 ==> a2[k] == b2[k]);
        lemma_lex_skip(a2, b2, i - 1);
        assert(a2.skip(i - 1) =~= a.skip(i));
        assert(b2.skip(i - 1) =~= b.skip(i));
    }
}

/// Compares two byte strings lexicographically.
pub fn lex_le_bytes(a: &[u8], b: &[u8]) -> (r: bool)
    ensures
        r == lex_le(a@, b@),
{
    let mut i: usize = 0;
    while i < a.len() && i < b.len()
        invariant
            i <= a@.len(),
            i <= b@.len(),
            forall|k: int| 0 <= k < i ==> a@[k] == b@[k],
        decreases a@.len() - i,
    {
        if a[i] < b[i] {
            proof {
                lemma_lex_skip(a@, b@, i as int);
            }
            return true;
        }
        if a[i] > b[i] {
            proof {
                lemma_lex_skip(a@, b@, i as int);
            }
            return false;
        }
        i = i + 1;
    }
    proof {
        lemma_lex_skip(a@, b@, i as int);
    }
    a.len() <= b.len()
}

/// `x` inserted before the first entry it does not come after.
pub open spec fn spec_insert_sorted(x: Seq<u8>, s: Seq<Seq<u8>>) -> Seq<Seq<u8>>
    decreases s.len(),
{
    if s.len() == 0 {
        seq![x]
    } else if lex_le(x, s[0]) {
        seq![x] + s
    } else {
        seq![s[0]] + spec_insert_sorted(x, s.drop_first())
    }
}

/// The entries sorted ascending by inserting each in turn.
pub open spec fn spec_sort(s: Seq<Seq<u8>>) -> Seq<Seq<u8>>
    decreases s.len(),
{
    if s.len() == 0 {
        Seq::empty()
    } else {
        spec_insert_sorted(s.last(), spec_sort(s.drop_last()))
    }
}

/// Every neighbour pair is in order.
pub open spec fn lex_sorted(s: Seq<Seq<u8>>) -> bool {
    forall|i: int| 0 <= i < s.len() - 1 ==> lex_le(s[i], #[trigger] s[i + 1])
}

proof fn lemma_insert_keeps_sorted(x: Seq<u8>, s: Seq<Seq<u8>>)
    requires
        lex_sorted(s),
    ensures
        lex_sorted(spec_insert_sorted(x, s)),
        spec_insert_sorted(x, s).len() == s.len() + 1,
        spec_insert_sorted(x, s)[0] == x || spec_insert_sorted(x, s)[0] == s[0],
    decreases s.len(),
{
    if s.len() == 0 {
    } else if lex_le(x, s[0]) {
        let r = seq![x] + s;
        assert forall|i: int| 0 <= i < r.len() - 1 implies lex_le(r[i], #[trigger] r[i + 1]) by {
            if i == 0 {
                assert(r[0] == x && r[1] == s[0]);
            } else {
                assert(r[i] == s[i - 1] && r[i + 1] == s[i]);
                assert(lex_le(s[i - 1], s[i - 1 + 1]));
            }
        }
    } else {
        let t = s.drop_first();
        assert(lex_sorted(t)) by {
            assert forall|i: int| 0 <= i < t.len() - 1 implies lex_le(t[i], #[trigger] t[i + 1]) by {
                assert(t[i] == s[i + 1] && t[i + 1] == s[i + 2]);
                assert(lex_le(s[i + 1], s[i + 1 + 1]));
            }
        }
        lemma_insert_keeps_sorted(x, t);
        let sub = spec_insert_sorted(x, t);
        let r = seq![s[0]] + sub;
        lemma_lex_total(x, s[0]);
        assert forall|i: int| 0 <= i < r.len() - 1 implies lex_le(r[i], #[trigger] r[i + 1]) by {
            if i == 0 {
                assert(r[0] == s[0] && r[1] == sub[0]);
                if sub[0] == x {
                    assert(lex_le(s[0], x));
                } else {
                    assert(sub[0] == t[0]);
                    if s.len() > 1 {
                        assert(lex_le(s[0], s[0int + 1]));
                        assert(t[0] == s[1]);
                    }
                }
            } else {
                assert(r[i] == sub[i - 1] && r[i + 1] == sub[i]);
                assert(lex_le(sub[i - 1], sub[i - 1 + 1]));
            }
        }
    }
}

/// The sort's law: what `spec_sort` yields is sorted ascending.
pub proof fn lemma_sort_sorted(s: Seq<Seq<u8>>)
    ensures
        lex_sorted(spec_sort(s)),
    decreases s.len(),
{
    if s.len() > 0 {
        lemma_sort_sorted(s.drop_last());
        lemma_insert_keeps_sorted(s.last(), spec_sort(s.drop_last()));
    }
}

proof fn lemma_insert_sorted_at(x: Seq<u8>, s: Seq<Seq<u8>>, p: int)
    requires
        0 <= p <= s.len(),
        forall|k: int| 0 <= k < p ==> !lex_le(x, s[k]),
        p < s.len() ==> lex_le(x, s[p]),
    ensures
        spec_insert_sorted(x, s) == s.insert(p, x),
    decreases p,
{
    if p == 0 {
        if s.len() == 0 {
            assert(seq![x] =~= s.insert(0, x));
        } else {
            assert(seq![x] + s =~= s.insert(0, x));
        }
    } else {
        let t = s.drop_first();
        assert(!lex_le(x, s[0]));
        assert(forall|k: int| 0 <= k < p - 1 ==> !lex_le(x, t[k]));
        lemma_insert_sorted_at(x, t, p - 1);
        assert(seq![s[0]] + t.insert(p - 1, x) =~= s.insert(p, x));
    }
}

/// Sorts the entries ascending.
pub fn sort_entries(entries: &Vec<Vec<u8>>) -> (r: Vec<Vec<u8>>)
    ensures
        r@.map_values(|v: Vec<u8>| v@) == spec_sort(entries@.map_values(|v: Vec<u8>| v@)),
{
    let ghost env = entries@.map_values(|v: Vec<u8>| v@);
    let mut out: Vec<Vec<u8>> = Vec::new();
    let mut i: usize = 0;
    proof {
        assert(env.take(0) =~= Seq::<Seq<u8>>::empty());
        assert(out@.map_values(|v: Vec<u8>| v@) =~= spec_sort(env.take(0)));
    }
    while i < entries.len()
        invariant
            i <= entries@.len(),
            env == entries@.map_values(|v: Vec<u8>| v@),
            out@.map_values(|v: Vec<u8>| v@) == spec_sort(env.take(i as int)),
        decreases entries@.len() - i,
    {
        let ghost outv = out@.map_values(|v: Vec<u8>| v@);
        proof {
            assert(entries@[i as int]@ == env[i as int]);
            assert(env.take(i + 1).drop_last() =~= env.take(i as int));
            assert(env.take(i + 1).last() == env[i as int]);
        }
        let x = copy_bytes(&entries[i]);
        let mut p: usize = 0;
        while p < out.len() && !lex_le_bytes(x.as_slice(), out[p].as_slice())
            invariant
                p <= out@.len(),
                outv == out@.map_values(|v: Vec<u8>| v@),
                outv.len() == out@.len(),
                x@ == env[i as int],
                i < env.len(),
                forall|k: int| 0 <= k < outv.len() ==> outv[k] == out@[k]@,
                forall|k: int| 0 <= k < p ==> !lex_le(x@, outv[k]),
            decreases out@.len() - p,
        {
            p = p + 1;
        }
        proof {
            lemma_insert_sorted_at(x@, outv, p as int);
        }
        out.insert(p, x);
        proof {
            assert(out@.map_values(|v: Vec<u8>| v@) =~= outv.insert(p as int, env[i as int]));
        }
        i = i + 1;
    }
    proof {
        assert(env.take(env.len() as int) =~= env);
    }
    out
}

/// A directory entry that a listing shows: anything not starting with a
/// dot.
pub open spec fn spec_visible(e: Seq<u8>) -> bool {
    !(e.len() >= 1 && e[0] == 46)
}

/// The entries with dotfiles removed, order kept.
pub open spec fn spec_keep_visible(s: Seq<Seq<u8>>) -> Seq<Seq<u8>>
    decreases s.len(),
{
    if s.len() == 0 {
        Seq::empty()
    } else if spec_visible(s.last()) {
        spec_keep_visible(s.drop_last()).push(s.last())
    } else {
        spec_keep_visible(s.drop_last())
    }
}

fn keep_visible(entries: &Vec<Vec<u8>>) -> (r: Vec<Vec<u8>>)
    ensures
        r@.map_values(|v: Vec<u8>| v@) == spec_keep_visible(entries@.map_values(|v: Vec<u8>| v@)),
{
    let ghost env = entries@.map_values(|v: Vec<u8>| v@);
    let mut out: Vec<Vec<u8>> = Vec::new();
    let mut i: usize = 0;
    proof {
        assert(env.take(0) =~= Seq::<Seq<u8>>::empty());
        assert(out@.map_values(|v: Vec<u8>| v@) =~= spec_keep_visible(env.take(0)));
    }
    while i < entries.len()
        invariant
            i <= entries@.len(),
            env == entries@.map_values(|v: Vec<u8>| v@),
            out@.map_values(|v: Vec<u8>| v@) == spec_keep_visible(env.take(i as int)),
        decreases entries@.len() - i,
    {
        let ghost outv = out@.map_values(|v: Vec<u8>| v@);
        proof {
            assert(entries@[i as int]@ == env[i as int]);
            assert(env.take(i + 1).drop_last() =~= env.take(i as int));
            assert(env.take(i + 1).last() == env[i as int]);
        }
        let e: &Vec<u8> = &entries[i];
        if !(e.len() >= 1 && e[0] == 46) {
            out.push(copy_bytes(e));
            proof {
                assert(out@.map_values(|v: Vec<u8>| v@) =~= outv.push(env[i as int]));
            }
        }
        i = i + 1;
    }
    proof {
        assert(env.take(env.len() as int) =~= env);
    }
    out
}

/// One listing line: a link to the entry.
pub open spec fn spec_file_ref(name: Seq<u8>) -> Seq<u8> {
    ascii_of("        <li><a href=\""@) + name + ascii_of("\">"@) + name + ascii_of(
        "</a></li>"@,
    ) + crlf()
}

/// The listing lines of all entries, in order.
pub open spec fn spec_file_refs(names: Seq<Seq<u8>>) -> Seq<u8>
    decreases names.len(),
{
    if names.len() == 0 {
        Seq::empty()
    } else {
        spec_file_ref(names[0]) + spec_file_refs(names.drop_first())
    }
}

/// Renders the listing lines for the given entries.
pub fn format_file_ref(files: &Vec<Vec<u8>>) -> (r: Vec<u8>)
    ensures
        r@ == spec_file_refs(files@.map_values(|v: Vec<u8>| v@)),
{
    proof {
        assert(files@.map_values(|v: Vec<u8>| v@).skip(0) =~= files@.map_values(
            |v: Vec<u8>| v@,
        ));
    }
    file_refs_from(files, 0)
}

fn file_refs_from(files: &Vec<Vec<u8>>, from: usize) -> (r: Vec<u8>)
    requires
        from <= files@.len(),
    ensures
        r@ == spec_file_refs(files@.map_values(|v: Vec<u8>| v@).skip(from as int)),
    decreases files@.len() - from,
{
    let ghost t = files@.map_values(|v: Vec<u8>| v@);
    let ghost rest = t.skip(from as int);
    if from == files.len() {
        let r: Vec<u8> = Vec::new();
        proof {
            assert(rest.len() == 0);
            assert(r@ =~= spec_file_refs(rest));
        }
        r
    } else {
        proof {
            reveal_strlit("        <li><a href=\"");
            reveal_strlit("\">");
            reveal_strlit("</a></li>");
            assert(rest[0] == t[from as int]);
            assert(files@[from as int]@ == t[from as int]);
            assert(rest.drop_first() =~= t.skip(from as int + 1));
        }
        let mut r = str_bytes("        <li><a href=\"");
        crate::bytes::append_bytes(&mut r, files[from].as_slice());
        crate::bytes::append_bytes(&mut r, str_bytes("\">").as_slice());
        crate::bytes::append_bytes(&mut r, files[from].as_slice());
        crate::bytes::append_bytes(&mut r, str_bytes("</a></li>").as_slice());
        r.push(13);
        r.push(10);
        let tail = file_refs_from(files, from + 1);
        crate::bytes::append_bytes(&mut r, tail.as_slice());
        proof {
            assert(r@ =~= spec_file_ref(rest[0]) + spec_file_refs(rest.drop_first()));
        }
        r
    }
}

/// The listing page: a title naming the directory and one link per
/// visible entry, sorted ascending.
pub open spec fn spec_autoindex(dir: Seq<u8>, names: Seq<Seq<u8>>) -> Seq<u8> {
    ascii_of("<!DOCTYPE html>"@) + crlf() + ascii_of("<html>"@) + crlf() + ascii_of(
        "<head><meta charset=\"UTF-8\"><title>Index of "@,
    ) + dir + ascii_of("</title></head>"@) + crlf() + ascii_of("<body>"@) + crlf() + ascii_of(
        "<h1>Index of "@,
    ) + dir + ascii_of("</h1>"@) + crlf() + ascii_of("<ul>"@) + crlf() + spec_file_refs(names)
        + ascii_of("</ul>"@) + crlf() + ascii_of("</body>"@) + crlf() + ascii_of("</html>"@)
        + crlf()
}

/// Synthesizes the listing response for a directory: its visible entries,
/// sorted ascending, one link each; a 200 with an HTML content type.
#[verifier::rlimit(60)]
pub fn build_auto_index(dir_name: &[u8], entries: &Vec<Vec<u8>>, request_method: Method) -> (r:
    Response)
    ensures
        r.code.code == 200,
        r.code.redirect is None,
        r.request_method == request_method,
        r.file_len is None,
        r.content@ == spec_autoindex(
            dir_name@,
            spec_sort(spec_keep_visible(entries@.map_values(|v: Vec<u8>| v@))),
        ),
        cgi_view(r.headers@) == Seq::<(Seq<u8>, Seq<u8>)>::empty().push(
            (ascii_of("Content-Type"@), ascii_of("text/html"@)),
        ),
{
    proof {
        reveal_strlit("<!DOCTYPE html>");
        reveal_strlit("<html>");
        reveal_strlit("<head><meta charset=\"UTF-8\"><title>Index of ");
        reveal_strlit("</title></head>");
        reveal_strlit("<body>");
        reveal_strlit("<h1>Index of ");
        reveal_strlit("</h1>");
        reveal_strlit("<ul>");
        reveal_strlit("</ul>");
        reveal_strlit("</body>");
        reveal_strlit("</html>");
        reveal_strlit("Content-Type");
        reveal_strlit("text/html");
    }
    let visible = keep_visible(entries);
    let sorted = sort_entries(&visible);
    let refs = format_file_ref(&sorted);
    let mut html = str_bytes("<!DOCTYPE html>");
    html.push(13);
    html.push(10);
    crate::bytes::append_bytes(&mut html, str_bytes("<html>").as_slice());
    html.push(13);
    html.push(10);
    crate::bytes::append_bytes(
        &mut html,
        str_bytes("<head><meta charset=\"UTF-8\"><title>Index of ").as_slice(),
    );
    crate::bytes::append_bytes(&mut html, dir_name);
    crate::bytes::append_bytes(&mut html, str_bytes("</title></head>").as_slice());
    html.push(13);
    html.push(10);
    crate::bytes::append_bytes(&mut html, str_bytes("<body>").as_slice());
    html.push(13);
    html.push(10);
    crate::bytes::append_bytes(&mut html, str_bytes("<h1>Index of ").as_slice());
    crate::bytes::append_bytes(&mut html, dir_name);
    crate::bytes::append_bytes(&mut html, str_bytes("</h1>").as_slice());
    html.push(13);
    html.push(10);
    crate::bytes::append_bytes(&mut html, str_bytes("<ul>").as_slice());
    html.push(13);
    html.push(10);
    crate::bytes::append_bytes(&mut html, refs.as_slice());
    crate::bytes::append_bytes(&mut html, str_bytes("</ul>").as_slice());
    html.push(13);
    html.push(10);
    crate::bytes::append_bytes(&mut html, str_bytes("</body>").as_slice());
    html.push(13);
    html.push(10);
    crate::bytes::append_bytes(&mut html, str_bytes("</html>").as_slice());
    html.push(13);
    html.push(10);
    proof {
        assert(html@ =~= spec_autoindex(
            dir_name@,
            spec_sort(spec_keep_visible(entries@.map_values(|v: Vec<u8>| v@))),
        ));
    }
    let mut resp = Response::new(ResponseCode::from_code(200), request_method);
    resp.add_header(str_bytes("Content-Type"), str_bytes("text/html"));
    resp.set_content(html);
    proof {
        assert(cgi_view(resp.headers@) =~= Seq::<(Seq<u8>, Seq<u8>)>::empty().push(
            (ascii_of("Content-Type"@), ascii_of("text/html"@)),
        ));
    }
    resp
}

/// `Content-Length` after the store: the header is present and carries
/// exactly the stored value.
pub proof fn lemma_content_length_present(s: Seq<(Seq<u8>, Seq<u8>)>, k: Seq<u8>, v: Seq<u8>)
    ensures
        ({
            let t = upsert(s, k, v);
            let i = assoc_idx(t, k);
            0 <= i < t.len() && t[i] == (k, v)
        }),
{
    lemma_assoc_idx(s, k);
    let i0 = assoc_idx(s, k);
    let t = upsert(s, k, v);
    if i0 == s.len() {
        crate::config::lemma_assoc_idx_at(t, k, i0);
    } else {
        crate::config::lemma_assoc_idx_at(t, k, i0);
    }
}

} // verus!
