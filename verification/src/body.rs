//! Body handling: after validation each request's body is consumed in one
//! of four modes — absent, drained and discarded, streamed to one upload
//! file, or handed to the multipart parser. The mode is chosen here, and a
//! [`BodyProgress`] tracker meters every byte against the declared
//! `Content-Length` so the next pipelined request is never touched.

use vstd::math::min;
use vstd::prelude::*;

use crate::bytes::{ascii_of, find_in, has_sub, str_bytes, subvec};
use crate::http::{IoErrorKind, Method, ResponseCode};
use crate::request::Request;

verus! {

/// How a request body with a `Content-Length` is to be uploaded.
#[derive(Clone, Copy, PartialEq, Eq, Structural, Debug)]
pub enum UploadType {
    Normal,
    Multipart,
}

/// Multipart when the `Content-Type` value holds `multipart/form-data`.
pub fn choose_upload_type(request: &Request) -> (r: UploadType)
    ensures
        (r == UploadType::Multipart) == (match request@.content_type {
            Some(ct) => has_sub(ct, ascii_of("multipart/form-data"@)),
            None => false,
        }),
{
    proof {
        reveal_strlit("multipart/form-data");
    }
    match &request.content_type {
        None => UploadType::Normal,
        Some(ct) => {
            match find_in(ct.as_slice(), str_bytes("multipart/form-data").as_slice()) {
                Some(_) => UploadType::Multipart,
                None => UploadType::Normal,
            }
        },
    }
}

/// The boundary token of a multipart `Content-Type` value: the run of
/// non-whitespace bytes after `boundary=`, with the wire prefix `--`
/// prepended. `None` when the value is absent or holds no boundary.
pub open spec fn spec_extract_boundary(ct: Option<Seq<u8>>) -> Option<Seq<u8>> {
    match ct {
        None => None,
        Some(c) => {
            let d = crate::bytes::sub_idx(c, ascii_of("boundary="@));
            if d < 0 {
                None
            } else {
                let toks = crate::bytes::spec_split_ws(c.subrange(d + 9, c.len() as int));
                if toks.len() == 0 {
                    None
                } else {
                    Some(ascii_of("--"@) + toks[0])
                }
            }
        },
    }
}

/// Reads the boundary out of a `Content-Type` value.
pub fn extract_boundary(content_type: Option<&Vec<u8>>) -> (r: Option<Vec<u8>>)
    ensures
        match r {
            Some(b) => spec_extract_boundary(
                match content_type {
                    Some(c) => Some(c@),
                    None => None,
                },
            ) == Some(b@),
            None => spec_extract_boundary(
                match content_type {
                    Some(c) => Some(c@),
                    None => None,
                },
            ) is None,
        },
{
    proof {
        reveal_strlit("boundary=");
        reveal_strlit("--");
    }
    let ct = match content_type {
        None => {
            return None;
        },
        Some(c) => c,
    };
    let key = str_bytes("boundary=");
    let d = match find_in(ct.as_slice(), key.as_slice()) {
        None => {
            proof {
                crate::bytes::lemma_sub_idx_none(ct@, ascii_of("boundary="@));
            }
            return None;
        },
        Some(d) => {
            proof {
                crate::bytes::lemma_sub_idx_at(ct@, ascii_of("boundary="@), d as int);
            }
            d
        },
    };
    let n = ct.len();
    proof {
        assert(ascii_of("boundary="@).len() == 9);
        assert(d + 9 <= n);
    }
    let after = subvec(ct.as_slice(), d + 9, n);
    let toks = crate::bytes::split_ws(after.as_slice());
    if toks.len() == 0 {
        return None;
    }
    proof {
        assert(toks@[0]@ == toks@.map_values(|v: Vec<u8>| v@)[0]);
    }
    let mut b = str_bytes("--");
    crate::bytes::append_bytes(&mut b, toks[0].as_slice());
    Some(b)
}

/// The four ways a body is handled, fixed before any byte of it is read.
#[derive(PartialEq, Debug)]
pub enum BodyMode {
    /// No `Content-Length`: there is no body to consume.
    NoBody,
    /// Read and discard exactly this many bytes.
    Drain(usize),
    /// Stream exactly this many bytes into a single upload file.
    SingleFile(usize),
    /// Hand exactly this many bytes to the multipart parser with this wire
    /// boundary.
    Multipart(usize, Vec<u8>),
}

/// Picks the body mode for a validated request, as the upload rules say:
/// no length means no body; a POST uploads (multipart when the content
/// type says so, otherwise a single file) and demands a usable upload
/// directory; anything else drains. A POST without an upload directory is
/// a 404; a multipart POST without a boundary is a 500.
pub fn choose_body_mode(
    request: &Request,
    upload_folder_set: bool,
    upload_folder_exists: bool,
) -> (r: Result<BodyMode, ResponseCode>)
    ensures
        match r {
            Ok(m) => match request@.content_length {
                None => m == BodyMode::NoBody,
                Some(len) => {
                    if request@.method == Method::POST {
                        &&& upload_folder_set && upload_folder_exists
                        &&& match m {
                            BodyMode::Multipart(l, b) => l == len && (match request@.content_type {
                                Some(ct) => has_sub(ct, ascii_of("multipart/form-data"@))
                                    && spec_extract_boundary(Some(ct)) == Some(b@),
                                None => false,
                            }),
                            BodyMode::SingleFile(l) => l == len && (match request@.content_type {
                                Some(ct) => !has_sub(ct, ascii_of("multipart/form-data"@))
                                    || spec_extract_boundary(Some(ct)) is None,
                                None => true,
                            }),
                            _ => false,
                        }
                    } else {
                        m == BodyMode::Drain(len as usize)
                    }
                },
            },
            Err(rc) => {
                &&& request@.content_length is Some
                &&& request@.method == Method::POST
                &&& (rc.code == 404 || rc.code == 500)
                &&& (rc.code == 404 ==> !(upload_folder_set && upload_folder_exists))
                &&& (rc.code == 500 ==> upload_folder_set && upload_folder_exists)
            },
        },
{
    let len = match &request.content_length {
        None => {
            return Ok(BodyMode::NoBody);
        },
        Some(l) => *l,
    };
    if !matches!(request.method, Method::POST) {
        return Ok(BodyMode::Drain(len));
    }
    if !upload_folder_set || !upload_folder_exists {
        return Err(ResponseCode::from_error(IoErrorKind::NotFound));
    }
    match choose_upload_type(request) {
        UploadType::Normal => Ok(BodyMode::SingleFile(len)),
        UploadType::Multipart => {
            match extract_boundary(request.content_type.as_ref()) {
                Some(b) => Ok(BodyMode::Multipart(len, b)),
                None => Err(ResponseCode::from_error(IoErrorKind::InvalidInput)),
            }
        },
    }
}

/// Meters a body of declared length `total` as the stream arrives in
/// chunks; `consumed` bytes of the body have been taken so far.
pub struct BodyProgress {
    pub total: usize,
    pub consumed: usize,
}

impl BodyProgress {
    pub open spec fn wf(&self) -> bool {
        self.consumed <= self.total
    }

    /// Bytes of the body still owed.
    pub open spec fn spec_remaining(&self) -> int {
        self.total - self.consumed
    }

    /// The whole declared length has been consumed.
    pub open spec fn spec_done(&self) -> bool {
        self.consumed == self.total
    }

    pub fn new(total: usize) -> (r: BodyProgress)
        ensures
            r.wf(),
            r.total == total,
            r.consumed == 0,
    {
        BodyProgress { total, consumed: 0 }
    }

    pub fn remaining(&self) -> (r: usize)
        requires
            self.wf(),
        ensures
            r == self.spec_remaining(),
    {
        self.total - self.consumed
    }

    pub fn done(&self) -> (r: bool)
        ensures
            r == self.spec_done(),
    {
        self.consumed == self.total
    }

    /// Takes from `chunk` the body bytes still owed: returns them together
    /// with the untouched remainder of the chunk. Across a whole run the
    /// consumed count reaches `total` exactly, and the remainder of the
    /// final chunk is the start of the next pipelined request.
    pub fn feed(&mut self, chunk: &[u8]) -> (r: (Vec<u8>, Vec<u8>))
        requires
            old(self).wf(),
        ensures
            final(self).wf(),
            final(self).total == old(self).total,
            final(self).consumed == old(self).consumed + min(
                old(self).spec_remaining(),
                chunk@.len() as int,
            ),
            r.0@ == chunk@.subrange(0, min(old(self).spec_remaining(), chunk@.len() as int)),
            r.1@ == chunk@.subrange(
                min(old(self).spec_remaining(), chunk@.len() as int),
                chunk@.len() as int,
            ),
            r.0@ + r.1@ == chunk@,
    {
        let rem = self.total - self.consumed;
        let used = if chunk.len() < rem {
            chunk.len()
        } else {
            rem
        };
        let taken = subvec(chunk, 0, used);
        let rest = subvec(chunk, used, chunk.len());
        self.consumed = self.consumed + used;
        proof {
            assert(taken@ + rest@ =~= chunk@);
        }
        (taken, rest)
    }
}

/// All the chunks laid end to end.
pub open spec fn concat_all(chunks: Seq<Seq<u8>>) -> Seq<u8>
    decreases chunks.len(),
{
    if chunks.len() == 0 {
        Seq::empty()
    } else {
        chunks[0] + concat_all(chunks.drop_first())
    }
}

/// The bytes a run of [`BodyProgress::feed`] calls takes, starting with
/// `consumed` of `total` already taken.
pub open spec fn spec_drain(consumed: int, total: int, chunks: Seq<Seq<u8>>) -> Seq<u8>
    decreases chunks.len(),
{
    if chunks.len() == 0 || consumed >= total {
        Seq::empty()
    } else {
        let used = min(total - consumed, chunks[0].len() as int);
        chunks[0].subrange(0, used) + spec_drain(consumed + used, total, chunks.drop_first())
    }
}

/// What a run of feeds takes is exactly the owed prefix of the bytes fed.
pub proof fn lemma_drain_take(consumed: int, total: int, chunks: Seq<Seq<u8>>)
    requires
        0 <= consumed <= total,
    ensures
        spec_drain(consumed, total, chunks) == concat_all(chunks).take(
            min(total - consumed, concat_all(chunks).len() as int),
        ),
    decreases chunks.len(),
{
    let cat = concat_all(chunks);
    if chunks.len() == 0 || consumed >= total {
        assert(spec_drain(consumed, total, chunks) =~= cat.take(
            min(total - consumed, cat.len() as int),
        ));
    } else {
        let head = chunks[0];
        let rest = chunks.drop_first();
        let used = min(total - consumed, head.len() as int);
        lemma_drain_take(consumed + used, total, rest);
        assert(cat == head + concat_all(rest));
        assert(head.subrange(0, used) + concat_all(rest).take(
            min(total - consumed - used, concat_all(rest).len() as int),
        ) =~= cat.take(min(total - consumed, cat.len() as int)));
    }
}

/// Upload round trip: feeding a body of exactly the declared length, in
/// chunks of any sizes, hands the upload file exactly the body itself.
pub proof fn lemma_upload_exact(total: int, chunks: Seq<Seq<u8>>)
    requires
        0 <= total,
        concat_all(chunks).len() == total,
    ensures
        spec_drain(0, total, chunks) == concat_all(chunks),
{
    lemma_drain_take(0, total, chunks);
    assert(concat_all(chunks).take(min(total, concat_all(chunks).len() as int)) =~= concat_all(
        chunks,
    ));
}

} // verus!
