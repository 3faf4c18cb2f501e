//! The streaming multipart parser. It is a state machine over a bounded
//! window of the body: the driver feeds it bytes with [`MultipartParser::push`]
//! and turns the crank with [`MultipartParser::step`], performing the file
//! actions each step orders. The window never grows past the part header or
//! one write-slice plus a boundary-sized guard, and the machine never asks
//! for more bytes than the declared body length still allows.

use vstd::prelude::*;

use crate::bytes::{
    ascii_of, find_in, is_at, lemma_sub_idx_at, lemma_sub_idx_none, match_at, str_bytes, sub_idx,
    subvec,
};
use crate::http::ResponseCode;
use crate::request::{crlf2, crlf2_vec, spec_split_crlf, split_crlf};

verus! {

/// The last line of `lines` that starts with `prefix`, with the prefix
/// stripped; later lines shadow earlier ones.
pub open spec fn last_with_prefix(lines: Seq<Seq<u8>>, prefix: Seq<u8>) -> Option<Seq<u8>>
    decreases lines.len(),
{
    if lines.len() == 0 {
        None
    } else if is_at(lines.last(), prefix, 0) {
        Some(lines.last().skip(prefix.len() as int))
    } else {
        last_with_prefix(lines.drop_last(), prefix)
    }
}

/// The filename inside a `Content-Disposition` value: the double-quoted
/// token after `filename=`, the literal `temp` when none is named, `None`
/// when the token is not properly quoted.
pub open spec fn spec_filename_of(cd: Seq<u8>) -> Option<Seq<u8>> {
    let d = sub_idx(cd, ascii_of("filename="@));
    if d < 0 {
        Some(ascii_of("temp"@))
    } else {
        let f = cd.skip(d + 9);
        if f.len() >= 2 && f[0] == 34 && f.last() == 34 {
            Some(f.subrange(1, f.len() - 1))
        } else {
            None
        }
    }
}

/// The decode of one part header block: the part's filename and its
/// optional content type; `None` when the block is malformed.
pub open spec fn spec_mp_file(header: Seq<u8>) -> Option<(Seq<u8>, Option<Seq<u8>>)> {
    let lines = spec_split_crlf(header);
    let ct = last_with_prefix(lines, ascii_of("Content-Type: "@));
    match last_with_prefix(lines, ascii_of("Content-Disposition"@)) {
        None => Some((ascii_of("temp"@), ct)),
        Some(cd) => match spec_filename_of(cd) {
            None => None,
            Some(f) => Some((f, ct)),
        },
    }
}

/// One uploaded part: where its payload goes, and what it says it is.
#[derive(Debug)]
pub struct MultipartFile {
    pub filename: Vec<u8>,
    pub content_type: Option<Vec<u8>>,
}

/// Decodes one part header block (the bytes before its blank line):
/// `Content-Disposition` names the upload file, `Content-Type` is carried
/// along. A part without a disposition is named `temp`; an unquoted
/// filename is an error.
pub fn deserialize_multipart_header(header: &[u8]) -> (r: Result<MultipartFile, ResponseCode>)
    ensures
        match r {
            Ok(mf) => spec_mp_file(header@) == Some(
                (
                    mf.filename@,
                    match mf.content_type {
                        Some(c) => Some(c@),
                        None => None,
                    },
                ),
            ),
            Err(rc) => spec_mp_file(header@) is None && rc.code == 500,
        },
{
    proof {
        reveal_strlit("Content-Type: ");
        reveal_strlit("Content-Disposition");
        reveal_strlit("filename=");
        reveal_strlit("temp");
    }
    let lines = split_crlf(header);
    let ghost linesv = lines@.map_values(|v: Vec<u8>| v@);
    let ct_prefix = str_bytes("Content-Type: ");
    let cd_prefix = str_bytes("Content-Disposition");
    let mut content_type: Option<Vec<u8>> = None;
    let mut content_disposition: Option<Vec<u8>> = None;
    let mut i: usize = 0;
    proof {
        assert(linesv.take(0) =~= Seq::<Seq<u8>>::empty());
    }
    while i < lines.len()
        invariant
            i <= lines@.len(),
            linesv == lines@.map_values(|v: Vec<u8>| v@),
            ct_prefix@ == ascii_of("Content-Type: "@),
            cd_prefix@ == ascii_of("Content-Disposition"@),
            ct_prefix@.len() == 14,
            cd_prefix@.len() == 19,
            (match content_type {
                Some(c) => Some(c@),
                None => None,
            }) == last_with_prefix(linesv.take(i as int), ct_prefix@),
            (match content_disposition {
                Some(c) => Some(c@),
                None => None,
            }) == last_with_prefix(linesv.take(i as int), cd_prefix@),
        decreases lines@.len() - i,
    {
        let ghost pre = linesv.take(i as int);
        let ghost cur = linesv.take(i + 1);
        proof {
            assert(lines@[i as int]@ == linesv[i as int]);
            assert(cur.drop_last() =~= pre);
            assert(cur.last() == linesv[i as int]);
        }
        let line: &Vec<u8> = &lines[i];
        if crate::bytes::starts_with(line.as_slice(), ct_prefix.as_slice()) {
            let v = subvec(line.as_slice(), 14, line.len());
            proof {
                assert(v@ =~= linesv[i as int].skip(14));
                assert(!is_at(linesv[i as int], cd_prefix@, 0)) by {
                    reveal_strlit("Content-Type: ");
                    reveal_strlit("Content-Disposition");
                    if is_at(linesv[i as int], cd_prefix@, 0) {
                        crate::bytes::lemma_is_at_index(linesv[i as int], cd_prefix@, 0, 8);
                        crate::bytes::lemma_is_at_index(linesv[i as int], ct_prefix@, 0, 8);
                        assert(cd_prefix@[8] == 68);
                        assert(ct_prefix@[8] == 84);
                    }
                }
            }
            content_type = Some(v);
        } else if crate::bytes::starts_with(line.as_slice(), cd_prefix.as_slice()) {
            let v = subvec(line.as_slice(), 19, line.len());
            proof {
                assert(v@ =~= linesv[i as int].skip(19));
            }
            content_disposition = Some(v);
        }
        i = i + 1;
    }
    proof {
        assert(linesv.take(linesv.len() as int) =~= linesv);
    }
    let cd = match content_disposition {
        None => {
            return Ok(MultipartFile { filename: str_bytes("temp"), content_type });
        },
        Some(cd) => cd,
    };
    let key = str_bytes("filename=");
    let d = match find_in(cd.as_slice(), key.as_slice()) {
        None => {
            proof {
                lemma_sub_idx_none(cd@, ascii_of("filename="@));
            }
            return Ok(MultipartFile { filename: str_bytes("temp"), content_type });
        },
        Some(d) => {
            proof {
                lemma_sub_idx_at(cd@, ascii_of("filename="@), d as int);
            }
            d
        },
    };
    let n = cd.len();
    proof {
        assert(d + 9 <= n);
    }
    let f = subvec(cd.as_slice(), d + 9, n);
    proof {
        assert(f@ =~= cd@.skip(d + 9));
    }
    if f.len() >= 2 && f[0] == 34 && f[f.len() - 1] == 34 {
        let name = subvec(f.as_slice(), 1, f.len() - 1);
        Ok(MultipartFile { filename: name, content_type })
    } else {
        Err(ResponseCode::from_code(500))
    }
}

/// Where the parser stands in the body.
#[derive(Clone, Copy, PartialEq, Eq, Structural, Debug)]
pub enum MpPhase {
    /// Expecting the wire boundary at the front of the window.
    Boundary,
    /// Reading a part header, up to its blank line.
    PartHeader,
    /// Streaming a part payload, watching for the next boundary.
    PartBody,
    /// The part's payload ended; its file is to be closed.
    PartEnd,
    /// The terminal boundary was consumed.
    Done,
    /// The body was malformed; nothing more will be consumed.
    Error,
}

/// What the driver must do after one step.
#[derive(Debug)]
pub enum MpStep {
    /// Feed more bytes (at most [`MultipartParser::wanted`]) and step again.
    NeedMore,
    /// The machine advanced; step again.
    Progress,
    /// Create or truncate this file under the upload directory.
    OpenFile(Vec<u8>),
    /// Append these bytes to the open file.
    Write(Vec<u8>),
    /// Close the open file.
    CloseFile,
    /// The body is fully consumed; these bytes follow it on the stream.
    Finished(Vec<u8>),
    /// The body is malformed; answer with this status.
    Failed(ResponseCode),
}

/// The streaming multipart parser: `boundary` is the wire boundary
/// (`--` and the token), `buf` the window of unconsumed bytes, `total`
/// the declared body length, `consumed` the body bytes consumed so far.
pub struct MultipartParser {
    pub boundary: Vec<u8>,
    pub phase: MpPhase,
    pub buf: Vec<u8>,
    pub total: usize,
    pub consumed: usize,
}

impl MultipartParser {
    pub open spec fn wf(&self) -> bool {
        &&& self.boundary@.len() >= 1
        &&& self.consumed <= self.total
    }

    /// How many body bytes the machine may still ask the stream for.
    pub open spec fn spec_wanted(&self) -> int {
        if self.total - self.consumed - self.buf@.len() >= 0 {
            self.total - self.consumed - self.buf@.len()
        } else {
            0
        }
    }

    /// `k` more bytes still fit in the declared length.
    pub open spec fn room(&self, k: int) -> bool {
        self.consumed + k <= self.total
    }

    /// The fields the step never touches.
    pub open spec fn frame_kept(pre: Self, post: Self) -> bool {
        &&& post.boundary@ == pre.boundary@
        &&& post.total == pre.total
    }

    /// The window advanced by `k` consumed bytes into phase `ph`.
    pub open spec fn advanced(pre: Self, post: Self, k: int, ph: MpPhase) -> bool {
        &&& Self::frame_kept(pre, post)
        &&& post.buf@ == pre.buf@.skip(k)
        &&& post.consumed == pre.consumed + k
        &&& post.phase == ph
    }

    /// Nothing moved; the driver must feed bytes.
    pub open spec fn held(pre: Self, post: Self, r: MpStep) -> bool {
        &&& Self::frame_kept(pre, post)
        &&& post.buf@ == pre.buf@
        &&& post.consumed == pre.consumed
        &&& post.phase == pre.phase
        &&& r is NeedMore
        &&& pre.spec_wanted() > 0
    }

    /// The body is malformed: the machine stops with this status code.
    pub open spec fn failed(pre: Self, post: Self, r: MpStep, code: u16) -> bool {
        &&& Self::frame_kept(pre, post)
        &&& post.buf@ == pre.buf@
        &&& post.consumed == pre.consumed
        &&& post.phase == MpPhase::Error
        &&& (match r {
            MpStep::Failed(rc) => rc.code == code,
            _ => false,
        })
    }

    /// The `Boundary` transition: the window must open with the wire
    /// boundary; `\r\n` after it starts a part header, `--\r\n` after it
    /// ends the body (whose declared length must then be spent exactly),
    /// anything else is malformed.
    pub open spec fn spec_step_boundary(pre: Self, post: Self, r: MpStep) -> bool {
        let b = pre.boundary@;
        let blen = b.len() as int;
        let buf = pre.buf@;
        if buf.len() < blen + 4 {
            if pre.spec_wanted() > 0 {
                Self::held(pre, post, r)
            } else {
                Self::failed(pre, post, r, 500)
            }
        } else if !is_at(buf, b, 0) {
            Self::failed(pre, post, r, 400)
        } else if buf[blen] == 13 && buf[blen + 1] == 10 {
            if pre.room(blen + 2) {
                r is Progress && Self::advanced(pre, post, blen + 2, MpPhase::PartHeader)
            } else {
                Self::failed(pre, post, r, 500)
            }
        } else if buf[blen] == 45 && buf[blen + 1] == 45 && buf[blen + 2] == 13 && buf[blen + 3]
            == 10 {
            if pre.consumed + blen + 4 == pre.total {
                &&& Self::frame_kept(pre, post)
                &&& post.phase == MpPhase::Done
                &&& post.consumed == pre.total
                &&& post.buf@.len() == 0
                &&& (match r {
                    MpStep::Finished(t) => t@ == buf.skip(blen + 4),
                    _ => false,
                })
            } else {
                Self::failed(pre, post, r, 500)
            }
        } else {
            Self::failed(pre, post, r, 400)
        }
    }

    /// The `PartHeader` transition: once the blank line arrives, the block
    /// before it names the part's file, and the payload follows.
    pub open spec fn spec_step_header(pre: Self, post: Self, r: MpStep) -> bool {
        let buf = pre.buf@;
        let d = sub_idx(buf, crlf2());
        if d < 0 {
            if pre.spec_wanted() > 0 {
                Self::held(pre, post, r)
            } else {
                Self::failed(pre, post, r, 500)
            }
        } else {
            match spec_mp_file(buf.subrange(0, d)) {
                None => Self::failed(pre, post, r, 500),
                Some(f) => {
                    if pre.room(d + 4) {
                        &&& Self::advanced(pre, post, d + 4, MpPhase::PartBody)
                        &&& (match r {
                            MpStep::OpenFile(name) => name@ == f.0,
                            _ => false,
                        })
                    } else {
                        Self::failed(pre, post, r, 500)
                    }
                },
            }
        }
    }

    /// The `PartBody` transition: everything up to two bytes before the
    /// next boundary is payload. While no boundary is in the window, all
    /// but a guard of one boundary length plus one byte may be written
    /// out, so a boundary straddling two reads is never missed.
    pub open spec fn spec_step_body(pre: Self, post: Self, r: MpStep) -> bool {
        let b = pre.boundary@;
        let blen = b.len() as int;
        let buf = pre.buf@;
        let d = sub_idx(buf, b);
        if d >= 2 {
            if pre.room(d) {
                &&& Self::advanced(pre, post, d, MpPhase::PartEnd)
                &&& (match r {
                    MpStep::Write(w) => w@ == buf.subrange(0, d - 2),
                    _ => false,
                })
            } else {
                Self::failed(pre, post, r, 500)
            }
        } else if d >= 0 {
            Self::failed(pre, post, r, 400)
        } else if buf.len() > blen + 1 {
            let w = buf.len() - (blen + 1);
            if pre.room(w) {
                &&& Self::advanced(pre, post, w, MpPhase::PartBody)
                &&& (match r {
                    MpStep::Write(data) => data@ == buf.subrange(0, w),
                    _ => false,
                })
            } else {
                Self::failed(pre, post, r, 500)
            }
        } else if pre.spec_wanted() > 0 {
            Self::held(pre, post, r)
        } else {
            Self::failed(pre, post, r, 500)
        }
    }

    /// Starts a parse of a body of `total` bytes delimited by the wire
    /// boundary `boundary`.
    pub fn new(boundary: Vec<u8>, total: usize) -> (r: MultipartParser)
        requires
            boundary@.len() >= 1,
        ensures
            r.wf(),
            r.boundary == boundary,
            r.phase == MpPhase::Boundary,
            r.buf@.len() == 0,
            r.total == total,
            r.consumed == 0,
    {
        MultipartParser { boundary, phase: MpPhase::Boundary, buf: Vec::new(), total, consumed: 0 }
    }

    /// Hands the machine more bytes from the stream.
    pub fn push(&mut self, chunk: &[u8])
        requires
            old(self).wf(),
        ensures
            final(self).wf(),
            Self::frame_kept(*old(self), *final(self)),
            final(self).phase == old(self).phase,
            final(self).consumed == old(self).consumed,
            final(self).buf@ == old(self).buf@ + chunk@,
    {
        crate::bytes::append_bytes(&mut self.buf, chunk);
    }

    /// How many more bytes of the stream the declared length still allows
    /// the driver to read.
    pub fn wanted(&self) -> (r: usize)
        requires
            self.wf(),
        ensures
            r == self.spec_wanted(),
    {
        let rem = self.total - self.consumed;
        if self.buf.len() < rem {
            rem - self.buf.len()
        } else {
            0
        }
    }

    fn fail(&mut self, code: u16) -> (r: MpStep)
        ensures
            Self::failed(*old(self), *final(self), r, code),
    {
        self.phase = MpPhase::Error;
        MpStep::Failed(ResponseCode::from_code(code))
    }

    fn advance(&mut self, k: usize, ph: MpPhase)
        requires
            k <= old(self).buf@.len(),
            old(self).consumed + k <= old(self).total,
        ensures
            final(self).wf() == old(self).wf(),
            Self::advanced(*old(self), *final(self), k as int, ph),
    {
        let nb = subvec(self.buf.as_slice(), k, self.buf.len());
        proof {
            assert(nb@ =~= self.buf@.skip(k as int));
        }
        self.buf = nb;
        self.consumed = self.consumed + k;
        self.phase = ph;
    }

    /// One turn of the crank: decides as much as the window allows and
    /// tells the driver what to do next.
    pub fn step(&mut self) -> (r: MpStep)
        requires
            old(self).wf(),
            old(self).phase != MpPhase::Done,
            old(self).phase != MpPhase::Error,
        ensures
            final(self).wf(),
            old(self).phase == MpPhase::Boundary ==> Self::spec_step_boundary(
                *old(self),
                *final(self),
                r,
            ),
            old(self).phase == MpPhase::PartHeader ==> Self::spec_step_header(
                *old(self),
                *final(self),
                r,
            ),
            old(self).phase == MpPhase::PartBody ==> Self::spec_step_body(
                *old(self),
                *final(self),
                r,
            ),
            old(self).phase == MpPhase::PartEnd ==> (r is CloseFile && Self::advanced(
                *old(self),
                *final(self),
                0,
                MpPhase::Boundary,
            )),
    {
        match self.phase {
            MpPhase::Boundary => self.step_boundary(),
            MpPhase::PartHeader => self.step_header(),
            MpPhase::PartBody => self.step_body(),
            _ => {
                proof {
                    assert(self.buf@.skip(0) =~= self.buf@);
                }
                self.phase = MpPhase::Boundary;
                MpStep::CloseFile
            },
        }
    }

    fn step_boundary(&mut self) -> (r: MpStep)
        requires
            old(self).wf(),
            old(self).phase == MpPhase::Boundary,
        ensures
            final(self).wf(),
            Self::spec_step_boundary(*old(self), *final(self), r),
    {
        let blen = self.boundary.len();
        let n = self.buf.len();
        if n < blen || n - blen < 4 {
            if self.wanted() > 0 {
                return MpStep::NeedMore;
            } else {
                return self.fail(500);
            }
        }
        if !match_at(self.buf.as_slice(), self.boundary.as_slice(), 0) {
            return self.fail(400);
        }
        let b0 = self.buf[blen];
        let b1 = self.buf[blen + 1];
        if b0 == 13 && b1 == 10 {
            let rem = self.total - self.consumed;
            if blen > rem || rem - blen < 2 {
                return self.fail(500);
            }
            self.advance(blen + 2, MpPhase::PartHeader);
            MpStep::Progress
        } else if b0 == 45 && b1 == 45 && self.buf[blen + 2] == 13 && self.buf[blen + 3] == 10 {
            let rem = self.total - self.consumed;
            if blen <= rem && rem - blen == 4 {
                let tail = subvec(self.buf.as_slice(), blen + 4, n);
                proof {
                    assert(tail@ =~= self.buf@.skip(blen as int + 4));
                }
                self.buf = Vec::new();
                self.consumed = self.total;
                self.phase = MpPhase::Done;
                MpStep::Finished(tail)
            } else {
                self.fail(500)
            }
        } else {
            self.fail(400)
        }
    }

    fn step_header(&mut self) -> (r: MpStep)
        requires
            old(self).wf(),
            old(self).phase == MpPhase::PartHeader,
        ensures
            final(self).wf(),
            Self::spec_step_header(*old(self), *final(self), r),
    {
        let sep = crlf2_vec();
        let d = match find_in(self.buf.as_slice(), sep.as_slice()) {
            None => {
                proof {
                    lemma_sub_idx_none(self.buf@, crlf2());
                }
                if self.wanted() > 0 {
                    return MpStep::NeedMore;
                } else {
                    return self.fail(500);
                }
            },
            Some(d) => {
                proof {
                    lemma_sub_idx_at(self.buf@, crlf2(), d as int);
                }
                d
            },
        };
        let header = subvec(self.buf.as_slice(), 0, d);
        let mf = match deserialize_multipart_header(header.as_slice()) {
            Ok(mf) => mf,
            Err(_) => {
                return self.fail(500);
            },
        };
        let rem = self.total - self.consumed;
        if d > rem || rem - d < 4 {
            return self.fail(500);
        }
        self.advance(d + 4, MpPhase::PartBody);
        MpStep::OpenFile(mf.filename)
    }

    fn step_body(&mut self) -> (r: MpStep)
        requires
            old(self).wf(),
            old(self).phase == MpPhase::PartBody,
        ensures
            final(self).wf(),
            Self::spec_step_body(*old(self), *final(self), r),
    {
        let blen = self.boundary.len();
        match find_in(self.buf.as_slice(), self.boundary.as_slice()) {
            Some(d) => {
                proof {
                    lemma_sub_idx_at(self.buf@, self.boundary@, d as int);
                }
                if d >= 2 {
                    let rem = self.total - self.consumed;
                    if d > rem {
                        return self.fail(500);
                    }
                    let payload = subvec(self.buf.as_slice(), 0, d - 2);
                    self.advance(d, MpPhase::PartEnd);
                    MpStep::Write(payload)
                } else {
                    self.fail(400)
                }
            },
            None => {
                proof {
                    lemma_sub_idx_none(self.buf@, self.boundary@);
                }
                let n = self.buf.len();
                if n > blen && n - blen > 1 {
                    let w = n - blen - 1;
                    let rem = self.total - self.consumed;
                    if w > rem {
                        return self.fail(500);
                    }
                    let data = subvec(self.buf.as_slice(), 0, w);
                    self.advance(w, MpPhase::PartBody);
                    MpStep::Write(data)
                } else if self.wanted() > 0 {
                    MpStep::NeedMore
                } else {
                    self.fail(500)
                }
            },
        }
    }
}

} // verus!
