//! The CGI gateway's decisions: whether a target is a CGI script, the
//! environment handed to the interpreter, the verdict on its exit status,
//! and the connection's keep-alive policy after a failure. Spawning the
//! child and moving its bytes is the driver's work.

use vstd::prelude::*;

use crate::bytes::{ascii_of, bytes_eq, dec_digits, fmt_usize, str_bytes};
use crate::config::{assoc_idx, cgi_view, upsert, Location};
use crate::http::{spec_method_token, IoErrorKind, ResponseCode};
use crate::request::{ReqM, Request};

verus! {

/// The index of the last `b` in `s`; `-1` when absent.
pub open spec fn last_idx_of(s: Seq<u8>, b: u8) -> int
    decreases s.len(),
{
    if s.len() == 0 {
        -1
    } else if s.last() == b {
        s.len() - 1
    } else {
        last_idx_of(s.drop_last(), b)
    }
}

proof fn lemma_last_idx_of_at(s: Seq<u8>, b: u8, i: int)
    requires
        -1 <= i < s.len(),
        forall|k: int| i < k < s.len() ==> s[k] != b,
        i >= 0 ==> s[i] == b,
    ensures
        last_idx_of(s, b) == i,
    decreases s.len(),
{
    if s.len() > 0 {
        if i == s.len() - 1 {
        } else {
            let t = s.drop_last();
            assert(s.last() != b);
            assert(forall|k: int| i < k < t.len() ==> t[k] == s[k]);
            lemma_last_idx_of_at(t, b, i);
        }
    }
}

/// The index of the last `b` in `v`; `v.len()` when absent.
fn rfind_byte(v: &[u8], b: u8) -> (r: Option<usize>)
    ensures
        match r {
            Some(i) => last_idx_of(v@, b) == i && i < v@.len(),
            None => last_idx_of(v@, b) == -1,
        },
{
    let mut i: usize = v.len();
    while i > 0
        invariant
            i <= v@.len(),
            forall|k: int| i <= k < v@.len() ==> v@[k] != b,
        decreases i,
    {
        i = i - 1;
        if v[i] == b {
            proof {
                lemma_last_idx_of_at(v@, b, i as int);
            }
            return Some(i);
        }
    }
    proof {
        lemma_last_idx_of_at(v@, b, -1);
    }
    None
}

/// The extension of a path: the bytes after the last `.` of its final
/// component; none when the component has no dot or only a leading one.
pub open spec fn spec_extension(p: Seq<u8>) -> Option<Seq<u8>> {
    let name = p.skip(last_idx_of(p, 47) + 1);
    let dot = last_idx_of(name, 46);
    if dot <= 0 {
        None
    } else {
        Some(name.skip(dot + 1))
    }
}

/// Is the request's target a CGI script: does its extension stand in the
/// effective `cgi` map?
pub fn is_cgi(cfg: &Location, request: &Request) -> (r: bool)
    ensures
        r == (match spec_extension(request@.path) {
            Some(e) => assoc_idx(cgi_view(cfg.cgi@), e) < cfg.cgi@.len(),
            None => false,
        }),
{
    let p: &Vec<u8> = &request.path;
    let n = p.len();
    let slash = match rfind_byte(p.as_slice(), 47) {
        Some(i) => i + 1,
        None => 0,
    };
    let name = crate::bytes::subvec(p.as_slice(), slash, p.len());
    proof {
        assert(name@ =~= p@.skip(last_idx_of(p@, 47) + 1));
    }
    let dot = match rfind_byte(name.as_slice(), 46) {
        Some(i) => i,
        None => {
            return false;
        },
    };
    if dot == 0 {
        return false;
    }
    let ext = crate::bytes::subvec(name.as_slice(), dot + 1, name.len());
    proof {
        assert(ext@ =~= name@.skip(last_idx_of(name@, 46) + 1));
    }
    let ghost t = cgi_view(cfg.cgi@);
    let mut j: usize = 0;
    while j < cfg.cgi.len()
        invariant
            j <= cfg.cgi@.len(),
            t == cgi_view(cfg.cgi@),
            t.len() == cfg.cgi@.len(),
            spec_extension(request@.path) == Some(ext@),
            forall|k: int| 0 <= k < t.len() ==> t[k] == (cfg.cgi@[k].0@, cfg.cgi@[k].1@),
            forall|k: int| 0 <= k < j ==> t[k].0 != ext@,
        decreases cfg.cgi@.len() - j,
    {
        if bytes_eq(cfg.cgi[j].0.as_slice(), ext.as_slice()) {
            proof {
                crate::config::lemma_assoc_idx_at(t, ext@, j as int);
            }
            return true;
        }
        j = j + 1;
    }
    proof {
        crate::config::lemma_assoc_idx_at(t, ext@, j as int);
    }
    false
}

/// The interpreter configured for the request's extension, when there is
/// one.
pub fn cgi_interpreter<'a>(cfg: &'a Location, request: &Request) -> (r: Option<&'a Vec<u8>>)
    ensures
        match r {
            Some(v) => (match spec_extension(request@.path) {
                Some(e) => {
                    let t = cgi_view(cfg.cgi@);
                    assoc_idx(t, e) < t.len() && v@ == t[assoc_idx(t, e)].1
                },
                None => false,
            }),
            None => (match spec_extension(request@.path) {
                Some(e) => assoc_idx(cgi_view(cfg.cgi@), e) == cfg.cgi@.len(),
                None => true,
            }),
        },
{
    let p: &Vec<u8> = &request.path;
    let n = p.len();
    let slash = match rfind_byte(p.as_slice(), 47) {
        Some(i) => i + 1,
        None => 0,
    };
    let name = crate::bytes::subvec(p.as_slice(), slash, p.len());
    proof {
        assert(name@ =~= p@.skip(last_idx_of(p@, 47) + 1));
    }
    let dot = match rfind_byte(name.as_slice(), 46) {
        Some(i) => i,
        None => {
            return None;
        },
    };
    if dot == 0 {
        return None;
    }
    let ext = crate::bytes::subvec(name.as_slice(), dot + 1, name.len());
    proof {
        assert(ext@ =~= name@.skip(last_idx_of(name@, 46) + 1));
    }
    let ghost t = cgi_view(cfg.cgi@);
    let mut j: usize = 0;
    while j < cfg.cgi.len()
        invariant
            j <= cfg.cgi@.len(),
            t == cgi_view(cfg.cgi@),
            t.len() == cfg.cgi@.len(),
            spec_extension(request@.path) == Some(ext@),
            forall|k: int| 0 <= k < t.len() ==> t[k] == (cfg.cgi@[k].0@, cfg.cgi@[k].1@),
            forall|k: int| 0 <= k < j ==> t[k].0 != ext@,
        decreases cfg.cgi@.len() - j,
    {
        if bytes_eq(cfg.cgi[j].0.as_slice(), ext.as_slice()) {
            proof {
                crate::config::lemma_assoc_idx_at(t, ext@, j as int);
            }
            return Some(&cfg.cgi[j].1);
        }
        j = j + 1;
    }
    proof {
        crate::config::lemma_assoc_idx_at(t, ext@, j as int);
    }
    None
}

/// A header name as a CGI variable suffix: `-` becomes `_`, lower-case
/// ASCII becomes upper-case.
pub open spec fn env_byte(b: u8) -> u8 {
    if b == 45 {
        95
    } else if 97 <= b <= 122 {
        (b - 32) as u8
    } else {
        b
    }
}

/// The `HTTP_` variable name of a header.
pub open spec fn spec_env_name(name: Seq<u8>) -> Seq<u8> {
    ascii_of("HTTP_"@) + name.map_values(|b: u8| env_byte(b))
}

fn env_name(name: &[u8]) -> (r: Vec<u8>)
    ensures
        r@ == spec_env_name(name@),
{
    proof {
        reveal_strlit("HTTP_");
    }
    let mut out = str_bytes("HTTP_");
    let ghost base = out@;
    let mut i: usize = 0;
    while i < name.len()
        invariant
            i <= name@.len(),
            base == ascii_of("HTTP_"@),
            out@ == base + name@.map_values(|b: u8| env_byte(b)).take(i as int),
        decreases name@.len() - i,
    {
        let b = name[i];
        let c: u8 = if b == 45 {
            95
        } else if 97 <= b && b <= 122 {
            b - 32
        } else {
            b
        };
        out.push(c);
        proof {
            let m = name@.map_values(|b2: u8| env_byte(b2));
            assert(base + m.take(i + 1) =~= (base + m.take(i as int)).push(m[i as int]));
        }
        i = i + 1;
    }
    proof {
        let m = name@.map_values(|b2: u8| env_byte(b2));
        assert(m.take(m.len() as int) =~= m);
    }
    out
}

/// The other headers folded into the environment, later ones replacing
/// earlier ones of the same variable name.
pub open spec fn spec_env_fold(
    envs: Seq<(Seq<u8>, Seq<u8>)>,
    hs: Seq<(Seq<u8>, Seq<u8>)>,
) -> Seq<(Seq<u8>, Seq<u8>)>
    decreases hs.len(),
{
    if hs.len() == 0 {
        envs
    } else {
        spec_env_fold(upsert(envs, spec_env_name(hs[0].0), hs[0].1), hs.drop_first())
    }
}

/// The whole CGI environment of a request, in emission order.
pub open spec fn spec_cgi_envs(req: ReqM) -> Seq<(Seq<u8>, Seq<u8>)> {
    let e0 = Seq::<(Seq<u8>, Seq<u8>)>::empty().push(
        (ascii_of("REQUEST_METHOD"@), ascii_of(spec_method_token(req.method))),
    ).push(
        (
            ascii_of("HTTP_CONNECTION"@),
            if req.keep_connection_alive {
                ascii_of("keep-alive"@)
            } else {
                ascii_of("close"@)
            },
        ),
    );
    let e1 = match req.content_length {
        Some(l) => e0.push((ascii_of("CONTENT_LENGTH"@), dec_digits(l as nat))),
        None => e0,
    };
    let e2 = match req.accept {
        Some(a) => e1.push((ascii_of("HTTP_ACCEPT"@), a)),
        None => e1,
    };
    let e3 = match req.content_type {
        Some(c) => e2.push((ascii_of("HTTP_CONTENT_TYPE"@), c)),
        None => e2,
    };
    let e4 = match req.host {
        Some(h) => e3.push((ascii_of("HTTP_HOST"@), h)),
        None => e3,
    };
    let e5 = spec_env_fold(e4, req.headers);
    e5.push(
        (
            ascii_of("QUERY_STRING"@),
            match req.query {
                Some(q) => q,
                None => Seq::empty(),
            },
        ),
    )
}

/// Builds the environment handed to the CGI interpreter: the request's
/// method, connection intent, length, accept, content type, host and
/// query, plus one `HTTP_` variable per other header.
pub fn cgi_envs(request: &Request) -> (r: Vec<(Vec<u8>, Vec<u8>)>)
    ensures
        cgi_view(r@) == spec_cgi_envs(request@),
{
    proof {
        reveal_strlit("REQUEST_METHOD");
        reveal_strlit("HTTP_CONNECTION");
        reveal_strlit("keep-alive");
        reveal_strlit("close");
        reveal_strlit("CONTENT_LENGTH");
        reveal_strlit("HTTP_ACCEPT");
        reveal_strlit("HTTP_CONTENT_TYPE");
        reveal_strlit("HTTP_HOST");
        reveal_strlit("QUERY_STRING");
        reveal_strlit("GET");
        reveal_strlit("POST");
        reveal_strlit("DELETE");
        reveal_strlit("OPTIONS");
        reveal_strlit("HEAD");
        reveal_strlit("PUT");
        reveal_strlit("PATCH");
        reveal_strlit("TRACE");
        reveal_strlit("CONNECT");
        reveal_strlit("UNKNOWN");
    }
    let mut env: Vec<(Vec<u8>, Vec<u8>)> = Vec::new();
    proof {
        assert(cgi_view(env@) =~= Seq::<(Seq<u8>, Seq<u8>)>::empty());
    }
    let ghost e0 = Seq::<(Seq<u8>, Seq<u8>)>::empty().push(
        (ascii_of("REQUEST_METHOD"@), ascii_of(spec_method_token(request@.method))),
    ).push(
        (
            ascii_of("HTTP_CONNECTION"@),
            if request@.keep_connection_alive {
                ascii_of("keep-alive"@)
            } else {
                ascii_of("close"@)
            },
        ),
    );
    let ghost e1 = (match request@.content_length {
        Some(l) => e0.push((ascii_of("CONTENT_LENGTH"@), dec_digits(l as nat))),
        None => e0,
    });
    let ghost e2 = (match request@.accept {
        Some(a) => e1.push((ascii_of("HTTP_ACCEPT"@), a)),
        None => e1,
    });
    let ghost e3 = (match request@.content_type {
        Some(c) => e2.push((ascii_of("HTTP_CONTENT_TYPE"@), c)),
        None => e2,
    });
    let ghost e4 = (match request@.host {
        Some(h) => e3.push((ascii_of("HTTP_HOST"@), h)),
        None => e3,
    });
    let token = request.method.to_string();
    let token_str = token.as_str();
    let token_bytes = vstd::slice::slice_to_vec(token_str.as_bytes());
    proof {
        vstd::string::is_ascii_spec_bytes(token_str);
        assert(vstd::string::is_ascii(token_str)) by {
            assert(token_str@ == spec_method_token(request@.method));
        }
        assert(token_bytes@ =~= ascii_of(spec_method_token(request@.method)));
    }
    env.push((str_bytes("REQUEST_METHOD"), token_bytes));
    let alive: Vec<u8> = if request.keep_connection_alive {
        str_bytes("keep-alive")
    } else {
        str_bytes("close")
    };
    env.push((str_bytes("HTTP_CONNECTION"), alive));
    proof {
        assert(cgi_view(env@) =~= e0);
    }
    if let Some(l) = &request.content_length {
        env.push((str_bytes("CONTENT_LENGTH"), fmt_usize(*l)));
    }
    proof {
        assert(cgi_view(env@) =~= e1);
    }
    if let Some(a) = &request.accept {
        env.push((str_bytes("HTTP_ACCEPT"), crate::bytes::copy_bytes(a)));
    }
    proof {
        assert(cgi_view(env@) =~= e2);
    }
    if let Some(c) = &request.content_type {
        env.push((str_bytes("HTTP_CONTENT_TYPE"), crate::bytes::copy_bytes(c)));
    }
    proof {
        assert(cgi_view(env@) =~= e3);
    }
    if let Some(h) = &request.host {
        env.push((str_bytes("HTTP_HOST"), crate::bytes::copy_bytes(h)));
    }
    proof {
        assert(cgi_view(env@) =~= e4);
    }
    let ghost hs = request@.headers;
    let mut j: usize = 0;
    proof {
        assert(hs.skip(0) =~= hs);
    }
    while j < request.headers.len()
        invariant
            j <= request.headers@.len(),
            hs == request@.headers,
            hs.len() == request.headers@.len(),
            forall|k: int|
                0 <= k < hs.len() ==> hs[k] == (request.headers@[k].0@, request.headers@[k].1@),
            spec_env_fold(e4, hs) == spec_env_fold(cgi_view(env@), hs.skip(j as int)),
        decreases request.headers@.len() - j,
    {
        let ghost rest = hs.skip(j as int);
        proof {
            assert(rest.len() > 0);
            assert(rest[0] == hs[j as int]);
            assert(rest.drop_first() =~= hs.skip(j + 1));
        }
        let nm = env_name(request.headers[j].0.as_slice());
        let vl = crate::bytes::copy_bytes(&request.headers[j].1);
        crate::config::upsert_pair(&mut env, nm, vl);
        j = j + 1;
    }
    proof {
        assert(hs.skip(j as int).len() == 0);
    }
    let q: Vec<u8> = match &request.query {
        Some(q) => crate::bytes::copy_bytes(q),
        None => Vec::new(),
    };
    let ghost e5 = cgi_view(env@);
    env.push((str_bytes("QUERY_STRING"), q));
    proof {
        assert(cgi_view(env@) =~= e5.push(
            (
                ascii_of("QUERY_STRING"@),
                match request@.query {
                    Some(qq) => qq,
                    None => Seq::<u8>::empty(),
                },
            ),
        ));
    }
    env
}

/// The gateway's verdict on the child's exit: success relays its output,
/// anything else is a 500.
pub fn cgi_exit_outcome(success: bool) -> (r: Result<(), ResponseCode>)
    ensures
        match r {
            Ok(_) => success,
            Err(rc) => !success && rc.code == 500,
        },
{
    if success {
        Ok(())
    } else {
        Err(ResponseCode::from_code(500))
    }
}

/// The connection policy after a failure: the connection survives only
/// when the request asked for keep-alive and the failure was not an end
/// of stream.
pub fn keep_connection_after_error(keep_alive: bool, kind: IoErrorKind) -> (r: bool)
    ensures
        r == (keep_alive && kind != IoErrorKind::UnexpectedEof),
{
    keep_alive && !matches!(kind, IoErrorKind::UnexpectedEof)
}

} // verus!
