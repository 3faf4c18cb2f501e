//! Virtual-host resolution, location selection, and request validation.
//!
//! Both resolvers are proved equal to spec functions of the configuration
//! and the request alone, so for one configuration and one request the
//! same virtual server and location come back on every run. The validator
//! applies the method gate, the size gate, the root or alias rewrite, and
//! the index and autoindex rules; what only the filesystem knows (is the
//! target a file, a directory, or absent) is handed in as a plain value.

use vstd::prelude::*;

use crate::bytes::{ascii_of, bytes_eq, is_at, starts_with, str_bytes, sub_idx, subvec};
use crate::config::{ConfM, Location, Server};
use crate::http::{Method, ResponseCode};
use crate::request::{ReqM, Request};

verus! {

/// What the filesystem says the rewritten target is.
#[derive(Clone, Copy, PartialEq, Eq, Structural, Debug)]
pub enum FsKind {
    File,
    Dir,
    Missing,
}

/// The filesystem facts validation needs: the kind of the rewritten
/// target, and whether `<target>/<index>` is a regular file.
#[derive(Clone, Copy, PartialEq, Eq, Structural, Debug)]
pub struct FsProbe {
    pub target: FsKind,
    pub index_is_file: bool,
}

/// The server's name list holds this host.
pub open spec fn spec_host_match(m: ConfM, host: Seq<u8>) -> bool {
    match m.name {
        Some(ns) => exists|i: int| 0 <= i < ns.len() && #[trigger] ns[i] == host,
        None => false,
    }
}

/// The first server whose names hold the host; the count when none does.
pub open spec fn spec_first_name_match(servers: Seq<ConfM>, host: Seq<u8>, i: int) -> int
    decreases servers.len() - i,
{
    if i < 0 || i >= servers.len() {
        servers.len() as int
    } else if spec_host_match(servers[i], host) {
        i
    } else {
        spec_first_name_match(servers, host, i + 1)
    }
}

/// The first server marked default; the count when none is.
pub open spec fn spec_first_default(servers: Seq<ConfM>, i: int) -> int
    decreases servers.len() - i,
{
    if i < 0 || i >= servers.len() {
        servers.len() as int
    } else if servers[i].is_default {
        i
    } else {
        spec_first_default(servers, i + 1)
    }
}

/// Which server answers the request: the first whose names hold the
/// `Host`, else the server marked default, else the first one.
pub open spec fn spec_choose_server(req: ReqM, servers: Seq<ConfM>) -> int {
    let nm = match req.host {
        Some(h) => spec_first_name_match(servers, h, 0),
        None => servers.len() as int,
    };
    if nm < servers.len() {
        nm
    } else {
        let d = spec_first_default(servers, 0);
        if d < servers.len() {
            d
        } else {
            0
        }
    }
}

fn host_match(server: &Server, host: &[u8]) -> (r: bool)
    ensures
        r == spec_host_match(server@, host@),
{
    let names = match &server.name {
        Some(ns) => ns,
        None => {
            return false;
        },
    };
    let ghost nsv = names@.map_values(|v: Vec<u8>| v@);
    let mut j: usize = 0;
    while j < names.len()
        invariant
            j <= names@.len(),
            nsv == names@.map_values(|v: Vec<u8>| v@),
            server@.name == Some(nsv),
            forall|k: int| 0 <= k < j ==> nsv[k] != host@,
        decreases names@.len() - j,
    {
        proof {
            assert(names@[j as int]@ == nsv[j as int]);
        }
        if bytes_eq(names[j].as_slice(), host) {
            proof {
                assert(nsv[j as int] == host@);
                assert(spec_host_match(server@, host@)) by {
                    let ns = server@.name.arrow_Some_0();
                    assert(ns == nsv);
                    assert((j as int) < ns.len() && ns[j as int] == host@);
                }
            }
            return true;
        }
        j = j + 1;
    }
    false
}

/// Picks the virtual server for a request on this listener. For one
/// configuration and one request the answer is a function of the two and
/// of nothing else.
pub fn choose_server_from(request: &Request, servers: &Vec<Server>) -> (r: usize)
    requires
        servers@.len() >= 1,
    ensures
        r == spec_choose_server(request@, servers@.map_values(|s: Server| s@)),
        r < servers@.len(),
{
    let ghost sv = servers@.map_values(|s: Server| s@);
    if let Some(h) = &request.host {
        let mut i: usize = 0;
        while i < servers.len()
            invariant
                i <= servers@.len(),
                sv == servers@.map_values(|s: Server| s@),
                request@.host == Some(h@),
                spec_first_name_match(sv, h@, 0) == spec_first_name_match(sv, h@, i as int),
            decreases servers@.len() - i,
        {
            proof {
                assert(servers@[i as int]@ == sv[i as int]);
            }
            if host_match(&servers[i], h.as_slice()) {
                return i;
            }
            i = i + 1;
        }
    }
    let mut i: usize = 0;
    while i < servers.len()
        invariant
            i <= servers@.len(),
            sv == servers@.map_values(|s: Server| s@),
            (match request@.host {
                Some(h) => spec_first_name_match(sv, h, 0) == sv.len(),
                None => true,
            }),
            spec_first_default(sv, 0) == spec_first_default(sv, i as int),
        decreases servers@.len() - i,
    {
        proof {
            assert(servers@[i as int]@ == sv[i as int]);
        }
        if servers[i].default {
            return i;
        }
        i = i + 1;
    }
    0
}

/// The first exact match; the count when none.
pub open spec fn spec_first_exact(locs: Seq<ConfM>, path: Seq<u8>, i: int) -> int
    decreases locs.len() - i,
{
    if i < 0 || i >= locs.len() {
        locs.len() as int
    } else if locs[i].exact_path && locs[i].path == path {
        i
    } else {
        spec_first_exact(locs, path, i + 1)
    }
}

/// Scans for the longest-path non-exact candidate; on equal lengths the
/// earlier one stays. `cur` is the best index so far, the count when none.
pub open spec fn spec_best_prefix(locs: Seq<ConfM>, path: Seq<u8>, i: int, cur: int) -> int
    decreases locs.len() - i,
{
    if i < 0 || i >= locs.len() {
        cur
    } else {
        let better = !locs[i].exact_path && is_at(path, locs[i].path, 0) && (cur == locs.len()
            || locs[i].path.len() > locs[cur].path.len());
        spec_best_prefix(
            locs,
            path,
            i + 1,
            if better {
                i
            } else {
                cur
            },
        )
    }
}

/// Which location serves the path: an exact match wins outright, else the
/// longest matching prefix; the count when none matches.
pub open spec fn spec_select_location(locs: Seq<ConfM>, path: Seq<u8>) -> int {
    let e = spec_first_exact(locs, path, 0);
    if e < locs.len() {
        e
    } else {
        spec_best_prefix(locs, path, 0, locs.len() as int)
    }
}

/// Picks the best location of the chosen server for the request path, as
/// an index into its location list; `None` when no location matches and
/// the server itself handles the request. A function of the configuration
/// and the request alone.
pub fn get_request_location(server: &Server, request: &Request) -> (r: Option<usize>)
    ensures
        ({
            let locs = server@.locations;
            let sel = spec_select_location(locs, request@.path);
            match r {
                Some(i) => i == sel && i < locs.len(),
                None => sel == locs.len(),
            }
        }),
{
    let ghost locs = server@.locations;
    let path: &Vec<u8> = &request.path;
    let mut i: usize = 0;
    while i < server.locations.len()
        invariant
            i <= server.locations@.len(),
            locs == server@.locations,
            locs.len() == server.locations@.len(),
            path@ == request@.path,
            forall|k: int| 0 <= k < locs.len() ==> locs[k] == server.locations@[k]@,
            spec_first_exact(locs, path@, 0) == spec_first_exact(locs, path@, i as int),
        decreases server.locations@.len() - i,
    {
        let lc: &Location = &server.locations[i];
        if lc.exact_path && bytes_eq(lc.path.as_slice(), path.as_slice()) {
            return Some(i);
        }
        i = i + 1;
    }
    let n = server.locations.len();
    let mut best: usize = n;
    let mut i: usize = 0;
    while i < n
        invariant
            i <= n,
            best <= n,
            n == server.locations@.len(),
            locs == server@.locations,
            locs.len() == n,
            path@ == request@.path,
            forall|k: int| 0 <= k < locs.len() ==> locs[k] == server.locations@[k]@,
            spec_first_exact(locs, path@, 0) == locs.len(),
            spec_best_prefix(locs, path@, 0, locs.len() as int) == spec_best_prefix(
                locs,
                path@,
                i as int,
                best as int,
            ),
        decreases n - i,
    {
        let lc: &Location = &server.locations[i];
        let better = !lc.exact_path && starts_with(path.as_slice(), lc.path.as_slice()) && (best
            == n || lc.path.len() > server.locations[best].path.len());
        if better {
            best = i;
        }
        i = i + 1;
    }
    if best < n {
        Some(best)
    } else {
        None
    }
}

/// The method gate: no allow-list or a method outside it is a 405, an
/// unrecognized verb inside it a 501.
pub open spec fn spec_method_gate(methods: Option<Seq<Method>>, m: Method) -> Result<(), u16> {
    match methods {
        None => Err(405),
        Some(ms) => {
            if !ms.contains(m) {
                Err(405)
            } else if m == Method::UNKNOWN || m == Method::UNDEFINED {
                Err(501)
            } else {
                Ok(())
            }
        },
    }
}

/// Applies the method gate of the effective configuration.
pub fn parse_method(cfg: &Location, request: &Request) -> (r: Result<(), ResponseCode>)
    ensures
        match r {
            Ok(_) => spec_method_gate(cfg@.methods, request@.method) is Ok,
            Err(rc) => spec_method_gate(cfg@.methods, request@.method) == Err::<(), u16>(rc.code)
                && (rc.code == 405 || rc.code == 501),
        },
{
    let ms = match &cfg.methods {
        None => {
            return Err(ResponseCode::from_code(405));
        },
        Some(ms) => ms,
    };
    let mut j: usize = 0;
    let mut found = false;
    while j < ms.len() && !found
        invariant
            j <= ms@.len(),
            found ==> ms@.contains(request@.method),
            !found ==> forall|k: int| 0 <= k < j ==> ms@[k] != request@.method,
        decreases ms@.len() - j + (if found {
            0int
        } else {
            1int
        }),
    {
        if ms[j] == request.method {
            found = true;
        } else {
            j = j + 1;
        }
    }
    if !found {
        proof {
            if ms@.contains(request@.method) {
                let w = choose|k: int| 0 <= k < ms@.len() && ms@[k] == request@.method;
                assert(ms@[w] == request@.method);
            }
        }
        return Err(ResponseCode::from_code(405));
    }
    if matches!(request.method, Method::UNKNOWN) || matches!(request.method, Method::UNDEFINED) {
        return Err(ResponseCode::from_code(501));
    }
    Ok(())
}

/// The size gate: an absent limit is unbounded; a declared body larger
/// than the limit is a 413.
pub open spec fn spec_size_gate(max: Option<int>, len: Option<int>) -> bool {
    match (max, len) {
        (Some(mx), Some(l)) => l <= mx,
        _ => true,
    }
}

/// Applies the size gate of the effective configuration.
pub fn check_body_size(cfg: &Location, request: &Request) -> (r: Result<(), ResponseCode>)
    ensures
        match r {
            Ok(_) => spec_size_gate(cfg@.max_body_size, request@.content_length),
            Err(rc) => !spec_size_gate(cfg@.max_body_size, request@.content_length) && rc.code
                == 413,
        },
{
    if let Some(mx) = &cfg.max_body_size {
        if let Some(l) = &request.content_length {
            if *l > *mx {
                return Err(ResponseCode::from_code(413));
            }
        }
    }
    Ok(())
}

/// `s` with the first occurrence of `pat` replaced by `rep`; `s` itself
/// when `pat` does not occur.
pub open spec fn spec_replace_first(s: Seq<u8>, pat: Seq<u8>, rep: Seq<u8>) -> Seq<u8> {
    let d = sub_idx(s, pat);
    if d < 0 {
        s
    } else {
        s.subrange(0, d) + rep + s.skip(d + pat.len())
    }
}

/// The filesystem path a request path maps to: the alias substitution,
/// else the root prefix; no root and no alias is a 404 (`None`).
pub open spec fn spec_rewrite(cfg: ConfM, path: Seq<u8>) -> Option<Seq<u8>> {
    match cfg.alias {
        Some(a) => Some(spec_replace_first(path, cfg.path, a)),
        None => match cfg.root {
            Some(rt) => Some(rt + path),
            None => None,
        },
    }
}

/// Computes the rewritten target path.
pub fn rewrite_path(cfg: &Location, request_path: &Vec<u8>) -> (r: Result<Vec<u8>, ResponseCode>)
    ensures
        match r {
            Ok(p) => spec_rewrite(cfg@, request_path@) == Some(p@),
            Err(rc) => spec_rewrite(cfg@, request_path@) is None && rc.code == 404,
        },
{
    if let Some(a) = &cfg.alias {
        let pat: &Vec<u8> = &cfg.path;
        let mut out: Vec<u8>;
        if pat.len() == 0 {
            proof {
                assert(is_at(request_path@, pat@, 0));
                crate::bytes::lemma_sub_idx_at(request_path@, pat@, 0);
            }
            out = crate::bytes::copy_bytes(a);
            crate::bytes::append_bytes(&mut out, request_path.as_slice());
            proof {
                assert(out@ =~= spec_replace_first(request_path@, pat@, a@));
            }
        } else {
            match crate::bytes::find_in(request_path.as_slice(), pat.as_slice()) {
                Some(d) => {
                    let n = request_path.len();
                    proof {
                        crate::bytes::lemma_sub_idx_at(request_path@, pat@, d as int);
                        assert(d + pat@.len() <= n);
                    }
                    out = subvec(request_path.as_slice(), 0, d);
                    crate::bytes::append_bytes(&mut out, a.as_slice());
                    let rest = subvec(request_path.as_slice(), d + pat.len(), n);
                    crate::bytes::append_bytes(&mut out, rest.as_slice());
                    proof {
                        assert(out@ =~= spec_replace_first(request_path@, pat@, a@));
                    }
                },
                None => {
                    proof {
                        crate::bytes::lemma_sub_idx_none(request_path@, pat@);
                    }
                    out = crate::bytes::copy_bytes(request_path);
                },
            }
        }
        Ok(out)
    } else if let Some(rt) = &cfg.root {
        let mut out = crate::bytes::copy_bytes(rt);
        crate::bytes::append_bytes(&mut out, request_path.as_slice());
        Ok(out)
    } else {
        Err(ResponseCode::from_code(404))
    }
}

/// Rewrites the request path onto the filesystem. When the target is a
/// directory and the request path lacks its trailing slash, the result is
/// a 301 whose `Location` is the request path with `/` appended.
pub fn add_root_or_alias(cfg: &Location, request: &mut Request, target_is_dir: bool) -> (r: Result<
    (),
    ResponseCode,
>)
    ensures
        match r {
            Ok(_) => {
                &&& spec_rewrite(cfg@, old(request)@.path) matches Some(p)
                &&& final(request)@ == (ReqM {
                    path: spec_rewrite(cfg@, old(request)@.path).unwrap(),
                    ..old(request)@
                })
                &&& !(target_is_dir && !(old(request)@.path.len() >= 1 && old(
                    request,
                )@.path.last() == 47))
            },
            Err(rc) => final(request)@ == old(request)@ && ((rc.code == 404 && spec_rewrite(
                cfg@,
                old(request)@.path,
            ) is None) || (rc.code == 301 && spec_rewrite(cfg@, old(request)@.path) is Some
                && target_is_dir && !(old(request)@.path.len() >= 1 && old(request)@.path.last()
                == 47) && crate::config::opt_view(rc.redirect) == Some(
                old(request)@.path + ascii_of("/"@),
            ))),
        },
{
    proof {
        reveal_strlit("/");
        reveal_strlit("Moved Permanently");
    }
    let p = match rewrite_path(cfg, &request.path) {
        Ok(p) => p,
        Err(rc) => {
            return Err(rc);
        },
    };
    if target_is_dir && !(request.path.len() >= 1 && request.path[request.path.len() - 1] == 47) {
        let mut redirect = crate::bytes::copy_bytes(&request.path);
        redirect.push(47);
        proof {
            assert(redirect@ =~= request@.path + ascii_of("/"@));
        }
        return Err(
            ResponseCode::new_redirect(301, str_bytes("Moved Permanently").as_slice(), redirect),
        );
    }
    request.set_path(p);
    Ok(())
}

/// The index / autoindex decision for a directory target: the index file
/// when it exists, the directory itself under autoindex, else a 403.
pub open spec fn spec_dir_path(
    cfg: ConfM,
    dir: Seq<u8>,
    index_is_file: bool,
) -> Result<Option<Seq<u8>>, u16> {
    if cfg.index is Some && index_is_file {
        Ok(Some(dir + ascii_of("/"@) + cfg.index.unwrap()))
    } else if (match cfg.auto_index {
        Some(b) => b,
        None => false,
    }) {
        Ok(None)
    } else {
        Err(403)
    }
}

/// Resolves a directory target to its index file, to itself for a
/// listing, or to a 403.
pub fn format_dir_path(cfg: &Location, dir: &Vec<u8>, index_is_file: bool) -> (r: Result<
    Option<Vec<u8>>,
    ResponseCode,
>)
    ensures
        match r {
            Ok(Some(p)) => spec_dir_path(cfg@, dir@, index_is_file) == Ok::<Option<Seq<u8>>, u16>(
                Some(p@),
            ),
            Ok(None) => spec_dir_path(cfg@, dir@, index_is_file) == Ok::<Option<Seq<u8>>, u16>(
                None,
            ),
            Err(rc) => spec_dir_path(cfg@, dir@, index_is_file) == Err::<Option<Seq<u8>>, u16>(
                rc.code,
            ) && rc.code == 403,
        },
{
    proof {
        reveal_strlit("/");
    }
    if index_is_file {
        if let Some(ix) = &cfg.index {
            let mut p = crate::bytes::copy_bytes(dir);
            p.push(47);
            crate::bytes::append_bytes(&mut p, ix.as_slice());
            proof {
                assert(p@ =~= dir@ + ascii_of("/"@) + cfg@.index.unwrap());
            }
            return Ok(Some(p));
        }
    }
    let auto = match &cfg.auto_index {
        Some(b) => *b,
        None => false,
    };
    if !auto {
        return Err(ResponseCode::from_code(403));
    }
    Ok(None)
}

/// What validation leaves the request path at, or the status it fails
/// with. `target` is what the filesystem says of the rewritten path and
/// `index_is_file` whether its index file exists.
pub open spec fn spec_validate(
    cfg: ConfM,
    req: ReqM,
    target: FsKind,
    index_is_file: bool,
) -> Result<Seq<u8>, u16> {
    if !(spec_method_gate(cfg.methods, req.method) is Ok) {
        Err(spec_method_gate(cfg.methods, req.method).unwrap_err())
    } else if !spec_size_gate(cfg.max_body_size, req.content_length) {
        Err(413)
    } else {
        match spec_rewrite(cfg, req.path) {
            None => Err(404),
            Some(p) => {
                if target == FsKind::Dir && !(req.path.len() >= 1 && req.path.last() == 47) {
                    Err(301)
                } else {
                    match target {
                        FsKind::File => Ok(p),
                        FsKind::Missing => Err(404),
                        FsKind::Dir => match spec_dir_path(cfg, p, index_is_file) {
                            Ok(Some(ix)) => Ok(ix),
                            Ok(None) => Ok(p),
                            Err(c) => Err(c),
                        },
                    }
                }
            },
        }
    }
}

/// Validates a request against its effective configuration: the method
/// gate, the size gate, the root or alias rewrite with the directory
/// redirect, and the index / autoindex rules, in that order. On success
/// the request's path is the file or directory to serve.
pub fn parse_request(cfg: &Location, request: &mut Request, probe: FsProbe) -> (r: Result<
    (),
    ResponseCode,
>)
    ensures
        match r {
            Ok(_) => spec_validate(cfg@, old(request)@, probe.target, probe.index_is_file)
                == Ok::<Seq<u8>, u16>(final(request)@.path) && final(request)@ == (ReqM {
                path: final(request)@.path,
                ..old(request)@
            }),
            Err(rc) => {
                &&& spec_validate(cfg@, old(request)@, probe.target, probe.index_is_file)
                    == Err::<Seq<u8>, u16>(rc.code)
                &&& (rc.code == 301 ==> crate::config::opt_view(rc.redirect) == Some(
                    old(request)@.path + ascii_of("/"@),
                ))
                &&& final(request)@ == (ReqM { path: final(request)@.path, ..old(request)@ })
                &&& (final(request)@.path == old(request)@.path || spec_rewrite(
                    cfg@,
                    old(request)@.path,
                ) == Some(final(request)@.path))
                &&& ((rc.code == 405 || rc.code == 501 || rc.code == 413 || rc.code == 301)
                    ==> final(request)@ == old(request)@)
                &&& (spec_rewrite(cfg@, old(request)@.path) is None ==> final(request)@ == old(
                    request,
                )@)
            },
        },
{
    match parse_method(cfg, request) {
        Ok(_) => (),
        Err(rc) => {
            return Err(rc);
        },
    }
    match check_body_size(cfg, request) {
        Ok(_) => (),
        Err(rc) => {
            return Err(rc);
        },
    }
    match add_root_or_alias(cfg, request, matches!(probe.target, FsKind::Dir)) {
        Ok(_) => (),
        Err(rc) => {
            return Err(rc);
        },
    }
    match probe.target {
        FsKind::File => Ok(()),
        FsKind::Missing => Err(ResponseCode::from_code(404)),
        FsKind::Dir => {
            let p = crate::bytes::copy_bytes(&request.path);
            match format_dir_path(cfg, &p, probe.index_is_file) {
                Ok(Some(ix)) => {
                    request.set_path(ix);
                    Ok(())
                },
                Ok(None) => Ok(()),
                Err(rc) => Err(rc),
            }
        },
    }
}

impl Server {
    /// The server's own fields as an effective configuration, as if an
    /// empty location had been completed from it: what serves a request
    /// that no location matches.
    pub fn effective_config(&self) -> (r: Location)
        ensures
            r@ == crate::config::spec_complete(spec_empty_loc(self@.path), self@),
    {
        let mut loc = Location {
            internal: false,
            exact_path: false,
            auto_index: None,
            path: crate::bytes::copy_bytes(&self.path),
            root: None,
            alias: None,
            upload_folder: None,
            max_body_size: None,
            redirect: None,
            index: None,
            return_: None,
            methods: None,
            error_pages: Vec::new(),
            error_redirect: Vec::new(),
            cgi: Vec::new(),
            infos: Vec::new(),
        };
        proof {
            assert(crate::config::pages_view(loc.error_pages@) =~= Seq::<(u16, Seq<u8>)>::empty());
            assert(crate::config::redirects_view(loc.error_redirect@) =~= Seq::<
                (u16, (Option<u16>, Seq<u8>)),
            >::empty());
            assert(crate::config::infos_view(loc.infos@) =~= Seq::<
                (Seq<u8>, Seq<Seq<u8>>),
            >::empty());
            assert(crate::config::cgi_view(loc.cgi@) =~= Seq::<(Seq<u8>, Seq<u8>)>::empty());
            assert(loc@ == spec_empty_loc(self@.path));
        }
        loc.complete_with_server_directives(self);
        loc
    }
}

/// The configured `return` directive as a ready response, when one is
/// set: its status, carrying the URL as the redirect target when one was
/// given.
pub fn check_return(cfg: &Location) -> (r: Option<ResponseCode>)
    ensures
        match r {
            Some(rc) => (match cfg@.return_ {
                Some(t) => rc.code == t.0 && crate::config::opt_view(rc.redirect) == t.1
                    && rc.msg@ == crate::http::spec_status_text(t.0),
                None => false,
            }),
            None => cfg@.return_ is None,
        },
{
    match &cfg.return_ {
        Some((code, url)) => {
            let mut rc = ResponseCode::from_code(*code);
            if let Some(u) = url {
                rc.set_redirect(crate::bytes::copy_bytes(u));
            }
            Some(rc)
        },
        None => None,
    }
}

/// An unset location at the given path.
pub open spec fn spec_empty_loc(path: Seq<u8>) -> ConfM {
    ConfM {
        internal: false,
        is_default: false,
        exact_path: false,
        auto_index: None,
        port: None,
        path: path,
        max_body_size: None,
        root: None,
        alias: None,
        upload_folder: None,
        index: None,
        redirect: None,
        return_: None,
        name: None,
        methods: None,
        error_pages: Seq::empty(),
        error_redirect: Seq::empty(),
        infos: Seq::empty(),
        cgi: Seq::empty(),
        locations: Seq::empty(),
    }
}

} // verus!
