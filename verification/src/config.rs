//! The configuration model: raw `server` / `location` blocks as the file
//! parser hands them over, and the virtual servers and locations built
//! from them. A location copies every field it does not set from its
//! server at build time, so it answers for itself at request time.
//!
//! The build is specified by a functional model: [`ConfM`] is the
//! mathematical form of a server or location, `spec_apply_server_dir` /
//! `spec_apply_location_dir` give each directive its meaning, and the
//! builders are proved equal to the folds of those steps.

use vstd::prelude::*;

use crate::bytes::{
    all_digits, ascii_of, bytes_eq, copy_bytes, dec_value, parse_usize, str_bytes, subvec,
};
use crate::http::{spec_method_of, spec_strip_dots, Method};

verus! {

/// A raw `location` block: its modifier (`=` or `~`), its path, and its
/// directives, with `cgi` pairs split out.
pub struct LocationBlock {
    pub modifier: Option<Vec<u8>>,
    pub path: Vec<u8>,
    pub directives: Vec<(Vec<u8>, Vec<Vec<u8>>)>,
    pub cgi: Vec<(Vec<u8>, Vec<u8>)>,
}

/// A raw `server` block: its directives, its location blocks keyed by
/// path, and its `cgi` pairs.
pub struct ServerBlock {
    pub directives: Vec<(Vec<u8>, Vec<Vec<u8>>)>,
    pub locations: Vec<(Vec<u8>, LocationBlock)>,
    pub cgi: Vec<(Vec<u8>, Vec<u8>)>,
}

/// The index of `key` in an association list; the length when absent.
pub open spec fn assoc_idx<V>(s: Seq<(Seq<u8>, V)>, key: Seq<u8>) -> int
    decreases s.len(),
{
    if s.len() == 0 {
        0
    } else if s[0].0 == key {
        0
    } else {
        1 + assoc_idx(s.drop_first(), key)
    }
}

pub proof fn lemma_assoc_idx<V>(s: Seq<(Seq<u8>, V)>, key: Seq<u8>)
    ensures
        0 <= assoc_idx(s, key) <= s.len(),
        assoc_idx(s, key) < s.len() ==> s[assoc_idx(s, key)].0 == key,
        forall|k: int| 0 <= k < assoc_idx(s, key) ==> s[k].0 != key,
    decreases s.len(),
{
    if s.len() > 0 && s[0].0 != key {
        let t = s.drop_first();
        lemma_assoc_idx(t, key);
        assert forall|k: int| 0 <= k < assoc_idx(s, key) implies s[k].0 != key by {
            if k > 0 {
                assert(s[k] == t[k - 1]);
            }
        }
    }
}

pub proof fn lemma_assoc_idx_at<V>(s: Seq<(Seq<u8>, V)>, key: Seq<u8>, i: int)
    requires
        0 <= i <= s.len(),
        forall|k: int| 0 <= k < i ==> s[k].0 != key,
        i < s.len() ==> s[i].0 == key,
    ensures
        assoc_idx(s, key) == i,
    decreases i,
{
    if i > 0 {
        let t = s.drop_first();
        assert(forall|k: int| 0 <= k < i - 1 ==> t[k].0 != key);
        lemma_assoc_idx_at(t, key, i - 1);
    }
}

/// Stores `key -> val`, replacing the entry of an existing key.
pub open spec fn upsert<V>(s: Seq<(Seq<u8>, V)>, key: Seq<u8>, val: V) -> Seq<(Seq<u8>, V)> {
    let i = assoc_idx(s, key);
    if i == s.len() {
        s.push((key, val))
    } else {
        s.update(i, (key, val))
    }
}

/// The index of `key` in a status-keyed table; the length when absent.
pub open spec fn code_idx<V>(s: Seq<(u16, V)>, key: u16) -> int
    decreases s.len(),
{
    if s.len() == 0 {
        0
    } else if s[0].0 == key {
        0
    } else {
        1 + code_idx(s.drop_first(), key)
    }
}

pub proof fn lemma_code_idx<V>(s: Seq<(u16, V)>, key: u16)
    ensures
        0 <= code_idx(s, key) <= s.len(),
        code_idx(s, key) < s.len() ==> s[code_idx(s, key)].0 == key,
        forall|k: int| 0 <= k < code_idx(s, key) ==> s[k].0 != key,
    decreases s.len(),
{
    if s.len() > 0 && s[0].0 != key {
        let t = s.drop_first();
        lemma_code_idx(t, key);
        assert forall|k: int| 0 <= k < code_idx(s, key) implies s[k].0 != key by {
            if k > 0 {
                assert(s[k] == t[k - 1]);
            }
        }
    }
}

pub proof fn lemma_code_idx_at<V>(s: Seq<(u16, V)>, key: u16, i: int)
    requires
        0 <= i <= s.len(),
        forall|k: int| 0 <= k < i ==> s[k].0 != key,
        i < s.len() ==> s[i].0 == key,
    ensures
        code_idx(s, key) == i,
    decreases i,
{
    if i > 0 {
        let t = s.drop_first();
        assert(forall|k: int| 0 <= k < i - 1 ==> t[k].0 != key);
        lemma_code_idx_at(t, key, i - 1);
    }
}

/// Stores `key -> val` in a status-keyed table, replacing an existing key.
pub open spec fn code_upsert<V>(s: Seq<(u16, V)>, key: u16, val: V) -> Seq<(u16, V)> {
    let i = code_idx(s, key);
    if i == s.len() {
        s.push((key, val))
    } else {
        s.update(i, (key, val))
    }
}

impl ServerBlock {
    /// The values of the named directive; empty when it is absent.
    pub fn get(&self, name: &[u8]) -> (r: Vec<Vec<u8>>)
        ensures
            ({
                let dirs = self.directives@.map_values(|p: (Vec<u8>, Vec<Vec<u8>>)| (p.0@, p.1));
                let i = assoc_idx(dirs, name@);
                if i < dirs.len() {
                    r@.len() == dirs[i].1@.len() && (forall|m: int|
                        0 <= m < r@.len() ==> r@[m]@ == dirs[i].1@[m]@)
                } else {
                    r@.len() == 0
                }
            }),
    {
        let ghost dirs = self.directives@.map_values(|p: (Vec<u8>, Vec<Vec<u8>>)| (p.0@, p.1));
        let mut j: usize = 0;
        while j < self.directives.len()
            invariant
                j <= self.directives@.len(),
                dirs == self.directives@.map_values(|p: (Vec<u8>, Vec<Vec<u8>>)| (p.0@, p.1)),
                forall|k: int| 0 <= k < j ==> dirs[k].0 != name@,
            decreases self.directives@.len() - j,
        {
            if bytes_eq(self.directives[j].0.as_slice(), name) {
                proof {
                    lemma_assoc_idx_at(dirs, name@, j as int);
                }
                let mut out: Vec<Vec<u8>> = Vec::new();
                let vals: &Vec<Vec<u8>> = &self.directives[j].1;
                let mut k: usize = 0;
                while k < vals.len()
                    invariant
                        k <= vals@.len(),
                        out@.len() == k,
                        forall|m: int| 0 <= m < k ==> out@[m]@ == vals@[m]@,
                    decreases vals@.len() - k,
                {
                    out.push(copy_bytes(&vals[k]));
                    k = k + 1;
                }
                return out;
            }
            j = j + 1;
        }
        proof {
            lemma_assoc_idx_at(dirs, name@, j as int);
        }
        Vec::new()
    }

    /// The location block declared for exactly this path, if any.
    pub fn get_location(&self, path: &[u8]) -> (r: Option<&LocationBlock>)
        ensures
            ({
                let locs = self.locations@.map_values(|p: (Vec<u8>, LocationBlock)| (p.0@, p.1));
                let i = assoc_idx(locs, path@);
                match r {
                    Some(lb) => i < locs.len() && *lb == locs[i].1,
                    None => i == locs.len(),
                }
            }),
    {
        let ghost locs = self.locations@.map_values(|p: (Vec<u8>, LocationBlock)| (p.0@, p.1));
        let mut j: usize = 0;
        while j < self.locations.len()
            invariant
                j <= self.locations@.len(),
                locs == self.locations@.map_values(|p: (Vec<u8>, LocationBlock)| (p.0@, p.1)),
                forall|k: int| 0 <= k < j ==> locs[k].0 != path@,
            decreases self.locations@.len() - j,
        {
            if bytes_eq(self.locations[j].0.as_slice(), path) {
                proof {
                    lemma_assoc_idx_at(locs, path@, j as int);
                }
                return Some(&self.locations[j].1);
            }
            j = j + 1;
        }
        proof {
            lemma_assoc_idx_at(locs, path@, j as int);
        }
        None
    }
}

/// A directive value list of exactly one entry.
pub open spec fn spec_one(vals: Seq<Seq<u8>>) -> Option<Seq<u8>> {
    if vals.len() == 1 {
        Some(vals[0])
    } else {
        None
    }
}

/// Reads a `root` directive: one path.
pub fn extract_root(value: &Vec<Vec<u8>>) -> (r: Result<Vec<u8>, Vec<u8>>)
    ensures
        match r {
            Ok(p) => spec_one(value@.map_values(|v: Vec<u8>| v@)) == Some(p@),
            Err(_) => spec_one(value@.map_values(|v: Vec<u8>| v@)) is None,
        },
{
    if value.len() != 1 {
        proof {
            reveal_strlit("invalid field: root");
        }
        return Err(str_bytes("invalid field: root"));
    }
    Ok(copy_bytes(&value[0]))
}

/// Reads an `alias` directive: one path that must end with `/`.
pub fn extract_alias(value: &Vec<Vec<u8>>) -> (r: Result<Vec<u8>, Vec<u8>>)
    ensures
        ({
            let vals = value@.map_values(|v: Vec<u8>| v@);
            match r {
                Ok(p) => vals.len() == 1 && vals[0] == p@ && p@.len() >= 1 && p@.last() == 47,
                Err(_) => vals.len() != 1 || vals[0].len() == 0 || vals[0].last() != 47,
            }
        }),
{
    proof {
        reveal_strlit("invalid field: alias");
        reveal_strlit("alias must end with '/'");
    }
    if value.len() != 1 {
        return Err(str_bytes("invalid field: alias"));
    }
    let p = copy_bytes(&value[0]);
    if p.len() == 0 || p[p.len() - 1] != 47 {
        return Err(str_bytes("alias must end with '/'"));
    }
    Ok(p)
}

/// Reads an `upload_folder` directive: one path.
pub fn extract_upload_folder(value: &Vec<Vec<u8>>) -> (r: Result<Vec<u8>, Vec<u8>>)
    ensures
        match r {
            Ok(p) => spec_one(value@.map_values(|v: Vec<u8>| v@)) == Some(p@),
            Err(_) => spec_one(value@.map_values(|v: Vec<u8>| v@)) is None,
        },
{
    if value.len() != 1 {
        proof {
            reveal_strlit("invalid field: upload_folder");
        }
        return Err(str_bytes("invalid field: upload_folder"));
    }
    Ok(copy_bytes(&value[0]))
}

/// A `client_max_body_size` directive: one unsigned decimal number.
pub open spec fn spec_max_body(vals: Seq<Seq<u8>>) -> Option<int> {
    if vals.len() == 1 && vals[0].len() >= 1 && all_digits(vals[0]) && dec_value(vals[0])
        <= usize::MAX {
        Some(dec_value(vals[0]))
    } else {
        None
    }
}

/// Reads a `client_max_body_size` directive.
pub fn extract_max_body_size(value: &Vec<Vec<u8>>) -> (r: Result<usize, Vec<u8>>)
    ensures
        match r {
            Ok(n) => spec_max_body(value@.map_values(|v: Vec<u8>| v@)) == Some(n as int),
            Err(_) => spec_max_body(value@.map_values(|v: Vec<u8>| v@)) is None,
        },
{
    proof {
        reveal_strlit("invalid field: client_max_body_size");
    }
    if value.len() != 1 {
        return Err(str_bytes("invalid field: client_max_body_size"));
    }
    match parse_usize(value[0].as_slice()) {
        Some(n) => Ok(n),
        None => Err(str_bytes("invalid field: client_max_body_size")),
    }
}

/// Reads an `index` directive: one file name.
pub fn extract_index(value: &Vec<Vec<u8>>) -> (r: Result<Vec<u8>, Vec<u8>>)
    ensures
        match r {
            Ok(p) => spec_one(value@.map_values(|v: Vec<u8>| v@)) == Some(p@),
            Err(_) => spec_one(value@.map_values(|v: Vec<u8>| v@)) is None,
        },
{
    if value.len() != 1 {
        proof {
            reveal_strlit("invalid field: index");
        }
        return Err(str_bytes("invalid field: index"));
    }
    Ok(copy_bytes(&value[0]))
}

/// An `auto_index` directive: `on` or `off`.
pub open spec fn spec_auto_index(vals: Seq<Seq<u8>>) -> Option<bool> {
    if vals.len() != 1 {
        None
    } else if vals[0] == ascii_of("on"@) {
        Some(true)
    } else if vals[0] == ascii_of("off"@) {
        Some(false)
    } else {
        None
    }
}

/// Reads an `auto_index` directive.
pub fn extract_auto_index(value: &Vec<Vec<u8>>) -> (r: Result<bool, Vec<u8>>)
    ensures
        match r {
            Ok(b) => spec_auto_index(value@.map_values(|v: Vec<u8>| v@)) == Some(b),
            Err(_) => spec_auto_index(value@.map_values(|v: Vec<u8>| v@)) is None,
        },
{
    proof {
        reveal_strlit("invalid field: auto_index");
        reveal_strlit("on");
        reveal_strlit("off");
    }
    if value.len() != 1 {
        return Err(str_bytes("invalid field: auto_index"));
    }
    if bytes_eq(value[0].as_slice(), str_bytes("on").as_slice()) {
        Ok(true)
    } else if bytes_eq(value[0].as_slice(), str_bytes("off").as_slice()) {
        Ok(false)
    } else {
        Err(str_bytes("invalid field: auto_index"))
    }
}

/// A `cgi` directive: an extension (leading dots dropped) and an
/// interpreter path.
pub open spec fn spec_cgi(vals: Seq<Seq<u8>>) -> Option<(Seq<u8>, Seq<u8>)> {
    if vals.len() == 2 {
        Some((spec_strip_dots(vals[0]), vals[1]))
    } else {
        None
    }
}

/// Reads a `cgi` directive.
pub fn extract_cgi(value: &Vec<Vec<u8>>) -> (r: Result<(Vec<u8>, Vec<u8>), Vec<u8>>)
    ensures
        match r {
            Ok(p) => spec_cgi(value@.map_values(|v: Vec<u8>| v@)) == Some((p.0@, p.1@)),
            Err(_) => spec_cgi(value@.map_values(|v: Vec<u8>| v@)) is None,
        },
{
    if value.len() != 2 {
        proof {
            reveal_strlit("invalid field: cgi");
        }
        return Err(str_bytes("invalid field: cgi"));
    }
    let ext: &Vec<u8> = &value[0];
    let mut i: usize = 0;
    while i < ext.len() && ext[i] == 46
        invariant
            i <= ext@.len(),
            forall|k: int| 0 <= k < i ==> ext@[k] == 46,
        decreases ext@.len() - i,
    {
        i = i + 1;
    }
    proof {
        crate::http::lemma_strip_dots_at(ext@, i as int);
    }
    Ok((subvec(ext.as_slice(), i, ext.len()), copy_bytes(&value[1])))
}

/// A `listen` directive: a port that fits `u16`, optionally followed by
/// `default`.
pub open spec fn spec_listen(vals: Seq<Seq<u8>>) -> Option<(Option<u16>, bool)> {
    if vals.len() < 1 || vals.len() > 2 {
        None
    } else if vals[0].len() >= 1 && all_digits(vals[0]) && dec_value(vals[0]) <= u16::MAX {
        Some((Some(dec_value(vals[0]) as u16), vals.len() == 2 && vals[1] == ascii_of("default"@)))
    } else {
        None
    }
}

/// Reads a `listen` directive.
pub fn extract_listen(value: &Vec<Vec<u8>>) -> (r: Result<(Option<u16>, bool), Vec<u8>>)
    ensures
        match r {
            Ok(p) => spec_listen(value@.map_values(|v: Vec<u8>| v@)) == Some(p),
            Err(_) => spec_listen(value@.map_values(|v: Vec<u8>| v@)) is None,
        },
{
    proof {
        reveal_strlit("invalid field: port");
        reveal_strlit("default");
    }
    if value.len() < 1 || value.len() > 2 {
        return Err(str_bytes("invalid field: port"));
    }
    let deflt = value.len() == 2 && bytes_eq(value[1].as_slice(), str_bytes("default").as_slice());
    match parse_usize(value[0].as_slice()) {
        Some(n) => {
            if n <= 65535 {
                Ok((Some(n as u16), deflt))
            } else {
                Err(str_bytes("invalid field: port"))
            }
        },
        None => Err(str_bytes("invalid field: port")),
    }
}

/// A `return` directive: a status code, and a URL kept only when the code
/// is one a redirect may carry.
pub open spec fn spec_return(vals: Seq<Seq<u8>>) -> Option<(u16, Option<Seq<u8>>)> {
    if vals.len() < 1 || vals.len() > 2 {
        None
    } else if vals[0].len() >= 1 && all_digits(vals[0]) && dec_value(vals[0]) <= u16::MAX {
        let code = dec_value(vals[0]) as u16;
        if vals.len() == 2 && (code == 301 || code == 302 || code == 303 || code == 307) {
            Some((code, Some(vals[1])))
        } else {
            Some((code, None))
        }
    } else {
        None
    }
}

/// Reads a `return` directive.
pub fn extract_return(value: &Vec<Vec<u8>>) -> (r: Result<(u16, Option<Vec<u8>>), Vec<u8>>)
    ensures
        ({
            let s = spec_return(value@.map_values(|v: Vec<u8>| v@));
            match r {
                Ok(p) => s == Some(
                    (
                        p.0,
                        match p.1 {
                            Some(u) => Some(u@),
                            None => None,
                        },
                    ),
                ),
                Err(_) => s is None,
            }
        }),
{
    proof {
        reveal_strlit("invalid field: return");
    }
    if value.len() < 1 || value.len() > 2 {
        return Err(str_bytes("invalid field: return"));
    }
    let code = match parse_usize(value[0].as_slice()) {
        Some(n) => {
            if n <= 65535 {
                n as u16
            } else {
                return Err(str_bytes("invalid field: return"));
            }
        },
        None => {
            return Err(str_bytes("invalid field: return"));
        },
    };
    if value.len() == 2 && crate::http::is_redirect_status_code(code) {
        Ok((code, Some(copy_bytes(&value[1]))))
    } else {
        Ok((code, None))
    }
}

/// The meaning of one `error_page` directive, applied to the current
/// tables: values come in pairs `code page`, or triples `code =newcode
/// url` (`=` alone keeps the status code unchanged); a later entry for a code
/// replaces an earlier one.
pub open spec fn spec_error_fold(
    vals: Seq<Seq<u8>>,
    pages: Seq<(u16, Seq<u8>)>,
    redirects: Seq<(u16, (Option<u16>, Seq<u8>))>,
) -> Option<(Seq<(u16, Seq<u8>)>, Seq<(u16, (Option<u16>, Seq<u8>))>)>
    decreases vals.len(),
{
    if vals.len() == 0 {
        Some((pages, redirects))
    } else if !(vals[0].len() >= 1 && all_digits(vals[0]) && dec_value(vals[0]) <= u16::MAX) {
        None
    } else if vals.len() == 1 {
        None
    } else {
        let code = dec_value(vals[0]) as u16;
        let second = vals[1];
        if second.len() >= 1 && second[0] == 61 {
            if second.len() > 1 && !(all_digits(second.skip(1)) && dec_value(second.skip(1))
                <= u16::MAX) {
                None
            } else if vals.len() == 2 {
                None
            } else {
                let rcode = if second.len() == 1 {
                    Option::<u16>::None
                } else {
                    Some(dec_value(second.skip(1)) as u16)
                };
                spec_error_fold(
                    vals.skip(3),
                    pages,
                    code_upsert(redirects, code, (rcode, vals[2])),
                )
            }
        } else {
            spec_error_fold(vals.skip(2), code_upsert(pages, code, second), redirects)
        }
    }
}

/// The view of an error-page table.
pub open spec fn pages_view(t: Seq<(u16, Vec<u8>)>) -> Seq<(u16, Seq<u8>)> {
    t.map_values(|p: (u16, Vec<u8>)| (p.0, p.1@))
}

/// The view of an error-redirect table.
pub open spec fn redirects_view(t: Seq<(u16, (Option<u16>, Vec<u8>))>) -> Seq<
    (u16, (Option<u16>, Seq<u8>)),
> {
    t.map_values(|p: (u16, (Option<u16>, Vec<u8>))| (p.0, (p.1.0, p.1.1@)))
}

fn upsert_page(tbl: &mut Vec<(u16, Vec<u8>)>, code: u16, val: Vec<u8>)
    ensures
        pages_view(final(tbl)@) == code_upsert(pages_view(old(tbl)@), code, val@),
{
    let ghost t = pages_view(tbl@);
    let mut j: usize = 0;
    while j < tbl.len()
        invariant
            j <= tbl@.len(),
            t == pages_view(tbl@),
            t == pages_view(old(tbl)@),
            t.len() == tbl@.len(),
            forall|k: int| 0 <= k < t.len() ==> t[k] == (tbl@[k].0, tbl@[k].1@),
            forall|k: int| 0 <= k < j ==> t[k].0 != code,
        decreases tbl@.len() - j,
    {
        if tbl[j].0 == code {
            proof {
                lemma_code_idx_at(t, code, j as int);
            }
            tbl[j] = (code, val);
            proof {
                assert(pages_view(tbl@) =~= t.update(j as int, (code, val@)));
            }
            return ;
        }
        j = j + 1;
    }
    proof {
        lemma_code_idx_at(t, code, j as int);
    }
    tbl.push((code, val));
    proof {
        assert(pages_view(tbl@) =~= t.push((code, val@)));
    }
}

fn upsert_redirect(tbl: &mut Vec<(u16, (Option<u16>, Vec<u8>))>, code: u16, val: (Option<u16>, Vec<u8>))
    ensures
        redirects_view(final(tbl)@) == code_upsert(
            redirects_view(old(tbl)@),
            code,
            (val.0, val.1@),
        ),
{
    let ghost t = redirects_view(tbl@);
    let ghost valv = (val.0, val.1@);
    let mut j: usize = 0;
    while j < tbl.len()
        invariant
            j <= tbl@.len(),
            t == redirects_view(tbl@),
            t == redirects_view(old(tbl)@),
            t.len() == tbl@.len(),
            forall|k: int| 0 <= k < t.len() ==> t[k] == (tbl@[k].0, (tbl@[k].1.0, tbl@[k].1.1@)),
            forall|k: int| 0 <= k < j ==> t[k].0 != code,
        decreases tbl@.len() - j,
    {
        if tbl[j].0 == code {
            proof {
                lemma_code_idx_at(t, code, j as int);
            }
            tbl[j] = (code, val);
            proof {
                assert(redirects_view(tbl@) =~= t.update(j as int, (code, (val.0, val.1@))));
            }
            return ;
        }
        j = j + 1;
    }
    proof {
        lemma_code_idx_at(t, code, j as int);
    }
    tbl.push((code, val));
    proof {
        assert(redirects_view(tbl@) =~= t.push((code, (val.0, val.1@))));
    }
}

/// Applies one `error_page` directive to the given tables.
pub fn apply_error_page(
    pages: &mut Vec<(u16, Vec<u8>)>,
    redirects: &mut Vec<(u16, (Option<u16>, Vec<u8>))>,
    value: &Vec<Vec<u8>>,
) -> (r: Result<(), Vec<u8>>)
    ensures
        ({
            let vals = value@.map_values(|v: Vec<u8>| v@);
            match r {
                Ok(_) => spec_error_fold(vals, pages_view(old(pages)@), redirects_view(old(redirects)@))
                    == Some((pages_view(final(pages)@), redirects_view(final(redirects)@))),
                Err(_) => spec_error_fold(
                    vals,
                    pages_view(old(pages)@),
                    redirects_view(old(redirects)@),
                ) is None,
            }
        }),
{
    proof {
        reveal_strlit("invalid field: error_page");
    }
    let ghost vals = value@.map_values(|v: Vec<u8>| v@);
    let mut i: usize = 0;
    proof {
        assert(vals.skip(0) =~= vals);
    }
    while i < value.len()
        invariant
            i <= value@.len(),
            vals == value@.map_values(|v: Vec<u8>| v@),
            spec_error_fold(vals, pages_view(old(pages)@), redirects_view(old(redirects)@))
                == spec_error_fold(
                vals.skip(i as int),
                pages_view(pages@),
                redirects_view(redirects@),
            ),
        decreases value@.len() - i,
    {
        let ghost rest = vals.skip(i as int);
        proof {
            reveal_strlit("invalid field: error_page");
            assert(rest.len() > 0);
            assert(rest[0] == vals[i as int]);
            assert(value@[i as int]@ == vals[i as int]);
        }
        let code = match parse_usize(value[i].as_slice()) {
            Some(n) => {
                if n <= 65535 {
                    n as u16
                } else {
                    return Err(str_bytes("invalid field: error_page"));
                }
            },
            None => {
                return Err(str_bytes("invalid field: error_page"));
            },
        };
        if i + 1 >= value.len() {
            proof {
                assert(rest.len() == 1);
            }
            return Err(str_bytes("invalid field: error_page"));
        }
        proof {
            assert(rest[1] == vals[i + 1]);
            assert(value@[i as int + 1]@ == vals[i + 1]);
            assert(rest.drop_first().drop_first() =~= vals.skip(i + 2));
        }
        let second: &Vec<u8> = &value[i + 1];
        if second.len() >= 1 && second[0] == 61 {
            let rcode: Option<u16> = if second.len() > 1 {
                let digits = subvec(second.as_slice(), 1, second.len());
                proof {
                    assert(digits@ =~= rest[1].skip(1));
                }
                match parse_usize(digits.as_slice()) {
                    Some(n) => {
                        if n <= 65535 {
                            Some(n as u16)
                        } else {
                            return Err(str_bytes("invalid field: error_page"));
                        }
                    },
                    None => {
                        return Err(str_bytes("invalid field: error_page"));
                    },
                }
            } else {
                None
            };
            if i + 2 >= value.len() {
                proof {
                    assert(rest.len() == 2);
                }
                return Err(str_bytes("invalid field: error_page"));
            }
            proof {
                assert(rest[2] == vals[i + 2]);
                assert(value@[i as int + 2]@ == vals[i + 2]);
                assert(rest.skip(3) =~= vals.skip(i + 3));
            }
            let url = copy_bytes(&value[i + 2]);
            upsert_redirect(redirects, code, (rcode, url));
            i = i + 3;
        } else {
            let page = copy_bytes(second);
            upsert_page(pages, code, page);
            proof {
                assert(rest.skip(2) =~= vals.skip(i + 2));
            }
            i = i + 2;
        }
    }
    proof {
        assert(vals.skip(i as int).len() == 0);
    }
    Ok(())
}

/// Reads an `error_page` directive into fresh tables; each table comes
/// back only when it got an entry. An empty directive is an error.
pub fn extract_error_page(value: &Vec<Vec<u8>>) -> (r: Result<
    (Option<Vec<(u16, Vec<u8>)>>, Option<Vec<(u16, (Option<u16>, Vec<u8>))>>),
    Vec<u8>,
>)
    ensures
        ({
            let vals = value@.map_values(|v: Vec<u8>| v@);
            match r {
                Ok(t) => vals.len() >= 1 && (match spec_error_fold(vals, Seq::empty(), Seq::empty()) {
                    Some(fr) => {
                        &&& (match t.0 {
                            Some(p) => pages_view(p@) == fr.0 && fr.0.len() > 0,
                            None => fr.0.len() == 0,
                        })
                        &&& (match t.1 {
                            Some(rd) => redirects_view(rd@) == fr.1 && fr.1.len() > 0,
                            None => fr.1.len() == 0,
                        })
                    },
                    None => false,
                }),
                Err(_) => vals.len() == 0 || spec_error_fold(vals, Seq::empty(), Seq::empty())
                    is None,
            }
        }),
{
    proof {
        reveal_strlit("invalid field: error_page: empty");
    }
    if value.len() == 0 {
        return Err(str_bytes("invalid field: error_page: empty"));
    }
    let mut pages: Vec<(u16, Vec<u8>)> = Vec::new();
    let mut redirects: Vec<(u16, (Option<u16>, Vec<u8>))> = Vec::new();
    proof {
        assert(pages_view(pages@) =~= Seq::<(u16, Seq<u8>)>::empty());
        assert(redirects_view(redirects@) =~= Seq::<(u16, (Option<u16>, Seq<u8>))>::empty());
    }
    match apply_error_page(&mut pages, &mut redirects, value) {
        Ok(_) => (),
        Err(e) => {
            return Err(e);
        },
    }
    let p = if pages.len() > 0 {
        Some(pages)
    } else {
        None
    };
    let rd = if redirects.len() > 0 {
        Some(redirects)
    } else {
        None
    };
    Ok((p, rd))
}

/// The view of an extension-keyed map.
pub open spec fn cgi_view(t: Seq<(Vec<u8>, Vec<u8>)>) -> Seq<(Seq<u8>, Seq<u8>)> {
    t.map_values(|p: (Vec<u8>, Vec<u8>)| (p.0@, p.1@))
}

/// The view of the catch-all directive map.
pub open spec fn infos_view(t: Seq<(Vec<u8>, Vec<Vec<u8>>)>) -> Seq<(Seq<u8>, Seq<Seq<u8>>)> {
    t.map_values(|p: (Vec<u8>, Vec<Vec<u8>>)| (p.0@, p.1@.map_values(|v: Vec<u8>| v@)))
}

pub(crate) fn upsert_pair(tbl: &mut Vec<(Vec<u8>, Vec<u8>)>, key: Vec<u8>, val: Vec<u8>)
    ensures
        cgi_view(final(tbl)@) == upsert(cgi_view(old(tbl)@), key@, val@),
{
    let ghost t = cgi_view(tbl@);
    let mut j: usize = 0;
    while j < tbl.len()
        invariant
            j <= tbl@.len(),
            t == cgi_view(tbl@),
            t == cgi_view(old(tbl)@),
            t.len() == tbl@.len(),
            forall|k: int| 0 <= k < t.len() ==> t[k] == (tbl@[k].0@, tbl@[k].1@),
            forall|k: int| 0 <= k < j ==> t[k].0 != key@,
        decreases tbl@.len() - j,
    {
        if bytes_eq(tbl[j].0.as_slice(), key.as_slice()) {
            proof {
                lemma_assoc_idx_at(t, key@, j as int);
            }
            tbl[j] = (key, val);
            proof {
                assert(cgi_view(tbl@) =~= t.update(j as int, (tbl@[j as int].0@, tbl@[j as int].1@)));
            }
            return ;
        }
        j = j + 1;
    }
    proof {
        lemma_assoc_idx_at(t, key@, j as int);
    }
    tbl.push((key, val));
    proof {
        let n = tbl@.len() - 1;
        assert(cgi_view(tbl@) =~= t.push((tbl@[n].0@, tbl@[n].1@)));
    }
}

pub(crate) fn upsert_infos(tbl: &mut Vec<(Vec<u8>, Vec<Vec<u8>>)>, key: Vec<u8>, val: Vec<Vec<u8>>)
    ensures
        infos_view(final(tbl)@) == upsert(
            infos_view(old(tbl)@),
            key@,
            val@.map_values(|v: Vec<u8>| v@),
        ),
{
    let ghost t = infos_view(tbl@);
    let mut j: usize = 0;
    while j < tbl.len()
        invariant
            j <= tbl@.len(),
            t == infos_view(tbl@),
            t == infos_view(old(tbl)@),
            t.len() == tbl@.len(),
            forall|k: int|
                0 <= k < t.len() ==> t[k] == (tbl@[k].0@, tbl@[k].1@.map_values(|v: Vec<u8>| v@)),
            forall|k: int| 0 <= k < j ==> t[k].0 != key@,
        decreases tbl@.len() - j,
    {
        if bytes_eq(tbl[j].0.as_slice(), key.as_slice()) {
            proof {
                lemma_assoc_idx_at(t, key@, j as int);
            }
            tbl[j] = (key, val);
            proof {
                assert(infos_view(tbl@) =~= t.update(
                    j as int,
                    (tbl@[j as int].0@, tbl@[j as int].1@.map_values(|v: Vec<u8>| v@)),
                ));
            }
            return ;
        }
        j = j + 1;
    }
    proof {
        lemma_assoc_idx_at(t, key@, j as int);
    }
    tbl.push((key, val));
    proof {
        let n = tbl@.len() - 1;
        assert(infos_view(tbl@) =~= t.push((tbl@[n].0@, tbl@[n].1@.map_values(|v: Vec<u8>| v@))));
    }
}

/// The methods a value list names, unknown tokens marked `UNKNOWN`.
pub open spec fn spec_methods_of(vals: Seq<Seq<u8>>) -> Seq<Method> {
    vals.map_values(|v: Seq<u8>| spec_method_of(v))
}

/// Every token names a known verb.
pub open spec fn spec_methods_ok(vals: Seq<Seq<u8>>) -> bool {
    forall|i: int| 0 <= i < vals.len() ==> spec_method_of(vals[i]) != Method::UNKNOWN
}

fn parse_methods(infos: &Vec<Vec<u8>>) -> (r: (Vec<Method>, bool))
    ensures
        r.0@ == spec_methods_of(infos@.map_values(|v: Vec<u8>| v@)),
        r.1 == spec_methods_ok(infos@.map_values(|v: Vec<u8>| v@)),
{
    let ghost vals = infos@.map_values(|v: Vec<u8>| v@);
    let mut out: Vec<Method> = Vec::new();
    let mut ok = true;
    let mut i: usize = 0;
    while i < infos.len()
        invariant
            i <= infos@.len(),
            vals == infos@.map_values(|v: Vec<u8>| v@),
            out@.len() == i,
            forall|k: int| 0 <= k < i ==> out@[k] == spec_method_of(vals[k]),
            ok == (forall|k: int| 0 <= k < i ==> spec_method_of(vals[k]) != Method::UNKNOWN),
        decreases infos@.len() - i,
    {
        proof {
            assert(infos@[i as int]@ == vals[i as int]);
        }
        let m = Method::from_token(infos[i].as_slice());
        if matches!(m, Method::UNKNOWN) {
            ok = false;
        }
        out.push(m);
        i = i + 1;
    }
    proof {
        assert(out@ =~= spec_methods_of(vals));
    }
    (out, ok)
}

/// The mathematical form of a virtual server or a location: every
/// configured field as a plain value. Fields that do not apply (a
/// server's `alias`, a location's `port`) stay at their defaults.
pub ghost struct ConfM {
    pub internal: bool,
    pub is_default: bool,
    pub exact_path: bool,
    pub auto_index: Option<bool>,
    pub port: Option<u16>,
    pub path: Seq<u8>,
    pub max_body_size: Option<int>,
    pub root: Option<Seq<u8>>,
    pub alias: Option<Seq<u8>>,
    pub upload_folder: Option<Seq<u8>>,
    pub index: Option<Seq<u8>>,
    pub redirect: Option<Seq<u8>>,
    pub return_: Option<(u16, Option<Seq<u8>>)>,
    pub name: Option<Seq<Seq<u8>>>,
    pub methods: Option<Seq<Method>>,
    pub error_pages: Seq<(u16, Seq<u8>)>,
    pub error_redirect: Seq<(u16, (Option<u16>, Seq<u8>))>,
    pub infos: Seq<(Seq<u8>, Seq<Seq<u8>>)>,
    pub cgi: Seq<(Seq<u8>, Seq<u8>)>,
    pub locations: Seq<ConfM>,
}

/// The view of an optional byte string.
pub open spec fn opt_view(o: Option<Vec<u8>>) -> Option<Seq<u8>> {
    match o {
        Some(v) => Some(v@),
        None => None,
    }
}

/// The effect of one directive on a virtual server; `None` is a config
/// error. Unknown directives land in the catch-all map.
pub open spec fn spec_apply_server_dir(m: ConfM, name: Seq<u8>, vals: Seq<Seq<u8>>) -> Option<
    ConfM,
> {
    if name == ascii_of("root"@) {
        match spec_one(vals) {
            Some(p) => Some(ConfM { root: Some(p), ..m }),
            None => None,
        }
    } else if name == ascii_of("alias"@) {
        None
    } else if name == ascii_of("upload_folder"@) {
        match spec_one(vals) {
            Some(p) => Some(ConfM { upload_folder: Some(p), ..m }),
            None => None,
        }
    } else if name == ascii_of("listen"@) {
        match spec_listen(vals) {
            Some(l) => Some(ConfM { port: l.0, is_default: l.1, ..m }),
            None => None,
        }
    } else if name == ascii_of("server_name"@) || name == ascii_of("server_names"@) {
        if vals.len() < 1 {
            None
        } else {
            Some(
                ConfM {
                    name: Some(
                        (match m.name {
                            Some(n) => n,
                            None => Seq::empty(),
                        }) + vals,
                    ),
                    ..m
                },
            )
        }
    } else if name == ascii_of("index"@) {
        match spec_one(vals) {
            Some(p) => Some(ConfM { index: Some(p), ..m }),
            None => None,
        }
    } else if name == ascii_of("auto_index"@) {
        match spec_auto_index(vals) {
            Some(b) => Some(ConfM { auto_index: Some(b), ..m }),
            None => None,
        }
    } else if name == ascii_of("client_max_body_size"@) {
        match spec_max_body(vals) {
            Some(n) => Some(ConfM { max_body_size: Some(n), ..m }),
            None => None,
        }
    } else if name == ascii_of("cgi"@) {
        match spec_cgi(vals) {
            Some(c) => Some(ConfM { cgi: upsert(m.cgi, c.0, c.1), ..m }),
            None => None,
        }
    } else if name == ascii_of("allowed_methods"@) {
        if vals.len() < 1 || !spec_methods_ok(vals) {
            None
        } else {
            Some(
                ConfM {
                    methods: Some(
                        (match m.methods {
                            Some(ms) => ms,
                            None => Seq::empty(),
                        }) + spec_methods_of(vals),
                    ),
                    ..m
                },
            )
        }
    } else if name == ascii_of("return"@) {
        match spec_return(vals) {
            Some(t) => Some(ConfM { return_: Some(t), ..m }),
            None => None,
        }
    } else if name == ascii_of("error_page"@) {
        if vals.len() == 0 {
            None
        } else {
            match spec_error_fold(vals, m.error_pages, m.error_redirect) {
                Some(t) => Some(ConfM { error_pages: t.0, error_redirect: t.1, ..m }),
                None => None,
            }
        }
    } else if name == ascii_of("internal"@) {
        Some(ConfM { internal: true, ..m })
    } else {
        Some(ConfM { infos: upsert(m.infos, name, vals), ..m })
    }
}

/// The effect of one directive on a location; `None` is a config error.
/// `root` and `alias` exclude one another; method tokens need not be
/// known verbs here.
pub open spec fn spec_apply_location_dir(m: ConfM, name: Seq<u8>, vals: Seq<Seq<u8>>) -> Option<
    ConfM,
> {
    if name == ascii_of("root"@) {
        if m.root is Some || m.alias is Some {
            None
        } else {
            match spec_one(vals) {
                Some(p) => Some(ConfM { root: Some(p), ..m }),
                None => None,
            }
        }
    } else if name == ascii_of("alias"@) {
        if m.root is Some {
            None
        } else if vals.len() == 1 && vals[0].len() >= 1 && vals[0].last() == 47 {
            Some(ConfM { alias: Some(vals[0]), ..m })
        } else {
            None
        }
    } else if name == ascii_of("index"@) {
        match spec_one(vals) {
            Some(p) => Some(ConfM { index: Some(p), ..m }),
            None => None,
        }
    } else if name == ascii_of("auto_index"@) {
        match spec_auto_index(vals) {
            Some(b) => Some(ConfM { auto_index: Some(b), ..m }),
            None => None,
        }
    } else if name == ascii_of("client_max_body_size"@) {
        match spec_max_body(vals) {
            Some(n) => Some(ConfM { max_body_size: Some(n), ..m }),
            None => None,
        }
    } else if name == ascii_of("cgi"@) {
        match spec_cgi(vals) {
            Some(c) => Some(ConfM { cgi: upsert(m.cgi, c.0, c.1), ..m }),
            None => None,
        }
    } else if name == ascii_of("allowed_methods"@) {
        if vals.len() < 1 {
            None
        } else {
            Some(
                ConfM {
                    methods: Some(
                        (match m.methods {
                            Some(ms) => ms,
                            None => Seq::empty(),
                        }) + spec_methods_of(vals),
                    ),
                    ..m
                },
            )
        }
    } else if name == ascii_of("redirect"@) {
        if vals.len() == 1 {
            Some(ConfM { redirect: Some(vals[0]), ..m })
        } else {
            None
        }
    } else if name == ascii_of("return"@) {
        match spec_return(vals) {
            Some(t) => Some(ConfM { return_: Some(t), ..m }),
            None => None,
        }
    } else if name == ascii_of("internal"@) {
        Some(ConfM { internal: true, ..m })
    } else if name == ascii_of("error_page"@) {
        if vals.len() == 0 {
            None
        } else {
            match spec_error_fold(vals, m.error_pages, m.error_redirect) {
                Some(t) => Some(ConfM { error_pages: t.0, error_redirect: t.1, ..m }),
                None => None,
            }
        }
    } else {
        Some(ConfM { infos: upsert(m.infos, name, vals), ..m })
    }
}

/// A location's completion: every field it left unset is copied from its
/// server, so the location answers for itself at request time.
pub open spec fn spec_complete(loc: ConfM, srv: ConfM) -> ConfM {
    ConfM {
        internal: loc.internal || srv.internal,
        auto_index: if loc.auto_index is Some {
            loc.auto_index
        } else {
            Some(
                match srv.auto_index {
                    Some(b) => b,
                    None => false,
                },
            )
        },
        root: if loc.root is Some {
            loc.root
        } else {
            srv.root
        },
        index: if loc.index is Some {
            loc.index
        } else {
            srv.index
        },
        max_body_size: if loc.max_body_size is Some {
            loc.max_body_size
        } else {
            srv.max_body_size
        },
        methods: if loc.methods is Some {
            loc.methods
        } else {
            srv.methods
        },
        return_: if loc.return_ is Some {
            loc.return_
        } else {
            srv.return_
        },
        upload_folder: if loc.upload_folder is Some {
            loc.upload_folder
        } else {
            srv.upload_folder
        },
        cgi: if loc.cgi.len() == 0 {
            srv.cgi
        } else {
            loc.cgi
        },
        error_pages: if loc.error_pages.len() == 0 {
            srv.error_pages
        } else {
            loc.error_pages
        },
        error_redirect: if loc.error_redirect.len() == 0 {
            srv.error_redirect
        } else {
            loc.error_redirect
        },
        ..loc
    }
}

/// Folds a location's directives.
pub open spec fn spec_location_dirs(m: ConfM, dirs: Seq<(Vec<u8>, Vec<Vec<u8>>)>) -> Option<ConfM>
    decreases dirs.len(),
{
    if dirs.len() == 0 {
        Some(m)
    } else {
        match spec_apply_location_dir(m, dirs[0].0@, dirs[0].1@.map_values(|v: Vec<u8>| v@)) {
            None => None,
            Some(m2) => spec_location_dirs(m2, dirs.drop_first()),
        }
    }
}

/// Folds a server's directives.
pub open spec fn spec_server_dirs(m: ConfM, dirs: Seq<(Vec<u8>, Vec<Vec<u8>>)>) -> Option<ConfM>
    decreases dirs.len(),
{
    if dirs.len() == 0 {
        Some(m)
    } else {
        match spec_apply_server_dir(m, dirs[0].0@, dirs[0].1@.map_values(|v: Vec<u8>| v@)) {
            None => None,
            Some(m2) => spec_server_dirs(m2, dirs.drop_first()),
        }
    }
}

/// A fresh location model for a raw block: path and modifier from the
/// declaration, `cgi` pairs carried over, everything else unset.
pub open spec fn spec_location_init(lb: LocationBlock) -> ConfM {
    ConfM {
        internal: false,
        is_default: false,
        exact_path: (match lb.modifier {
            Some(md) => md@ == ascii_of("="@),
            None => false,
        }),
        auto_index: None,
        port: None,
        path: lb.path@,
        max_body_size: None,
        root: None,
        alias: None,
        upload_folder: None,
        index: None,
        redirect: None,
        return_: None,
        name: None,
        methods: None,
        error_pages: Seq::empty(),
        error_redirect: Seq::empty(),
        infos: Seq::empty(),
        cgi: cgi_view(lb.cgi@),
        locations: Seq::empty(),
    }
}

/// The build of one location: fold its directives, then complete it from
/// its server.
pub open spec fn spec_location_new(lb: LocationBlock, srv: ConfM) -> Option<ConfM> {
    match spec_location_dirs(spec_location_init(lb), lb.directives@) {
        None => None,
        Some(m) => Some(spec_complete(m, srv)),
    }
}

/// A fresh server model for a raw block.
pub open spec fn spec_server_init(b: ServerBlock) -> ConfM {
    ConfM {
        internal: false,
        is_default: false,
        exact_path: false,
        auto_index: Some(false),
        port: None,
        path: ascii_of("/"@),
        max_body_size: None,
        root: None,
        alias: None,
        upload_folder: None,
        index: None,
        redirect: None,
        return_: None,
        name: None,
        methods: None,
        error_pages: Seq::empty(),
        error_redirect: Seq::empty(),
        infos: Seq::empty(),
        cgi: cgi_view(b.cgi@),
        locations: Seq::empty(),
    }
}

/// Folds a server's location blocks, each completed against the server
/// as built so far.
pub open spec fn spec_server_locs(m: ConfM, locs: Seq<(Vec<u8>, LocationBlock)>) -> Option<ConfM>
    decreases locs.len(),
{
    if locs.len() == 0 {
        Some(m)
    } else {
        match spec_location_new(locs[0].1, m) {
            None => None,
            Some(lm) => spec_server_locs(
                ConfM { locations: m.locations.push(lm), ..m },
                locs.drop_first(),
            ),
        }
    }
}

/// The build of one virtual server from its raw block: directives first,
/// then the location blocks.
pub open spec fn spec_server_new(b: ServerBlock) -> Option<ConfM> {
    match spec_server_dirs(spec_server_init(b), b.directives@) {
        None => None,
        Some(m) => spec_server_locs(m, b.locations@),
    }
}

/// A location attached to a virtual server; after its build it carries
/// every effective field itself. Its mathematical form is [`ConfM`].
#[derive(Clone, Debug)]
pub struct Location {
    pub internal: bool,
    pub exact_path: bool,
    pub auto_index: Option<bool>,
    pub path: Vec<u8>,
    pub root: Option<Vec<u8>>,
    pub alias: Option<Vec<u8>>,
    pub upload_folder: Option<Vec<u8>>,
    pub max_body_size: Option<usize>,
    pub redirect: Option<Vec<u8>>,
    pub index: Option<Vec<u8>>,
    pub return_: Option<(u16, Option<Vec<u8>>)>,
    pub methods: Option<Vec<Method>>,
    pub error_pages: Vec<(u16, Vec<u8>)>,
    pub error_redirect: Vec<(u16, (Option<u16>, Vec<u8>))>,
    pub cgi: Vec<(Vec<u8>, Vec<u8>)>,
    pub infos: Vec<(Vec<u8>, Vec<Vec<u8>>)>,
}

impl View for Location {
    type V = ConfM;

    open spec fn view(&self) -> ConfM {
        ConfM {
            internal: self.internal,
            is_default: false,
            exact_path: self.exact_path,
            auto_index: self.auto_index,
            port: None,
            path: self.path@,
            max_body_size: (match self.max_body_size {
                Some(n) => Some(n as int),
                None => None,
            }),
            root: opt_view(self.root),
            alias: opt_view(self.alias),
            upload_folder: opt_view(self.upload_folder),
            index: opt_view(self.index),
            redirect: opt_view(self.redirect),
            return_: (match self.return_ {
                Some((c, u)) => Some((c, opt_view(u))),
                None => None,
            }),
            name: None,
            methods: (match self.methods {
                Some(ms) => Some(ms@),
                None => None,
            }),
            error_pages: pages_view(self.error_pages@),
            error_redirect: redirects_view(self.error_redirect@),
            infos: infos_view(self.infos@),
            cgi: cgi_view(self.cgi@),
            locations: Seq::empty(),
        }
    }
}

/// A virtual server: its own fields plus its locations. Its mathematical
/// form is [`ConfM`].
#[derive(Clone, Debug)]
pub struct Server {
    pub internal: bool,
    pub default: bool,
    pub auto_index: bool,
    pub port: Option<u16>,
    pub path: Vec<u8>,
    pub max_body_size: Option<usize>,
    pub root: Option<Vec<u8>>,
    pub upload_folder: Option<Vec<u8>>,
    pub index: Option<Vec<u8>>,
    pub return_: Option<(u16, Option<Vec<u8>>)>,
    pub name: Option<Vec<Vec<u8>>>,
    pub methods: Option<Vec<Method>>,
    pub error_pages: Vec<(u16, Vec<u8>)>,
    pub error_redirect: Vec<(u16, (Option<u16>, Vec<u8>))>,
    pub infos: Vec<(Vec<u8>, Vec<Vec<u8>>)>,
    pub cgi: Vec<(Vec<u8>, Vec<u8>)>,
    pub locations: Vec<Location>,
}

impl View for Server {
    type V = ConfM;

    open spec fn view(&self) -> ConfM {
        ConfM {
            internal: self.internal,
            is_default: self.default,
            exact_path: false,
            auto_index: Some(self.auto_index),
            port: self.port,
            path: self.path@,
            max_body_size: (match self.max_body_size {
                Some(n) => Some(n as int),
                None => None,
            }),
            root: opt_view(self.root),
            alias: None,
            upload_folder: opt_view(self.upload_folder),
            index: opt_view(self.index),
            redirect: None,
            return_: (match self.return_ {
                Some((c, u)) => Some((c, opt_view(u))),
                None => None,
            }),
            name: (match self.name {
                Some(ns) => Some(ns@.map_values(|v: Vec<u8>| v@)),
                None => None,
            }),
            methods: (match self.methods {
                Some(ms) => Some(ms@),
                None => None,
            }),
            error_pages: pages_view(self.error_pages@),
            error_redirect: redirects_view(self.error_redirect@),
            infos: infos_view(self.infos@),
            cgi: cgi_view(self.cgi@),
            locations: self.locations@.map_values(|l: Location| l@),
        }
    }
}

pub(crate) fn copy_vals(v: &Vec<Vec<u8>>) -> (r: Vec<Vec<u8>>)
    ensures
        r@.map_values(|x: Vec<u8>| x@) == v@.map_values(|x: Vec<u8>| x@),
{
    let mut out: Vec<Vec<u8>> = Vec::new();
    let mut k: usize = 0;
    while k < v.len()
        invariant
            k <= v@.len(),
            out@.len() == k,
            forall|m: int| 0 <= m < k ==> out@[m]@ == v@[m]@,
        decreases v@.len() - k,
    {
        out.push(copy_bytes(&v[k]));
        k = k + 1;
    }
    proof {
        assert(out@.map_values(|x: Vec<u8>| x@) =~= v@.map_values(|x: Vec<u8>| x@));
    }
    out
}

fn copy_cgi_map(t: &Vec<(Vec<u8>, Vec<u8>)>) -> (r: Vec<(Vec<u8>, Vec<u8>)>)
    ensures
        cgi_view(r@) == cgi_view(t@),
{
    let mut out: Vec<(Vec<u8>, Vec<u8>)> = Vec::new();
    let mut k: usize = 0;
    while k < t.len()
        invariant
            k <= t@.len(),
            out@.len() == k,
            forall|m: int| 0 <= m < k ==> out@[m].0@ == t@[m].0@ && out@[m].1@ == t@[m].1@,
        decreases t@.len() - k,
    {
        out.push((copy_bytes(&t[k].0), copy_bytes(&t[k].1)));
        k = k + 1;
    }
    proof {
        assert(cgi_view(out@) =~= cgi_view(t@));
    }
    out
}

fn copy_pages(t: &Vec<(u16, Vec<u8>)>) -> (r: Vec<(u16, Vec<u8>)>)
    ensures
        pages_view(r@) == pages_view(t@),
{
    let mut out: Vec<(u16, Vec<u8>)> = Vec::new();
    let mut k: usize = 0;
    while k < t.len()
        invariant
            k <= t@.len(),
            out@.len() == k,
            forall|m: int| 0 <= m < k ==> out@[m].0 == t@[m].0 && out@[m].1@ == t@[m].1@,
        decreases t@.len() - k,
    {
        out.push((t[k].0, copy_bytes(&t[k].1)));
        k = k + 1;
    }
    proof {
        assert(pages_view(out@) =~= pages_view(t@));
    }
    out
}

fn copy_redirects(t: &Vec<(u16, (Option<u16>, Vec<u8>))>) -> (r: Vec<(u16, (Option<u16>, Vec<u8>))>)
    ensures
        redirects_view(r@) == redirects_view(t@),
{
    let mut out: Vec<(u16, (Option<u16>, Vec<u8>))> = Vec::new();
    let mut k: usize = 0;
    while k < t.len()
        invariant
            k <= t@.len(),
            out@.len() == k,
            forall|m: int|
                0 <= m < k ==> out@[m].0 == t@[m].0 && out@[m].1.0 == t@[m].1.0 && out@[m].1.1@
                    == t@[m].1.1@,
        decreases t@.len() - k,
    {
        out.push((t[k].0, (t[k].1.0, copy_bytes(&t[k].1.1))));
        k = k + 1;
    }
    proof {
        assert(redirects_view(out@) =~= redirects_view(t@));
    }
    out
}

fn copy_methods(t: &Vec<Method>) -> (r: Vec<Method>)
    ensures
        r@ == t@,
{
    let mut out: Vec<Method> = Vec::new();
    let mut k: usize = 0;
    while k < t.len()
        invariant
            k <= t@.len(),
            out@ == t@.take(k as int),
        decreases t@.len() - k,
    {
        out.push(t[k]);
        proof {
            assert(t@.take(k + 1) =~= t@.take(k as int).push(t@[k as int]));
        }
        k = k + 1;
    }
    proof {
        assert(t@.take(t@.len() as int) =~= t@);
    }
    out
}

fn copy_opt_bytes(o: &Option<Vec<u8>>) -> (r: Option<Vec<u8>>)
    ensures
        opt_view(r) == opt_view(*o),
{
    match o {
        Some(v) => Some(copy_bytes(v)),
        None => None,
    }
}

impl Location {
    /// Applies one directive of a `location` block to this location.
    pub fn add_directive(&mut self, name: Vec<u8>, infos: Vec<Vec<u8>>) -> (r: Result<(), Vec<u8>>)
        ensures
            match r {
                Ok(_) => spec_apply_location_dir(
                    old(self)@,
                    name@,
                    infos@.map_values(|v: Vec<u8>| v@),
                ) == Some(final(self)@),
                Err(_) => spec_apply_location_dir(
                    old(self)@,
                    name@,
                    infos@.map_values(|v: Vec<u8>| v@),
                ) is None,
            },
    {
        proof {
            reveal_strlit("root");
            reveal_strlit("alias");
            reveal_strlit("index");
            reveal_strlit("auto_index");
            reveal_strlit("client_max_body_size");
            reveal_strlit("cgi");
            reveal_strlit("allowed_methods");
            reveal_strlit("redirect");
            reveal_strlit("return");
            reveal_strlit("internal");
            reveal_strlit("error_page");
            reveal_strlit("invalid field: root: root cannot be set with alias");
            reveal_strlit("invalid field: alias: alias cannot be set with root");
            reveal_strlit("invalid field: allowed_methods");
            reveal_strlit("invalid field: redirect");
            reveal_strlit("invalid field: error_page: empty");
        }
        let ghost vals = infos@.map_values(|v: Vec<u8>| v@);
        if bytes_eq(name.as_slice(), str_bytes("root").as_slice()) {
            if self.root.is_some() || self.alias.is_some() {
                return Err(str_bytes("invalid field: root: root cannot be set with alias"));
            }
            match extract_root(&infos) {
                Ok(p) => {
                    self.root = Some(p);
                    Ok(())
                },
                Err(e) => Err(e),
            }
        } else if bytes_eq(name.as_slice(), str_bytes("alias").as_slice()) {
            if self.root.is_some() {
                return Err(str_bytes("invalid field: alias: alias cannot be set with root"));
            }
            match extract_alias(&infos) {
                Ok(p) => {
                    proof {
                        assert(infos@[0]@ == vals[0]);
                    }
                    self.alias = Some(p);
                    Ok(())
                },
                Err(e) => Err(e),
            }
        } else if bytes_eq(name.as_slice(), str_bytes("index").as_slice()) {
            match extract_index(&infos) {
                Ok(p) => {
                    self.index = Some(p);
                    Ok(())
                },
                Err(e) => Err(e),
            }
        } else if bytes_eq(name.as_slice(), str_bytes("auto_index").as_slice()) {
            match extract_auto_index(&infos) {
                Ok(b) => {
                    self.auto_index = Some(b);
                    Ok(())
                },
                Err(e) => Err(e),
            }
        } else if bytes_eq(name.as_slice(), str_bytes("client_max_body_size").as_slice()) {
            match extract_max_body_size(&infos) {
                Ok(n) => {
                    self.max_body_size = Some(n);
                    Ok(())
                },
                Err(e) => Err(e),
            }
        } else if bytes_eq(name.as_slice(), str_bytes("cgi").as_slice()) {
            match extract_cgi(&infos) {
                Ok((ext, path)) => {
                    upsert_pair(&mut self.cgi, ext, path);
                    Ok(())
                },
                Err(e) => Err(e),
            }
        } else if bytes_eq(name.as_slice(), str_bytes("allowed_methods").as_slice()) {
            if infos.len() < 1 {
                return Err(str_bytes("invalid field: allowed_methods"));
            }
            let (ms, _) = parse_methods(&infos);
            let mut cur = match self.methods.take() {
                Some(v) => v,
                None => Vec::new(),
            };
            let ghost base = cur@;
            proof {
                if old(self)@.methods is None {
                    assert(base =~= Seq::<Method>::empty());
                }
            }
            let mut k: usize = 0;
            while k < ms.len()
                invariant
                    k <= ms@.len(),
                    cur@ == base + ms@.take(k as int),
                decreases ms@.len() - k,
            {
                cur.push(ms[k]);
                proof {
                    assert(base + ms@.take(k + 1) =~= (base + ms@.take(k as int)).push(
                        ms@[k as int]));
                }
                k = k + 1;
            }
            proof {
                assert(ms@.take(ms@.len() as int) =~= ms@);
            }
            self.methods = Some(cur);
            Ok(())
        } else if bytes_eq(name.as_slice(), str_bytes("redirect").as_slice()) {
            if infos.len() != 1 {
                return Err(str_bytes("invalid field: redirect"));
            }
            proof {
                assert(infos@[0]@ == vals[0]);
            }
            self.redirect = Some(copy_bytes(&infos[0]));
            Ok(())
        } else if bytes_eq(name.as_slice(), str_bytes("return").as_slice()) {
            match extract_return(&infos) {
                Ok(t) => {
                    self.return_ = Some(t);
                    Ok(())
                },
                Err(e) => Err(e),
            }
        } else if bytes_eq(name.as_slice(), str_bytes("internal").as_slice()) {
            self.internal = true;
            Ok(())
        } else if bytes_eq(name.as_slice(), str_bytes("error_page").as_slice()) {
            if infos.len() == 0 {
                return Err(str_bytes("invalid field: error_page: empty"));
            }
            match apply_error_page(&mut self.error_pages, &mut self.error_redirect, &infos) {
                Ok(_) => Ok(()),
                Err(e) => Err(e),
            }
        } else {
            upsert_infos(&mut self.infos, name, infos);
            Ok(())
        }
    }

    /// Builds a location from its raw block and completes it from its
    /// server.
    pub fn new(location: &LocationBlock, server: &Server) -> (r: Result<Location, Vec<u8>>)
        ensures
            match r {
                Ok(loc) => spec_location_new(*location, server@) == Some(loc@),
                Err(_) => spec_location_new(*location, server@) is None,
            },
    {
        proof {
            reveal_strlit("=");
        }
        let exact = match &location.modifier {
            Some(md) => bytes_eq(md.as_slice(), str_bytes("=").as_slice()),
            None => false,
        };
        let mut loc = Location {
            internal: false,
            exact_path: exact,
            auto_index: None,
            path: copy_bytes(&location.path),
            root: None,
            alias: None,
            upload_folder: None,
            max_body_size: None,
            redirect: None,
            index: None,
            return_: None,
            methods: None,
            error_pages: Vec::new(),
            error_redirect: Vec::new(),
            cgi: copy_cgi_map(&location.cgi),
            infos: Vec::new(),
        };
        proof {
            assert(pages_view(loc.error_pages@) =~= Seq::<(u16, Seq<u8>)>::empty());
            assert(redirects_view(loc.error_redirect@) =~= Seq::<
                (u16, (Option<u16>, Seq<u8>)),
            >::empty());
            assert(infos_view(loc.infos@) =~= Seq::<(Seq<u8>, Seq<Seq<u8>>)>::empty());
            assert(loc@ == spec_location_init(*location));
        }
        let ghost dirs = location.directives@;
        let mut i: usize = 0;
        proof {
            assert(dirs.skip(0) =~= dirs);
        }
        while i < location.directives.len()
            invariant
                i <= location.directives@.len(),
                dirs == location.directives@,
                spec_location_dirs(spec_location_init(*location), dirs) == spec_location_dirs(
                    loc@,
                    dirs.skip(i as int),
                ),
            decreases location.directives@.len() - i,
        {
            let ghost rest = dirs.skip(i as int);
            proof {
                assert(rest.len() > 0);
                assert(rest[0] == dirs[i as int]);
                assert(rest.drop_first() =~= dirs.skip(i + 1));
            }
            let name = copy_bytes(&location.directives[i].0);
            let infos = copy_vals(&location.directives[i].1);
            match loc.add_directive(name, infos) {
                Ok(_) => (),
                Err(e) => {
                    return Err(e);
                },
            }
            i = i + 1;
        }
        proof {
            assert(dirs.skip(i as int).len() == 0);
        }
        loc.complete_with_server_directives(server);
        Ok(loc)
    }

    /// Copies every field this location left unset from its server.
    pub fn complete_with_server_directives(&mut self, server: &Server)
        ensures
            final(self)@ == spec_complete(old(self)@, server@),
    {
        self.internal = self.internal || server.internal;
        if self.auto_index.is_none() {
            self.auto_index = Some(server.auto_index);
        }
        if self.root.is_none() {
            self.root = copy_opt_bytes(&server.root);
        }
        if self.index.is_none() {
            self.index = copy_opt_bytes(&server.index);
        }
        if self.max_body_size.is_none() {
            self.max_body_size = server.max_body_size;
        }
        if self.methods.is_none() {
            self.methods = match &server.methods {
                Some(ms) => Some(copy_methods(ms)),
                None => None,
            };
        }
        if self.return_.is_none() {
            self.return_ = match &server.return_ {
                Some((c, u)) => Some((*c, copy_opt_bytes(u))),
                None => None,
            };
        }
        if self.upload_folder.is_none() {
            self.upload_folder = copy_opt_bytes(&server.upload_folder);
        }
        if self.cgi.len() == 0 {
            self.cgi = copy_cgi_map(&server.cgi);
        }
        if self.error_pages.len() == 0 {
            self.error_pages = copy_pages(&server.error_pages);
        }
        if self.error_redirect.len() == 0 {
            self.error_redirect = copy_redirects(&server.error_redirect);
        }
    }

    pub fn path(&self) -> (r: &Vec<u8>)
        ensures
            r@ == self@.path,
    {
        &self.path
    }

    pub fn exact_path(&self) -> (r: bool)
        ensures
            r == self@.exact_path,
    {
        self.exact_path
    }

    /// The configured error page for a status code, if any.
    pub fn error_page_for(&self, code: u16) -> (r: Option<&Vec<u8>>)
        ensures
            ({
                let t = pages_view(self.error_pages@);
                let i = code_idx(t, code);
                match r {
                    Some(p) => i < t.len() && p@ == t[i].1,
                    None => i == t.len(),
                }
            }),
    {
        let ghost t = pages_view(self.error_pages@);
        let mut j: usize = 0;
        while j < self.error_pages.len()
            invariant
                j <= self.error_pages@.len(),
                t == pages_view(self.error_pages@),
                t.len() == self.error_pages@.len(),
                forall|k: int|
                    0 <= k < t.len() ==> t[k] == (self.error_pages@[k].0, self.error_pages@[k].1@),
                forall|k: int| 0 <= k < j ==> t[k].0 != code,
            decreases self.error_pages@.len() - j,
        {
            if self.error_pages[j].0 == code {
                proof {
                    lemma_code_idx_at(t, code, j as int);
                }
                return Some(&self.error_pages[j].1);
            }
            j = j + 1;
        }
        proof {
            lemma_code_idx_at(t, code, j as int);
        }
        None
    }

    /// The configured error redirect for a status code, if any: the
    /// optional override status and the target URL.
    pub fn error_redirect_for(&self, code: u16) -> (r: Option<&(Option<u16>, Vec<u8>)>)
        ensures
            ({
                let t = redirects_view(self.error_redirect@);
                let i = code_idx(t, code);
                match r {
                    Some(p) => i < t.len() && p.0 == t[i].1.0 && p.1@ == t[i].1.1,
                    None => i == t.len(),
                }
            }),
    {
        let ghost t = redirects_view(self.error_redirect@);
        let mut j: usize = 0;
        while j < self.error_redirect.len()
            invariant
                j <= self.error_redirect@.len(),
                t == redirects_view(self.error_redirect@),
                t.len() == self.error_redirect@.len(),
                forall|k: int|
                    0 <= k < t.len() ==> t[k] == (
                        self.error_redirect@[k].0,
                        (self.error_redirect@[k].1.0, self.error_redirect@[k].1.1@),
                    ),
                forall|k: int| 0 <= k < j ==> t[k].0 != code,
            decreases self.error_redirect@.len() - j,
        {
            if self.error_redirect[j].0 == code {
                proof {
                    lemma_code_idx_at(t, code, j as int);
                }
                return Some(&self.error_redirect[j].1);
            }
            j = j + 1;
        }
        proof {
            lemma_code_idx_at(t, code, j as int);
        }
        None
    }

    /// The values of an unrecognized directive kept on this location.
    pub fn find(&self, name: &[u8]) -> (r: Option<&Vec<Vec<u8>>>)
        ensures
            ({
                let t = infos_view(self.infos@);
                let i = assoc_idx(t, name@);
                match r {
                    Some(v) => i < t.len() && v@.map_values(|x: Vec<u8>| x@) == t[i].1,
                    None => i == t.len(),
                }
            }),
    {
        let ghost t = infos_view(self.infos@);
        let mut j: usize = 0;
        while j < self.infos.len()
            invariant
                j <= self.infos@.len(),
                t == infos_view(self.infos@),
                t.len() == self.infos@.len(),
                forall|k: int|
                    0 <= k < t.len() ==> t[k] == (
                        self.infos@[k].0@,
                        self.infos@[k].1@.map_values(|v: Vec<u8>| v@),
                    ),
                forall|k: int| 0 <= k < j ==> t[k].0 != name@,
            decreases self.infos@.len() - j,
        {
            if bytes_eq(self.infos[j].0.as_slice(), name) {
                proof {
                    lemma_assoc_idx_at(t, name@, j as int);
                }
                return Some(&self.infos[j].1);
            }
            j = j + 1;
        }
        proof {
            lemma_assoc_idx_at(t, name@, j as int);
        }
        None
    }
}

impl Server {
    /// Applies one directive of a `server` block to this server.
    pub fn add_directive(&mut self, name: Vec<u8>, infos: Vec<Vec<u8>>) -> (r: Result<(), Vec<u8>>)
        ensures
            match r {
                Ok(_) => spec_apply_server_dir(
                    old(self)@,
                    name@,
                    infos@.map_values(|v: Vec<u8>| v@),
                ) == Some(final(self)@),
                Err(_) => spec_apply_server_dir(
                    old(self)@,
                    name@,
                    infos@.map_values(|v: Vec<u8>| v@),
                ) is None,
            },
    {
        proof {
            reveal_strlit("root");
            reveal_strlit("alias");
            reveal_strlit("upload_folder");
            reveal_strlit("listen");
            reveal_strlit("server_name");
            reveal_strlit("server_names");
            reveal_strlit("index");
            reveal_strlit("auto_index");
            reveal_strlit("client_max_body_size");
            reveal_strlit("cgi");
            reveal_strlit("allowed_methods");
            reveal_strlit("return");
            reveal_strlit("internal");
            reveal_strlit("error_page");
            reveal_strlit("invalid field: alias: alias can only be set in locations");
            reveal_strlit("invalid field: server_name");
            reveal_strlit("invalid field: allowed_methods");
            reveal_strlit("invalid field: allowed_methods: unknown method");
            reveal_strlit("invalid field: error_page: empty");
        }
        let ghost vals = infos@.map_values(|v: Vec<u8>| v@);
        if bytes_eq(name.as_slice(), str_bytes("root").as_slice()) {
            match extract_root(&infos) {
                Ok(p) => {
                    self.root = Some(p);
                    Ok(())
                },
                Err(e) => Err(e),
            }
        } else if bytes_eq(name.as_slice(), str_bytes("alias").as_slice()) {
            Err(str_bytes("invalid field: alias: alias can only be set in locations"))
        } else if bytes_eq(name.as_slice(), str_bytes("upload_folder").as_slice()) {
            match extract_upload_folder(&infos) {
                Ok(p) => {
                    self.upload_folder = Some(p);
                    Ok(())
                },
                Err(e) => Err(e),
            }
        } else if bytes_eq(name.as_slice(), str_bytes("listen").as_slice()) {
            match extract_listen(&infos) {
                Ok((port, deflt)) => {
                    self.port = port;
                    self.default = deflt;
                    Ok(())
                },
                Err(e) => Err(e),
            }
        } else if bytes_eq(name.as_slice(), str_bytes("server_name").as_slice()) || bytes_eq(
            name.as_slice(),
            str_bytes("server_names").as_slice(),
        ) {
            if infos.len() < 1 {
                return Err(str_bytes("invalid field: server_name"));
            }
            let mut cur = match self.name.take() {
                Some(v) => v,
                None => Vec::new(),
            };
            let ghost base = cur@.map_values(|v: Vec<u8>| v@);
            proof {
                if old(self)@.name is None {
                    assert(base =~= Seq::<Seq<u8>>::empty());
                }
            }
            let mut k: usize = 0;
            while k < infos.len()
                invariant
                    k <= infos@.len(),
                    vals == infos@.map_values(|v: Vec<u8>| v@),
                    cur@.map_values(|v: Vec<u8>| v@) == base + vals.take(k as int),
                decreases infos@.len() - k,
            {
                let ghost curv = cur@.map_values(|v: Vec<u8>| v@);
                proof {
                    assert(infos@[k as int]@ == vals[k as int]);
                }
                cur.push(copy_bytes(&infos[k]));
                proof {
                    assert(cur@.map_values(|v: Vec<u8>| v@) =~= curv.push(vals[k as int]));
                    assert(base + vals.take(k + 1) =~= (base + vals.take(k as int)).push(
                        vals[k as int]));
                }
                k = k + 1;
            }
            proof {
                assert(vals.take(vals.len() as int) =~= vals);
            }
            self.name = Some(cur);
            Ok(())
        } else if bytes_eq(name.as_slice(), str_bytes("index").as_slice()) {
            match extract_index(&infos) {
                Ok(p) => {
                    self.index = Some(p);
                    Ok(())
                },
                Err(e) => Err(e),
            }
        } else if bytes_eq(name.as_slice(), str_bytes("auto_index").as_slice()) {
            match extract_auto_index(&infos) {
                Ok(b) => {
                    self.auto_index = b;
                    Ok(())
                },
                Err(e) => Err(e),
            }
        } else if bytes_eq(name.as_slice(), str_bytes("client_max_body_size").as_slice()) {
            match extract_max_body_size(&infos) {
                Ok(n) => {
                    self.max_body_size = Some(n);
                    Ok(())
                },
                Err(e) => Err(e),
            }
        } else if bytes_eq(name.as_slice(), str_bytes("cgi").as_slice()) {
            match extract_cgi(&infos) {
                Ok((ext, path)) => {
                    upsert_pair(&mut self.cgi, ext, path);
                    Ok(())
                },
                Err(e) => Err(e),
            }
        } else if bytes_eq(name.as_slice(), str_bytes("allowed_methods").as_slice()) {
            if infos.len() < 1 {
                return Err(str_bytes("invalid field: allowed_methods"));
            }
            let (ms, ok) = parse_methods(&infos);
            if !ok {
                return Err(str_bytes("invalid field: allowed_methods: unknown method"));
            }
            let mut cur = match self.methods.take() {
                Some(v) => v,
                None => Vec::new(),
            };
            let ghost base = cur@;
            proof {
                if old(self)@.methods is None {
                    assert(base =~= Seq::<Method>::empty());
                }
            }
            let mut k: usize = 0;
            while k < ms.len()
                invariant
                    k <= ms@.len(),
                    cur@ == base + ms@.take(k as int),
                decreases ms@.len() - k,
            {
                cur.push(ms[k]);
                proof {
                    assert(base + ms@.take(k + 1) =~= (base + ms@.take(k as int)).push(
                        ms@[k as int]));
                }
                k = k + 1;
            }
            proof {
                assert(ms@.take(ms@.len() as int) =~= ms@);
            }
            self.methods = Some(cur);
            Ok(())
        } else if bytes_eq(name.as_slice(), str_bytes("return").as_slice()) {
            match extract_return(&infos) {
                Ok(t) => {
                    self.return_ = Some(t);
                    Ok(())
                },
                Err(e) => Err(e),
            }
        } else if bytes_eq(name.as_slice(), str_bytes("error_page").as_slice()) {
            if infos.len() == 0 {
                return Err(str_bytes("invalid field: error_page: empty"));
            }
            match apply_error_page(&mut self.error_pages, &mut self.error_redirect, &infos) {
                Ok(_) => Ok(()),
                Err(e) => Err(e),
            }
        } else if bytes_eq(name.as_slice(), str_bytes("internal").as_slice()) {
            self.internal = true;
            Ok(())
        } else {
            upsert_infos(&mut self.infos, name, infos);
            Ok(())
        }
    }

    /// Builds a location from its raw block and attaches it.
    pub fn add_location(&mut self, location: &LocationBlock) -> (r: Result<(), Vec<u8>>)
        ensures
            match r {
                Ok(_) => match spec_location_new(*location, old(self)@) {
                    Some(lm) => final(self)@ == (ConfM {
                        locations: old(self)@.locations.push(lm),
                        ..old(self)@
                    }),
                    None => false,
                },
                Err(_) => spec_location_new(*location, old(self)@) is None,
            },
    {
        let loc = match Location::new(location, self) {
            Ok(loc) => loc,
            Err(e) => {
                return Err(e);
            },
        };
        let ghost lm = loc@;
        let ghost pre = self@;
        self.locations.push(loc);
        proof {
            assert(self@.locations =~= pre.locations.push(lm));
        }
        Ok(())
    }

    /// Builds one virtual server from its raw block.
    pub fn new(config: &ServerBlock) -> (r: Result<Server, Vec<u8>>)
        ensures
            match r {
                Ok(s) => spec_server_new(*config) == Some(s@),
                Err(_) => spec_server_new(*config) is None,
            },
    {
        proof {
            reveal_strlit("/");
        }
        let mut serv = Server {
            internal: false,
            default: false,
            auto_index: false,
            port: None,
            path: str_bytes("/"),
            max_body_size: None,
            root: None,
            upload_folder: None,
            index: None,
            return_: None,
            name: None,
            methods: None,
            error_pages: Vec::new(),
            error_redirect: Vec::new(),
            infos: Vec::new(),
            cgi: copy_cgi_map(&config.cgi),
            locations: Vec::new(),
        };
        proof {
            assert(pages_view(serv.error_pages@) =~= Seq::<(u16, Seq<u8>)>::empty());
            assert(redirects_view(serv.error_redirect@) =~= Seq::<
                (u16, (Option<u16>, Seq<u8>)),
            >::empty());
            assert(infos_view(serv.infos@) =~= Seq::<(Seq<u8>, Seq<Seq<u8>>)>::empty());
            assert(serv.locations@.map_values(|l: Location| l@) =~= Seq::<ConfM>::empty());
            assert(serv@ == spec_server_init(*config));
        }
        let ghost dirs = config.directives@;
        let mut i: usize = 0;
        proof {
            assert(dirs.skip(0) =~= dirs);
        }
        while i < config.directives.len()
            invariant
                i <= config.directives@.len(),
                dirs == config.directives@,
                spec_server_dirs(spec_server_init(*config), dirs) == spec_server_dirs(
                    serv@,
                    dirs.skip(i as int),
                ),
            decreases config.directives@.len() - i,
        {
            let ghost rest = dirs.skip(i as int);
            proof {
                assert(rest.len() > 0);
                assert(rest[0] == dirs[i as int]);
                assert(rest.drop_first() =~= dirs.skip(i + 1));
            }
            let name = copy_bytes(&config.directives[i].0);
            let infos = copy_vals(&config.directives[i].1);
            match serv.add_directive(name, infos) {
                Ok(_) => (),
                Err(e) => {
                    return Err(e);
                },
            }
            i = i + 1;
        }
        proof {
            assert(dirs.skip(i as int).len() == 0);
        }
        let ghost m1 = serv@;
        let ghost locs = config.locations@;
        let mut j: usize = 0;
        proof {
            assert(locs.skip(0) =~= locs);
        }
        while j < config.locations.len()
            invariant
                j <= config.locations@.len(),
                locs == config.locations@,
                dirs == config.directives@,
                spec_server_dirs(spec_server_init(*config), dirs) == Some(m1),
                spec_server_locs(m1, locs) == spec_server_locs(serv@, locs.skip(j as int)),
            decreases config.locations@.len() - j,
        {
            let ghost rest = locs.skip(j as int);
            proof {
                assert(rest.len() > 0);
                assert(rest[0] == locs[j as int]);
                assert(rest.drop_first() =~= locs.skip(j + 1));
            }
            match serv.add_location(&config.locations[j].1) {
                Ok(_) => (),
                Err(e) => {
                    return Err(e);
                },
            }
            j = j + 1;
        }
        proof {
            assert(locs.skip(j as int).len() == 0);
        }
        Ok(serv)
    }

    /// Builds every virtual server of a parsed configuration.
    pub fn init_servers(configs: &Vec<ServerBlock>) -> (r: Result<Vec<Server>, Vec<u8>>)
        ensures
            match r {
                Ok(v) => v@.len() == configs@.len() && (forall|i: int|
                    0 <= i < v@.len() ==> spec_server_new(configs@[i]) == Some(#[trigger] v@[i]@)),
                Err(_) => exists|i: int|
                    0 <= i < configs@.len() && (#[trigger] spec_server_new(configs@[i])) is None,
            },
    {
        let mut out: Vec<Server> = Vec::new();
        let mut i: usize = 0;
        while i < configs.len()
            invariant
                i <= configs@.len(),
                out@.len() == i,
                forall|k: int|
                    0 <= k < i ==> spec_server_new(configs@[k]) == Some(#[trigger] out@[k]@),
            decreases configs@.len() - i,
        {
            match Self::new(&configs[i]) {
                Ok(s) => {
                    out.push(s);
                },
                Err(e) => {
                    return Err(e);
                },
            }
            i = i + 1;
        }
        Ok(out)
    }

    pub fn is_default(&self) -> (r: bool)
        ensures
            r == self@.is_default,
    {
        self.default
    }

    /// The values of an unrecognized directive, joined with single spaces.
    pub fn get(&self, info: &[u8]) -> (r: Option<Vec<u8>>)
        ensures
            ({
                let t = infos_view(self.infos@);
                let i = assoc_idx(t, info@);
                match r {
                    Some(v) => i < t.len() && v@ == spec_join_sp(t[i].1),
                    None => i == t.len(),
                }
            }),
    {
        let ghost t = infos_view(self.infos@);
        let mut j: usize = 0;
        while j < self.infos.len()
            invariant
                j <= self.infos@.len(),
                t == infos_view(self.infos@),
                t.len() == self.infos@.len(),
                forall|k: int|
                    0 <= k < t.len() ==> t[k] == (
                        self.infos@[k].0@,
                        self.infos@[k].1@.map_values(|v: Vec<u8>| v@),
                    ),
                forall|k: int| 0 <= k < j ==> t[k].0 != info@,
            decreases self.infos@.len() - j,
        {
            if bytes_eq(self.infos[j].0.as_slice(), info) {
                proof {
                    lemma_assoc_idx_at(t, info@, j as int);
                }
                let joined = join_sp(&self.infos[j].1, 0);
                proof {
                    assert(self.infos@[j as int].1@.map_values(|v: Vec<u8>| v@).skip(0) =~= t[
                        j as int].1);
                }
                return Some(joined);
            }
            j = j + 1;
        }
        proof {
            lemma_assoc_idx_at(t, info@, j as int);
        }
        None
    }
}

/// The values joined with single spaces.
pub open spec fn spec_join_sp(vals: Seq<Seq<u8>>) -> Seq<u8>
    decreases vals.len(),
{
    if vals.len() == 0 {
        Seq::empty()
    } else if vals.len() == 1 {
        vals[0]
    } else {
        vals[0] + ascii_of(" "@) + spec_join_sp(vals.drop_first())
    }
}

fn join_sp(vals: &Vec<Vec<u8>>, from: usize) -> (r: Vec<u8>)
    requires
        from <= vals@.len(),
    ensures
        r@ == spec_join_sp(vals@.map_values(|v: Vec<u8>| v@).skip(from as int)),
    decreases vals@.len() - from,
{
    let ghost t = vals@.map_values(|v: Vec<u8>| v@);
    let ghost rest = t.skip(from as int);
    if from == vals.len() {
        let r: Vec<u8> = Vec::new();
        proof {
            assert(rest.len() == 0);
            assert(r@ =~= spec_join_sp(rest));
        }
        r
    } else if from + 1 == vals.len() {
        proof {
            assert(rest.len() == 1);
            assert(rest[0] == t[from as int]);
            assert(vals@[from as int]@ == t[from as int]);
        }
        copy_bytes(&vals[from])
    } else {
        proof {
            reveal_strlit(" ");
            assert(rest[0] == t[from as int]);
            assert(vals@[from as int]@ == t[from as int]);
            assert(rest.drop_first() =~= t.skip(from as int + 1));
        }
        let mut r = copy_bytes(&vals[from]);
        r.push(32);
        let tail = join_sp(vals, from + 1);
        crate::bytes::append_bytes(&mut r, tail.as_slice());
        proof {
            assert(ascii_of(" "@).len() == 1);
            assert(ascii_of(" "@)[0] == 32);
            assert(r@ =~= rest[0] + ascii_of(" "@) + spec_join_sp(rest.drop_first()));
        }
        r
    }
}

} // verus!
