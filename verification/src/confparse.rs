//! The configuration-file grammar: `server { ... }` blocks holding
//! `name value... ;` directives and `location [=|~] path { ... }` blocks.
//!
//! The grammar is specified by a functional recursive-descent model over
//! the raw bytes (`sp_directive`, `sp_location`, `sp_block`, `sp_config`),
//! and the executable parser is proved equal to it.

use vstd::prelude::*;

use crate::bytes::{ascii_of, bytes_eq, is_at, is_space, is_ws, match_at, str_bytes, subvec};
use crate::config::{assoc_idx, cgi_view, infos_view, upsert, LocationBlock, ServerBlock};

verus! {

/// The first position at or after `p` whose byte is not whitespace.
pub open spec fn sp_skip_ws(s: Seq<u8>, p: int) -> int
    decreases s.len() - p,
{
    if 0 <= p < s.len() && is_ws(s[p]) {
        sp_skip_ws(s, p + 1)
    } else {
        p
    }
}

/// The first position at or after `p` whose byte is not a space or tab.
pub open spec fn sp_skip_sp(s: Seq<u8>, p: int) -> int
    decreases s.len() - p,
{
    if 0 <= p < s.len() && is_space(s[p]) {
        sp_skip_sp(s, p + 1)
    } else {
        p
    }
}

/// The end of the identifier starting at `p`: the run of bytes that are
/// neither whitespace nor `;`.
pub open spec fn sp_ident_end(s: Seq<u8>, p: int) -> int
    decreases s.len() - p,
{
    if 0 <= p < s.len() && !is_ws(s[p]) && s[p] != 59 {
        sp_ident_end(s, p + 1)
    } else {
        p
    }
}

/// Skips whitespace.
pub fn skip_whitespaces(s: &[u8], p: usize) -> (r: usize)
    requires
        p <= s@.len(),
    ensures
        r == sp_skip_ws(s@, p as int),
        p <= r <= s@.len(),
{
    let mut i = p;
    while i < s.len() && (s[i] == 32 || s[i] == 9 || s[i] == 10 || s[i] == 11 || s[i] == 12 || s[i]
        == 13)
        invariant
            p <= i <= s@.len(),
            sp_skip_ws(s@, p as int) == sp_skip_ws(s@, i as int),
        decreases s@.len() - i,
    {
        i = i + 1;
    }
    i
}

/// Skips spaces and tabs.
pub fn skip_spaces(s: &[u8], p: usize) -> (r: usize)
    requires
        p <= s@.len(),
    ensures
        r == sp_skip_sp(s@, p as int),
        p <= r <= s@.len(),
{
    let mut i = p;
    while i < s.len() && (s[i] == 32 || s[i] == 9)
        invariant
            p <= i <= s@.len(),
            sp_skip_sp(s@, p as int) == sp_skip_sp(s@, i as int),
        decreases s@.len() - i,
    {
        i = i + 1;
    }
    i
}

/// The end of the identifier starting at `p`.
pub fn identifier(s: &[u8], p: usize) -> (r: usize)
    requires
        p <= s@.len(),
    ensures
        r == sp_ident_end(s@, p as int),
        p <= r <= s@.len(),
{
    let mut i = p;
    while i < s.len() && !(s[i] == 32 || s[i] == 9 || s[i] == 10 || s[i] == 11 || s[i] == 12 || s[i]
        == 13) && s[i] != 59
        invariant
            p <= i <= s@.len(),
            sp_ident_end(s@, p as int) == sp_ident_end(s@, i as int),
        decreases s@.len() - i,
    {
        i = i + 1;
    }
    i
}

/// Does a directive of this name carry values? Only `internal` stands
/// alone.
pub fn has_values(identifiant: &[u8]) -> (r: bool)
    ensures
        r == (identifiant@ != ascii_of("internal"@)),
{
    proof {
        reveal_strlit("internal");
    }
    !bytes_eq(identifiant, str_bytes("internal").as_slice())
}

proof fn lemma_skip_sp_ge(s: Seq<u8>, p: int)
    ensures
        sp_skip_sp(s, p) >= p,
    decreases s.len() - p,
{
    if 0 <= p < s.len() && is_space(s[p]) {
        lemma_skip_sp_ge(s, p + 1);
    }
}

/// The value list after a directive name: identifiers each led in by at
/// least one space; empty identifiers are dropped.
pub open spec fn sp_values(s: Seq<u8>, p: int, acc: Seq<Seq<u8>>) -> (Seq<Seq<u8>>, int)
    decreases s.len() - p,
{
    if 0 <= p < s.len() && is_space(s[p]) {
        let q = sp_skip_sp(s, p);
        if q <= p || q > s.len() {
            (acc, p)
        } else {
            let e = sp_ident_end(s, q);
            if e < q || e > s.len() {
                (acc, p)
            } else {
                let acc2 = if e > q {
                    acc.push(s.subrange(q, e))
                } else {
                    acc
                };
                if e > p {
                    sp_values(s, e, acc2)
                } else {
                    (acc, p)
                }
            }
        }
    } else {
        (acc, p)
    }
}

/// One directive: optional whitespace, a name, its values, then `;`.
/// The result is the name, the values, and the position after the `;`.
pub open spec fn sp_directive(s: Seq<u8>, p: int) -> Option<(Seq<u8>, Seq<Seq<u8>>, int)> {
    let q0 = sp_skip_ws(s, p);
    let e = sp_ident_end(s, q0);
    if q0 < 0 || e < q0 || e > s.len() {
        None
    } else {
        let name = s.subrange(q0, e);
        let vp = if name != ascii_of("internal"@) {
            sp_values(s, e, Seq::empty())
        } else {
            (Seq::empty(), e)
        };
        let p2 = sp_skip_sp(s, vp.1);
        if 0 <= p2 < s.len() && s[p2] == 59 {
            Some((name, vp.0, p2 + 1))
        } else {
            None
        }
    }
}

fn parse_values(s: &[u8], p: usize) -> (r: (Vec<Vec<u8>>, usize))
    requires
        p <= s@.len(),
    ensures
        (r.0@.map_values(|v: Vec<u8>| v@), r.1 as int) == sp_values(s@, p as int, Seq::empty()),
        p <= r.1 <= s@.len(),
{
    let mut out: Vec<Vec<u8>> = Vec::new();
    let mut i = p;
    proof {
        assert(out@.map_values(|v: Vec<u8>| v@) =~= Seq::<Seq<u8>>::empty());
    }
    while i < s.len() && (s[i] == 32 || s[i] == 9)
        invariant
            p <= i <= s@.len(),
            sp_values(s@, p as int, Seq::empty()) == sp_values(
                s@,
                i as int,
                out@.map_values(|v: Vec<u8>| v@),
            ),
        decreases s@.len() - i,
    {
        let ghost accv = out@.map_values(|v: Vec<u8>| v@);
        let q = skip_spaces(s, i);
        let e = identifier(s, q);
        if e > q {
            let val = subvec(s, q, e);
            out.push(val);
            proof {
                assert(out@.map_values(|v: Vec<u8>| v@) =~= accv.push(
                    s@.subrange(q as int, e as int)));
            }
        }
        proof {
            assert(q > i) by {
                assert(is_space(s@[i as int]));
                lemma_skip_sp_ge(s@, i + 1);
            }
        }
        i = e;
    }
    (out, i)
}

/// Parses one directive.
pub fn directive(s: &[u8], p: usize) -> (r: Option<(Vec<u8>, Vec<Vec<u8>>, usize)>)
    requires
        p <= s@.len(),
    ensures
        match r {
            Some(t) => sp_directive(s@, p as int) == Some(
                (t.0@, t.1@.map_values(|v: Vec<u8>| v@), t.2 as int),
            ) && p <= t.2 <= s@.len(),
            None => sp_directive(s@, p as int) is None,
        },
{
    proof {
        reveal_strlit("internal");
    }
    let q0 = skip_whitespaces(s, p);
    let e = identifier(s, q0);
    let name = subvec(s, q0, e);
    let (vals, p1) = if has_values(name.as_slice()) {
        parse_values(s, e)
    } else {
        (Vec::new(), e)
    };
    proof {
        if name@ == ascii_of("internal"@) {
            assert(vals@.map_values(|v: Vec<u8>| v@) =~= Seq::<Seq<u8>>::empty());
        }
    }
    let p2 = skip_spaces(s, p1);
    if p2 < s.len() && s[p2] == 59 {
        Some((name, vals, p2 + 1))
    } else {
        None
    }
}

/// The mathematical form of a raw location block.
pub ghost struct LocBlockM {
    pub modifier: Option<Seq<u8>>,
    pub path: Seq<u8>,
    pub directives: Seq<(Seq<u8>, Seq<Seq<u8>>)>,
    pub cgi: Seq<(Seq<u8>, Seq<u8>)>,
}

/// The mathematical form of a raw server block.
pub ghost struct SrvBlockM {
    pub directives: Seq<(Seq<u8>, Seq<Seq<u8>>)>,
    pub locations: Seq<(Seq<u8>, LocBlockM)>,
    pub cgi: Seq<(Seq<u8>, Seq<u8>)>,
}

/// The view of a raw location block.
pub open spec fn lb_view(lb: LocationBlock) -> LocBlockM {
    LocBlockM {
        modifier: crate::config::opt_view(lb.modifier),
        path: lb.path@,
        directives: infos_view(lb.directives@),
        cgi: cgi_view(lb.cgi@),
    }
}

/// The view of a raw server block.
pub open spec fn sb_view(b: ServerBlock) -> SrvBlockM {
    SrvBlockM {
        directives: infos_view(b.directives@),
        locations: b.locations@.map_values(|p: (Vec<u8>, LocationBlock)| (p.0@, lb_view(p.1))),
        cgi: cgi_view(b.cgi@),
    }
}

/// Splits a parsed directive list into the `cgi` map and the rest; a
/// `cgi` directive without exactly two values is an error.
pub open spec fn sp_split_dirs(
    ds: Seq<(Seq<u8>, Seq<Seq<u8>>)>,
    infos: Seq<(Seq<u8>, Seq<Seq<u8>>)>,
    cgi: Seq<(Seq<u8>, Seq<u8>)>,
) -> Option<(Seq<(Seq<u8>, Seq<Seq<u8>>)>, Seq<(Seq<u8>, Seq<u8>)>)>
    decreases ds.len(),
{
    if ds.len() == 0 {
        Some((infos, cgi))
    } else if ds[0].0 == ascii_of("cgi"@) {
        if ds[0].1.len() != 2 {
            None
        } else {
            sp_split_dirs(ds.drop_first(), infos, upsert(cgi, ds[0].1[0], ds[0].1[1]))
        }
    } else {
        sp_split_dirs(ds.drop_first(), upsert(infos, ds[0].0, ds[0].1), cgi)
    }
}

/// The optional `=` or `~` modifier.
pub open spec fn sp_modifier(s: Seq<u8>, p: int) -> (Option<Seq<u8>>, int) {
    if 0 <= p < s.len() && (s[p] == 61 || s[p] == 126) {
        (Some(s.subrange(p, p + 1)), p + 1)
    } else {
        (None, p)
    }
}

/// One `location` block: the keyword, an optional modifier, the path, and
/// a braced directive list; the result also carries the position after
/// the closing brace.
pub open spec fn sp_location(s: Seq<u8>, p: int) -> Option<(LocBlockM, int)> {
    let q0 = sp_skip_ws(s, p);
    if !(q0 >= 0 && q0 + 8 <= s.len() && is_at(s, ascii_of("location"@), q0)) {
        None
    } else {
        let q1 = sp_skip_sp(s, q0 + 8);
        let mp = sp_modifier(s, q1);
        let q2 = sp_skip_sp(s, mp.1);
        let e = sp_ident_end(s, q2);
        if e < q2 || e > s.len() {
            None
        } else {
            let path = s.subrange(q2, e);
            let q3 = sp_skip_ws(s, e);
            if !(0 <= q3 < s.len() && s[q3] == 123) {
                None
            } else {
                let dp = sp_dir_list(s, q3 + 1, Seq::empty());
                let q4 = sp_skip_ws(s, dp.1);
                if !(0 <= q4 < s.len() && s[q4] == 125) {
                    None
                } else {
                    match sp_split_dirs(dp.0, Seq::empty(), Seq::empty()) {
                        None => None,
                        Some(t) => Some(
                            (
                                LocBlockM {
                                    modifier: mp.0,
                                    path: path,
                                    directives: t.0,
                                    cgi: t.1,
                                },
                                q4 + 1,
                            ),
                        ),
                    }
                }
            }
        }
    }
}

/// As many directives as parse, in order.
pub open spec fn sp_dir_list(s: Seq<u8>, p: int, acc: Seq<(Seq<u8>, Seq<Seq<u8>>)>) -> (
    Seq<(Seq<u8>, Seq<Seq<u8>>)>,
    int,
)
    decreases s.len() - p,
{
    if p < 0 || p > s.len() {
        (acc, p)
    } else {
        match sp_directive(s, p) {
            Some(t) => {
                if p < t.2 <= s.len() {
                    sp_dir_list(s, t.2, acc.push((t.0, t.1)))
                } else {
                    (acc, p)
                }
            },
            None => (acc, p),
        }
    }
}

fn parse_dir_list(s: &[u8], p: usize) -> (r: (Vec<(Vec<u8>, Vec<Vec<u8>>)>, usize))
    requires
        p <= s@.len(),
    ensures
        (infos_seq(r.0@), r.1 as int) == sp_dir_list(s@, p as int, Seq::empty()),
        p <= r.1 <= s@.len(),
{
    let mut out: Vec<(Vec<u8>, Vec<Vec<u8>>)> = Vec::new();
    let mut i = p;
    proof {
        assert(infos_seq(out@) =~= Seq::<(Seq<u8>, Seq<Seq<u8>>)>::empty());
    }
    loop
        invariant
            p <= i <= s@.len(),
            sp_dir_list(s@, p as int, Seq::empty()) == sp_dir_list(s@, i as int, infos_seq(out@)),
        decreases s@.len() - i,
    {
        let ghost accv = infos_seq(out@);
        match directive(s, i) {
            Some((name, vals, p2)) => {
                if p2 <= i {
                    return (out, i);
                }
                let ghost valsv = vals@.map_values(|v: Vec<u8>| v@);
                out.push((name, vals));
                proof {
                    let n = out@.len() - 1;
                    assert(infos_seq(out@) =~= accv.push((out@[n].0@, out@[n].1@.map_values(
                        |v: Vec<u8>| v@))));
                }
                i = p2;
            },
            None => {
                return (out, i);
            },
        }
    }
}

/// The view of a directive list.
pub open spec fn infos_seq(t: Seq<(Vec<u8>, Vec<Vec<u8>>)>) -> Seq<(Seq<u8>, Seq<Seq<u8>>)> {
    infos_view(t)
}

fn split_dirs(ds: Vec<(Vec<u8>, Vec<Vec<u8>>)>) -> (r: Option<
    (Vec<(Vec<u8>, Vec<Vec<u8>>)>, Vec<(Vec<u8>, Vec<u8>)>),
>)
    ensures
        match r {
            Some(t) => sp_split_dirs(infos_seq(ds@), Seq::empty(), Seq::empty()) == Some(
                (infos_seq(t.0@), cgi_view(t.1@)),
            ),
            None => sp_split_dirs(infos_seq(ds@), Seq::empty(), Seq::empty()) is None,
        },
{
    proof {
        reveal_strlit("cgi");
    }
    let ghost dsv = infos_seq(ds@);
    let mut infos: Vec<(Vec<u8>, Vec<Vec<u8>>)> = Vec::new();
    let mut cgi: Vec<(Vec<u8>, Vec<u8>)> = Vec::new();
    let mut i: usize = 0;
    proof {
        assert(infos_seq(infos@) =~= Seq::<(Seq<u8>, Seq<Seq<u8>>)>::empty());
        assert(cgi_view(cgi@) =~= Seq::<(Seq<u8>, Seq<u8>)>::empty());
        assert(dsv.skip(0) =~= dsv);
    }
    while i < ds.len()
        invariant
            i <= ds@.len(),
            dsv == infos_seq(ds@),
            sp_split_dirs(dsv, Seq::empty(), Seq::empty()) == sp_split_dirs(
                dsv.skip(i as int),
                infos_seq(infos@),
                cgi_view(cgi@),
            ),
        decreases ds@.len() - i,
    {
        let ghost rest = dsv.skip(i as int);
        proof {
            reveal_strlit("cgi");
            assert(rest.len() > 0);
            assert(rest[0] == dsv[i as int]);
            assert(rest.drop_first() =~= dsv.skip(i + 1));
            assert(ds@[i as int].0@ == dsv[i as int].0);
            assert(forall|k: int|
                0 <= k < ds@[i as int].1@.len() ==> #[trigger] ds@[i as int].1@[k]@ == dsv[
                i as int].1[k]);
        }
        let name = crate::bytes::copy_bytes(&ds[i].0);
        if bytes_eq(name.as_slice(), str_bytes("cgi").as_slice()) {
            if ds[i].1.len() != 2 {
                return None;
            }
            let k = crate::bytes::copy_bytes(&ds[i].1[0]);
            let v = crate::bytes::copy_bytes(&ds[i].1[1]);
            crate::config::upsert_pair(&mut cgi, k, v);
        } else {
            let vals = crate::config::copy_vals(&ds[i].1);
            crate::config::upsert_infos(&mut infos, name, vals);
        }
        i = i + 1;
    }
    proof {
        assert(dsv.skip(i as int).len() == 0);
    }
    Some((infos, cgi))
}

/// Parses one `location` block.
pub fn location_block(s: &[u8], p: usize) -> (r: Option<(LocationBlock, usize)>)
    requires
        p <= s@.len(),
    ensures
        match r {
            Some(t) => sp_location(s@, p as int) == Some((lb_view(t.0), t.1 as int)) && p <= t.1
                <= s@.len(),
            None => sp_location(s@, p as int) is None,
        },
{
    proof {
        reveal_strlit("location");
    }
    let q0 = skip_whitespaces(s, p);
    let key = str_bytes("location");
    if q0 >= s.len() || s.len() - q0 < 8 || !match_at(s, key.as_slice(), q0) {
        return None;
    }
    let q1 = skip_spaces(s, q0 + 8);
    let (modifier, p2): (Option<Vec<u8>>, usize) = if q1 < s.len() && (s[q1] == 61 || s[q1]
        == 126) {
        let m = subvec(s, q1, q1 + 1);
        (Some(m), q1 + 1)
    } else {
        (None, q1)
    };
    let q2 = skip_spaces(s, p2);
    let e = identifier(s, q2);
    let path = subvec(s, q2, e);
    let q3 = skip_whitespaces(s, e);
    if !(q3 < s.len() && s[q3] == 123) {
        return None;
    }
    let (dirs, dp) = parse_dir_list(s, q3 + 1);
    let q4 = skip_whitespaces(s, dp);
    if !(q4 < s.len() && s[q4] == 125) {
        return None;
    }
    let (infos, cgi) = match split_dirs(dirs) {
        Some(t) => t,
        None => {
            return None;
        },
    };
    let lb = LocationBlock { modifier, path, directives: infos, cgi };
    Some((lb, q4 + 1))
}

/// One `server` block: the keyword, then a braced list of directives and
/// location blocks; `cgi` directives land in their own map and duplicate
/// location paths are rejected.
pub open spec fn sp_block(s: Seq<u8>, p: int) -> Option<(SrvBlockM, int)> {
    let q0 = sp_skip_ws(s, p);
    if !(q0 >= 0 && q0 + 6 <= s.len() && is_at(s, ascii_of("server"@), q0)) {
        None
    } else {
        let q1 = sp_skip_ws(s, q0 + 6);
        if !(0 <= q1 < s.len() && s[q1] == 123) {
            None
        } else {
            match sp_items(
                s,
                q1 + 1,
                SrvBlockM { directives: Seq::empty(), locations: Seq::empty(), cgi: Seq::empty() },
            ) {
                None => None,
                Some(t) => {
                    let q2 = sp_skip_ws(s, t.1);
                    if 0 <= q2 < s.len() && s[q2] == 125 {
                        Some((t.0, q2 + 1))
                    } else {
                        None
                    }
                },
            }
        }
    }
}

/// The items of a `server` block, first directives then location blocks
/// at each position, until neither parses.
pub open spec fn sp_items(s: Seq<u8>, p: int, m: SrvBlockM) -> Option<(SrvBlockM, int)>
    decreases s.len() - p,
{
    if p < 0 || p > s.len() {
        Some((m, p))
    } else {
        match sp_directive(s, p) {
            Some(t) => {
                if !(p < t.2 <= s.len()) {
                    Some((m, p))
                } else if t.0 == ascii_of("cgi"@) {
                    if t.1.len() != 2 {
                        None
                    } else {
                        sp_items(
                            s,
                            t.2,
                            SrvBlockM { cgi: upsert(m.cgi, t.1[0], t.1[1]), ..m },
                        )
                    }
                } else {
                    sp_items(
                        s,
                        t.2,
                        SrvBlockM { directives: upsert(m.directives, t.0, t.1), ..m },
                    )
                }
            },
            None => match sp_location(s, p) {
                Some(t) => {
                    if !(p < t.1 <= s.len()) {
                        Some((m, p))
                    } else if assoc_idx(m.locations, t.0.path) < m.locations.len() {
                        None
                    } else {
                        sp_items(
                            s,
                            t.1,
                            SrvBlockM { locations: m.locations.push((t.0.path, t.0)), ..m },
                        )
                    }
                },
                None => Some((m, p)),
            },
        }
    }
}

/// Parses one `server` block.
pub fn block(s: &[u8], p: usize) -> (r: Option<(ServerBlock, usize)>)
    requires
        p <= s@.len(),
    ensures
        match r {
            Some(t) => sp_block(s@, p as int) == Some((sb_view(t.0), t.1 as int)) && p <= t.1
                <= s@.len(),
            None => sp_block(s@, p as int) is None,
        },
{
    proof {
        reveal_strlit("server");
        reveal_strlit("cgi");
    }
    let q0 = skip_whitespaces(s, p);
    let key = str_bytes("server");
    if q0 >= s.len() || s.len() - q0 < 6 || !match_at(s, key.as_slice(), q0) {
        return None;
    }
    let q1 = skip_whitespaces(s, q0 + 6);
    if !(q1 < s.len() && s[q1] == 123) {
        return None;
    }
    let mut b = ServerBlock { directives: Vec::new(), locations: Vec::new(), cgi: Vec::new() };
    let ghost m0 = SrvBlockM {
        directives: Seq::empty(),
        locations: Seq::empty(),
        cgi: Seq::empty(),
    };
    let mut i: usize = q1 + 1;
    proof {
        assert(infos_seq(b.directives@) =~= Seq::<(Seq<u8>, Seq<Seq<u8>>)>::empty());
        assert(b.locations@.map_values(|q: (Vec<u8>, LocationBlock)| (q.0@, lb_view(q.1))) =~= Seq::<
            (Seq<u8>, LocBlockM),
        >::empty());
        assert(cgi_view(b.cgi@) =~= Seq::<(Seq<u8>, Seq<u8>)>::empty());
        assert(sb_view(b) == m0);
    }
    loop
        invariant
            q1 + 1 <= i <= s@.len(),
            p <= s@.len(),
            q0 == sp_skip_ws(s@, p as int),
            q0 + 6 <= s@.len(),
            is_at(s@, ascii_of("server"@), q0 as int),
            q1 == sp_skip_ws(s@, q0 + 6),
            q1 < s@.len(),
            s@[q1 as int] == 123,
            m0 == (SrvBlockM {
                directives: Seq::empty(),
                locations: Seq::empty(),
                cgi: Seq::empty(),
            }),
            sp_items(s@, q1 + 1 as int, m0) == sp_items(s@, i as int, sb_view(b)),
        ensures
            q1 + 1 <= i <= s@.len(),
            sp_items(s@, q1 + 1 as int, m0) == Some((sb_view(b), i as int)),
        decreases s@.len() - i,
    {
        proof {
            reveal_strlit("cgi");
        }
        match directive(s, i) {
            Some((name, vals, p2)) => {
                if p2 <= i {
                    break ;
                }
                if bytes_eq(name.as_slice(), str_bytes("cgi").as_slice()) {
                    if vals.len() != 2 {
                        return None;
                    }
                    let ghost valsv = vals@.map_values(|v: Vec<u8>| v@);
                    proof {
                        assert(vals@[0]@ == valsv[0]);
                        assert(vals@[1]@ == valsv[1]);
                    }
                    let k = crate::bytes::copy_bytes(&vals[0]);
                    let v = crate::bytes::copy_bytes(&vals[1]);
                    crate::config::upsert_pair(&mut b.cgi, k, v);
                } else {
                    crate::config::upsert_infos(&mut b.directives, name, vals);
                }
                i = p2;
            },
            None => {
                match location_block(s, i) {
                    Some((lb, p2)) => {
                        if p2 <= i {
                            break ;
                        }
                        let ghost locs = b.locations@.map_values(
                            |q: (Vec<u8>, LocationBlock)| (q.0@, lb_view(q.1)),
                        );
                        let mut dup = false;
                        let mut j: usize = 0;
                        while j < b.locations.len() && !dup
                            invariant
                                j <= b.locations@.len(),
                                locs == b.locations@.map_values(
                                    |q: (Vec<u8>, LocationBlock)| (q.0@, lb_view(q.1)),
                                ),
                                locs.len() == b.locations@.len(),
                                forall|k: int|
                                    0 <= k < locs.len() ==> (#[trigger] locs[k]).0
                                        == b.locations@[k].0@,
                                !dup ==> forall|k: int| 0 <= k < j ==> locs[k].0 != lb.path@,
                                dup ==> j < locs.len() && locs[j as int].0 == lb.path@ && (
                                forall|k: int| 0 <= k < j ==> locs[k].0 != lb.path@),
                            decreases b.locations@.len() - j + (if dup {
                                0int
                            } else {
                                1int
                            }),
                        {
                            if bytes_eq(b.locations[j].0.as_slice(), lb.path.as_slice()) {
                                dup = true;
                            } else {
                                j = j + 1;
                            }
                        }
                        if dup {
                            proof {
                                crate::config::lemma_assoc_idx_at(locs, lb.path@, j as int);
                            }
                            return None;
                        }
                        proof {
                            crate::config::lemma_assoc_idx_at(locs, lb.path@, j as int);
                        }
                        let key2 = crate::bytes::copy_bytes(&lb.path);
                        b.locations.push((key2, lb));
                        proof {
                            let n = b.locations@.len() - 1;
                            assert(b.locations@.map_values(
                                |q: (Vec<u8>, LocationBlock)| (q.0@, lb_view(q.1)),
                            ) =~= locs.push(
                                (b.locations@[n].0@, lb_view(b.locations@[n].1)),
                            ));
                        }
                        i = p2;
                    },
                    None => {
                        break ;
                    },
                }
            },
        }
    }
    let q2 = skip_whitespaces(s, i);
    if q2 < s.len() && s[q2] == 125 {
        Some((b, q2 + 1))
    } else {
        None
    }
}

/// As many `server` blocks as parse, in order.
pub open spec fn sp_blocks(s: Seq<u8>, p: int, acc: Seq<SrvBlockM>) -> (Seq<SrvBlockM>, int)
    decreases s.len() - p,
{
    if p < 0 || p > s.len() {
        (acc, p)
    } else {
        match sp_block(s, p) {
            Some(t) => {
                if p < t.1 <= s.len() {
                    sp_blocks(s, t.1, acc.push(t.0))
                } else {
                    (acc, p)
                }
            },
            None => (acc, p),
        }
    }
}

/// A whole configuration file: `server` blocks and nothing else but
/// trailing whitespace.
pub open spec fn sp_config(s: Seq<u8>) -> Option<Seq<SrvBlockM>> {
    let bp = sp_blocks(s, 0, Seq::empty());
    if sp_skip_ws(s, bp.1) == s.len() {
        Some(bp.0)
    } else {
        None
    }
}

/// Parses a whole configuration file; anything left after the last block
/// except whitespace is an error.
pub fn config(s: &[u8]) -> (r: Option<Vec<ServerBlock>>)
    ensures
        match r {
            Some(v) => sp_config(s@) == Some(v@.map_values(|b: ServerBlock| sb_view(b))),
            None => sp_config(s@) is None,
        },
{
    let mut out: Vec<ServerBlock> = Vec::new();
    let mut i: usize = 0;
    proof {
        assert(out@.map_values(|b: ServerBlock| sb_view(b)) =~= Seq::<SrvBlockM>::empty());
    }
    loop
        invariant
            i <= s@.len(),
            sp_blocks(s@, 0, Seq::empty()) == sp_blocks(
                s@,
                i as int,
                out@.map_values(|b: ServerBlock| sb_view(b)),
            ),
        ensures
            i <= s@.len(),
            sp_blocks(s@, 0, Seq::empty()) == (out@.map_values(|b: ServerBlock| sb_view(b)), i as int),
        decreases s@.len() - i,
    {
        let ghost accv = out@.map_values(|b: ServerBlock| sb_view(b));
        match block(s, i) {
            Some((b, p2)) => {
                if p2 <= i {
                    break ;
                }
                out.push(b);
                proof {
                    let n = out@.len() - 1;
                    assert(out@.map_values(|b2: ServerBlock| sb_view(b2)) =~= accv.push(
                        sb_view(out@[n])));
                }
                i = p2;
            },
            None => {
                break ;
            },
        }
    }
    let q = skip_whitespaces(s, i);
    if q == s.len() {
        Some(out)
    } else {
        None
    }
}

} // verus!
