//! Byte-sequence utilities the whole library rests on: substring search,
//! prefix tests, slicing, whitespace trimming, token splitting, and decimal
//! conversion, each with an exact specification.

use vstd::prelude::*;

verus! {

/// `needle` occurs in `hay` at position `i`.
pub open spec fn is_at(hay: Seq<u8>, needle: Seq<u8>, i: int) -> bool {
    &&& 0 <= i
    &&& i + needle.len() <= hay.len()
    &&& forall|k: int| 0 <= k < needle.len() ==> hay[i + k] == needle[k]
}

/// `needle` occurs somewhere in `hay`.
pub open spec fn has_sub(hay: Seq<u8>, needle: Seq<u8>) -> bool {
    exists|i: int| is_at(hay, needle, i)
}

/// `needle` occurs at `i` and nowhere earlier.
pub open spec fn first_at(hay: Seq<u8>, needle: Seq<u8>, i: int) -> bool {
    &&& is_at(hay, needle, i)
    &&& forall|j: int| 0 <= j < i ==> !is_at(hay, needle, j)
}

/// Does `little` occur in `big` starting at index `i`?
pub fn match_at(big: &[u8], little: &[u8], i: usize) -> (r: bool)
    requires
        i + little@.len() <= big@.len(),
    ensures
        r == is_at(big@, little@, i as int),
{
    let n = big.len();
    let mut k: usize = 0;
    while k < little.len()
        invariant
            n == big@.len(),
            i + little@.len() <= big@.len(),
            k <= little@.len(),
            forall|m: int| 0 <= m < k ==> big@[i + m] == little@[m],
        decreases little@.len() - k,
    {
        if big[i + k] != little[k] {
            return false;
        }
        k = k + 1;
    }
    true
}

/// First occurrence of `little` in `big`, if any.
pub fn find_in(big: &[u8], little: &[u8]) -> (r: Option<usize>)
    requires
        little@.len() >= 1,
    ensures
        match r {
            Some(i) => first_at(big@, little@, i as int),
            None => !has_sub(big@, little@),
        },
{
    if little.len() > big.len() {
        return None;
    }
    let end = big.len() - little.len();
    let mut i: usize = 0;
    while i <= end
        invariant
            little@.len() >= 1,
            little@.len() <= big@.len(),
            big@.len() <= usize::MAX,
            end == big@.len() - little@.len(),
            i <= end + 1,
            forall|j: int| 0 <= j < i ==> !is_at(big@, little@, j),
        decreases end + 1 - i,
    {
        if match_at(big, little, i) {
            return Some(i);
        }
        i = i + 1;
    }
    None
}

/// Do the two byte strings hold the same bytes?
pub fn bytes_eq(a: &[u8], b: &[u8]) -> (r: bool)
    ensures
        r == (a@ == b@),
{
    if a.len() != b.len() {
        return false;
    }
    let r = match_at(a, b, 0);
    proof {
        if r {
            assert(a@ =~= b@);
        }
    }
    r
}

/// Does `a` start with `p`?
pub fn starts_with(a: &[u8], p: &[u8]) -> (r: bool)
    ensures
        r == is_at(a@, p@, 0),
{
    if p.len() > a.len() {
        return false;
    }
    match_at(a, p, 0)
}

/// Does `a` end with `p`?
pub fn ends_with(a: &[u8], p: &[u8]) -> (r: bool)
    ensures
        r == (a@.len() >= p@.len() && is_at(a@, p@, a@.len() - p@.len())),
{
    if p.len() > a.len() {
        return false;
    }
    match_at(a, p, a.len() - p.len())
}

/// A fresh vector holding `v[from..to]`.
pub fn subvec(v: &[u8], from: usize, to: usize) -> (r: Vec<u8>)
    requires
        from <= to <= v@.len(),
    ensures
        r@ == v@.subrange(from as int, to as int),
{
    vstd::slice::slice_to_vec(&v[from..to])
}

/// Appends `src` to `dst`.
pub fn append_bytes(dst: &mut Vec<u8>, src: &[u8])
    ensures
        final(dst)@ == old(dst)@ + src@,
{
    let mut k: usize = 0;
    while k < src.len()
        invariant
            k <= src@.len(),
            dst@ == old(dst)@ + src@.subrange(0, k as int),
        decreases src@.len() - k,
    {
        dst.push(src[k]);
        proof {
            assert(old(dst)@ + src@.subrange(0, k + 1) =~= (old(dst)@ + src@.subrange(0, k as int)).push(
                src@[k as int]));
        }
        k = k + 1;
    }
    proof {
        assert(src@.subrange(0, src@.len() as int) =~= src@);
    }
}

/// ASCII space or horizontal tab.
pub open spec fn is_space(b: u8) -> bool {
    b == 32 || b == 9
}

/// `s` with leading spaces and tabs removed.
pub open spec fn spec_trim_start(s: Seq<u8>) -> Seq<u8>
    decreases s.len(),
{
    if s.len() > 0 && is_space(s[0]) {
        spec_trim_start(s.drop_first())
    } else {
        s
    }
}

proof fn lemma_trim_start_at(s: Seq<u8>, i: int)
    requires
        0 <= i <= s.len(),
        forall|k: int| 0 <= k < i ==> is_space(s[k]),
        i < s.len() ==> !is_space(s[i]),
    ensures
        spec_trim_start(s) == s.subrange(i, s.len() as int),
    decreases i,
{
    if i == 0 {
        if s.len() > 0 && is_space(s[0]) {
            assert(false);
        }
        assert(s.subrange(0, s.len() as int) =~= s);
    } else {
        let t = s.drop_first();
        assert(forall|k: int| 0 <= k < i - 1 ==> is_space(t[k]));
        lemma_trim_start_at(t, i - 1);
        assert(t.subrange(i - 1, t.len() as int) =~= s.subrange(i, s.len() as int));
    }
}

/// Removes leading spaces and tabs.
pub fn trim_start(v: &[u8]) -> (r: Vec<u8>)
    ensures
        r@ == spec_trim_start(v@),
{
    let mut i: usize = 0;
    while i < v.len() && (v[i] == 32 || v[i] == 9)
        invariant
            i <= v@.len(),
            forall|k: int| 0 <= k < i ==> is_space(v@[k]),
        decreases v@.len() - i,
    {
        i = i + 1;
    }
    proof {
        lemma_trim_start_at(v@, i as int);
    }
    subvec(v, i, v.len())
}

/// An ASCII decimal digit.
pub open spec fn is_digit(b: u8) -> bool {
    48 <= b <= 57
}

/// Every byte of `s` is a decimal digit.
pub open spec fn all_digits(s: Seq<u8>) -> bool {
    forall|i: int| 0 <= i < s.len() ==> is_digit(s[i])
}

/// The number that the digit string `s` denotes.
pub open spec fn dec_value(s: Seq<u8>) -> int
    decreases s.len(),
{
    if s.len() == 0 {
        0
    } else {
        dec_value(s.drop_last()) * 10 + (s.last() - 48)
    }
}

pub proof fn lemma_dec_value_nonneg(s: Seq<u8>)
    requires
        all_digits(s),
    ensures
        dec_value(s) >= 0,
    decreases s.len(),
{
    if s.len() > 0 {
        assert(all_digits(s.drop_last()));
        lemma_dec_value_nonneg(s.drop_last());
    }
}

proof fn lemma_dec_value_step(s: Seq<u8>, i: int)
    requires
        0 <= i < s.len(),
    ensures
        dec_value(s.subrange(0, i + 1)) == dec_value(s.subrange(0, i)) * 10 + (s[i] - 48),
{
    assert(s.subrange(0, i + 1).drop_last() =~= s.subrange(0, i));
    assert(s.subrange(0, i + 1).last() == s[i]);
}

proof fn lemma_dec_value_mono(s: Seq<u8>, i: int)
    requires
        all_digits(s),
        0 <= i <= s.len(),
    ensures
        dec_value(s) >= dec_value(s.subrange(0, i)),
    decreases s.len() - i,
{
    if i == s.len() {
        assert(s.subrange(0, s.len() as int) =~= s);
    } else {
        lemma_dec_value_step(s, i);
        assert(all_digits(s.subrange(0, i)));
        lemma_dec_value_nonneg(s.subrange(0, i));
        lemma_dec_value_mono(s, i + 1);
    }
}

/// Parses an unsigned decimal number, rejecting empty input, non-digits,
/// and values that do not fit in `usize`.
pub fn parse_usize(s: &[u8]) -> (r: Option<usize>)
    ensures
        match r {
            Some(n) => s@.len() >= 1 && all_digits(s@) && n as int == dec_value(s@),
            None => s@.len() == 0 || !all_digits(s@) || dec_value(s@) > usize::MAX,
        },
{
    if s.len() == 0 {
        return None;
    }
    let mut n: usize = 0;
    let mut i: usize = 0;
    while i < s.len()
        invariant
            i <= s@.len(),
            all_digits(s@.subrange(0, i as int)),
            n as int == dec_value(s@.subrange(0, i as int)),
        decreases s@.len() - i,
    {
        let b = s[i];
        if b < 48 || b > 57 {
            return None;
        }
        proof {
            lemma_dec_value_step(s@, i as int);
        }
        let m = match n.checked_mul(10) {
            Some(m) => m,
            None => {
                proof {
                    if all_digits(s@) {
                        lemma_dec_value_mono(s@, i as int + 1);
                    }
                }
                return None;
            },
        };
        let m2 = match m.checked_add((b - 48) as usize) {
            Some(m2) => m2,
            None => {
                proof {
                    if all_digits(s@) {
                        lemma_dec_value_mono(s@, i as int + 1);
                    }
                }
                return None;
            },
        };
        n = m2;
        i = i + 1;
    }
    proof {
        assert(s@.subrange(0, s@.len() as int) =~= s@);
    }
    Some(n)
}

/// The decimal digit string of `n`, most significant digit first.
pub open spec fn dec_digits(n: nat) -> Seq<u8>
    decreases n,
{
    if n < 10 {
        seq![(48 + n) as u8]
    } else {
        dec_digits(n / 10).push((48 + n % 10) as u8)
    }
}

/// Formats `n` in decimal.
pub fn fmt_usize(n: usize) -> (r: Vec<u8>)
    ensures
        r@ == dec_digits(n as nat),
    decreases n,
{
    if n < 10 {
        let mut v: Vec<u8> = Vec::new();
        v.push(48 + n as u8);
        proof {
            assert(v@ =~= dec_digits(n as nat));
        }
        v
    } else {
        let mut v = fmt_usize(n / 10);
        v.push(48 + (n % 10) as u8);
        proof {
            assert(v@ =~= dec_digits(n as nat));
        }
        v
    }
}

/// A fresh vector with the same bytes.
pub fn copy_bytes(v: &Vec<u8>) -> (r: Vec<u8>)
    ensures
        r@ == v@,
{
    let r = subvec(v.as_slice(), 0, v.len());
    proof {
        assert(r@ =~= v@);
    }
    r
}

/// The index of the first `b` in `s`; `s.len()` when `b` is absent.
pub open spec fn idx_of(s: Seq<u8>, b: u8) -> int
    decreases s.len(),
{
    if s.len() == 0 {
        0
    } else if s[0] == b {
        0
    } else {
        1 + idx_of(s.drop_first(), b)
    }
}

pub proof fn lemma_idx_of(s: Seq<u8>, b: u8)
    ensures
        0 <= idx_of(s, b) <= s.len(),
        idx_of(s, b) < s.len() ==> s[idx_of(s, b)] == b,
        forall|k: int| 0 <= k < idx_of(s, b) ==> s[k] != b,
    decreases s.len(),
{
    if s.len() > 0 && s[0] != b {
        let t = s.drop_first();
        lemma_idx_of(t, b);
        assert forall|k: int| 0 <= k < idx_of(s, b) implies s[k] != b by {
            if k > 0 {
                assert(s[k] == t[k - 1]);
            }
        }
    }
}

pub proof fn lemma_idx_of_at(s: Seq<u8>, b: u8, i: int)
    requires
        0 <= i <= s.len(),
        forall|k: int| 0 <= k < i ==> s[k] != b,
        i < s.len() ==> s[i] == b,
    ensures
        idx_of(s, b) == i,
    decreases i,
{
    if i == 0 {
    } else {
        let t = s.drop_first();
        assert(forall|k: int| 0 <= k < i - 1 ==> t[k] != b);
        lemma_idx_of_at(t, b, i - 1);
    }
}

/// The index of the first `b` in `v`; `v.len()` when `b` is absent.
pub fn find_byte(v: &[u8], b: u8) -> (r: usize)
    ensures
        r == idx_of(v@, b),
{
    let mut i: usize = 0;
    while i < v.len() && v[i] != b
        invariant
            i <= v@.len(),
            forall|k: int| 0 <= k < i ==> v@[k] != b,
        decreases v@.len() - i,
    {
        i = i + 1;
    }
    proof {
        lemma_idx_of_at(v@, b, i as int);
    }
    i
}

/// One aligned byte of an occurrence.
pub proof fn lemma_is_at_index(hay: Seq<u8>, needle: Seq<u8>, i: int, k: int)
    requires
        is_at(hay, needle, i),
        0 <= k < needle.len(),
    ensures
        hay[i + k] == needle[k],
{
}

/// Occurrences shift by one when the first byte is dropped.
pub proof fn lemma_is_at_shift(s: Seq<u8>, n: Seq<u8>, j: int)
    requires
        s.len() >= 1,
        j >= 1,
    ensures
        is_at(s, n, j) == is_at(s.drop_first(), n, j - 1),
{
    let t = s.drop_first();
    assert(forall|k: int| 0 <= k < n.len() && j - 1 + k < t.len() ==> #[trigger] t[j - 1 + k] == s[
        j + k]);
}

/// The index of the first occurrence of `needle` in `s`; `-1` when absent.
pub open spec fn sub_idx(s: Seq<u8>, needle: Seq<u8>) -> int
    decreases s.len(),
{
    if needle.len() > s.len() {
        -1
    } else if is_at(s, needle, 0) {
        0
    } else if s.len() == 0 {
        -1
    } else {
        let r = sub_idx(s.drop_first(), needle);
        if r < 0 {
            -1
        } else {
            1 + r
        }
    }
}

pub proof fn lemma_sub_idx_at(s: Seq<u8>, needle: Seq<u8>, i: int)
    requires
        first_at(s, needle, i),
    ensures
        sub_idx(s, needle) == i,
    decreases i,
{
    if i == 0 {
    } else {
        let t = s.drop_first();
        assert(!is_at(s, needle, 0));
        lemma_is_at_shift(s, needle, i);
        assert(is_at(t, needle, i - 1));
        assert forall|j: int| 0 <= j < i - 1 implies !is_at(t, needle, j) by {
            lemma_is_at_shift(s, needle, j + 1);
        }
        lemma_sub_idx_at(t, needle, i - 1);
    }
}

pub proof fn lemma_sub_idx_none(s: Seq<u8>, needle: Seq<u8>)
    requires
        !has_sub(s, needle),
    ensures
        sub_idx(s, needle) == -1,
    decreases s.len(),
{
    if needle.len() > s.len() {
    } else if is_at(s, needle, 0) {
        assert(false);
    } else if s.len() == 0 {
    } else {
        let t = s.drop_first();
        assert forall|j: int| !is_at(t, needle, j) by {
            if 0 <= j {
                lemma_is_at_shift(s, needle, j + 1);
            }
        }
        lemma_sub_idx_none(t, needle);
    }
}

/// ASCII whitespace.
pub open spec fn is_ws(b: u8) -> bool {
    b == 32 || b == 9 || b == 10 || b == 11 || b == 12 || b == 13
}

/// Left-to-right whitespace tokenization: `cur` is the token being read,
/// `acc` the tokens already produced.
pub open spec fn split_ws_acc(s: Seq<u8>, cur: Seq<u8>, acc: Seq<Seq<u8>>) -> Seq<Seq<u8>>
    decreases s.len(),
{
    if s.len() == 0 {
        if cur.len() > 0 {
            acc.push(cur)
        } else {
            acc
        }
    } else if is_ws(s[0]) {
        if cur.len() > 0 {
            split_ws_acc(s.drop_first(), Seq::empty(), acc.push(cur))
        } else {
            split_ws_acc(s.drop_first(), Seq::empty(), acc)
        }
    } else {
        split_ws_acc(s.drop_first(), cur.push(s[0]), acc)
    }
}

/// The whitespace-separated tokens of `s`.
pub open spec fn spec_split_ws(s: Seq<u8>) -> Seq<Seq<u8>> {
    split_ws_acc(s, Seq::empty(), Seq::empty())
}

/// Splits `line` into its whitespace-separated tokens.
pub fn split_ws(line: &[u8]) -> (r: Vec<Vec<u8>>)
    ensures
        r@.map_values(|v: Vec<u8>| v@) == spec_split_ws(line@),
{
    let mut out: Vec<Vec<u8>> = Vec::new();
    let mut cur: Vec<u8> = Vec::new();
    let mut i: usize = 0;
    proof {
        assert(line@.subrange(0, line@.len() as int) =~= line@);
        assert(out@.map_values(|v: Vec<u8>| v@) =~= Seq::<Seq<u8>>::empty());
        assert(cur@ =~= Seq::<u8>::empty());
    }
    while i < line.len()
        invariant
            i <= line@.len(),
            spec_split_ws(line@) == split_ws_acc(
                line@.subrange(i as int, line@.len() as int),
                cur@,
                out@.map_values(|v: Vec<u8>| v@),
            ),
        decreases line@.len() - i,
    {
        let ghost rem = line@.subrange(i as int, line@.len() as int);
        let ghost rem2 = line@.subrange(i + 1, line@.len() as int);
        let ghost curv = cur@;
        let ghost accv = out@.map_values(|v: Vec<u8>| v@);
        proof {
            assert(rem.len() > 0);
            assert(rem[0] == line@[i as int]);
            assert(rem.drop_first() =~= rem2);
        }
        let b = line[i];
        if b == 32 || b == 9 || b == 10 || b == 11 || b == 12 || b == 13 {
            if cur.len() > 0 {
                proof {
                    assert(split_ws_acc(rem, curv, accv) == split_ws_acc(
                        rem2,
                        Seq::empty(),
                        accv.push(curv),
                    ));
                }
                out.push(cur);
                cur = Vec::new();
                proof {
                    assert(out@.map_values(|v: Vec<u8>| v@) =~= accv.push(curv));
                    assert(cur@ =~= Seq::<u8>::empty());
                }
            } else {
                proof {
                    assert(curv =~= Seq::<u8>::empty());
                    assert(split_ws_acc(rem, curv, accv) == split_ws_acc(rem2, curv, accv));
                }
            }
        } else {
            proof {
                assert(split_ws_acc(rem, curv, accv) == split_ws_acc(
                    rem2,
                    curv.push(rem[0]),
                    accv,
                ));
            }
            cur.push(b);
        }
        i = i + 1;
    }
    proof {
        assert(line@.subrange(line@.len() as int, line@.len() as int).len() == 0);
    }
    if cur.len() > 0 {
        let ghost curv = cur@;
        let ghost accv = out@.map_values(|v: Vec<u8>| v@);
        out.push(cur);
        proof {
            assert(out@.map_values(|v: Vec<u8>| v@) =~= accv.push(curv));
        }
    }
    out
}

/// The bytes of an ASCII character sequence, one byte per character.
pub open spec fn ascii_of(s: Seq<char>) -> Seq<u8> {
    Seq::new(s.len(), |i: int| s[i] as u8)
}

/// The bytes of an ASCII string. Callers pass literals and discharge the
/// precondition with `reveal_strlit`.
pub fn str_bytes(s: &str) -> (r: Vec<u8>)
    requires
        vstd::string::is_ascii(s),
    ensures
        r@ == ascii_of(s@),
{
    proof {
        vstd::string::is_ascii_spec_bytes(s);
    }
    let b = s.as_bytes();
    let v = vstd::slice::slice_to_vec(b);
    proof {
        assert(v@ =~= ascii_of(s@));
    }
    v
}

} // verus!
