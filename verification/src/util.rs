//! Path and address helpers of the relay.
//!
//! [`basename`] takes the file name out of a slash-separated path.
//! [`non_colliding_filename`] picks the first name under which an inbound
//! file can be stored without treading on an existing one, probing
//! `stem_1.ext`, `stem_2.ext`, ... as the original name is taken.
//! [`is_ipv4_address`] decides whether a destination is a well-formed
//! dotted-quad address, exactly as the canonical rendering of four octets.

use vstd::prelude::*;

verus! {

use vstd::string::StrSliceExecFns;
use vstd::string::StringExecFns;
use crate::text::{
    spec_dec_str, u64_to_dec_string, lemma_dec_str_injective, is_digit_char, digit_of,
    chars_value, lemma_dec_str_digits, lemma_dec_str_value, lemma_dec_str_canon,
};

/// The address a listener binds when the configuration names none.
pub fn listen_default_address() -> (r: String)
    ensures
        r@ == "0.0.0.0"@,
{
    String::from_str("0.0.0.0")
}

/// The port the remote listener binds when the configuration names none.
pub const LISTEN_DEFAULT_PORT: u16 = 12345;

/// The port the local control listener binds when the configuration names none.
pub const LOCAL_DEFAULT_PORT: u16 = 23455;

/// The file name part of a slash-separated path: what follows the last
/// slash, or the whole path when it has none.
pub open spec fn spec_basename(s: Seq<char>) -> Seq<char> {
    match s.index_of_last('/') {
        Some(i) => s.subrange(i + 1, s.len() as int),
        None => s,
    }
}

/// Finds the position of the last occurrence of `c` in `s`.
fn find_last(s: &str, c: char) -> (r: Option<usize>)
    ensures
        match r {
            Some(i) => i < s@.len() && s@.index_of_last(c) == Some(i as int),
            None => s@.index_of_last(c) is None,
        },
{
    let n = s.unicode_len();
    let mut i = n;
    while i > 0
        invariant
            i <= n,
            n == s@.len(),
            forall|j: int| i <= j < n ==> s@[j] != c,
        decreases i,
    {
        let ch = s.get_char(i - 1);
        if ch == c {
            proof {
                s@.index_of_last_ensures(c);
                assert(s@.contains(c));
                let idx = s@.index_of_last(c)->Some_0;
                assert(s@[idx] == c);
                if idx < i - 1 {
                    assert(s@[i - 1] != c);
                }
            }
            return Some(i - 1);
        }
        i = i - 1;
    }
    proof {
        s@.index_of_last_ensures(c);
        if s@.contains(c) {
            let k = choose|k: int| 0 <= k < s@.len() && s@[k] == c;
            assert(s@[k] != c);
        }
    }
    None
}

/// The file name part of a slash-separated path.
pub fn basename<'p>(path: &'p str) -> (r: &'p str)
    ensures
        r@ == spec_basename(path@),
{
    let n = path.unicode_len();
    match find_last(path, '/') {
        Some(i) => path.substring_char(i + 1, n),
        None => path,
    }
}

/// Whether one of the names is `x`.
pub open spec fn names_contain(names: Seq<Seq<char>>, x: Seq<char>) -> bool {
    exists|k: int| 0 <= k < names.len() && names[k] == x
}

/// Whether one of the names equals the given string.
fn contains_name(names: &Vec<String>, x: &String) -> (r: bool)
    ensures
        r == names_contain(names.deep_view(), x@),
{
    let mut k: usize = 0;
    while k < names.len()
        invariant
            k <= names@.len(),
            forall|j: int| 0 <= j < k ==> names.deep_view()[j] != x@,
        decreases names@.len() - k,
    {
        if names[k].eq(x) {
            proof {
                assert(names.deep_view()[k as int] == x@);
            }
            return true;
        }
        k += 1;
    }
    false
}

/// The directory part of a path, trailing slash kept, and the rest;
/// the directory is empty when the path has no slash.
pub open spec fn spec_split_dir(s: Seq<char>) -> (Seq<char>, Seq<char>) {
    match s.index_of_last('/') {
        Some(i) => (s.take(i + 1), s.skip(i + 1)),
        None => (Seq::empty(), s),
    }
}

/// The stem and the extension of a file name, split at the last dot;
/// the extension is empty when the name has no dot.
pub open spec fn spec_split_ext(s: Seq<char>) -> (Seq<char>, Seq<char>) {
    match s.index_of_last('.') {
        Some(i) => (s.take(i), s.skip(i + 1)),
        None => (s, Seq::empty()),
    }
}

/// The name probed at step `i` when the desired name is taken:
/// `dir` + `stem` + `_i.` + `ext`.
pub open spec fn spec_candidate(dir: Seq<char>, stem: Seq<char>, ext: Seq<char>, i: nat) -> Seq<
    char,
> {
    dir + stem + seq!['_'] + spec_dec_str(i) + seq!['.'] + ext
}

/// Probe names of distinct steps are distinct names.
proof fn lemma_candidate_injective(dir: Seq<char>, stem: Seq<char>, ext: Seq<char>, i: nat, j: nat)
    requires
        i != j,
    ensures
        spec_candidate(dir, stem, ext, i) != spec_candidate(dir, stem, ext, j),
{
    lemma_dec_str_injective(i, j);
    let p = dir + stem + seq!['_'];
    let di = spec_dec_str(i);
    let dj = spec_dec_str(j);
    let ci = spec_candidate(dir, stem, ext, i);
    let cj = spec_candidate(dir, stem, ext, j);
    if ci == cj {
        assert(ci.len() == p.len() + di.len() + 1 + ext.len());
        assert(cj.len() == p.len() + dj.len() + 1 + ext.len());
        assert(di.len() == dj.len());
        assert(ci.subrange(p.len() as int, p.len() + di.len() as int) =~= di);
        assert(cj.subrange(p.len() as int, p.len() + dj.len() as int) =~= dj);
        assert(false);
    }
}

/// Among any `names.len() + 1` successive probe names, one is free.
proof fn lemma_some_candidate_free(
    dir: Seq<char>,
    stem: Seq<char>,
    ext: Seq<char>,
    names: Seq<Seq<char>>,
    lo: nat,
)
    ensures
        exists|i: nat|
            lo <= i < lo + names.len() + 1 && !names_contain(
                names,
                #[trigger] spec_candidate(dir, stem, ext, i),
            ),
    decreases names.len(),
{
    let c0 = spec_candidate(dir, stem, ext, lo);
    if !names_contain(names, c0) {
        assert(lo <= lo < lo + names.len() + 1 && !names_contain(
            names,
            spec_candidate(dir, stem, ext, lo),
        ));
    } else {
        let k = choose|k: int| 0 <= k < names.len() && names[k] == c0;
        let rest = names.remove(k);
        lemma_some_candidate_free(dir, stem, ext, rest, lo + 1);
        let i = choose|i: nat|
            lo + 1 <= i < lo + 1 + rest.len() + 1 && !names_contain(
                rest,
                #[trigger] spec_candidate(dir, stem, ext, i),
            );
        let ci = spec_candidate(dir, stem, ext, i);
        lemma_candidate_injective(dir, stem, ext, i, lo);
        assert(!names_contain(names, ci)) by {
            if names_contain(names, ci) {
                let j = choose|j: int| 0 <= j < names.len() && names[j] == ci;
                assert(j != k);
                if j < k {
                    assert(rest[j] == names[j]);
                    assert(names_contain(rest, ci));
                } else {
                    assert(rest[j - 1] == names[j]);
                    assert(names_contain(rest, ci));
                }
            }
        }
        assert(lo <= i < lo + names.len() + 1 && !names_contain(
            names,
            spec_candidate(dir, stem, ext, i),
        ));
    }
}

/// `r` is the probe name of step `i`, the first step whose name is free.
pub open spec fn is_first_free_candidate(
    s: Seq<char>,
    names: Seq<Seq<char>>,
    r: Seq<char>,
    i: nat,
) -> bool {
    let dir = spec_split_dir(s).0;
    let rest = spec_split_dir(s).1;
    let stem = spec_split_ext(rest).0;
    let ext = spec_split_ext(rest).1;
    &&& 1 <= i
    &&& r == spec_candidate(dir, stem, ext, i)
    &&& !names_contain(names, r)
    &&& forall|j: nat|
        1 <= j < i ==> names_contain(names, #[trigger] spec_candidate(dir, stem, ext, j))
}

/// `r` is what the disambiguator owes for desired name `s` against the
/// existing names: `s` itself when free, else the first free probe name.
pub open spec fn is_disambiguation(s: Seq<char>, names: Seq<Seq<char>>, r: Seq<char>) -> bool {
    if !names_contain(names, s) {
        r == s
    } else {
        exists|i: nat| is_first_free_candidate(s, names, r, i)
    }
}

/// Builds the probe name of step `i`.
fn build_candidate(dir: &str, stem: &str, ext: &str, i: u64) -> (r: String)
    ensures
        r@ == spec_candidate(dir@, stem@, ext@, i as nat),
{
    let mut s = String::from_str(dir);
    s.append(stem);
    s.append("_");
    let d = u64_to_dec_string(i);
    s.append(d.as_str());
    s.append(".");
    s.append(ext);
    proof {
        reveal_strlit("_");
        reveal_strlit(".");
        assert(s@ =~= spec_candidate(dir@, stem@, ext@, i as nat));
    }
    s
}

/// Returns a name that is not among the existing names: the desired
/// `path` itself when it is free, else the first free probe name
/// `dir/stem_i.ext` for `i = 1, 2, 3, ...`.
pub fn non_colliding_filename(path: &str, existing: &Vec<String>) -> (r: String)
    requires
        existing@.len() < usize::MAX,
    ensures
        !names_contain(existing.deep_view(), r@),
        is_disambiguation(path@, existing.deep_view(), r@),
{
    let ghost names = existing.deep_view();
    proof {
        assert(names.len() == existing@.len());
    }
    let owned = path.to_owned();
    if !contains_name(existing, &owned) {
        return owned;
    }
    let n = path.unicode_len();
    let dir_end = match find_last(path, '/') {
        Some(i) => i + 1,
        None => 0,
    };
    let dir = path.substring_char(0, dir_end);
    let rest = path.substring_char(dir_end, n);
    let m = rest.unicode_len();
    let (stem, ext) = match find_last(rest, '.') {
        Some(i) => (rest.substring_char(0, i), rest.substring_char(i + 1, m)),
        None => (rest, ""),
    };
    proof {
        reveal_strlit("");
        assert(dir@ =~= spec_split_dir(path@).0);
        assert(rest@ =~= spec_split_dir(path@).1);
        assert(stem@ =~= spec_split_ext(rest@).0);
        assert(ext@ =~= spec_split_ext(rest@).1);
        lemma_some_candidate_free(dir@, stem@, ext@, names, 1);
    }
    let ghost w = choose|i: nat|
        1 <= i < 1 + names.len() + 1 && !names_contain(
            names,
            #[trigger] spec_candidate(dir@, stem@, ext@, i),
        );
    let mut i: u64 = 1;
    let mut cand = build_candidate(dir, stem, ext, i);
    while contains_name(existing, &cand)
        invariant
            1 <= i as nat <= w,
            w < names.len() + 2,
            names == existing.deep_view(),
            names.len() < usize::MAX,
            cand@ == spec_candidate(dir@, stem@, ext@, i as nat),
            !names_contain(names, spec_candidate(dir@, stem@, ext@, w)),
            forall|j: nat|
                1 <= j < i as nat ==> names_contain(
                    names,
                    #[trigger] spec_candidate(dir@, stem@, ext@, j),
                ),
        decreases w - i as nat,
    {
        proof {
            assert(i as nat != w);
        }
        i = i + 1;
        cand = build_candidate(dir, stem, ext, i);
    }
    proof {
        assert(is_first_free_candidate(path@, names, cand@, i as nat));
    }
    cand
}

/// Law: a disambiguated name is never one of the existing names, and
/// repeated disambiguation against a growing set never reuses a name:
/// whatever the disambiguator returned for the grown set differs from
/// the name just added and from every older name.
pub proof fn lemma_disambiguation_fresh(
    s: Seq<char>,
    names: Seq<Seq<char>>,
    first: Seq<char>,
    second: Seq<char>,
)
    requires
        !names_contain(names, first),
        !names_contain(names.push(first), second),
    ensures
        second != first,
        !names_contain(names, second),
{
    assert(names.push(first)[names.len() as int] == first);
    if names_contain(names, second) {
        let k = choose|k: int| 0 <= k < names.len() && names[k] == second;
        assert(names.push(first)[k] == second);
    }
}

/// The dotted-quad rendering of four octets.
pub open spec fn ipv4_render(a: u8, b: u8, c: u8, d: u8) -> Seq<char> {
    spec_dec_str(a as nat) + seq!['.'] + spec_dec_str(b as nat) + seq!['.'] + spec_dec_str(
        c as nat,
    ) + seq!['.'] + spec_dec_str(d as nat)
}

/// A well-formed IPv4 address: the canonical decimal rendering of four
/// octets joined by dots, no leading zeros and no octet above 255.
pub open spec fn spec_is_ipv4(s: Seq<char>) -> bool {
    exists|a: u8, b: u8, c: u8, d: u8| s == #[trigger] ipv4_render(a, b, c, d)
}

/// In a rendered address the dots stand exactly at the three joints, and
/// between them stand the octets' decimal notations.
proof fn lemma_render_shape(a: u8, b: u8, c: u8, d: u8)
    ensures
        ({
            let s = ipv4_render(a, b, c, d);
            let q1 = spec_dec_str(a as nat).len() as int;
            let q2 = q1 + 1 + spec_dec_str(b as nat).len();
            let q3 = q2 + 1 + spec_dec_str(c as nat).len();
            &&& s.len() == q3 + 1 + spec_dec_str(d as nat).len()
            &&& 0 <= q1 < q2 < q3 < s.len()
            &&& s.subrange(0, q1) == spec_dec_str(a as nat)
            &&& s.subrange(q1 + 1, q2) == spec_dec_str(b as nat)
            &&& s.subrange(q2 + 1, q3) == spec_dec_str(c as nat)
            &&& s.subrange(q3 + 1, s.len() as int) == spec_dec_str(d as nat)
            &&& forall|j: int|
                0 <= j < s.len() ==> (s[j] == '.' <==> (j == q1 || j == q2 || j == q3))
        }),
{
    lemma_dec_str_digits(a as nat);
    lemma_dec_str_digits(b as nat);
    lemma_dec_str_digits(c as nat);
    lemma_dec_str_digits(d as nat);
    let s = ipv4_render(a, b, c, d);
    let da = spec_dec_str(a as nat);
    let db = spec_dec_str(b as nat);
    let dc = spec_dec_str(c as nat);
    let dd = spec_dec_str(d as nat);
    let q1 = da.len() as int;
    let q2 = q1 + 1 + db.len();
    let q3 = q2 + 1 + dc.len();
    assert(s.subrange(0, q1) =~= da);
    assert(s.subrange(q1 + 1, q2) =~= db);
    assert(s.subrange(q2 + 1, q3) =~= dc);
    assert(s.subrange(q3 + 1, s.len() as int) =~= dd);
    assert forall|j: int| 0 <= j < s.len() implies (s[j] == '.' <==> (j == q1 || j == q2 || j
        == q3)) by {
        if j < q1 {
            assert(s[j] == da[j]);
            assert(is_digit_char(da[j]));
        } else if q1 < j < q2 {
            assert(s[j] == db[j - q1 - 1]);
            assert(is_digit_char(db[j - q1 - 1]));
        } else if q2 < j < q3 {
            assert(s[j] == dc[j - q2 - 1]);
            assert(is_digit_char(dc[j - q2 - 1]));
        } else if q3 < j {
            assert(s[j] == dd[j - q3 - 1]);
            assert(is_digit_char(dd[j - q3 - 1]));
        }
    }
}

/// When a rendered address has its dots at `p1 < p2 < p3` and nowhere
/// else, those are the three joints and the segments between them are
/// the octets' decimal notations.
proof fn lemma_forced_joints(
    s: Seq<char>,
    a: u8,
    b: u8,
    c: u8,
    d: u8,
    p1: int,
    p2: int,
    p3: int,
)
    requires
        s == ipv4_render(a, b, c, d),
        0 <= p1 < p2 < p3 < s.len(),
        s[p1] == '.',
        s[p2] == '.',
        s[p3] == '.',
        forall|j: int| 0 <= j < s.len() && s[j] == '.' ==> j == p1 || j == p2 || j == p3,
    ensures
        s.subrange(0, p1) == spec_dec_str(a as nat),
        s.subrange(p1 + 1, p2) == spec_dec_str(b as nat),
        s.subrange(p2 + 1, p3) == spec_dec_str(c as nat),
        s.subrange(p3 + 1, s.len() as int) == spec_dec_str(d as nat),
{
    lemma_render_shape(a, b, c, d);
    let q1 = spec_dec_str(a as nat).len() as int;
    let q2 = q1 + 1 + spec_dec_str(b as nat).len();
    let q3 = q2 + 1 + spec_dec_str(c as nat).len();
    assert(p1 == q1 && p2 == q2 && p3 == q3);
}

/// Reads the characters `s[start..end)` as a canonical decimal octet:
/// the value when they are exactly its decimal notation, nothing else.
fn parse_octet(s: &str, start: usize, end: usize) -> (r: Option<u8>)
    requires
        start <= end <= s@.len(),
    ensures
        match r {
            Some(v) => s@.subrange(start as int, end as int) == spec_dec_str(v as nat),
            None => forall|v: u8|
                s@.subrange(start as int, end as int) != #[trigger] spec_dec_str(v as nat),
        },
{
    let ghost p = s@.subrange(start as int, end as int);
    let len = end - start;
    if len < 1 || len > 3 {
        proof {
            assert forall|v: u8| p != #[trigger] spec_dec_str(v as nat) by {
                lemma_dec_str_digits(v as nat);
            }
        }
        return None;
    }
    let c0 = s.get_char(start);
    if !(('0' <= c0) && (c0 <= '9')) {
        proof {
            assert forall|v: u8| p != #[trigger] spec_dec_str(v as nat) by {
                lemma_dec_str_digits(v as nat);
                if p == spec_dec_str(v as nat) {
                    assert(is_digit_char(p[0]));
                }
            }
        }
        return None;
    }
    if len >= 2 && c0 == '0' {
        proof {
            assert forall|v: u8| p != #[trigger] spec_dec_str(v as nat) by {
                lemma_dec_str_digits(v as nat);
                if p == spec_dec_str(v as nat) {
                    if (v as nat) < 10 {
                        assert(spec_dec_str(v as nat).len() == 1);
                    } else {
                        assert(p[0] != '0');
                    }
                }
            }
        }
        return None;
    }
    let d0 = (c0 as u32) - 48;
    let mut val: u32 = d0;
    if len >= 2 {
        let c1 = s.get_char(start + 1);
        if !(('0' <= c1) && (c1 <= '9')) {
            proof {
                assert forall|v: u8| p != #[trigger] spec_dec_str(v as nat) by {
                    lemma_dec_str_digits(v as nat);
                    if p == spec_dec_str(v as nat) {
                        assert(is_digit_char(p[1]));
                    }
                }
            }
            return None;
        }
        val = val * 10 + ((c1 as u32) - 48);
    }
    if len == 3 {
        let c2 = s.get_char(start + 2);
        if !(('0' <= c2) && (c2 <= '9')) {
            proof {
                assert forall|v: u8| p != #[trigger] spec_dec_str(v as nat) by {
                    lemma_dec_str_digits(v as nat);
                    if p == spec_dec_str(v as nat) {
                        assert(is_digit_char(p[2]));
                    }
                }
            }
            return None;
        }
        val = val * 10 + ((c2 as u32) - 48);
    }
    proof {
        assert(p[0] == s@[start as int]);
        if len == 1 {
            assert(p.drop_last() =~= Seq::<char>::empty());
            assert(chars_value(Seq::<char>::empty()) == 0);
            assert(p.last() == p[0]);
            assert(chars_value(p) == chars_value(p.drop_last()) * 10 + digit_of(p.last()));
        } else if len == 2 {
            assert(p[1] == s@[start as int + 1]);
            let p0 = seq![p[0]];
            assert(p0.drop_last() =~= Seq::<char>::empty());
            assert(chars_value(Seq::<char>::empty()) == 0);
            assert(p0.last() == p[0]);
            assert(chars_value(p0) == chars_value(p0.drop_last()) * 10 + digit_of(p0.last()));
            assert(p.drop_last() =~= p0);
            assert(p.last() == p[1]);
            assert(chars_value(p) == chars_value(p.drop_last()) * 10 + digit_of(p.last()));
        } else {
            assert(p[1] == s@[start as int + 1]);
            assert(p[2] == s@[start as int + 2]);
            let p0 = seq![p[0]];
            let p01 = seq![p[0], p[1]];
            assert(p0.drop_last() =~= Seq::<char>::empty());
            assert(chars_value(Seq::<char>::empty()) == 0);
            assert(p0.last() == p[0]);
            assert(chars_value(p0) == chars_value(p0.drop_last()) * 10 + digit_of(p0.last()));
            assert(p01.drop_last() =~= p0);
            assert(p01.last() == p[1]);
            assert(chars_value(p01) == chars_value(p01.drop_last()) * 10 + digit_of(p01.last()));
            assert(p.drop_last() =~= p01);
            assert(p.last() == p[2]);
            assert(chars_value(p) == chars_value(p.drop_last()) * 10 + digit_of(p.last()));
        }
        assert(val == chars_value(p));
    }
    if val > 255 {
        proof {
            assert forall|v: u8| p != #[trigger] spec_dec_str(v as nat) by {
                if p == spec_dec_str(v as nat) {
                    lemma_dec_str_value(v as nat);
                }
            }
        }
        return None;
    }
    proof {
        assert forall|i: int| 0 <= i < p.len() implies is_digit_char(#[trigger] p[i]) by {
        }
        lemma_dec_str_canon(p, val as int);
    }
    Some(val as u8)
}

/// Decides whether a destination is a well-formed dotted-quad IPv4
/// address, per [`spec_is_ipv4`].
pub fn is_ipv4_address(address: &str) -> (r: bool)
    ensures
        r == spec_is_ipv4(address@),
{
    let ghost s = address@;
    let n = address.unicode_len();
    let mut count: usize = 0;
    let mut p1: usize = 0;
    let mut p2: usize = 0;
    let mut p3: usize = 0;
    let mut k: usize = 0;
    while k < n
        invariant
            k <= n,
            n == s.len(),
            s == address@,
            count <= 3,
            count >= 1 ==> p1 < k && s[p1 as int] == '.',
            count >= 2 ==> p1 < p2 < k && s[p2 as int] == '.',
            count >= 3 ==> p2 < p3 < k && s[p3 as int] == '.',
            forall|j: int|
                0 <= j < k && s[j] == '.' ==> (count >= 1 && j == p1) || (count >= 2 && j == p2)
                    || (count >= 3 && j == p3),
        decreases n - k,
    {
        let ch = address.get_char(k);
        if ch == '.' {
            if count == 0 {
                p1 = k;
            } else if count == 1 {
                p2 = k;
            } else if count == 2 {
                p3 = k;
            } else {
                proof {
                    if spec_is_ipv4(s) {
                        let (a, b, c, d): (u8, u8, u8, u8) = choose|a: u8, b: u8, c: u8, d: u8|
                            s == #[trigger] ipv4_render(a, b, c, d);
                        lemma_render_shape(a, b, c, d);
                        let q1 = spec_dec_str(a as nat).len() as int;
                        let q2 = q1 + 1 + spec_dec_str(b as nat).len();
                        let q3 = q2 + 1 + spec_dec_str(c as nat).len();
                        assert(s[q1] == '.' && s[q2] == '.' && s[q3] == '.');
                        assert(s[k as int] == '.');
                        assert(false);
                    }
                }
                return false;
            }
            count += 1;
        }
        k += 1;
    }
    if count != 3 {
        proof {
            if spec_is_ipv4(s) {
                let (a, b, c, d): (u8, u8, u8, u8) = choose|a: u8, b: u8, c: u8, d: u8|
                    s == #[trigger] ipv4_render(a, b, c, d);
                lemma_render_shape(a, b, c, d);
                let q1 = spec_dec_str(a as nat).len() as int;
                let q2 = q1 + 1 + spec_dec_str(b as nat).len();
                let q3 = q2 + 1 + spec_dec_str(c as nat).len();
                assert(s[q1] == '.' && s[q2] == '.' && s[q3] == '.');
                assert(false);
            }
        }
        return false;
    }
    let a = match parse_octet(address, 0, p1) {
        Some(v) => v,
        None => {
            proof {
                if spec_is_ipv4(s) {
                    let (a, b, c, d): (u8, u8, u8, u8) = choose|a: u8, b: u8, c: u8, d: u8|
                        s == #[trigger] ipv4_render(a, b, c, d);
                    lemma_forced_joints(s, a, b, c, d, p1 as int, p2 as int, p3 as int);
                }
            }
            return false;
        },
    };
    let b = match parse_octet(address, p1 + 1, p2) {
        Some(v) => v,
        None => {
            proof {
                if spec_is_ipv4(s) {
                    let (a, b, c, d): (u8, u8, u8, u8) = choose|a: u8, b: u8, c: u8, d: u8|
                        s == #[trigger] ipv4_render(a, b, c, d);
                    lemma_forced_joints(s, a, b, c, d, p1 as int, p2 as int, p3 as int);
                }
            }
            return false;
        },
    };
    let c = match parse_octet(address, p2 + 1, p3) {
        Some(v) => v,
        None => {
            proof {
                if spec_is_ipv4(s) {
                    let (a, b, c, d): (u8, u8, u8, u8) = choose|a: u8, b: u8, c: u8, d: u8|
                        s == #[trigger] ipv4_render(a, b, c, d);
                    lemma_forced_joints(s, a, b, c, d, p1 as int, p2 as int, p3 as int);
                }
            }
            return false;
        },
    };
    let d = match parse_octet(address, p3 + 1, n) {
        Some(v) => v,
        None => {
            proof {
                if spec_is_ipv4(s) {
                    let (a, b, c, d): (u8, u8, u8, u8) = choose|a: u8, b: u8, c: u8, d: u8|
                        s == #[trigger] ipv4_render(a, b, c, d);
                    lemma_forced_joints(s, a, b, c, d, p1 as int, p2 as int, p3 as int);
                }
            }
            return false;
        },
    };
    proof {
        let r = ipv4_render(a, b, c, d);
        lemma_render_shape(a, b, c, d);
        let q1 = spec_dec_str(a as nat).len() as int;
        let q2 = q1 + 1 + spec_dec_str(b as nat).len();
        let q3 = q2 + 1 + spec_dec_str(c as nat).len();
        assert(q1 == p1 && q2 == p2 && q3 == p3);
        assert forall|i: int| 0 <= i < s.len() implies s[i] == r[i] by {
            if i < p1 {
                assert(s[i] == s.subrange(0, p1 as int)[i]);
                assert(r[i] == r.subrange(0, q1)[i]);
            } else if i == p1 {
            } else if i < p2 {
                assert(s[i] == s.subrange(p1 as int + 1, p2 as int)[i - p1 - 1]);
                assert(r[i] == r.subrange(q1 + 1, q2)[i - q1 - 1]);
            } else if i == p2 {
            } else if i < p3 {
                assert(s[i] == s.subrange(p2 as int + 1, p3 as int)[i - p2 - 1]);
                assert(r[i] == r.subrange(q2 + 1, q3)[i - q2 - 1]);
            } else if i == p3 {
            } else {
                assert(s[i] == s.subrange(p3 as int + 1, s.len() as int)[i - p3 - 1]);
                assert(r[i] == r.subrange(q3 + 1, r.len() as int)[i - q3 - 1]);
            }
        }
        assert(s =~= r);
    }
    true
}

} // verus!
