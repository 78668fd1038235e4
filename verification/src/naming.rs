//! Names and paths as the trash and restore engines see them.
//!
//! A path is a `String` of `/`-separated components; a trash entry's name
//! is `"<decimal-timestamp>_<original-name>"`.  Stripping the tag splits at
//! the first `'_'` rather than at a fixed width, so it recovers the
//! original name for timestamps of any digit count.

use vstd::prelude::*;
use vstd::string::*;
use crate::error::OpError;

verus! {

// ---------------------------------------------------------------------------
// Membership in a set of names
// ---------------------------------------------------------------------------

/// The character sequences of a list of names.
pub open spec fn name_seqs(v: Seq<String>) -> Seq<Seq<char>> {
    v.map_values(|s: String| s@)
}

/// Whether `x` occurs among the names `s`.
pub open spec fn in_set(s: Seq<Seq<char>>, x: Seq<char>) -> bool {
    exists|i: int| 0 <= i < s.len() && s[i] == x
}

/// Whether `name` already occurs in `set`.
pub fn contains_name(set: &Vec<String>, name: &String) -> (r: bool)
    ensures
        r == in_set(name_seqs(set@), name@),
{
    let mut i: usize = 0;
    while i < set.len()
        invariant
            i <= set@.len(),
            forall|j: int| 0 <= j < i ==> name_seqs(set@)[j] != name@,
        decreases set@.len() - i,
    {
        if set[i] == *name {
            assert(name_seqs(set@)[i as int] == name@);
            return true;
        }
        i = i + 1;
    }
    false
}

// ---------------------------------------------------------------------------
// Decimal digits
// ---------------------------------------------------------------------------

/// The digit character for one decimal digit.
pub open spec fn digit_char(d: nat) -> char {
    if d == 0 { '0' }
    else if d == 1 { '1' }
    else if d == 2 { '2' }
    else if d == 3 { '3' }
    else if d == 4 { '4' }
    else if d == 5 { '5' }
    else if d == 6 { '6' }
    else if d == 7 { '7' }
    else if d == 8 { '8' }
    else { '9' }
}

/// The decimal digit characters of `n`, most significant first.
pub open spec fn dec_digits(n: nat) -> Seq<char>
    decreases n,
{
    if n < 10 {
        seq![digit_char(n)]
    } else {
        dec_digits(n / 10).push(digit_char(n % 10))
    }
}

/// The decimal rendering of a signed value: digits, with a leading `'-'`
/// when negative.
pub open spec fn dec_str(t: int) -> Seq<char> {
    if t >= 0 {
        dec_digits(t as nat)
    } else {
        seq!['-'] + dec_digits((-t) as nat)
    }
}

fn digit_str(d: u64) -> (r: &'static str)
    requires
        d < 10,
    ensures
        r@ == seq![digit_char(d as nat)],
{
    proof {
        reveal_strlit("0");
        reveal_strlit("1");
        reveal_strlit("2");
        reveal_strlit("3");
        reveal_strlit("4");
        reveal_strlit("5");
        reveal_strlit("6");
        reveal_strlit("7");
        reveal_strlit("8");
        reveal_strlit("9");
    }
    if d == 0 { let r = "0"; assert(r@ =~= seq![digit_char(d as nat)]); r }
    else if d == 1 { let r = "1"; assert(r@ =~= seq![digit_char(d as nat)]); r }
    else if d == 2 { let r = "2"; assert(r@ =~= seq![digit_char(d as nat)]); r }
    else if d == 3 { let r = "3"; assert(r@ =~= seq![digit_char(d as nat)]); r }
    else if d == 4 { let r = "4"; assert(r@ =~= seq![digit_char(d as nat)]); r }
    else if d == 5 { let r = "5"; assert(r@ =~= seq![digit_char(d as nat)]); r }
    else if d == 6 { let r = "6"; assert(r@ =~= seq![digit_char(d as nat)]); r }
    else if d == 7 { let r = "7"; assert(r@ =~= seq![digit_char(d as nat)]); r }
    else if d == 8 { let r = "8"; assert(r@ =~= seq![digit_char(d as nat)]); r }
    else { let r = "9"; assert(r@ =~= seq![digit_char(d as nat)]); r }
}

/// Renders `n` in decimal.
pub fn u64_dec_string(n: u64) -> (r: String)
    ensures
        r@ == dec_digits(n as nat),
    decreases n,
{
    if n < 10 {
        digit_str(n).to_owned()
    } else {
        let s = u64_dec_string(n / 10);
        let r = s.concat(digit_str(n % 10));
        assert(r@ =~= dec_digits(n as nat));
        r
    }
}

/// Renders `t` in decimal, with a sign when negative.
pub fn i64_dec_string(t: i64) -> (r: String)
    ensures
        r@ == dec_str(t as int),
{
    if t >= 0 {
        u64_dec_string(t as u64)
    } else {
        let mag: u64 = ((-(t + 1)) as u64) + 1;
        assert(mag as int == -(t as int));
        proof {
            reveal_strlit("-");
        }
        let s = "-".to_owned();
        let r = s.concat(u64_dec_string(mag).as_str());
        assert(r@ =~= dec_str(t as int));
        r
    }
}

// ---------------------------------------------------------------------------
// The timestamp tag of a trash entry
// ---------------------------------------------------------------------------

/// The name a soft-deleted item gets inside the trash area.
pub open spec fn stamp_name(t: int, name: Seq<char>) -> Seq<char> {
    dec_str(t) + seq!['_'] + name
}

/// Builds `"<t>_<name>"`.
pub fn make_stamp_name(t: i64, name: &String) -> (r: String)
    ensures
        r@ == stamp_name(t as int, name@),
{
    proof {
        reveal_strlit("_");
    }
    let s = i64_dec_string(t);
    let s = s.concat("_");
    let r = s.concat(name.as_str());
    assert(r@ =~= stamp_name(t as int, name@));
    r
}

/// Index of the first `'_'` in `s`, or `-1` if there is none.
pub open spec fn first_us(s: Seq<char>) -> int
    decreases s.len(),
{
    if s.len() == 0 {
        -1
    } else if s[0] == '_' {
        0
    } else {
        let r = first_us(s.drop_first());
        if r == -1 { -1 } else { r + 1 }
    }
}

/// What is left of a trash name after its timestamp tag: everything after
/// the first `'_'`, or the whole name when it has no `'_'`.
pub open spec fn strip_stamp(s: Seq<char>) -> Seq<char> {
    if first_us(s) == -1 {
        s
    } else {
        s.subrange(first_us(s) + 1, s.len() as int)
    }
}

proof fn lemma_first_us_at(s: Seq<char>, j: int)
    requires
        0 <= j < s.len(),
        s[j] == '_',
        forall|i: int| 0 <= i < j ==> s[i] != '_',
    ensures
        first_us(s) == j,
    decreases j,
{
    if j > 0 {
        lemma_first_us_at(s.drop_first(), j - 1);
    }
}

proof fn lemma_first_us_none(s: Seq<char>)
    requires
        forall|i: int| 0 <= i < s.len() ==> s[i] != '_',
    ensures
        first_us(s) == -1,
    decreases s.len(),
{
    if s.len() > 0 {
        lemma_first_us_none(s.drop_first());
    }
}

proof fn lemma_dec_digits_no_us(n: nat)
    ensures
        forall|i: int| 0 <= i < dec_digits(n).len() ==> dec_digits(n)[i] != '_',
    decreases n,
{
    if n < 10 {
        assert(dec_digits(n) == seq![digit_char(n)]);
    } else {
        lemma_dec_digits_no_us(n / 10);
        let d = dec_digits(n / 10);
        assert(dec_digits(n) == d.push(digit_char(n % 10)));
        assert forall|i: int| 0 <= i < dec_digits(n).len() implies dec_digits(n)[i] != '_' by {
            if i < d.len() {
                assert(dec_digits(n)[i] == d[i]);
            } else {
                assert(dec_digits(n)[i] == digit_char(n % 10));
            }
        }
    }
}

proof fn lemma_dec_str_no_us(t: int)
    ensures
        forall|i: int| 0 <= i < dec_str(t).len() ==> dec_str(t)[i] != '_',
{
    if t >= 0 {
        lemma_dec_digits_no_us(t as nat);
    } else {
        lemma_dec_digits_no_us((-t) as nat);
    }
}

/// Stripping the timestamp tag from a freshly stamped trash name recovers
/// the original name, whatever the name and the timestamp.
pub proof fn lemma_stamp_strip_roundtrip(t: int, name: Seq<char>)
    ensures
        strip_stamp(stamp_name(t, name)) == name,
{
    let d = dec_str(t);
    let s = stamp_name(t, name);
    lemma_dec_str_no_us(t);
    assert(forall|i: int| 0 <= i < d.len() ==> s[i] != '_');
    assert(s[d.len() as int] == '_');
    lemma_first_us_at(s, d.len() as int);
    assert(strip_stamp(s) =~= name);
}

/// Strips the timestamp tag from `name`.
pub fn strip_stamp_exec(name: &String) -> (r: String)
    ensures
        r@ == strip_stamp(name@),
{
    let n = name.as_str().unicode_len();
    let mut j: usize = 0;
    while j < n
        invariant
            j <= n,
            n == name@.len(),
            forall|i: int| 0 <= i < j ==> name@[i] != '_',
        decreases n - j,
    {
        if name.as_str().get_char(j) == '_' {
            proof {
                lemma_first_us_at(name@, j as int);
            }
            let rest = name.as_str().substring_char(j + 1, n);
            return rest.to_owned();
        }
        j = j + 1;
    }
    proof {
        lemma_first_us_none(name@);
    }
    name.clone()
}

// ---------------------------------------------------------------------------
// Joining paths
// ---------------------------------------------------------------------------

/// `dir` with the child `name` under it.
pub open spec fn join(dir: Seq<char>, name: Seq<char>) -> Seq<char> {
    dir + seq!['/'] + name
}

/// Builds `"<dir>/<name>"`.
pub fn join_path(dir: &String, name: &str) -> (r: String)
    ensures
        r@ == join(dir@, name@),
{
    proof {
        reveal_strlit("/");
    }
    let s = dir.clone();
    let s = s.concat("/");
    let r = s.concat(name);
    assert(r@ =~= join(dir@, name@));
    r
}

/// `base` with the relative path `rel` under it; `base` itself when `rel`
/// is empty (the root of a walked tree).
pub open spec fn join_rel(base: Seq<char>, rel: Seq<char>) -> Seq<char> {
    if rel.len() == 0 { base } else { join(base, rel) }
}

/// Builds `join_rel(base, rel)`.
pub fn join_rel_path(base: &String, rel: &String) -> (r: String)
    ensures
        r@ == join_rel(base@, rel@),
{
    if rel.as_str().is_empty() {
        base.clone()
    } else {
        join_path(base, rel.as_str())
    }
}

// ---------------------------------------------------------------------------
// Extensions and collision-resolving variants
// ---------------------------------------------------------------------------

/// Index of the `'.'` that starts the extension: the last `'.'` of the
/// name, except one in first position (a hidden file has no extension).
/// `-1` when the name has no extension.
pub open spec fn last_dot(s: Seq<char>) -> int
    decreases s.len(),
{
    if s.len() <= 1 {
        -1
    } else if s[s.len() - 1] == '.' {
        s.len() - 1
    } else {
        last_dot(s.drop_last())
    }
}

/// The extension of a file name, without its dot.
pub open spec fn ext_of(name: Seq<char>) -> Option<Seq<char>> {
    if last_dot(name) == -1 {
        None
    } else {
        Some(name.subrange(last_dot(name) + 1, name.len() as int))
    }
}

proof fn lemma_last_dot_at(s: Seq<char>, j: int)
    requires
        0 < j < s.len(),
        s[j] == '.',
        forall|i: int| j < i < s.len() ==> s[i] != '.',
    ensures
        last_dot(s) == j,
    decreases s.len(),
{
    if j < s.len() - 1 {
        lemma_last_dot_at(s.drop_last(), j);
    }
}

proof fn lemma_last_dot_none(s: Seq<char>)
    requires
        forall|i: int| 0 < i < s.len() ==> s[i] != '.',
    ensures
        last_dot(s) == -1,
    decreases s.len(),
{
    if s.len() > 1 {
        lemma_last_dot_none(s.drop_last());
    }
}

/// Index of the extension dot of `name`, as [`last_dot`] defines it.
pub fn find_last_dot(name: &String) -> (r: Option<usize>)
    ensures
        match r {
            Some(j) => last_dot(name@) == j as int && 0 < (j as int) && (j as int) < name@.len(),
            None => last_dot(name@) == -1,
        },
{
    let n = name.as_str().unicode_len();
    let mut j: usize = n;
    while j > 1
        invariant
            j <= n,
            n == name@.len(),
            forall|i: int| j <= i < n ==> name@[i] != '.',
        decreases j,
    {
        if name.as_str().get_char(j - 1) == '.' {
            proof {
                lemma_last_dot_at(name@, j - 1);
            }
            return Some(j - 1);
        }
        j = j - 1;
    }
    proof {
        lemma_last_dot_none(name@);
    }
    None
}

/// How many disambiguating suffixes are tried before a paste reports
/// [`OpError::NameResolutionExhausted`].
pub const RENAME_LIMIT: u64 = 1000;

/// The `k`-th disambiguated form of a colliding destination name:
/// `"_<k>"` inserted before the extension.
pub open spec fn variant_name(c: Seq<char>, k: nat) -> Seq<char> {
    if last_dot(c) == -1 {
        c + seq!['_'] + dec_digits(k)
    } else {
        c.subrange(0, last_dot(c)) + seq!['_'] + dec_digits(k) + c.subrange(
            last_dot(c),
            c.len() as int,
        )
    }
}

/// Builds `variant_name(c, k)`.
pub fn make_variant(c: &String, k: u64) -> (r: String)
    ensures
        r@ == variant_name(c@, k as nat),
{
    proof {
        reveal_strlit("_");
    }
    let n = c.as_str().unicode_len();
    let digits = u64_dec_string(k);
    match find_last_dot(c) {
        Some(j) => {
            let s = c.as_str().substring_char(0, j).to_owned();
            let s = s.concat("_");
            let s = s.concat(digits.as_str());
            let r = s.concat(c.as_str().substring_char(j, n));
            assert(r@ =~= variant_name(c@, k as nat));
            r
        }
        None => {
            let s = c.clone();
            let s = s.concat("_");
            let r = s.concat(digits.as_str());
            assert(r@ =~= variant_name(c@, k as nat));
            r
        }
    }
}

/// What [`resolve_name`] returns on success: the candidate itself when it
/// is free, else the first free disambiguated variant.
pub open spec fn resolved_from(set: Seq<Seq<char>>, cand: Seq<char>, r: Seq<char>) -> bool {
    if !in_set(set, cand) {
        r == cand
    } else {
        exists|k: nat|
            1 <= k <= RENAME_LIMIT && r == variant_name(cand, k) && !in_set(
                set,
                variant_name(cand, k),
            ) && forall|j: nat| 1 <= j < k ==> #[trigger] in_set(set, variant_name(cand, j))
    }
}

/// When no free name exists: the candidate and every variant up to the
/// limit are all taken.
pub open spec fn resolution_exhausted(set: Seq<Seq<char>>, cand: Seq<char>) -> bool {
    in_set(set, cand) && forall|k: nat|
        1 <= k <= RENAME_LIMIT ==> #[trigger] in_set(set, variant_name(cand, k))
}

/// Derives a destination name that collides with nothing in `set`:
/// `cand` itself when it is free, else the first free variant.
pub fn resolve_name(cand: &String, set: &Vec<String>) -> (r: Result<String, OpError>)
    ensures
        match r {
            Ok(name) => resolved_from(name_seqs(set@), cand@, name@),
            Err(e) => e == OpError::NameResolutionExhausted && resolution_exhausted(
                name_seqs(set@),
                cand@,
            ),
        },
{
    if !contains_name(set, cand) {
        return Ok(cand.clone());
    }
    let mut k: u64 = 1;
    while k <= RENAME_LIMIT
        invariant
            1 <= k <= RENAME_LIMIT + 1,
            in_set(name_seqs(set@), cand@),
            forall|j: nat| 1 <= j < k ==> #[trigger] in_set(name_seqs(set@), variant_name(cand@, j)),
        decreases RENAME_LIMIT + 1 - k,
    {
        let v = make_variant(cand, k);
        if !contains_name(set, &v) {
            return Ok(v);
        }
        k = k + 1;
    }
    Err(OpError::NameResolutionExhausted)
}


/// A name already in a set is still in it after more names are added on
/// either side.
pub proof fn lemma_in_set_grows(a: Seq<Seq<char>>, b: Seq<Seq<char>>, x: Seq<char>)
    ensures
        in_set(a, x) ==> in_set(a + b, x),
        in_set(b, x) ==> in_set(a + b, x),
{
    if in_set(a, x) {
        let i = choose|i: int| 0 <= i < a.len() && a[i] == x;
        assert((a + b)[i] == x);
    }
    if in_set(b, x) {
        let i = choose|i: int| 0 <= i < b.len() && b[i] == x;
        assert((a + b)[a.len() + i] == x);
    }
}

/// Whatever a candidate resolves to is fresh: the resolved name never
/// collides with the set it was resolved against.
pub proof fn lemma_resolved_fresh(set: Seq<Seq<char>>, cand: Seq<char>, r: Seq<char>)
    requires
        resolved_from(set, cand, r),
    ensures
        !in_set(set, r),
{
    if in_set(set, cand) {
        let k = choose|k: nat|
            1 <= k <= RENAME_LIMIT && r == variant_name(cand, k) && !in_set(
                set,
                variant_name(cand, k),
            ) && forall|j: nat| 1 <= j < k ==> #[trigger] in_set(set, variant_name(cand, j));
        assert(!in_set(set, variant_name(cand, k)));
    }
}

} // verus!
