//! Character-level text primitives shared by every module.
//!
//! Strings are modelled by their views, `Seq<char>`. Executable helpers work on
//! `&[char]` and are proved against the spec functions below.
use vstd::prelude::*;
use vstd::utf8::{encode_scalar, encode_utf8, is_scalar};

verus! {

// ---------------------------------------------------------------------------
// Character classes
// ---------------------------------------------------------------------------

/// Unicode `White_Space`, the set that `char::is_whitespace` tests.
pub open spec fn is_ws(c: char) -> bool {
    let u = c as u32;
    ||| 0x09 <= u <= 0x0d
    ||| u == 0x20
    ||| u == 0x85
    ||| u == 0xa0
    ||| u == 0x1680
    ||| 0x2000 <= u <= 0x200a
    ||| u == 0x2028
    ||| u == 0x2029
    ||| u == 0x202f
    ||| u == 0x205f
    ||| u == 0x3000
}

pub open spec fn is_ascii_upper(c: char) -> bool {
    0x41 <= (c as u32) <= 0x5a
}

pub open spec fn is_ascii_lower(c: char) -> bool {
    0x61 <= (c as u32) <= 0x7a
}

pub open spec fn is_ascii_alpha(c: char) -> bool {
    is_ascii_upper(c) || is_ascii_lower(c)
}

pub open spec fn is_ascii_digit(c: char) -> bool {
    0x30 <= (c as u32) <= 0x39
}

pub open spec fn is_ascii_alnum(c: char) -> bool {
    is_ascii_alpha(c) || is_ascii_digit(c)
}

pub open spec fn digit_value(c: char) -> int {
    (c as u32) - 0x30
}

/// `char::to_ascii_lowercase`.
pub open spec fn lower_char(c: char) -> char {
    if is_ascii_upper(c) {
        ((c as u32) + 32) as char
    } else {
        c
    }
}

/// `str::to_ascii_lowercase`.
pub open spec fn ascii_lower(s: Seq<char>) -> Seq<char> {
    s.map_values(|c: char| lower_char(c))
}

pub fn char_is_ws(c: char) -> (r: bool)
    ensures
        r == is_ws(c),
{
    let u = c as u32;
    (0x09 <= u && u <= 0x0d) || u == 0x20 || u == 0x85 || u == 0xa0 || u == 0x1680 || (0x2000
        <= u && u <= 0x200a) || u == 0x2028 || u == 0x2029 || u == 0x202f || u == 0x205f || u
        == 0x3000
}

pub fn char_is_ascii_digit(c: char) -> (r: bool)
    ensures
        r == is_ascii_digit(c),
{
    let u = c as u32;
    0x30 <= u && u <= 0x39
}

pub fn char_is_ascii_alpha(c: char) -> (r: bool)
    ensures
        r == is_ascii_alpha(c),
{
    let u = c as u32;
    (0x41 <= u && u <= 0x5a) || (0x61 <= u && u <= 0x7a)
}

pub fn char_is_ascii_alnum(c: char) -> (r: bool)
    ensures
        r == is_ascii_alnum(c),
{
    char_is_ascii_alpha(c) || char_is_ascii_digit(c)
}

pub fn char_lower(c: char) -> (r: char)
    ensures
        r == lower_char(c),
{
    let u = c as u32;
    if 0x41 <= u && u <= 0x5a {
        let b = c as u8;
        assert(b as u32 == u);
        let l = (b + 32) as char;
        assert(l as u32 == u + 32);
        l
    } else {
        c
    }
}

// ---------------------------------------------------------------------------
// Conversions between `str`/`String` and character vectors
// ---------------------------------------------------------------------------

pub fn chars_of(s: &str) -> (v: Vec<char>)
    ensures
        v@ == s@,
{
    let mut v: Vec<char> = Vec::new();
    for c in it: s.chars()
        invariant
            v@ == it.seq().take(it.index() as int),
    {
        v.push(c);
    }
    v
}

/// `String::push`.
#[verifier::external_body]
pub(crate) fn push_char(s: &mut String, c: char)
    ensures
        final(s)@ == old(s)@.push(c),
{
    s.push(c);
}

pub fn string_of(v: &[char]) -> (s: String)
    ensures
        s@ == v@,
{
    let mut s = String::new();
    let mut i: usize = 0;
    while i < v.len()
        invariant
            i <= v@.len(),
            s@ == v@.take(i as int),
        decreases v@.len() - i,
    {
        push_char(&mut s, v[i]);
        i = i + 1;
        assert(s@ =~= v@.take(i as int));
    }
    assert(v@.take(v@.len() as int) =~= v@);
    s
}

pub fn copy_range(v: &[char], lo: usize, hi: usize) -> (r: Vec<char>)
    requires
        lo <= hi <= v@.len(),
    ensures
        r@ == v@.subrange(lo as int, hi as int),
{
    let mut r: Vec<char> = Vec::new();
    let mut i = lo;
    while i < hi
        invariant
            lo <= i <= hi,
            hi <= v@.len(),
            r@ == v@.subrange(lo as int, i as int),
        decreases hi - i,
    {
        r.push(v[i]);
        i = i + 1;
        assert(r@ =~= v@.subrange(lo as int, i as int));
    }
    r
}

pub fn lower_all(v: &[char]) -> (r: Vec<char>)
    ensures
        r@ == ascii_lower(v@),
{
    let mut r: Vec<char> = Vec::new();
    let mut i: usize = 0;
    while i < v.len()
        invariant
            i <= v@.len(),
            r@ == ascii_lower(v@.take(i as int)),
        decreases v@.len() - i,
    {
        let c = char_lower(v[i]);
        r.push(c);
        i = i + 1;
        assert(r@ =~= ascii_lower(v@.take(i as int)));
    }
    assert(v@.take(v@.len() as int) =~= v@);
    r
}

// ---------------------------------------------------------------------------
// Comparison
// ---------------------------------------------------------------------------

pub fn seq_eq(a: &[char], b: &[char]) -> (r: bool)
    ensures
        r == (a@ == b@),
{
    if a.len() != b.len() {
        return false;
    }
    let mut i: usize = 0;
    while i < a.len()
        invariant
            i <= a@.len(),
            a@.len() == b@.len(),
            forall|j: int| 0 <= j < i ==> a@[j] == b@[j],
        decreases a@.len() - i,
    {
        if a[i] != b[i] {
            return false;
        }
        i = i + 1;
    }
    assert(a@ =~= b@);
    true
}

pub fn str_eq(a: &str, b: &str) -> (r: bool)
    ensures
        r == (a@ == b@),
{
    let va = chars_of(a);
    let vb = chars_of(b);
    seq_eq(va.as_slice(), vb.as_slice())
}

/// `s` holds `p` at position `i`.
pub open spec fn occurs_at(s: Seq<char>, p: Seq<char>, i: int) -> bool {
    0 <= i && i + p.len() <= s.len() && s.subrange(i, i + p.len()) == p
}

/// `str::starts_with`.
pub open spec fn starts_with(s: Seq<char>, p: Seq<char>) -> bool {
    occurs_at(s, p, 0)
}

/// `str::ends_with`.
pub open spec fn ends_with(s: Seq<char>, p: Seq<char>) -> bool {
    occurs_at(s, p, s.len() - p.len())
}

/// `str::contains`.
pub open spec fn contains(s: Seq<char>, p: Seq<char>) -> bool {
    exists|i: int| occurs_at(s, p, i)
}

pub fn occurs_at_exec(s: &[char], p: &[char], i: usize) -> (r: bool)
    ensures
        r == occurs_at(s@, p@, i as int),
{
    if i > s.len() || p.len() > s.len() - i {
        return false;
    }
    let n = s.len();
    let mut j: usize = 0;
    while j < p.len()
        invariant
            n == s@.len(),
            j <= p@.len(),
            i + p@.len() <= s@.len(),
            forall|k: int| 0 <= k < j ==> s@[i + k] == p@[k],
        decreases p@.len() - j,
    {
        assert(i + j < s@.len());
        if s[i + j] != p[j] {
            assert(s@.subrange(i as int, i + p@.len())[j as int] != p@[j as int]);
            return false;
        }
        j = j + 1;
    }
    assert(s@.subrange(i as int, i + p@.len()) =~= p@);
    true
}

pub fn has_prefix(s: &[char], p: &[char]) -> (r: bool)
    ensures
        r == starts_with(s@, p@),
{
    occurs_at_exec(s, p, 0)
}

pub fn has_suffix(s: &[char], p: &[char]) -> (r: bool)
    ensures
        r == ends_with(s@, p@),
{
    if p.len() > s.len() {
        return false;
    }
    occurs_at_exec(s, p, s.len() - p.len())
}

pub fn has_infix(s: &[char], p: &[char]) -> (r: bool)
    ensures
        r == contains(s@, p@),
{
    if p.len() > s.len() {
        assert forall|i: int| !occurs_at(s@, p@, i) by {}
        return false;
    }
    if p.len() == 0 {
        assert(s@.subrange(0, 0) =~= p@);
        assert(occurs_at(s@, p@, 0));
        return true;
    }
    let n = s.len();
    let mut i: usize = 0;
    while i <= s.len() - p.len()
        invariant
            n == s@.len(),
            p@.len() > 0,
            p@.len() <= s@.len(),
            i <= s@.len() - p@.len() + 1,
            forall|k: int| 0 <= k < i ==> !occurs_at(s@, p@, k),
        decreases s@.len() - p@.len() + 1 - i,
    {
        if occurs_at_exec(s, p, i) {
            return true;
        }
        i = i + 1;
    }
    assert forall|k: int| !occurs_at(s@, p@, k) by {}
    false
}

pub fn str_contains(s: &[char], p: &str) -> (r: bool)
    ensures
        r == contains(s@, p@),
{
    let pv = chars_of(p);
    has_infix(s, pv.as_slice())
}

pub fn str_ends_with(s: &[char], p: &str) -> (r: bool)
    ensures
        r == ends_with(s@, p@),
{
    let pv = chars_of(p);
    has_suffix(s, pv.as_slice())
}

pub fn str_starts_with(s: &[char], p: &str) -> (r: bool)
    ensures
        r == starts_with(s@, p@),
{
    let pv = chars_of(p);
    has_prefix(s, pv.as_slice())
}

pub fn lit_eq(s: &[char], p: &str) -> (r: bool)
    ensures
        r == (s@ == p@),
{
    let pv = chars_of(p);
    seq_eq(s, pv.as_slice())
}

/// Some character of `s` is `c`.
pub open spec fn has_char(s: Seq<char>, c: char) -> bool {
    exists|i: int| 0 <= i < s.len() && s[i] == c
}

pub fn has_char_exec(s: &[char], c: char) -> (r: bool)
    ensures
        r == has_char(s@, c),
{
    let mut i: usize = 0;
    while i < s.len()
        invariant
            i <= s@.len(),
            forall|k: int| 0 <= k < i ==> s@[k] != c,
        decreases s@.len() - i,
    {
        if s[i] == c {
            return true;
        }
        i = i + 1;
    }
    false
}

// ---------------------------------------------------------------------------
// Searching and splitting
// ---------------------------------------------------------------------------

/// Index of the first `c` in `s`, or `s.len()` when there is none.
pub open spec fn find_char(s: Seq<char>, c: char) -> int
    decreases s.len(),
{
    if s.len() == 0 {
        0
    } else if s[0] == c {
        0
    } else {
        1 + find_char(s.drop_first(), c)
    }
}

pub proof fn lemma_find_char(s: Seq<char>, c: char)
    ensures
        0 <= find_char(s, c) <= s.len(),
        forall|j: int| 0 <= j < find_char(s, c) ==> s[j] != c,
        find_char(s, c) < s.len() ==> s[find_char(s, c)] == c,
    decreases s.len(),
{
    if s.len() > 0 && s[0] != c {
        lemma_find_char(s.drop_first(), c);
        assert forall|j: int| 0 <= j < find_char(s, c) implies s[j] != c by {
            if j > 0 {
                assert(s[j] == s.drop_first()[j - 1]);
            }
        }
    }
}

/// First piece of `s.split(c)`: everything before the first `c`.
pub open spec fn before_char(s: Seq<char>, c: char) -> Seq<char> {
    s.take(find_char(s, c))
}

/// Everything after the first `c`, when there is one: `s.split_once(c)`'s second half.
pub open spec fn after_char(s: Seq<char>, c: char) -> Option<Seq<char>> {
    if find_char(s, c) < s.len() {
        Some(s.skip(find_char(s, c) + 1))
    } else {
        None
    }
}

pub fn find_char_exec(s: &[char], c: char) -> (r: usize)
    ensures
        r == find_char(s@, c),
        r <= s@.len(),
{
    proof {
        lemma_find_char(s@, c);
    }
    let mut i: usize = 0;
    while i < s.len()
        invariant
            i <= s@.len(),
            forall|k: int| 0 <= k < i ==> s@[k] != c,
            0 <= find_char(s@, c) <= s@.len(),
            forall|j: int| 0 <= j < find_char(s@, c) ==> s@[j] != c,
            find_char(s@, c) < s@.len() ==> s@[find_char(s@, c)] == c,
        decreases s@.len() - i,
    {
        if s[i] == c {
            return i;
        }
        i = i + 1;
    }
    i
}

pub fn before_char_exec(s: &[char], c: char) -> (r: Vec<char>)
    ensures
        r@ == before_char(s@, c),
{
    let k = find_char_exec(s, c);
    copy_range(s, 0, k)
}

// ---------------------------------------------------------------------------
// Trimming
// ---------------------------------------------------------------------------

/// Number of leading whitespace characters.
pub open spec fn lead_ws(s: Seq<char>) -> int
    decreases s.len(),
{
    if s.len() > 0 && is_ws(s[0]) {
        1 + lead_ws(s.drop_first())
    } else {
        0
    }
}

/// Number of trailing whitespace characters.
pub open spec fn trail_ws(s: Seq<char>) -> int
    decreases s.len(),
{
    if s.len() > 0 && is_ws(s.last()) {
        1 + trail_ws(s.drop_last())
    } else {
        0
    }
}

/// `str::trim_start`.
pub open spec fn trim_start(s: Seq<char>) -> Seq<char> {
    s.skip(lead_ws(s))
}

/// `str::trim_end`.
pub open spec fn trim_end(s: Seq<char>) -> Seq<char> {
    s.take(s.len() - trail_ws(s))
}

/// `str::trim`.
pub open spec fn trim(s: Seq<char>) -> Seq<char> {
    trim_end(trim_start(s))
}

pub proof fn lemma_lead_ws(s: Seq<char>)
    ensures
        0 <= lead_ws(s) <= s.len(),
        forall|j: int| 0 <= j < lead_ws(s) ==> is_ws(s[j]),
        lead_ws(s) < s.len() ==> !is_ws(s[lead_ws(s)]),
    decreases s.len(),
{
    if s.len() > 0 && is_ws(s[0]) {
        lemma_lead_ws(s.drop_first());
        assert forall|j: int| 0 <= j < lead_ws(s) implies is_ws(s[j]) by {
            if j > 0 {
                assert(s[j] == s.drop_first()[j - 1]);
            }
        }
    }
}

pub proof fn lemma_trail_ws(s: Seq<char>)
    ensures
        0 <= trail_ws(s) <= s.len(),
        forall|j: int| s.len() - trail_ws(s) <= j < s.len() ==> is_ws(s[j]),
        trail_ws(s) < s.len() ==> !is_ws(s[s.len() - trail_ws(s) - 1]),
    decreases s.len(),
{
    if s.len() > 0 && is_ws(s.last()) {
        lemma_trail_ws(s.drop_last());
        assert forall|j: int| s.len() - trail_ws(s) <= j < s.len() implies is_ws(s[j]) by {
            if j < s.len() - 1 {
                assert(s[j] == s.drop_last()[j]);
            }
        }
    }
}

/// A count that satisfies the characterization of `lead_ws` is `lead_ws`.
pub proof fn lemma_lead_ws_unique(s: Seq<char>, k: int)
    requires
        0 <= k <= s.len(),
        forall|j: int| 0 <= j < k ==> is_ws(s[j]),
        k < s.len() ==> !is_ws(s[k]),
    ensures
        lead_ws(s) == k,
{
    lemma_lead_ws(s);
}

pub proof fn lemma_trail_ws_unique(s: Seq<char>, k: int)
    requires
        0 <= k <= s.len(),
        forall|j: int| s.len() - k <= j < s.len() ==> is_ws(s[j]),
        k < s.len() ==> !is_ws(s[s.len() - k - 1]),
    ensures
        trail_ws(s) == k,
{
    lemma_trail_ws(s);
}

/// Text that neither starts nor ends with white space is its own trim.
pub proof fn lemma_trim_plain(s: Seq<char>)
    requires
        s.len() > 0,
        !is_ws(s[0]),
        !is_ws(s[s.len() - 1]),
    ensures
        trim(s) == s,
{
    lemma_lead_ws_unique(s, 0);
    assert(trim_start(s) =~= s);
    lemma_trail_ws_unique(s, 0);
    assert(trim(s) =~= s);
}

pub fn lead_ws_exec(s: &[char]) -> (r: usize)
    ensures
        r == lead_ws(s@),
        r <= s@.len(),
{
    let mut i: usize = 0;
    while i < s.len() && char_is_ws(s[i])
        invariant
            i <= s@.len(),
            forall|j: int| 0 <= j < i ==> is_ws(s@[j]),
        decreases s@.len() - i,
    {
        i = i + 1;
    }
    proof {
        lemma_lead_ws_unique(s@, i as int);
    }
    i
}

pub fn trail_ws_exec(s: &[char]) -> (r: usize)
    ensures
        r == trail_ws(s@),
        r <= s@.len(),
{
    let mut k: usize = 0;
    while k < s.len() && char_is_ws(s[s.len() - k - 1])
        invariant
            k <= s@.len(),
            forall|j: int| s@.len() - k <= j < s@.len() ==> is_ws(s@[j]),
        decreases s@.len() - k,
    {
        k = k + 1;
    }
    proof {
        lemma_trail_ws_unique(s@, k as int);
    }
    k
}

pub fn trim_exec(s: &[char]) -> (r: Vec<char>)
    ensures
        r@ == trim(s@),
{
    let a = lead_ws_exec(s);
    let t = copy_range(s, a, s.len());
    let b = trail_ws_exec(t.as_slice());
    copy_range(t.as_slice(), 0, t.len() - b)
}

pub fn trim_start_exec(s: &[char]) -> (r: Vec<char>)
    ensures
        r@ == trim_start(s@),
{
    let a = lead_ws_exec(s);
    copy_range(s, a, s.len())
}

/// Number of leading copies of `c` (`trim_start_matches(c)` removes them).
pub open spec fn lead_char(s: Seq<char>, c: char) -> int
    decreases s.len(),
{
    if s.len() > 0 && s[0] == c {
        1 + lead_char(s.drop_first(), c)
    } else {
        0
    }
}

/// Number of trailing copies of `c` (`trim_end_matches(c)` removes them).
pub open spec fn trail_char(s: Seq<char>, c: char) -> int
    decreases s.len(),
{
    if s.len() > 0 && s.last() == c {
        1 + trail_char(s.drop_last(), c)
    } else {
        0
    }
}

/// `str::trim_start_matches(c)`.
pub open spec fn trim_start_char(s: Seq<char>, c: char) -> Seq<char> {
    s.skip(lead_char(s, c))
}

/// `str::trim_end_matches(c)`.
pub open spec fn trim_end_char(s: Seq<char>, c: char) -> Seq<char> {
    s.take(s.len() - trail_char(s, c))
}

/// `str::trim_matches(c)`.
pub open spec fn trim_char(s: Seq<char>, c: char) -> Seq<char> {
    trim_end_char(trim_start_char(s, c), c)
}

pub proof fn lemma_lead_char(s: Seq<char>, c: char)
    ensures
        0 <= lead_char(s, c) <= s.len(),
        forall|j: int| 0 <= j < lead_char(s, c) ==> s[j] == c,
        lead_char(s, c) < s.len() ==> s[lead_char(s, c)] != c,
    decreases s.len(),
{
    if s.len() > 0 && s[0] == c {
        lemma_lead_char(s.drop_first(), c);
        assert forall|j: int| 0 <= j < lead_char(s, c) implies s[j] == c by {
            if j > 0 {
                assert(s[j] == s.drop_first()[j - 1]);
            }
        }
    }
}

pub proof fn lemma_trail_char(s: Seq<char>, c: char)
    ensures
        0 <= trail_char(s, c) <= s.len(),
        forall|j: int| s.len() - trail_char(s, c) <= j < s.len() ==> s[j] == c,
        trail_char(s, c) < s.len() ==> s[s.len() - trail_char(s, c) - 1] != c,
    decreases s.len(),
{
    if s.len() > 0 && s.last() == c {
        lemma_trail_char(s.drop_last(), c);
        assert forall|j: int| s.len() - trail_char(s, c) <= j < s.len() implies s[j] == c by {
            if j < s.len() - 1 {
                assert(s[j] == s.drop_last()[j]);
            }
        }
    }
}

pub fn lead_char_exec(s: &[char], c: char) -> (r: usize)
    ensures
        r == lead_char(s@, c),
        r <= s@.len(),
{
    let mut i: usize = 0;
    while i < s.len() && s[i] == c
        invariant
            i <= s@.len(),
            forall|j: int| 0 <= j < i ==> s@[j] == c,
        decreases s@.len() - i,
    {
        i = i + 1;
    }
    proof {
        lemma_lead_char(s@, c);
    }
    i
}

pub fn trail_char_exec(s: &[char], c: char) -> (r: usize)
    ensures
        r == trail_char(s@, c),
        r <= s@.len(),
{
    let mut k: usize = 0;
    while k < s.len() && s[s.len() - k - 1] == c
        invariant
            k <= s@.len(),
            forall|j: int| s@.len() - k <= j < s@.len() ==> s@[j] == c,
        decreases s@.len() - k,
    {
        k = k + 1;
    }
    proof {
        lemma_trail_char(s@, c);
    }
    k
}

pub fn trim_start_char_exec(s: &[char], c: char) -> (r: Vec<char>)
    ensures
        r@ == trim_start_char(s@, c),
{
    let a = lead_char_exec(s, c);
    copy_range(s, a, s.len())
}

pub fn trim_end_char_exec(s: &[char], c: char) -> (r: Vec<char>)
    ensures
        r@ == trim_end_char(s@, c),
{
    let b = trail_char_exec(s, c);
    copy_range(s, 0, s.len() - b)
}

pub fn trim_char_exec(s: &[char], c: char) -> (r: Vec<char>)
    ensures
        r@ == trim_char(s@, c),
{
    let t = trim_start_char_exec(s, c);
    trim_end_char_exec(t.as_slice(), c)
}

/// `str::trim_start_matches(p)` for a non-empty string pattern: every leading copy goes.
pub open spec fn trim_start_str(s: Seq<char>, p: Seq<char>) -> Seq<char>
    decreases s.len(),
{
    if p.len() > 0 && starts_with(s, p) {
        trim_start_str(s.skip(p.len() as int), p)
    } else {
        s
    }
}

/// `str::trim_end_matches(p)` for a non-empty string pattern: every trailing copy goes.
pub open spec fn trim_end_str(s: Seq<char>, p: Seq<char>) -> Seq<char>
    decreases s.len(),
{
    if p.len() > 0 && ends_with(s, p) {
        trim_end_str(s.take(s.len() - p.len()), p)
    } else {
        s
    }
}

pub fn trim_start_str_exec(s: &[char], p: &[char]) -> (r: Vec<char>)
    ensures
        r@ == trim_start_str(s@, p@),
{
    let mut cur = copy_range(s, 0, s.len());
    assert(cur@ =~= s@);
    if p.len() == 0 {
        return cur;
    }
    while has_prefix(cur.as_slice(), p)
        invariant
            p@.len() > 0,
            trim_start_str(cur@, p@) == trim_start_str(s@, p@),
        decreases cur@.len(),
    {
        let next = copy_range(cur.as_slice(), p.len(), cur.len());
        cur = next;
    }
    cur
}

pub fn trim_end_str_exec(s: &[char], p: &[char]) -> (r: Vec<char>)
    ensures
        r@ == trim_end_str(s@, p@),
{
    let mut cur = copy_range(s, 0, s.len());
    assert(cur@ =~= s@);
    if p.len() == 0 {
        return cur;
    }
    while has_suffix(cur.as_slice(), p)
        invariant
            p@.len() > 0,
            trim_end_str(cur@, p@) == trim_end_str(s@, p@),
        decreases cur@.len(),
    {
        let next = copy_range(cur.as_slice(), 0, cur.len() - p.len());
        cur = next;
    }
    cur
}

} // verus!

verus! {

// ---------------------------------------------------------------------------
// Splitting into pieces
// ---------------------------------------------------------------------------

/// `s.split(c)`: the pieces between occurrences of `c` (always at least one).
pub open spec fn pieces(s: Seq<char>, c: char) -> Seq<Seq<char>>
    decreases s.len(),
{
    let k = find_char(s, c);
    if k < s.len() {
        proof {
            lemma_find_char(s, c);
        }
        seq![s.take(k)] + pieces(s.skip(k + 1), c)
    } else {
        seq![s]
    }
}

pub proof fn lemma_pieces_nonempty(s: Seq<char>, c: char)
    ensures
        pieces(s, c).len() >= 1,
        pieces(s, c)[0] == before_char(s, c),
{
    lemma_find_char(s, c);
    if find_char(s, c) < s.len() {
    } else {
        assert(s.take(s.len() as int) =~= s);
    }
}

pub fn pieces_exec(s: &[char], c: char) -> (r: Vec<Vec<char>>)
    ensures
        r@.len() == pieces(s@, c).len(),
        forall|i: int| 0 <= i < r@.len() ==> (#[trigger] r@[i])@ == pieces(s@, c)[i],
{
    let mut out: Vec<Vec<char>> = Vec::new();
    let mut rest = copy_range(s, 0, s.len());
    assert(rest@ =~= s@);
    loop
        invariant
            forall|i: int| 0 <= i < out@.len() ==> (#[trigger] out@[i])@ == pieces(s@, c)[i],
            pieces(s@, c) =~= out@.map_values(|v: Vec<char>| v@) + pieces(rest@, c),
        decreases rest@.len(),
    {
        let k = find_char_exec(rest.as_slice(), c);
        proof {
            lemma_find_char(rest@, c);
        }
        if k < rest.len() {
            let head = copy_range(rest.as_slice(), 0, k);
            let tail = copy_range(rest.as_slice(), k + 1, rest.len());
            let ghost old_out = out@;
            out.push(head);
            proof {
                assert(out@.map_values(|v: Vec<char>| v@) =~= old_out.map_values(
                    |v: Vec<char>| v@,
                ).push(rest@.take(k as int)));
                assert(pieces(rest@, c) == seq![rest@.take(k as int)] + pieces(tail@, c));
                assert(pieces(s@, c) =~= out@.map_values(|v: Vec<char>| v@) + pieces(tail@, c));
                assert forall|i: int| 0 <= i < out@.len() implies (#[trigger] out@[i])@ == pieces(
                    s@,
                    c,
                )[i] by {
                    if i < old_out.len() {
                        assert(out@[i] == old_out[i]);
                    } else {
                        assert(pieces(s@, c)[i] == out@.map_values(|v: Vec<char>| v@)[i]);
                    }
                }
            }
            rest = tail;
        } else {
            let ghost old_out = out@;
            let ghost last = rest@;
            out.push(rest);
            proof {
                assert(pieces(last, c) == seq![last]);
                assert(out@.map_values(|v: Vec<char>| v@) =~= old_out.map_values(
                    |v: Vec<char>| v@,
                ).push(last));
                assert(pieces(s@, c) =~= out@.map_values(|v: Vec<char>| v@));
                assert forall|i: int| 0 <= i < out@.len() implies (#[trigger] out@[i])@ == pieces(
                    s@,
                    c,
                )[i] by {
                    if i < old_out.len() {
                        assert(out@[i] == old_out[i]);
                    } else {
                        assert(pieces(s@, c)[i] == out@.map_values(|v: Vec<char>| v@)[i]);
                    }
                }
            }
            return out;
        }
    }
}

// ---------------------------------------------------------------------------
// Decimal numbers, as `str::parse` reads them
// ---------------------------------------------------------------------------

pub open spec fn all_digits(s: Seq<char>) -> bool {
    forall|i: int| 0 <= i < s.len() ==> is_ascii_digit(#[trigger] s[i])
}

/// Value of a string of decimal digits.
pub open spec fn dec_value(s: Seq<char>) -> int
    decreases s.len(),
{
    if s.len() == 0 {
        0
    } else {
        dec_value(s.drop_last()) * 10 + digit_value(s.last())
    }
}

/// `str::parse` for an unsigned integer type whose largest value is `max`: an optional
/// `+`, then one or more decimal digits whose value is at most `max`.
pub open spec fn parse_uint(s: Seq<char>, max: int) -> Option<int> {
    let d = if s.len() > 0 && s[0] == '+' {
        s.drop_first()
    } else {
        s
    };
    if d.len() > 0 && all_digits(d) && dec_value(d) <= max {
        Some(dec_value(d))
    } else {
        None
    }
}

/// `str::parse` for a signed integer type with range `min..=max`: an optional `+` or
/// `-`, then one or more decimal digits whose signed value is in range.
pub open spec fn parse_int(s: Seq<char>, min: int, max: int) -> Option<int> {
    let neg = s.len() > 0 && s[0] == '-';
    let d = if s.len() > 0 && (s[0] == '+' || s[0] == '-') {
        s.drop_first()
    } else {
        s
    };
    let v = if neg {
        -dec_value(d)
    } else {
        dec_value(d)
    };
    if d.len() > 0 && all_digits(d) && min <= v <= max {
        Some(v)
    } else {
        None
    }
}

pub proof fn lemma_dec_value_nonneg(s: Seq<char>)
    requires
        all_digits(s),
    ensures
        dec_value(s) >= 0,
    decreases s.len(),
{
    if s.len() > 0 {
        lemma_dec_value_nonneg(s.drop_last());
    }
}

pub proof fn lemma_parse_uint_nonneg(s: Seq<char>, max: int)
    ensures
        parse_uint(s, max) matches Some(v) ==> v >= 0,
{
    let d = if s.len() > 0 && s[0] == '+' {
        s.drop_first()
    } else {
        s
    };
    if all_digits(d) {
        lemma_dec_value_nonneg(d);
    }
}

/// A digit string's value is at least that of any of its prefixes.
pub proof fn lemma_dec_value_prefix(s: Seq<char>, i: int)
    requires
        all_digits(s),
        0 <= i <= s.len(),
    ensures
        dec_value(s) >= dec_value(s.take(i)),
    decreases s.len() - i,
{
    if i < s.len() {
        lemma_dec_value_prefix(s, i + 1);
        assert(s.take(i + 1).drop_last() =~= s.take(i));
        lemma_dec_value_nonneg(s.take(i));
    } else {
        assert(s.take(i) =~= s);
    }
}

/// Value of the digits of `d`, or `None` once it exceeds `limit`.
pub fn digits_value(d: &[char], limit: u64) -> (r: Option<u64>)
    ensures
        match r {
            Some(v) => d@.len() > 0 && all_digits(d@) && dec_value(d@) == v && v <= limit,
            None => !(d@.len() > 0 && all_digits(d@) && dec_value(d@) <= limit),
        },
{
    if d.len() == 0 {
        return None;
    }
    let mut v: u64 = 0;
    let mut i: usize = 0;
    while i < d.len()
        invariant
            i <= d@.len(),
            all_digits(d@.take(i as int)),
            dec_value(d@.take(i as int)) == v,
            v <= limit,
        decreases d@.len() - i,
    {
        let c = d[i];
        if !char_is_ascii_digit(c) {
            return None;
        }
        let digit = (c as u32 - 0x30) as u64;
        proof {
            assert(d@.take(i + 1).drop_last() =~= d@.take(i as int));
            assert(all_digits(d@.take(i + 1))) by {
                assert forall|k: int| 0 <= k < i + 1 implies is_ascii_digit(
                    #[trigger] d@.take(i + 1)[k],
                ) by {
                    if k < i {
                        assert(d@.take(i + 1)[k] == d@.take(i as int)[k]);
                    }
                }
            }
        }
        let nv: u128 = (v as u128) * 10 + (digit as u128);
        if nv > limit as u128 {
            proof {
                assert(dec_value(d@.take(i + 1)) == nv);
                if all_digits(d@) {
                    lemma_dec_value_prefix(d@, i + 1);
                }
            }
            return None;
        }
        v = nv as u64;
        i = i + 1;
    }
    assert(d@.take(d@.len() as int) =~= d@);
    Some(v)
}

pub fn parse_uint_exec(s: &[char], max: u64) -> (r: Option<u64>)
    ensures
        match r {
            Some(v) => parse_uint(s@, max as int) == Some(v as int),
            None => parse_uint(s@, max as int) is None,
        },
{
    let d = if s.len() > 0 && s[0] == '+' {
        copy_range(s, 1, s.len())
    } else {
        copy_range(s, 0, s.len())
    };
    proof {
        if s@.len() > 0 && s@[0] == '+' {
            assert(d@ =~= s@.drop_first());
        } else {
            assert(d@ =~= s@);
        }
    }
    digits_value(d.as_slice(), max)
}

/// `str::parse::<u64>`.
pub fn parse_u64(s: &[char]) -> (r: Option<u64>)
    ensures
        match r {
            Some(v) => parse_uint(s@, u64::MAX as int) == Some(v as int),
            None => parse_uint(s@, u64::MAX as int) is None,
        },
{
    parse_uint_exec(s, u64::MAX)
}

/// `str::parse::<u32>`.
pub fn parse_u32(s: &[char]) -> (r: Option<u32>)
    ensures
        match r {
            Some(v) => parse_uint(s@, u32::MAX as int) == Some(v as int),
            None => parse_uint(s@, u32::MAX as int) is None,
        },
{
    match parse_uint_exec(s, u32::MAX as u64) {
        Some(v) => Some(v as u32),
        None => None,
    }
}

/// `str::parse` for a signed type with range `min..=max`.
pub fn parse_int_exec(s: &[char], min: i64, max: i64) -> (r: Option<i64>)
    requires
        min < 0 < max,
        min == -max - 1,
    ensures
        match r {
            Some(v) => parse_int(s@, min as int, max as int) == Some(v as int),
            None => parse_int(s@, min as int, max as int) is None,
        },
{
    let neg = s.len() > 0 && s[0] == '-';
    let signed = s.len() > 0 && (s[0] == '+' || s[0] == '-');
    let d = if signed {
        copy_range(s, 1, s.len())
    } else {
        copy_range(s, 0, s.len())
    };
    proof {
        if signed {
            assert(d@ =~= s@.drop_first());
        } else {
            assert(d@ =~= s@);
        }
    }
    let limit: u64 = if neg {
        (max as u64) + 1
    } else {
        max as u64
    };
    match digits_value(d.as_slice(), limit) {
        Some(v) => {
            if neg {
                if v == (max as u64) + 1 {
                    Some(min)
                } else {
                    Some(-(v as i64))
                }
            } else {
                Some(v as i64)
            }
        },
        None => None,
    }
}

/// `str::parse::<i64>`.
pub fn parse_i64(s: &[char]) -> (r: Option<i64>)
    ensures
        match r {
            Some(v) => parse_int(s@, i64::MIN as int, i64::MAX as int) == Some(v as int),
            None => parse_int(s@, i64::MIN as int, i64::MAX as int) is None,
        },
{
    parse_int_exec(s, i64::MIN, i64::MAX)
}

/// `str::parse::<i32>`.
pub fn parse_i32(s: &[char]) -> (r: Option<i32>)
    ensures
        match r {
            Some(v) => parse_int(s@, i32::MIN as int, i32::MAX as int) == Some(v as int),
            None => parse_int(s@, i32::MIN as int, i32::MAX as int) is None,
        },
{
    match parse_int_exec(s, i32::MIN as i64, i32::MAX as i64) {
        Some(v) => Some(v as i32),
        None => None,
    }
}

} // verus!

verus! {

// ---------------------------------------------------------------------------
// Unicode operations that std performs from its own tables
// ---------------------------------------------------------------------------

/// What `str::to_lowercase` makes of a string: full Unicode lowercase mapping.
pub uninterp spec fn unicode_lower(s: Seq<char>) -> Seq<char>;

/// What `String::from_utf8_lossy` makes of bytes: UTF-8 decoding with each invalid
/// sequence replaced by U+FFFD.
pub uninterp spec fn utf8_lossy(b: Seq<u8>) -> Seq<char>;

/// What `char::is_alphabetic` says of a character (Unicode `Alphabetic`).
pub uninterp spec fn unicode_alphabetic(c: char) -> bool;

/// `str::to_lowercase`: the result is the Unicode lowercase of `s`, a function of `s`
/// alone; the mapping itself, from std's tables, is not restated here. Of ASCII
/// text it is the ASCII lowercase, letter by letter, as std's documentation of
/// the ASCII subset of the mapping gives.
#[verifier::external_body]
pub(crate) fn to_lowercase(s: &str) -> (r: String)
    ensures
        r@ == unicode_lower(s@),
        (forall|i: int| 0 <= i < s@.len() ==> (#[trigger] s@[i] as u32) < 0x80) ==> r@
            == ascii_lower(s@),
{
    s.to_lowercase()
}

/// `String::from_utf8_lossy`: the result is the lossy decoding of `b`, a function of
/// `b` alone; the decoder itself is not restated here. Valid UTF-8 decodes to the
/// text it encodes, as the documentation says.
#[verifier::external_body]
pub(crate) fn from_utf8_lossy(b: &[u8]) -> (r: String)
    ensures
        r@ == utf8_lossy(b@),
        forall|t: Seq<char>| #[trigger] encode_utf8(t) == b@ ==> r@ == t,
{
    String::from_utf8_lossy(b).into_owned()
}

/// `char::is_alphabetic`: the Unicode `Alphabetic` property of `c`, a function of `c`
/// alone; std's table is not restated here.
#[verifier::external_body]
pub(crate) fn is_alphabetic(c: char) -> (r: bool)
    ensures
        r == unicode_alphabetic(c),
{
    c.is_alphabetic()
}

/// Lowercase of a character sequence, through `str::to_lowercase`.
pub fn lower_unicode(v: &[char]) -> (r: Vec<char>)
    ensures
        r@ == unicode_lower(v@),
{
    let s = string_of(v);
    let l = to_lowercase(s.as_str());
    chars_of(l.as_str())
}

} // verus!

verus! {

// ---------------------------------------------------------------------------
// Decimal formatting, as `Display` writes unsigned integers
// ---------------------------------------------------------------------------

pub open spec fn digit_char(d: int) -> char {
    (d + 0x30) as char
}

/// Decimal digits of `n`, without leading zeros (`"0"` for zero).
pub open spec fn decimal(n: nat) -> Seq<char>
    decreases n,
{
    if n < 10 {
        seq![digit_char(n as int)]
    } else {
        decimal(n / 10) + seq![digit_char((n % 10) as int)]
    }
}

/// A decimal numeral is never empty, and two numbers have the same numeral only
/// when they are equal.
pub proof fn lemma_decimal_injective(a: nat, b: nat)
    ensures
        decimal(a).len() >= 1,
        decimal(a) == decimal(b) ==> a == b,
    decreases a + b,
{
    if a >= 10 {
        lemma_decimal_injective(a / 10, a / 10);
    }
    if decimal(a) == decimal(b) {
        if a < 10 && b < 10 {
            assert(decimal(a)[0] == digit_char(a as int));
            assert(decimal(b)[0] == digit_char(b as int));
        } else if a >= 10 && b >= 10 {
            lemma_decimal_injective(a / 10, b / 10);
            let da = decimal(a);
            let db = decimal(b);
            assert(da.last() == digit_char((a % 10) as int));
            assert(db.last() == digit_char((b % 10) as int));
            assert(decimal(a / 10) =~= da.drop_last());
            assert(decimal(b / 10) =~= db.drop_last());
        } else if a < 10 {
            lemma_decimal_injective(b / 10, b / 10);
            assert(decimal(b).len() >= 2);
        } else {
            assert(decimal(a).len() >= 2);
        }
    }
}

fn digit_to_char(d: u64) -> (c: char)
    requires
        d < 10,
    ensures
        c == digit_char(d as int),
{
    let b: u8 = d as u8 + 0x30;
    b as char
}

pub fn u64_to_decimal(n: u64) -> (r: Vec<char>)
    ensures
        r@ == decimal(n as nat),
    decreases n,
{
    if n < 10 {
        let mut r: Vec<char> = Vec::new();
        r.push(digit_to_char(n));
        assert(r@ =~= seq![digit_char(n as int)]);
        r
    } else {
        let mut r = u64_to_decimal(n / 10);
        let c = digit_to_char(n % 10);
        let ghost prefix = r@;
        r.push(c);
        assert(r@ =~= prefix + seq![c]);
        r
    }
}

/// Appends the characters of `s` to `out`.
pub fn push_str(out: &mut Vec<char>, s: &str)
    ensures
        final(out)@ == old(out)@ + s@,
{
    let v = chars_of(s);
    push_all(out, v.as_slice());
}

/// Appends `v` to `out`.
pub fn push_all(out: &mut Vec<char>, v: &[char])
    ensures
        final(out)@ == old(out)@ + v@,
{
    let ghost start = out@;
    let mut i: usize = 0;
    while i < v.len()
        invariant
            i <= v@.len(),
            out@ == start + v@.take(i as int),
        decreases v@.len() - i,
    {
        out.push(v[i]);
        i = i + 1;
        assert(out@ =~= start + v@.take(i as int));
    }
    assert(v@.take(v@.len() as int) =~= v@);
}

} // verus!

verus! {

// ---------------------------------------------------------------------------
// UTF-8 length, as `str::len` counts it
// ---------------------------------------------------------------------------

/// Bytes that `c` takes in UTF-8.
pub open spec fn utf8_width(c: char) -> int {
    let u = c as u32;
    if u <= 0x7f {
        1
    } else if u <= 0x7ff {
        2
    } else if u <= 0xffff {
        3
    } else {
        4
    }
}

pub proof fn lemma_encode_char_len(c: char)
    ensures
        encode_utf8(seq![c]).len() == utf8_width(c),
{
    broadcast use vstd::utf8::char_is_scalar;

    let s = seq![c];
    assert(is_scalar(c as u32));
    assert(s.drop_first() =~= Seq::<char>::empty());
    assert(s[0] == c);
    assert(encode_utf8(Seq::<char>::empty()) =~= Seq::<u8>::empty());
    assert(encode_utf8(s) == encode_scalar(c as u32) + encode_utf8(s.drop_first()));
    assert(encode_utf8(s) =~= encode_scalar(c as u32));
}

pub proof fn lemma_encode_utf8_concat(a: Seq<char>, b: Seq<char>)
    ensures
        encode_utf8(a + b) == encode_utf8(a) + encode_utf8(b),
    decreases a.len(),
{
    if a.len() == 0 {
        assert(a + b =~= b);
        assert(encode_utf8(a) + encode_utf8(b) =~= encode_utf8(b));
    } else {
        lemma_encode_utf8_concat(a.drop_first(), b);
        assert((a + b).drop_first() =~= a.drop_first() + b);
        assert((a + b)[0] == a[0]);
        assert(encode_utf8(a + b) =~= encode_utf8(a) + encode_utf8(b));
    }
}

/// Whether the UTF-8 encoding of `v` is longer than `limit` bytes.
pub fn utf8_len_exceeds(v: &[char], limit: usize) -> (r: bool)
    ensures
        r == (encode_utf8(v@).len() > limit),
{
    let mut total: usize = 0;
    let mut i: usize = 0;
    while i < v.len()
        invariant
            i <= v@.len(),
            total == encode_utf8(v@.take(i as int)).len(),
            total <= limit,
        decreases v@.len() - i,
    {
        let u = v[i] as u32;
        let w: usize = if u <= 0x7f {
            1
        } else if u <= 0x7ff {
            2
        } else if u <= 0xffff {
            3
        } else {
            4
        };
        proof {
            lemma_encode_utf8_concat(v@.take(i as int), seq![v@[i as int]]);
            lemma_encode_char_len(v@[i as int]);
            assert(v@.take(i + 1) =~= v@.take(i as int) + seq![v@[i as int]]);
            lemma_encode_utf8_concat(v@.take(i + 1), v@.skip(i + 1));
            assert(v@.take(i + 1) + v@.skip(i + 1) =~= v@);
        }
        if w > limit - total {
            return true;
        }
        total = total + w;
        i = i + 1;
    }
    assert(v@.take(v@.len() as int) =~= v@);
    false
}

} // verus!

verus! {

/// `str::strip_prefix` with a literal prefix.
pub fn strip_prefix_exec(s: &[char], p: &str) -> (r: Option<Vec<char>>)
    ensures
        match r {
            Some(v) => starts_with(s@, p@) && v@ == s@.skip(p@.len() as int),
            None => !starts_with(s@, p@),
        },
{
    let pv = chars_of(p);
    if has_prefix(s, pv.as_slice()) {
        Some(copy_range(s, pv.len(), s.len()))
    } else {
        None
    }
}

} // verus!

verus! {

/// Decimal text of a signed integer, `-` before negative values.
pub open spec fn signed_decimal(n: int) -> Seq<char> {
    if n < 0 {
        "-"@ + decimal((-n) as nat)
    } else {
        decimal(n as nat)
    }
}

pub fn i64_to_decimal(n: i64) -> (r: Vec<char>)
    ensures
        r@ == signed_decimal(n as int),
{
    if n < 0 {
        let m: u64 = (-(n as i128)) as u64;
        let d = u64_to_decimal(m);
        let mut out = chars_of("-");
        push_all(&mut out, d.as_slice());
        out
    } else {
        u64_to_decimal(n as u64)
    }
}

} // verus!
