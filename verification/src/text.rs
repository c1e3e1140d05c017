//! Character-level text handling: the small subset of `str` behaviour that the
//! command-output parsers rely on, stated over `Seq<char>` and implemented on
//! `Vec<char>` buffers.
use vstd::prelude::*;

verus! {



// ---------------------------------------------------------------------------
// Character classes
// ---------------------------------------------------------------------------

/// Unicode `White_Space`, the set that `char::is_whitespace` and `str::trim` use.
pub open spec fn is_ws(c: char) -> bool {
    let u = c as u32;
    ||| 0x09 <= u <= 0x0D
    ||| u == 0x20
    ||| u == 0x85
    ||| u == 0xA0
    ||| u == 0x1680
    ||| 0x2000 <= u <= 0x200A
    ||| u == 0x2028
    ||| u == 0x2029
    ||| u == 0x202F
    ||| u == 0x205F
    ||| u == 0x3000
}

pub fn is_whitespace(c: char) -> (r: bool)
    ensures
        r == is_ws(c),
{
    let u = c as u32;
    (0x09 <= u && u <= 0x0D) || u == 0x20 || u == 0x85 || u == 0xA0 || u == 0x1680 || (0x2000
        <= u && u <= 0x200A) || u == 0x2028 || u == 0x2029 || u == 0x202F || u == 0x205F || u
        == 0x3000
}

pub open spec fn is_digit(c: char) -> bool {
    '0' <= c <= '9'
}

pub open spec fn is_alnum(c: char) -> bool {
    ||| is_digit(c)
    ||| 'a' <= c <= 'z'
    ||| 'A' <= c <= 'Z'
}

pub open spec fn digit_value(c: char) -> nat {
    (c as u32 - '0' as u32) as nat
}

pub open spec fn lower_char(c: char) -> char {
    if 'A' <= c <= 'Z' {
        ((c as u32) + 32) as char
    } else {
        c
    }
}

pub fn ascii_lower(c: char) -> (r: char)
    ensures
        r == lower_char(c),
{
    if 'A' <= c && c <= 'Z' {
        let u: u32 = (c as u32) + 32;
        proof {
            assert(0x61 <= u <= 0x7a);
        }
        char_from_ascii(u)
    } else {
        c
    }
}

fn char_from_ascii(u: u32) -> (c: char)
    requires
        u < 0x80,
    ensures
        c == u as char,
{
    let b: u8 = u as u8;
    b as char
}

pub open spec fn lower(s: Seq<char>) -> Seq<char> {
    s.map_values(|c: char| lower_char(c))
}

// ---------------------------------------------------------------------------
// Conversions between `str`/`String` and character buffers
// ---------------------------------------------------------------------------

/// The characters of a string slice.
pub fn chars_of(s: &str) -> (v: Vec<char>)
    ensures
        v@ == s@,
{
    let mut v: Vec<char> = Vec::new();
    for c in it: s.chars()
        invariant
            it.seq() == s@,
            v@ == it.seq().take(it.index() as int),
    {
        v.push(c);
    }
    v
}

/// A `String` holding exactly the given characters.
#[verifier::external_body]
pub fn string_of(v: &[char]) -> (s: String)
    ensures
        s@ == v@,
{
    v.iter().collect()
}

/// Copy of `s[lo..hi]`.
pub fn slice_range(s: &[char], lo: usize, hi: usize) -> (r: Vec<char>)
    requires
        lo <= hi <= s@.len(),
    ensures
        r@ == s@.subrange(lo as int, hi as int),
{
    let mut r: Vec<char> = Vec::new();
    let mut i = lo;
    while i < hi
        invariant
            lo <= i <= hi <= s@.len(),
            r@ == s@.subrange(lo as int, i as int),
        decreases hi - i,
    {
        r.push(s[i]);
        i += 1;
    }
    r
}

/// `a` followed by `b`.
pub fn concat(a: &[char], b: &[char]) -> (r: Vec<char>)
    ensures
        r@ == a@ + b@,
{
    let mut r: Vec<char> = Vec::new();
    let mut i: usize = 0;
    while i < a.len()
        invariant
            i <= a@.len(),
            r@ == a@.take(i as int),
        decreases a.len() - i,
    {
        r.push(a[i]);
        i += 1;
    }
    let mut j: usize = 0;
    while j < b.len()
        invariant
            j <= b@.len(),
            r@ == a@ + b@.take(j as int),
        decreases b.len() - j,
    {
        r.push(b[j]);
        j += 1;
    }
    proof {
        assert(a@.take(a@.len() as int) =~= a@);
        assert(b@.take(b@.len() as int) =~= b@);
    }
    r
}

/// Appends `b` to `a` in place.
pub fn append_chars(a: &mut Vec<char>, b: &[char])
    ensures
        final(a)@ == old(a)@ + b@,
{
    let mut j: usize = 0;
    while j < b.len()
        invariant
            j <= b@.len(),
            a@ == old(a)@ + b@.take(j as int),
        decreases b.len() - j,
    {
        a.push(b[j]);
        j += 1;
    }
    proof {
        assert(b@.take(b@.len() as int) =~= b@);
    }
}

/// Equality of two character buffers.
pub fn chars_eq(a: &[char], b: &[char]) -> (r: bool)
    ensures
        r == (a@ == b@),
{
    if a.len() != b.len() {
        return false;
    }
    let mut i: usize = 0;
    while i < a.len()
        invariant
            i <= a@.len() == b@.len(),
            forall|k: int| 0 <= k < i ==> a@[k] == b@[k],
        decreases a.len() - i,
    {
        if a[i] != b[i] {
            return false;
        }
        i += 1;
    }
    proof {
        assert(a@ =~= b@);
    }
    true
}

pub fn lowercase(s: &[char]) -> (r: Vec<char>)
    ensures
        r@ == lower(s@),
{
    let mut r: Vec<char> = Vec::new();
    let mut i: usize = 0;
    while i < s.len()
        invariant
            i <= s@.len(),
            r@ == lower(s@.take(i as int)),
        decreases s.len() - i,
    {
        let c = ascii_lower(s[i]);
        r.push(c);
        proof {
            assert(lower(s@.take(i + 1)) =~= lower(s@.take(i as int)).push(lower_char(s@[i as int])));
        }
        i += 1;
    }
    proof {
        assert(s@.take(s@.len() as int) =~= s@);
    }
    r
}

// ---------------------------------------------------------------------------
// Trimming
// ---------------------------------------------------------------------------

pub open spec fn trim_start(s: Seq<char>) -> Seq<char>
    decreases s.len(),
{
    if s.len() > 0 && is_ws(s[0]) {
        trim_start(s.drop_first())
    } else {
        s
    }
}

pub open spec fn trim_end(s: Seq<char>) -> Seq<char>
    decreases s.len(),
{
    if s.len() > 0 && is_ws(s.last()) {
        trim_end(s.drop_last())
    } else {
        s
    }
}

/// `str::trim`: whitespace removed from both ends.
pub open spec fn trim(s: Seq<char>) -> Seq<char> {
    trim_end(trim_start(s))
}

/// Bounds `(lo, hi)` with `s[lo..hi] == trim(s)`.
pub fn trim_bounds(s: &[char]) -> (r: (usize, usize))
    ensures
        r.0 <= r.1 <= s@.len(),
        s@.subrange(r.0 as int, r.1 as int) == trim(s@),
        trim_start(s@) == s@.subrange(r.0 as int, s@.len() as int),
{
    let n = s.len();
    let mut lo: usize = 0;
    proof {
        assert(s@.subrange(0, n as int) =~= s@);
    }
    while lo < n && is_whitespace(s[lo])
        invariant
            lo <= n == s@.len(),
            trim_start(s@.subrange(lo as int, n as int)) == trim_start(s@),
        decreases n - lo,
    {
        proof {
            assert(s@.subrange(lo as int, n as int).drop_first() =~= s@.subrange(
                lo + 1,
                n as int,
            ));
        }
        lo += 1;
    }
    let ghost ts = s@.subrange(lo as int, n as int);
    assert(trim_start(ts) == ts);
    let mut hi: usize = n;
    proof {
        assert(s@.subrange(lo as int, hi as int) =~= ts);
    }
    while hi > lo && is_whitespace(s[hi - 1])
        invariant
            lo <= hi <= n == s@.len(),
            ts == s@.subrange(lo as int, n as int),
            trim_end(s@.subrange(lo as int, hi as int)) == trim_end(ts),
        decreases hi - lo,
    {
        proof {
            assert(s@.subrange(lo as int, hi as int).drop_last() =~= s@.subrange(
                lo as int,
                hi - 1,
            ));
        }
        hi -= 1;
    }
    (lo, hi)
}

/// `s.trim()` as a fresh buffer.
pub fn trimmed(s: &[char]) -> (r: Vec<char>)
    ensures
        r@ == trim(s@),
{
    let (lo, hi) = trim_bounds(s);
    slice_range(s, lo, hi)
}


// ---------------------------------------------------------------------------
// Searching
// ---------------------------------------------------------------------------

/// Position of the first `c` in `s`, or `s.len()` when there is none.
pub open spec fn find_char(s: Seq<char>, c: char) -> int
    decreases s.len(),
{
    if s.len() == 0 {
        0
    } else if s[0] == c {
        0
    } else {
        1 + find_char(s.drop_first(), c)
    }
}

pub proof fn lemma_find_char(s: Seq<char>, c: char)
    ensures
        0 <= find_char(s, c) <= s.len(),
        forall|k: int| 0 <= k < find_char(s, c) ==> s[k] != c,
        find_char(s, c) < s.len() ==> s[find_char(s, c)] == c,
    decreases s.len(),
{
    if s.len() > 0 && s[0] != c {
        lemma_find_char(s.drop_first(), c);
        assert forall|k: int| 0 <= k < find_char(s, c) implies s[k] != c by {
            if k > 0 {
                assert(s[k] == s.drop_first()[k - 1]);
            }
        }
    }
}

/// The first-match characterisation pins `find_char` down.
pub proof fn lemma_find_char_at(s: Seq<char>, c: char, m: int)
    requires
        0 <= m <= s.len(),
        forall|k: int| 0 <= k < m ==> s[k] != c,
        m < s.len() ==> s[m] == c,
    ensures
        find_char(s, c) == m,
    decreases s.len(),
{
    if s.len() > 0 && s[0] != c {
        assert forall|k: int| 0 <= k < m - 1 implies s.drop_first()[k] != c by {
            assert(s[k + 1] != c);
        }
        lemma_find_char_at(s.drop_first(), c, m - 1);
    }
}

/// Position of the first `c` in `s[from..]`, as an index into `s`, or `s.len()`.
pub fn find_char_from(s: &[char], from: usize, c: char) -> (r: usize)
    requires
        from <= s@.len(),
    ensures
        from <= r <= s@.len(),
        r - from == find_char(s@.subrange(from as int, s@.len() as int), c),
        forall|k: int| from <= k < r ==> s@[k] != c,
        r < s@.len() ==> s@[r as int] == c,
{
    let mut i = from;
    while i < s.len() && s[i] != c
        invariant
            from <= i <= s@.len(),
            forall|k: int| from <= k < i ==> s@[k] != c,
        decreases s.len() - i,
    {
        i += 1;
    }
    proof {
        let t = s@.subrange(from as int, s@.len() as int);
        lemma_find_char_at(t, c, i - from);
    }
    i
}

/// Position of the last `c` in `s`, or `-1` when there is none.
pub open spec fn rfind_char(s: Seq<char>, c: char) -> int
    decreases s.len(),
{
    if s.len() == 0 {
        -1
    } else if s.last() == c {
        s.len() - 1
    } else {
        rfind_char(s.drop_last(), c)
    }
}

pub proof fn lemma_rfind_char(s: Seq<char>, c: char)
    ensures
        -1 <= rfind_char(s, c) < s.len(),
        forall|k: int| rfind_char(s, c) < k < s.len() ==> s[k] != c,
        rfind_char(s, c) >= 0 ==> s[rfind_char(s, c)] == c,
    decreases s.len(),
{
    if s.len() > 0 && s.last() != c {
        lemma_rfind_char(s.drop_last(), c);
        assert forall|k: int| rfind_char(s, c) < k < s.len() implies s[k] != c by {
            if k < s.len() - 1 {
                assert(s[k] == s.drop_last()[k]);
            }
        }
    }
}

pub proof fn lemma_rfind_char_at(s: Seq<char>, c: char, m: int)
    requires
        -1 <= m < s.len(),
        forall|k: int| m < k < s.len() ==> s[k] != c,
        m >= 0 ==> s[m] == c,
    ensures
        rfind_char(s, c) == m,
    decreases s.len(),
{
    if s.len() > 0 && s.last() != c {
        lemma_rfind_char_at(s.drop_last(), c, m);
    }
}

/// Position of the last `c` in `s`, if any.
pub fn rfind_char_exec(s: &[char], c: char) -> (r: Option<usize>)
    ensures
        r is None ==> rfind_char(s@, c) == -1,
        r is Some ==> r->0 == rfind_char(s@, c) && r->0 < s@.len(),
{
    let mut i = s.len();
    while i > 0 && s[i - 1] != c
        invariant
            i <= s@.len(),
            forall|k: int| i <= k < s@.len() ==> s@[k] != c,
        decreases i,
    {
        i -= 1;
    }
    proof {
        lemma_rfind_char_at(s@, c, i - 1);
    }
    if i == 0 {
        None
    } else {
        Some(i - 1)
    }
}

/// `str::rsplit_once(c)`: the parts before and after the last `c`.
pub open spec fn rsplit_once(s: Seq<char>, c: char) -> Option<(Seq<char>, Seq<char>)> {
    let i = rfind_char(s, c);
    if i < 0 {
        None
    } else {
        Some((s.take(i), s.skip(i + 1)))
    }
}

pub fn rsplit_once_exec(s: &[char], c: char) -> (r: Option<(Vec<char>, Vec<char>)>)
    ensures
        r is None ==> rsplit_once(s@, c) is None,
        r matches Some((a, b)) ==> rsplit_once(s@, c) == Some((a@, b@)),
{
    proof {
        lemma_rfind_char(s@, c);
    }
    match rfind_char_exec(s, c) {
        None => None,
        Some(i) => {
            assert(i < s.len());
            let a = slice_range(s, 0, i);
            let b = slice_range(s, i + 1, s.len());
            proof {
                assert(a@ =~= s@.take(i as int));
                assert(b@ =~= s@.skip(i + 1));
            }
            Some((a, b))
        },
    }
}

/// `s` starts with `p`.
pub open spec fn starts_with(s: Seq<char>, p: Seq<char>) -> bool {
    p.len() <= s.len() && s.take(p.len() as int) == p
}

/// `s` ends with `p`.
pub open spec fn ends_with(s: Seq<char>, p: Seq<char>) -> bool {
    p.len() <= s.len() && s.skip(s.len() - p.len()) == p
}

/// `p` occurs in `s` starting at position `i`.
pub open spec fn occurs_at(s: Seq<char>, p: Seq<char>, i: int) -> bool {
    0 <= i && i + p.len() <= s.len() && s.subrange(i, i + p.len()) == p
}

/// `str::contains` for a string pattern.
pub open spec fn contains(s: Seq<char>, p: Seq<char>) -> bool {
    exists|i: int| occurs_at(s, p, i)
}

/// `s[i..]` starts with `p`.
pub fn matches_at(s: &[char], i: usize, p: &[char]) -> (r: bool)
    requires
        i <= s@.len(),
    ensures
        r == occurs_at(s@, p@, i as int),
{
    if p.len() > s.len() - i {
        return false;
    }
    let mut k: usize = 0;
    while k < p.len()
        invariant
            k <= p@.len(),
            i <= s@.len(),
            i + p@.len() <= s@.len(),
            i + p.len() <= s.len(),
            forall|j: int| 0 <= j < k ==> s@[i + j] == p@[j],
        decreases p.len() - k,
    {
        if s[i + k] != p[k] {
            proof {
                assert(s@.subrange(i as int, i + p@.len())[k as int] != p@[k as int]);
            }
            return false;
        }
        k += 1;
    }
    proof {
        assert(s@.subrange(i as int, i + p@.len()) =~= p@);
    }
    true
}

pub fn starts_with_exec(s: &[char], p: &[char]) -> (r: bool)
    ensures
        r == starts_with(s@, p@),
{
    let r = matches_at(s, 0, p);
    proof {
        if p@.len() <= s@.len() {
            assert(s@.subrange(0, p@.len() as int) =~= s@.take(p@.len() as int));
        }
    }
    r
}

pub fn ends_with_exec(s: &[char], p: &[char]) -> (r: bool)
    ensures
        r == ends_with(s@, p@),
{
    if p.len() > s.len() {
        return false;
    }
    let r = matches_at(s, s.len() - p.len(), p);
    proof {
        assert(s@.subrange(s@.len() - p@.len(), s@.len() as int) =~= s@.skip(
            s@.len() - p@.len(),
        ));
    }
    r
}

/// First position at or after `from` where `p` occurs in `s`, if any.
pub fn find_from(s: &[char], from: usize, p: &[char]) -> (r: Option<usize>)
    requires
        from <= s@.len(),
    ensures
        r is None ==> forall|i: int| from <= i ==> !occurs_at(s@, p@, i),
        r is Some ==> from <= r->0 && occurs_at(s@, p@, r->0 as int) && forall|i: int|
            from <= i < r->0 ==> !occurs_at(s@, p@, i),
{
    let mut i = from;
    loop
        invariant
            from <= i <= s@.len(),
            forall|j: int| from <= j < i ==> !occurs_at(s@, p@, j),
        decreases s.len() - i,
    {
        if matches_at(s, i, p) {
            return Some(i);
        }
        if i == s.len() {
            assert forall|j: int| from <= j implies !occurs_at(s@, p@, j) by {
                if j > i {
                    assert(!occurs_at(s@, p@, j));
                }
            }
            return None;
        }
        i += 1;
    }
}

pub fn contains_exec(s: &[char], p: &[char]) -> (r: bool)
    ensures
        r == contains(s@, p@),
{
    match find_from(s, 0, p) {
        Some(_) => true,
        None => false,
    }
}

/// Whether `c` occurs in `s`.
pub fn has_char(s: &[char], c: char) -> (r: bool)
    ensures
        r == s@.contains(c),
{
    let mut i: usize = 0;
    while i < s.len()
        invariant
            i <= s@.len(),
            forall|k: int| 0 <= k < i ==> s@[k] != c,
        decreases s.len() - i,
    {
        if s[i] == c {
            return true;
        }
        i += 1;
    }
    false
}

/// `str::strip_prefix`.
pub open spec fn strip_prefix(s: Seq<char>, p: Seq<char>) -> Option<Seq<char>> {
    if starts_with(s, p) {
        Some(s.skip(p.len() as int))
    } else {
        None
    }
}

pub fn strip_prefix_exec(s: &[char], p: &[char]) -> (r: Option<Vec<char>>)
    ensures
        r is None ==> strip_prefix(s@, p@) is None,
        r is Some ==> strip_prefix(s@, p@) == Some(r->0@),
{
    if starts_with_exec(s, p) {
        let rest = slice_range(s, p.len(), s.len());
        proof {
            assert(rest@ =~= s@.skip(p@.len() as int));
        }
        Some(rest)
    } else {
        None
    }
}

/// `str::split_once` with a string pattern: the parts around the first match.
pub open spec fn split_once(s: Seq<char>, p: Seq<char>) -> Option<(Seq<char>, Seq<char>)> {
    if contains(s, p) {
        let i = choose|i: int|
            occurs_at(s, p, i) && forall|j: int| 0 <= j < i ==> !occurs_at(s, p, j);
        Some((s.take(i), s.skip(i + p.len())))
    } else {
        None
    }
}

pub fn split_once_exec(s: &[char], p: &[char]) -> (r: Option<(Vec<char>, Vec<char>)>)
    ensures
        r is None ==> split_once(s@, p@) is None,
        r matches Some((a, b)) ==> split_once(s@, p@) == Some((a@, b@)),
{
    match find_from(s, 0, p) {
        None => None,
        Some(i) => {
            assert(occurs_at(s@, p@, i as int));
            assert(i + p.len() <= s.len());
            let a = slice_range(s, 0, i);
            let b = slice_range(s, i + p.len(), s.len());
            proof {
                let j = choose|j: int|
                    occurs_at(s@, p@, j) && forall|k: int| 0 <= k < j ==> !occurs_at(s@, p@, k);
                assert(occurs_at(s@, p@, i as int) && forall|k: int|
                    0 <= k < i ==> !occurs_at(s@, p@, k));
                if j < i {
                    assert(!occurs_at(s@, p@, j));
                } else if j > i {
                }
                assert(j == i);
                assert(a@ =~= s@.take(i as int));
                assert(b@ =~= s@.skip(i + p@.len()));
            }
            Some((a, b))
        },
    }
}

// ---------------------------------------------------------------------------
// Trimming a given character or pattern
// ---------------------------------------------------------------------------

/// `str::trim_end_matches(c)`.
pub open spec fn trim_end_char(s: Seq<char>, c: char) -> Seq<char>
    decreases s.len(),
{
    if s.len() > 0 && s.last() == c {
        trim_end_char(s.drop_last(), c)
    } else {
        s
    }
}

/// `str::trim_start_matches(c)`.
pub open spec fn trim_start_char(s: Seq<char>, c: char) -> Seq<char>
    decreases s.len(),
{
    if s.len() > 0 && s[0] == c {
        trim_start_char(s.drop_first(), c)
    } else {
        s
    }
}

pub fn trim_end_char_exec(s: &[char], c: char) -> (r: Vec<char>)
    ensures
        r@ == trim_end_char(s@, c),
{
    let mut hi = s.len();
    proof {
        assert(s@.subrange(0, hi as int) =~= s@);
    }
    while hi > 0 && s[hi - 1] == c
        invariant
            hi <= s@.len(),
            trim_end_char(s@.subrange(0, hi as int), c) == trim_end_char(s@, c),
        decreases hi,
    {
        proof {
            assert(s@.subrange(0, hi as int).drop_last() =~= s@.subrange(0, hi - 1));
        }
        hi -= 1;
    }
    slice_range(s, 0, hi)
}

pub fn trim_start_char_exec(s: &[char], c: char) -> (r: Vec<char>)
    ensures
        r@ == trim_start_char(s@, c),
{
    let n = s.len();
    let mut lo: usize = 0;
    proof {
        assert(s@.subrange(0, n as int) =~= s@);
    }
    while lo < n && s[lo] == c
        invariant
            lo <= n == s@.len(),
            trim_start_char(s@.subrange(lo as int, n as int), c) == trim_start_char(s@, c),
        decreases n - lo,
    {
        proof {
            assert(s@.subrange(lo as int, n as int).drop_first() =~= s@.subrange(
                lo + 1,
                n as int,
            ));
        }
        lo += 1;
    }
    slice_range(s, lo, n)
}

/// `str::trim_matches(c)`.
pub open spec fn trim_char(s: Seq<char>, c: char) -> Seq<char> {
    trim_end_char(trim_start_char(s, c), c)
}

pub fn trim_char_exec(s: &[char], c: char) -> (r: Vec<char>)
    ensures
        r@ == trim_char(s@, c),
{
    let a = trim_start_char_exec(s, c);
    trim_end_char_exec(&a, c)
}

/// `str::trim_end_matches(p)` for a non-empty string pattern.
pub open spec fn trim_end_str(s: Seq<char>, p: Seq<char>) -> Seq<char>
    decreases s.len(),
{
    if p.len() > 0 && ends_with(s, p) {
        trim_end_str(s.take(s.len() - p.len()), p)
    } else {
        s
    }
}

pub fn trim_end_str_exec(s: &[char], p: &[char]) -> (r: Vec<char>)
    ensures
        r@ == trim_end_str(s@, p@),
{
    let mut cur = slice_range(s, 0, s.len());
    proof {
        assert(cur@ =~= s@);
    }
    while p.len() > 0 && ends_with_exec(&cur, p)
        invariant
            trim_end_str(cur@, p@) == trim_end_str(s@, p@),
        decreases cur@.len(),
    {
        let next = slice_range(&cur, 0, cur.len() - p.len());
        proof {
            assert(next@ =~= cur@.take(cur@.len() - p@.len()));
        }
        cur = next;
    }
    cur
}


// ---------------------------------------------------------------------------
// Splitting
// ---------------------------------------------------------------------------

/// The views of a vector of character buffers.
pub open spec fn seqs(v: Seq<Vec<char>>) -> Seq<Seq<char>> {
    v.map_values(|x: Vec<char>| x@)
}

pub proof fn lemma_seqs_push(v: Seq<Vec<char>>, x: Vec<char>)
    ensures
        seqs(v.push(x)) == seqs(v).push(x@),
{
    assert(seqs(v.push(x)) =~= seqs(v).push(x@));
}

/// A line without its trailing carriage return.
pub open spec fn strip_cr(l: Seq<char>) -> Seq<char> {
    if l.len() > 0 && l.last() == '\r' {
        l.drop_last()
    } else {
        l
    }
}

/// `str::lines`: pieces ended by `\n` (or `\r\n`); no final empty line.
pub open spec fn lines(s: Seq<char>) -> Seq<Seq<char>>
    decreases s.len(),
{
    if s.len() == 0 {
        seq![]
    } else {
        let i = find_char(s, '\n');
        if 0 <= i < s.len() {
            seq![strip_cr(s.take(i))] + lines(s.skip(i + 1))
        } else {
            seq![s]
        }
    }
}

pub fn strip_cr_exec(l: Vec<char>) -> (r: Vec<char>)
    ensures
        r@ == strip_cr(l@),
{
    if l.len() > 0 && l[l.len() - 1] == '\r' {
        let r = slice_range(&l, 0, l.len() - 1);
        proof {
            assert(r@ =~= l@.drop_last());
        }
        r
    } else {
        l
    }
}

/// The lines of `s`.
pub fn split_lines(s: &[char]) -> (r: Vec<Vec<char>>)
    ensures
        seqs(r@) == lines(s@),
{
    let n = s.len();
    let mut out: Vec<Vec<char>> = Vec::new();
    let mut pos: usize = 0;
    proof {
        assert(s@.skip(0) =~= s@);
        assert(seqs(out@) =~= seq![]);
    }
    while pos < n
        invariant
            pos <= n == s@.len(),
            seqs(out@) + lines(s@.skip(pos as int)) == lines(s@),
        decreases n - pos,
    {
        let ghost t = s@.skip(pos as int);
        let j = find_char_from(s, pos, '\n');
        proof {
            assert(s@.subrange(pos as int, n as int) =~= t);
        }
        if j == n {
            let piece = slice_range(s, pos, n);
            proof {
                assert(piece@ =~= t);
                lemma_seqs_push(out@, piece);
                assert(lines(t) == seq![t]);
                assert(s@.skip(n as int) =~= Seq::<char>::empty());
                assert(seqs(out@.push(piece)) + lines(s@.skip(n as int)) =~= seqs(out@) + lines(
                    t,
                ));
            }
            out.push(piece);
            pos = n;
        } else {
            let piece = strip_cr_exec(slice_range(s, pos, j));
            proof {
                assert(s@.subrange(pos as int, j as int) =~= t.take(j - pos));
                assert(t.skip(j - pos + 1) =~= s@.skip(j + 1));
                lemma_seqs_push(out@, piece);
                assert(lines(t) == seq![strip_cr(t.take(j - pos))] + lines(t.skip(j - pos + 1)));
                assert(seqs(out@.push(piece)) + lines(s@.skip(j + 1)) =~= seqs(out@) + lines(t));
            }
            out.push(piece);
            pos = j + 1;
        }
    }
    proof {
        assert(s@.skip(n as int) =~= Seq::<char>::empty());
        assert(seqs(out@) + lines(s@.skip(n as int)) =~= seqs(out@));
    }
    out
}

/// Position of the first whitespace character, or `s.len()`.
pub open spec fn find_ws(s: Seq<char>) -> int
    decreases s.len(),
{
    if s.len() == 0 {
        0
    } else if is_ws(s[0]) {
        0
    } else {
        1 + find_ws(s.drop_first())
    }
}

pub proof fn lemma_find_ws_at(s: Seq<char>, m: int)
    requires
        0 <= m <= s.len(),
        forall|k: int| 0 <= k < m ==> !is_ws(s[k]),
        m < s.len() ==> is_ws(s[m]),
    ensures
        find_ws(s) == m,
    decreases s.len(),
{
    if s.len() > 0 && !is_ws(s[0]) {
        assert forall|k: int| 0 <= k < m - 1 implies !is_ws(s.drop_first()[k]) by {
            assert(!is_ws(s[k + 1]));
        }
        lemma_find_ws_at(s.drop_first(), m - 1);
    }
}

/// `str::split_whitespace`: the maximal runs of non-whitespace characters.
pub open spec fn words(s: Seq<char>) -> Seq<Seq<char>>
    decreases s.len(),
{
    if s.len() == 0 {
        seq![]
    } else if is_ws(s[0]) {
        words(s.drop_first())
    } else {
        let k = find_ws(s);
        if 1 <= k <= s.len() {
            seq![s.take(k)] + words(s.skip(k))
        } else {
            seq![]
        }
    }
}

proof fn lemma_words_skip_ws(s: Seq<char>, pos: int)
    requires
        0 <= pos < s.len(),
        is_ws(s[pos]),
    ensures
        words(s.skip(pos)) == words(s.skip(pos + 1)),
{
    assert(s.skip(pos).drop_first() =~= s.skip(pos + 1));
}

proof fn lemma_words_take_word(s: Seq<char>, pos: int, j: int)
    requires
        0 <= pos < j <= s.len(),
        forall|k: int| pos <= k < j ==> !is_ws(s[k]),
        j < s.len() ==> is_ws(s[j]),
    ensures
        words(s.skip(pos)) == seq![s.subrange(pos, j)] + words(s.skip(j)),
{
    let t = s.skip(pos);
    assert forall|k: int| 0 <= k < j - pos implies !is_ws(t[k]) by {
        assert(t[k] == s[pos + k]);
    }
    lemma_find_ws_at(t, j - pos);
    assert(t.take(j - pos) =~= s.subrange(pos, j));
    assert(t.skip(j - pos) =~= s.skip(j));
}

/// End of the word that starts at `pos`.
fn word_end(s: &[char], pos: usize) -> (j: usize)
    requires
        pos < s.len(),
    ensures
        pos < j <= s@.len(),
        forall|k: int| pos < k < j ==> !is_ws(s@[k]),
        j < s@.len() ==> is_ws(s@[j as int]),
{
    let mut j = pos + 1;
    while j < s.len() && !is_whitespace(s[j])
        invariant
            pos < j <= s@.len(),
            forall|k: int| pos < k < j ==> !is_ws(s@[k]),
        decreases s.len() - j,
    {
        j += 1;
    }
    j
}

/// The whitespace-separated words of `s`.
pub fn split_words(s: &[char]) -> (r: Vec<Vec<char>>)
    ensures
        seqs(r@) == words(s@),
{
    let n = s.len();
    let mut out: Vec<Vec<char>> = Vec::new();
    let mut pos: usize = 0;
    proof {
        assert(s@.skip(0) =~= s@);
        assert(seqs(out@) =~= seq![]);
    }
    while pos < n
        invariant
            pos <= n == s@.len(),
            seqs(out@) + words(s@.skip(pos as int)) == words(s@),
        decreases n - pos,
    {
        if is_whitespace(s[pos]) {
            proof {
                lemma_words_skip_ws(s@, pos as int);
            }
            pos += 1;
        } else {
            let j = word_end(s, pos);
            let piece = slice_range(s, pos, j);
            proof {
                lemma_words_take_word(s@, pos as int, j as int);
                lemma_seqs_push(out@, piece);
                assert(seqs(out@.push(piece)) + words(s@.skip(j as int)) =~= seqs(out@) + words(
                    s@.skip(pos as int),
                ));
            }
            out.push(piece);
            pos = j;
        }
    }
    proof {
        assert(s@.skip(n as int) =~= Seq::<char>::empty());
        assert(seqs(out@) + words(s@.skip(n as int)) =~= seqs(out@));
    }
    out
}

/// `str::split(c)`: the pieces between occurrences of `c`, empty ones included.
pub open spec fn split_char(s: Seq<char>, c: char) -> Seq<Seq<char>>
    decreases s.len(),
{
    let i = find_char(s, c);
    if 0 <= i < s.len() {
        seq![s.take(i)] + split_char(s.skip(i + 1), c)
    } else {
        seq![s]
    }
}

pub proof fn lemma_split_char_nonempty(s: Seq<char>, c: char)
    ensures
        split_char(s, c).len() >= 1,
{
}

pub fn split_char_exec(s: &[char], c: char) -> (r: Vec<Vec<char>>)
    ensures
        seqs(r@) == split_char(s@, c),
{
    let n = s.len();
    let mut out: Vec<Vec<char>> = Vec::new();
    let mut pos: usize = 0;
    proof {
        assert(s@.skip(0) =~= s@);
        assert(seqs(out@) =~= seq![]);
    }
    loop
        invariant
            pos <= n == s@.len(),
            seqs(out@) + split_char(s@.skip(pos as int), c) == split_char(s@, c),
        decreases n - pos,
    {
        let ghost t = s@.skip(pos as int);
        let j = find_char_from(s, pos, c);
        proof {
            assert(s@.subrange(pos as int, n as int) =~= t);
        }
        let piece = slice_range(s, pos, j);
        proof {
            assert(piece@ =~= t.take(j - pos));
            lemma_seqs_push(out@, piece);
        }
        if j == n {
            proof {
                assert(piece@ =~= t);
                assert(seqs(out@.push(piece)) =~= seqs(out@) + split_char(t, c));
            }
            out.push(piece);
            return out;
        }
        proof {
            assert(t.skip(j - pos + 1) =~= s@.skip(j + 1));
            assert(seqs(out@.push(piece)) + split_char(s@.skip(j + 1), c) =~= seqs(out@)
                + split_char(t, c));
        }
        out.push(piece);
        pos = j + 1;
    }
}

// ---------------------------------------------------------------------------
// Decimal numbers
// ---------------------------------------------------------------------------

pub open spec fn all_digits(s: Seq<char>) -> bool {
    forall|i: int| 0 <= i < s.len() ==> is_digit(#[trigger] s[i])
}

pub open spec fn decimal_value(s: Seq<char>) -> nat
    decreases s.len(),
{
    if s.len() == 0 {
        0
    } else {
        decimal_value(s.drop_last()) * 10 + digit_value(s.last())
    }
}

/// `str::parse` for an unsigned integer type whose largest value is `max`:
/// an optional `+`, then at least one ASCII digit, with a value at most `max`.
pub open spec fn parse_unsigned(s: Seq<char>, max: nat) -> Option<nat> {
    let d = if s.len() > 0 && s[0] == '+' {
        s.drop_first()
    } else {
        s
    };
    if d.len() > 0 && all_digits(d) && decimal_value(d) <= max {
        Some(decimal_value(d))
    } else {
        None
    }
}

pub proof fn lemma_decimal_prefix_grows(s: Seq<char>, i: int, j: int)
    requires
        0 <= i <= j <= s.len(),
    ensures
        decimal_value(s.take(i)) <= decimal_value(s.take(j)),
    decreases j - i,
{
    if i < j {
        lemma_decimal_prefix_grows(s, i, j - 1);
        assert(s.take(j).drop_last() =~= s.take(j - 1));
    }
}

/// Value of the all-digit suffix `s[start..]`, when it is at most `max`.
fn parse_digits(s: &[char], start: usize, max: u32) -> (r: Option<u32>)
    requires
        start <= s@.len(),
    ensures
        r is None ==> !(all_digits(s@.skip(start as int)) && decimal_value(s@.skip(start as int))
            <= max),
        r is Some ==> all_digits(s@.skip(start as int)) && decimal_value(s@.skip(start as int))
            == r->0 as nat && r->0 <= max,
{
    let ghost d = s@.skip(start as int);
    let mut i = start;
    let mut value: u64 = 0;
    proof {
        assert(d.take(0) =~= Seq::<char>::empty());
    }
    while i < s.len()
        invariant
            start <= i <= s@.len(),
            d == s@.skip(start as int),
            forall|k: int| 0 <= k < i - start ==> is_digit(#[trigger] d[k]),
            value as nat == decimal_value(d.take(i - start)),
            value <= max,
        decreases s.len() - i,
    {
        let c = s[i];
        proof {
            assert(d[i - start] == c);
        }
        if c < '0' || c > '9' {
            return None;
        }
        let digit = (c as u32 - '0' as u32) as u64;
        let next = value * 10 + digit;
        proof {
            assert(d.take(i - start + 1).drop_last() =~= d.take(i - start));
            assert(d.take(i - start + 1).last() == c);
        }
        if next > max as u64 {
            proof {
                lemma_decimal_prefix_grows(d, i - start + 1, d.len() as int);
                assert(d.take(d.len() as int) =~= d);
            }
            return None;
        }
        value = next;
        i += 1;
    }
    proof {
        assert(d.take(d.len() as int) =~= d);
    }
    Some(value as u32)
}

/// Parses `s` as an unsigned decimal number no larger than `max`.
pub fn parse_unsigned_exec(s: &[char], max: u32) -> (r: Option<u32>)
    ensures
        r is None ==> parse_unsigned(s@, max as nat) is None,
        r is Some ==> parse_unsigned(s@, max as nat) == Some(r->0 as nat),
{
    let start: usize = if s.len() > 0 && s[0] == '+' {
        1
    } else {
        0
    };
    proof {
        if start == 1 {
            assert(s@.skip(1) =~= s@.drop_first());
        } else {
            assert(s@.skip(0) =~= s@);
        }
    }
    if start == s.len() {
        return None;
    }
    parse_digits(s, start, max)
}

// ---------------------------------------------------------------------------
// Joining and replacing
// ---------------------------------------------------------------------------

/// `parts` joined with `sep` between consecutive parts, as `[..].join(sep)`.
pub open spec fn join(parts: Seq<Seq<char>>, sep: Seq<char>) -> Seq<char>
    decreases parts.len(),
{
    if parts.len() == 0 {
        seq![]
    } else if parts.len() == 1 {
        parts[0]
    } else {
        join(parts.drop_last(), sep) + sep + parts.last()
    }
}

pub fn join_exec(parts: &[Vec<char>], sep: &[char]) -> (r: Vec<char>)
    ensures
        r@ == join(seqs(parts@), sep@),
{
    let mut out: Vec<char> = Vec::new();
    let mut i: usize = 0;
    while i < parts.len()
        invariant
            i <= parts@.len(),
            out@ == join(seqs(parts@).take(i as int), sep@),
        decreases parts.len() - i,
    {
        proof {
            let t = seqs(parts@).take(i + 1);
            assert(t.drop_last() =~= seqs(parts@).take(i as int));
            assert(t.last() == parts@[i as int]@);
        }
        if i > 0 {
            append_chars(&mut out, sep);
        } else {
            proof {
                assert(seqs(parts@).take(1) =~= seq![parts@[0]@]);
            }
        }
        append_chars(&mut out, parts[i].as_slice());
        i += 1;
    }
    proof {
        assert(seqs(parts@).take(parts@.len() as int) =~= seqs(parts@));
    }
    out
}

/// Every `from` in `s` replaced by `to`.
pub open spec fn replace_char(s: Seq<char>, from: char, to: char) -> Seq<char> {
    s.map_values(|c: char| if c == from { to } else { c })
}

pub fn replace_char_exec(s: &[char], from: char, to: char) -> (r: Vec<char>)
    ensures
        r@ == replace_char(s@, from, to),
{
    let mut r: Vec<char> = Vec::new();
    let mut i: usize = 0;
    while i < s.len()
        invariant
            i <= s@.len(),
            r@ == replace_char(s@.take(i as int), from, to),
        decreases s.len() - i,
    {
        let c = if s[i] == from {
            to
        } else {
            s[i]
        };
        r.push(c);
        proof {
            assert(replace_char(s@.take(i + 1), from, to) =~= replace_char(
                s@.take(i as int),
                from,
                to,
            ).push(c));
        }
        i += 1;
    }
    proof {
        assert(s@.take(s@.len() as int) =~= s@);
    }
    r
}

// ---------------------------------------------------------------------------
// Decimal rendering and first occurrences
// ---------------------------------------------------------------------------

pub open spec fn digit_char(d: nat) -> char {
    ((d + 48) as u32) as char
}

/// `n` in decimal, as `format!("{n}")` renders an unsigned integer.
pub open spec fn decimal(n: nat) -> Seq<char>
    decreases n,
{
    if n < 10 {
        seq![digit_char(n)]
    } else {
        decimal(n / 10).push(digit_char(n % 10))
    }
}

pub fn decimal_exec(n: u64) -> (r: Vec<char>)
    ensures
        r@ == decimal(n as nat),
    decreases n,
{
    if n < 10 {
        let c = char_from_ascii((n + 48) as u32);
        let mut r: Vec<char> = Vec::new();
        r.push(c);
        proof {
            assert(r@ =~= seq![digit_char(n as nat)]);
        }
        r
    } else {
        let mut r = decimal_exec(n / 10);
        let c = char_from_ascii((n % 10 + 48) as u32);
        r.push(c);
        r
    }
}

/// `s` with later repeats of an item removed, first occurrences kept in order.
pub open spec fn dedup(s: Seq<Seq<char>>) -> Seq<Seq<char>>
    decreases s.len(),
{
    if s.len() == 0 {
        seq![]
    } else if dedup(s.drop_last()).contains(s.last()) {
        dedup(s.drop_last())
    } else {
        dedup(s.drop_last()).push(s.last())
    }
}

/// Whether `v` holds an item equal to `x`.
pub fn contains_chars(v: &[Vec<char>], x: &[char]) -> (r: bool)
    ensures
        r == seqs(v@).contains(x@),
{
    let mut i: usize = 0;
    while i < v.len()
        invariant
            i <= v@.len(),
            forall|k: int| 0 <= k < i ==> v@[k]@ != x@,
        decreases v.len() - i,
    {
        if chars_eq(v[i].as_slice(), x) {
            proof {
                assert(seqs(v@)[i as int] == x@);
            }
            return true;
        }
        i += 1;
    }
    proof {
        if seqs(v@).contains(x@) {
            let k = choose|k: int| 0 <= k < seqs(v@).len() && seqs(v@)[k] == x@;
            assert(v@[k]@ == x@);
        }
    }
    false
}

/// Appends `x` unless an equal item is already there.
pub fn push_unique(v: &mut Vec<Vec<char>>, x: Vec<char>)
    ensures
        seqs(final(v)@) == if seqs(old(v)@).contains(x@) {
            seqs(old(v)@)
        } else {
            seqs(old(v)@).push(x@)
        },
{
    if !contains_chars(v.as_slice(), x.as_slice()) {
        proof {
            lemma_seqs_push(v@, x);
        }
        v.push(x);
    }
}

} // verus!
