//! Character-level text utilities: whitespace handling, ASCII case folding,
//! trimming, token extraction and substring search over `Seq<char>` views,
//! with executable counterparts on `Vec<char>` and `&str`.

use vstd::prelude::*;

verus! {

/// The code points of Unicode's White_Space property, the set that
/// `char::is_whitespace` reports.
pub open spec fn is_space_char(c: char) -> bool {
    let u = c as u32;
    u == 0x20 || (0x9 <= u && u <= 0xd) || u == 0x85 || u == 0xa0 || u == 0x1680 || (0x2000 <= u
        && u <= 0x200a) || u == 0x2028 || u == 0x2029 || u == 0x202f || u == 0x205f || u == 0x3000
}

/// Decides `is_space_char` executably.
pub fn is_space(c: char) -> (r: bool)
    ensures
        r == is_space_char(c),
{
    let u = c as u32;
    u == 0x20 || (0x9 <= u && u <= 0xd) || u == 0x85 || u == 0xa0 || u == 0x1680 || (0x2000 <= u
        && u <= 0x200a) || u == 0x2028 || u == 0x2029 || u == 0x202f || u == 0x205f || u == 0x3000
}

/// ASCII lower-casing of one character: `A`..`Z` map to `a`..`z`, all other
/// characters are unchanged.
pub open spec fn lower_char(c: char) -> char {
    if 0x41 <= c as u32 && c as u32 <= 0x5a {
        ((c as u8) + 0x20) as char
    } else {
        c
    }
}

/// Decides `lower_char` executably.
pub fn to_lower(c: char) -> (r: char)
    ensures
        r == lower_char(c),
{
    let u = c as u32;
    if 0x41 <= u && u <= 0x5a {
        ((c as u8) + 0x20) as char
    } else {
        c
    }
}

/// ASCII lower-casing of a whole character sequence.
pub open spec fn lower_seq(s: Seq<char>) -> Seq<char> {
    s.map_values(|c: char| lower_char(c))
}

/// Number of leading characters of `s` that are whitespace.
pub open spec fn leading_spaces(s: Seq<char>) -> int
    decreases s.len(),
{
    if s.len() == 0 || !is_space_char(s[0]) {
        0
    } else {
        1 + leading_spaces(s.drop_first())
    }
}

/// Number of trailing characters of `s` that are whitespace.
pub open spec fn trailing_spaces(s: Seq<char>) -> int
    decreases s.len(),
{
    if s.len() == 0 || !is_space_char(s[s.len() - 1]) {
        0
    } else {
        1 + trailing_spaces(s.drop_last())
    }
}

/// What `str::trim` leaves: `s` without leading and trailing whitespace.
pub open spec fn trim_seq(s: Seq<char>) -> Seq<char> {
    let a = leading_spaces(s);
    let b = trailing_spaces(s);
    if a + b <= s.len() {
        s.subrange(a, s.len() - b)
    } else {
        Seq::empty()
    }
}

pub proof fn lemma_leading_spaces_bounds(s: Seq<char>)
    ensures
        0 <= leading_spaces(s) <= s.len(),
        forall|i: int| 0 <= i < leading_spaces(s) ==> is_space_char(s[i]),
        leading_spaces(s) < s.len() ==> !is_space_char(s[leading_spaces(s)]),
    decreases s.len(),
{
    if s.len() > 0 && is_space_char(s[0]) {
        lemma_leading_spaces_bounds(s.drop_first());
        assert forall|i: int| 0 <= i < leading_spaces(s) implies is_space_char(s[i]) by {
            if i > 0 {
                assert(s.drop_first()[i - 1] == s[i]);
            }
        }
    }
}

pub proof fn lemma_trailing_spaces_bounds(s: Seq<char>)
    ensures
        0 <= trailing_spaces(s) <= s.len(),
        forall|i: int| s.len() - trailing_spaces(s) <= i < s.len() ==> is_space_char(s[i]),
        trailing_spaces(s) < s.len() ==> !is_space_char(s[s.len() - trailing_spaces(s) - 1]),
    decreases s.len(),
{
    if s.len() > 0 && is_space_char(s[s.len() - 1]) {
        lemma_trailing_spaces_bounds(s.drop_last());
        assert forall|i: int| s.len() - trailing_spaces(s) <= i < s.len() implies is_space_char(
            s[i],
        ) by {
            if i < s.len() - 1 {
                assert(s.drop_last()[i] == s[i]);
            }
        }
    }
}

/// Trims whitespace from both ends of a character vector.
pub fn trim_chars(s: &Vec<char>) -> (r: Vec<char>)
    ensures
        r@ == trim_seq(s@),
{
    let n = s.len();
    let mut a: usize = 0;
    while a < n && is_space(s[a])
        invariant
            0 <= a <= n,
            n == s@.len(),
            forall|i: int| 0 <= i < a ==> is_space_char(s@[i]),
        decreases n - a,
    {
        a = a + 1;
    }
    let mut b: usize = n;
    while b > a && is_space(s[b - 1])
        invariant
            a <= b <= n,
            n == s@.len(),
            forall|i: int| b <= i < n ==> is_space_char(s@[i]),
        decreases b,
    {
        b = b - 1;
    }
    let mut r: Vec<char> = Vec::new();
    let mut i: usize = a;
    while i < b
        invariant
            a <= i <= b <= n,
            n == s@.len(),
            r@ == s@.subrange(a as int, i as int),
        decreases b - i,
    {
        proof {
            assert(s@.subrange(a as int, i + 1) =~= s@.subrange(a as int, i as int).push(
                s@[i as int],
            ));
        }
        r.push(s[i]);
        i = i + 1;
    }
    proof {
        lemma_leading_spaces_bounds(s@);
        lemma_trailing_spaces_bounds(s@);
        if a < n {
            // `a` is the exact count of leading spaces.
            assert(leading_spaces(s@) == a) by {
                if leading_spaces(s@) < a {
                    assert(is_space_char(s@[leading_spaces(s@)]));
                }
            }
            assert(trailing_spaces(s@) == n - b) by {
                if trailing_spaces(s@) < n - b {
                    assert(is_space_char(s@[n - trailing_spaces(s@) - 1]));
                } else if trailing_spaces(s@) > n - b {
                    assert(is_space_char(s@[b - 1]));
                }
            }
            assert(r@ =~= trim_seq(s@));
        } else {
            // The whole vector is whitespace; the trimmed result is empty.
            assert(leading_spaces(s@) == n) by {
                if leading_spaces(s@) < n {
                    assert(is_space_char(s@[leading_spaces(s@)]));
                }
            }
            assert(trailing_spaces(s@) + leading_spaces(s@) >= s@.len() || trim_seq(s@)
                =~= Seq::<char>::empty());
            assert(r@ =~= trim_seq(s@));
        }
    }
    r
}

/// Copies the characters of a string slice into a vector.
pub fn str_to_chars(s: &str) -> (r: Vec<char>)
    ensures
        r@ == s@,
{
    let n = s.unicode_len();
    let mut r: Vec<char> = Vec::new();
    let mut i: usize = 0;
    while i < n
        invariant
            0 <= i <= n,
            n == s@.len(),
            r@ == s@.subrange(0, i as int),
        decreases n - i,
    {
        proof {
            assert(s@.subrange(0, i + 1) =~= s@.subrange(0, i as int).push(s@[i as int]));
        }
        r.push(s.get_char(i));
        i = i + 1;
    }
    proof {
        assert(r@ =~= s@);
    }
    r
}

/// Index of the first occurrence of `c` in `s`, if any.
pub open spec fn find_char(s: Seq<char>, c: char) -> Option<int>
    decreases s.len(),
{
    if s.len() == 0 {
        None
    } else if s[0] == c {
        Some(0)
    } else {
        match find_char(s.drop_first(), c) {
            None => None,
            Some(i) => Some(i + 1),
        }
    }
}

pub proof fn lemma_find_char(s: Seq<char>, c: char)
    ensures
        match find_char(s, c) {
            None => forall|j: int| 0 <= j < s.len() ==> s[j] != c,
            Some(i) => 0 <= i < s.len() && s[i] == c && (forall|j: int| 0 <= j < i ==> s[j] != c),
        },
    decreases s.len(),
{
    if s.len() > 0 && s[0] != c {
        lemma_find_char(s.drop_first(), c);
        assert forall|j: int| 1 <= j < s.len() implies s.drop_first()[j - 1] == s[j] by {}
    }
}

/// Finds the first occurrence of `c` in `v` by a linear scan.
pub fn find_char_vec(v: &Vec<char>, c: char) -> (r: Option<usize>)
    ensures
        match r {
            None => find_char(v@, c) is None,
            Some(i) => find_char(v@, c) == Some(i as int),
        },
{
    let n = v.len();
    let mut i: usize = 0;
    while i < n
        invariant
            0 <= i <= n,
            n == v@.len(),
            forall|j: int| 0 <= j < i ==> v@[j] != c,
        decreases n - i,
    {
        if v[i] == c {
            proof {
                lemma_find_char(v@, c);
            }
            return Some(i);
        }
        i = i + 1;
    }
    proof {
        lemma_find_char(v@, c);
    }
    None
}

/// Whether `pat` occurs in `s` starting at index `i`.
pub open spec fn match_at(s: Seq<char>, pat: Seq<char>, i: int) -> bool {
    0 <= i && i + pat.len() <= s.len() && s.subrange(i, i + pat.len()) == pat
}

/// Index of the first occurrence of the substring `pat` in `s`, if any.
pub open spec fn find_sub(s: Seq<char>, pat: Seq<char>) -> Option<int>
    decreases s.len(),
{
    if pat.len() == 0 {
        Some(0)
    } else if s.len() < pat.len() {
        None
    } else if s.subrange(0, pat.len() as int) == pat {
        Some(0)
    } else {
        match find_sub(s.drop_first(), pat) {
            None => None,
            Some(i) => Some(i + 1),
        }
    }
}

pub proof fn lemma_find_sub(s: Seq<char>, pat: Seq<char>)
    ensures
        match find_sub(s, pat) {
            None => forall|j: int| 0 <= j ==> !match_at(s, pat, j),
            Some(i) => match_at(s, pat, i) && (forall|j: int| 0 <= j < i ==> !match_at(s, pat, j)),
        },
    decreases s.len(),
{
    if pat.len() == 0 {
        assert(s.subrange(0, 0) =~= pat);
    } else if s.len() < pat.len() {
        assert forall|j: int| 0 <= j implies !match_at(s, pat, j) by {}
    } else if s.subrange(0, pat.len() as int) == pat {
    } else {
        lemma_find_sub(s.drop_first(), pat);
        assert forall|j: int| 1 <= j implies match_at(s, pat, j) == match_at(
            s.drop_first(),
            pat,
            j - 1,
        ) by {
            if match_at(s, pat, j) {
                assert(s.drop_first().subrange(j - 1, j - 1 + pat.len()) =~= pat);
            }
            if match_at(s.drop_first(), pat, j - 1) {
                assert(s.subrange(j, j + pat.len()) =~= pat);
            }
        }
        assert(!match_at(s, pat, 0));
    }
}

/// Tests whether `pat` occurs in `v` at position `i`.
fn matches_at_vec(v: &Vec<char>, pat: &Vec<char>, i: usize) -> (r: bool)
    requires
        i + pat@.len() <= v@.len(),
    ensures
        r == match_at(v@, pat@, i as int),
{
    let m = pat.len();
    let n = v.len();
    let mut k: usize = 0;
    while k < m
        invariant
            0 <= k <= m,
            m == pat@.len(),
            n == v@.len(),
            i + m <= n,
            forall|j: int| 0 <= j < k ==> v@[i + j] == pat@[j],
        decreases m - k,
    {
        if v[i + k] != pat[k] {
            proof {
                assert(v@.subrange(i as int, i + pat@.len())[k as int] == v@[i + k]);
            }
            return false;
        }
        k = k + 1;
    }
    proof {
        assert(v@.subrange(i as int, i + pat@.len()) =~= pat@);
    }
    true
}

/// Finds the first occurrence of the substring `pat` in `v`.
pub fn find_sub_vec(v: &Vec<char>, pat: &Vec<char>) -> (r: Option<usize>)
    ensures
        match r {
            None => find_sub(v@, pat@) is None,
            Some(i) => find_sub(v@, pat@) == Some(i as int),
        },
{
    let n = v.len();
    let m = pat.len();
    if m == 0 {
        return Some(0);
    }
    if m > n {
        proof {
            lemma_find_sub(v@, pat@);
        }
        return None;
    }
    let mut i: usize = 0;
    while i <= n - m
        invariant
            0 <= i <= n - m + 1,
            1 <= m <= n,
            n == v@.len(),
            m == pat@.len(),
            forall|j: int| 0 <= j < i ==> !match_at(v@, pat@, j),
        decreases n - i,
    {
        if matches_at_vec(v, pat, i) {
            proof {
                lemma_find_sub(v@, pat@);
            }
            return Some(i);
        }
        i = i + 1;
    }
    proof {
        assert forall|j: int| 0 <= j implies !match_at(v@, pat@, j) by {
            if j <= n - m {
            }
        }
        lemma_find_sub(v@, pat@);
    }
    None
}

/// Index of the last occurrence of `c` in `s`, if any.
pub open spec fn rfind_char(s: Seq<char>, c: char) -> Option<int>
    decreases s.len(),
{
    if s.len() == 0 {
        None
    } else if s[s.len() - 1] == c {
        Some(s.len() - 1)
    } else {
        rfind_char(s.drop_last(), c)
    }
}

pub proof fn lemma_rfind_char(s: Seq<char>, c: char)
    ensures
        match rfind_char(s, c) {
            None => forall|j: int| 0 <= j < s.len() ==> s[j] != c,
            Some(i) => 0 <= i < s.len() && s[i] == c && (forall|j: int|
                i < j < s.len() ==> s[j] != c),
        },
    decreases s.len(),
{
    if s.len() > 0 && s[s.len() - 1] != c {
        lemma_rfind_char(s.drop_last(), c);
        assert forall|j: int| 0 <= j < s.len() - 1 implies s.drop_last()[j] == s[j] by {}
    }
}

/// Finds the last occurrence of `c` in `v` by a backwards scan.
pub fn rfind_char_vec(v: &Vec<char>, c: char) -> (r: Option<usize>)
    ensures
        match r {
            None => rfind_char(v@, c) is None,
            Some(i) => rfind_char(v@, c) == Some(i as int),
        },
{
    let n = v.len();
    let mut i: usize = n;
    while i > 0
        invariant
            0 <= i <= n,
            n == v@.len(),
            forall|j: int| i <= j < n ==> v@[j] != c,
        decreases i,
    {
        i = i - 1;
        if v[i] == c {
            proof {
                lemma_rfind_char(v@, c);
            }
            return Some(i);
        }
    }
    proof {
        lemma_rfind_char(v@, c);
    }
    None
}

pub proof fn lemma_leading_spaces_is(s: Seq<char>, a: int)
    requires
        0 <= a <= s.len(),
        forall|i: int| 0 <= i < a ==> is_space_char(s[i]),
        a < s.len() ==> !is_space_char(s[a]),
    ensures
        leading_spaces(s) == a,
    decreases s.len(),
{
    if s.len() > 0 && is_space_char(s[0]) {
        assert forall|i: int| 0 <= i < a - 1 implies is_space_char(s.drop_first()[i]) by {
            assert(s.drop_first()[i] == s[i + 1]);
        }
        lemma_leading_spaces_is(s.drop_first(), a - 1);
    }
}

/// Number of leading characters of `s` that are not whitespace.
pub open spec fn non_space_prefix(s: Seq<char>) -> int
    decreases s.len(),
{
    if s.len() == 0 || is_space_char(s[0]) {
        0
    } else {
        1 + non_space_prefix(s.drop_first())
    }
}

pub proof fn lemma_non_space_prefix_bounds(s: Seq<char>)
    ensures
        0 <= non_space_prefix(s) <= s.len(),
    decreases s.len(),
{
    if s.len() > 0 && !is_space_char(s[0]) {
        lemma_non_space_prefix_bounds(s.drop_first());
    }
}

pub proof fn lemma_non_space_prefix_is(s: Seq<char>, a: int)
    requires
        0 <= a <= s.len(),
        forall|i: int| 0 <= i < a ==> !is_space_char(s[i]),
        a < s.len() ==> is_space_char(s[a]),
    ensures
        non_space_prefix(s) == a,
    decreases s.len(),
{
    if s.len() > 0 && !is_space_char(s[0]) {
        assert forall|i: int| 0 <= i < a - 1 implies !is_space_char(s.drop_first()[i]) by {
            assert(s.drop_first()[i] == s[i + 1]);
        }
        lemma_non_space_prefix_is(s.drop_first(), a - 1);
    }
}

/// The first whitespace-separated token of `s`; empty when `s` holds only
/// whitespace.
pub open spec fn first_token(s: Seq<char>) -> Seq<char> {
    let a = leading_spaces(s);
    s.subrange(a, a + non_space_prefix(s.skip(a)))
}

/// What remains of `s` after its first whitespace-separated token.
pub open spec fn after_first_token(s: Seq<char>) -> Seq<char> {
    let a = leading_spaces(s);
    s.skip(a + non_space_prefix(s.skip(a)))
}

/// The second whitespace-separated token of `s`; empty when there is none.
pub open spec fn second_token(s: Seq<char>) -> Seq<char> {
    first_token(after_first_token(s))
}

/// Scans `v` from `from`, returning the bounds of the next token: the index
/// of its first character and the index one past its last.
fn token_bounds(v: &Vec<char>, from: usize) -> (r: (usize, usize))
    requires
        from <= v@.len(),
    ensures
        from <= r.0 <= r.1 <= v@.len(),
        leading_spaces(v@.skip(from as int)) == r.0 - from,
        non_space_prefix(v@.skip(r.0 as int)) == r.1 - r.0,
{
    let n = v.len();
    let mut a: usize = from;
    while a < n && is_space(v[a])
        invariant
            from <= a <= n,
            n == v@.len(),
            forall|i: int| from <= i < a ==> is_space_char(v@[i]),
        decreases n - a,
    {
        a = a + 1;
    }
    let mut b: usize = a;
    while b < n && !is_space(v[b])
        invariant
            a <= b <= n,
            n == v@.len(),
            forall|i: int| a <= i < b ==> !is_space_char(v@[i]),
        decreases n - b,
    {
        b = b + 1;
    }
    proof {
        let t = v@.skip(from as int);
        assert forall|i: int| 0 <= i < a - from implies is_space_char(t[i]) by {
            assert(t[i] == v@[from + i]);
        }
        if (a as int) - (from as int) < t.len() {
            assert(t[a - from] == v@[a as int]);
        }
        lemma_leading_spaces_is(t, a - from);
        let u = v@.skip(a as int);
        assert forall|i: int| 0 <= i < b - a implies !is_space_char(u[i]) by {
            assert(u[i] == v@[a + i]);
        }
        if (b as int) - (a as int) < u.len() {
            assert(u[b - a] == v@[b as int]);
        }
        lemma_non_space_prefix_is(u, b - a);
    }
    (a, b)
}

/// Copies `v[from..to]` into a fresh vector.
pub fn copy_range(v: &Vec<char>, from: usize, to: usize) -> (r: Vec<char>)
    requires
        from <= to <= v@.len(),
    ensures
        r@ == v@.subrange(from as int, to as int),
{
    let mut r: Vec<char> = Vec::new();
    let mut i: usize = from;
    while i < to
        invariant
            from <= i <= to <= v@.len(),
            r@ == v@.subrange(from as int, i as int),
        decreases to - i,
    {
        proof {
            assert(v@.subrange(from as int, i + 1) =~= v@.subrange(from as int, i as int).push(
                v@[i as int],
            ));
        }
        r.push(v[i]);
        i = i + 1;
    }
    r
}

/// Extracts the first whitespace-separated token of `v`.
pub fn first_token_vec(v: &Vec<char>) -> (r: Vec<char>)
    ensures
        r@ == first_token(v@),
{
    let (a, b) = token_bounds(v, 0);
    proof {
        assert(v@.skip(0) =~= v@);
    }
    copy_range(v, a, b)
}

/// Extracts the second whitespace-separated token of `v`; the result is
/// empty when `v` has fewer than two tokens.
pub fn second_token_vec(v: &Vec<char>) -> (r: Vec<char>)
    ensures
        r@ == second_token(v@),
{
    let (a, b) = token_bounds(v, 0);
    let (c, d) = token_bounds(v, b);
    proof {
        assert(v@.skip(0) =~= v@);
        let rest = after_first_token(v@);
        assert(rest =~= v@.skip(b as int));
        let t = rest.skip(c - b);
        assert(t =~= v@.skip(c as int));
        assert(first_token(rest) =~= v@.subrange(c as int, d as int));
    }
    copy_range(v, c, d)
}

/// Index of the first whitespace character of `s`, if any.
pub open spec fn find_space(s: Seq<char>) -> Option<int>
    decreases s.len(),
{
    if s.len() == 0 {
        None
    } else if is_space_char(s[0]) {
        Some(0)
    } else {
        match find_space(s.drop_first()) {
            None => None,
            Some(i) => Some(i + 1),
        }
    }
}

pub proof fn lemma_find_space(s: Seq<char>)
    ensures
        match find_space(s) {
            None => forall|j: int| 0 <= j < s.len() ==> !is_space_char(s[j]),
            Some(i) => 0 <= i < s.len() && is_space_char(s[i]) && (forall|j: int|
                0 <= j < i ==> !is_space_char(s[j])),
        },
    decreases s.len(),
{
    if s.len() > 0 && !is_space_char(s[0]) {
        lemma_find_space(s.drop_first());
        assert forall|j: int| 1 <= j < s.len() implies s.drop_first()[j - 1] == s[j] by {}
    }
}

/// Finds the first whitespace character of `v` by a linear scan.
pub fn find_space_vec(v: &Vec<char>) -> (r: Option<usize>)
    ensures
        match r {
            None => find_space(v@) is None,
            Some(i) => find_space(v@) == Some(i as int),
        },
{
    let n = v.len();
    let mut i: usize = 0;
    while i < n
        invariant
            0 <= i <= n,
            n == v@.len(),
            forall|j: int| 0 <= j < i ==> !is_space_char(v@[j]),
        decreases n - i,
    {
        if is_space(v[i]) {
            proof {
                lemma_find_space(v@);
            }
            return Some(i);
        }
        i = i + 1;
    }
    proof {
        lemma_find_space(v@);
    }
    None
}

/// The remainder of `s` after splitting off two parts at single whitespace
/// characters, as `splitn(3, char::is_whitespace)` yields it: `None` when `s`
/// has fewer than two whitespace characters to split at.
pub open spec fn splitn3_rest(s: Seq<char>) -> Option<Seq<char>> {
    match find_space(s) {
        None => None,
        Some(i) => {
            let r = s.skip(i + 1);
            match find_space(r) {
                None => None,
                Some(j) => Some(r.skip(j + 1)),
            }
        },
    }
}

/// Computes `splitn3_rest` on a vector.
pub fn splitn3_rest_vec(v: &Vec<char>) -> (r: Option<Vec<char>>)
    ensures
        match r {
            None => splitn3_rest(v@) is None,
            Some(t) => splitn3_rest(v@) == Some(t@),
        },
{
    match find_space_vec(v) {
        None => None,
        Some(i) => {
            proof {
                lemma_find_space(v@);
            }
            let n = v.len();
            let rest = copy_range(v, i + 1, n);
            proof {
                assert(rest@ =~= v@.skip(i + 1));
            }
            match find_space_vec(&rest) {
                None => None,
                Some(j) => {
                    proof {
                        lemma_find_space(rest@);
                    }
                    let out = copy_range(&rest, j + 1, rest.len());
                    proof {
                        assert(out@ =~= rest@.skip(j + 1));
                    }
                    Some(out)
                },
            }
        },
    }
}

/// Whether the two sequences are equal up to ASCII case.
pub open spec fn eq_ignore_ascii_case(a: Seq<char>, b: Seq<char>) -> bool {
    lower_seq(a) == lower_seq(b)
}

/// Decides `eq_ignore_ascii_case` by a character-wise comparison.
pub fn eq_ignore_case_vec(a: &Vec<char>, b: &Vec<char>) -> (r: bool)
    ensures
        r == eq_ignore_ascii_case(a@, b@),
{
    let n = a.len();
    if n != b.len() {
        proof {
            assert(lower_seq(a@).len() == a@.len());
            assert(lower_seq(b@).len() == b@.len());
        }
        return false;
    }
    let mut i: usize = 0;
    while i < n
        invariant
            0 <= i <= n,
            n == a@.len() && n == b@.len(),
            forall|j: int| 0 <= j < i ==> lower_char(a@[j]) == lower_char(b@[j]),
        decreases n - i,
    {
        if to_lower(a[i]) != to_lower(b[i]) {
            proof {
                assert(lower_seq(a@)[i as int] == lower_char(a@[i as int]));
                assert(lower_seq(b@)[i as int] == lower_char(b@[i as int]));
            }
            return false;
        }
        i = i + 1;
    }
    proof {
        assert(lower_seq(a@) =~= lower_seq(b@));
    }
    true
}

pub proof fn lemma_trailing_spaces_is(s: Seq<char>, b: int)
    requires
        0 <= b <= s.len(),
        forall|i: int| s.len() - b <= i < s.len() ==> is_space_char(s[i]),
        b < s.len() ==> !is_space_char(s[s.len() - b - 1]),
    ensures
        trailing_spaces(s) == b,
    decreases s.len(),
{
    if s.len() > 0 && is_space_char(s[s.len() - 1]) {
        assert forall|i: int|
            s.drop_last().len() - (b - 1) <= i < s.drop_last().len() implies is_space_char(
            s.drop_last()[i],
        ) by {
            assert(s.drop_last()[i] == s[i]);
        }
        lemma_trailing_spaces_is(s.drop_last(), b - 1);
    }
}

/// A line without one trailing carriage return, as `str::lines` yields
/// lines of `\r\n`-terminated text.
pub open spec fn strip_cr(s: Seq<char>) -> Seq<char> {
    if s.len() > 0 && s[s.len() - 1] == '\r' {
        s.drop_last()
    } else {
        s
    }
}

/// The lines of `s`, as `str::lines` yields them: split at every `\n`, one
/// trailing `\r` per split line removed, no final empty line.
pub open spec fn split_lines(s: Seq<char>) -> Seq<Seq<char>>
    decreases s.len(),
    via split_lines_decreases
{
    if s.len() == 0 {
        Seq::empty()
    } else {
        match find_char(s, '\n') {
            None => seq![s],
            Some(i) => seq![strip_cr(s.take(i))] + split_lines(s.skip(i + 1)),
        }
    }
}

#[via_fn]
proof fn split_lines_decreases(s: Seq<char>) {
    lemma_find_char(s, '\n');
}

/// Splitting off one `\n`-terminated line: the head line is `a` (with a
/// trailing `\r` stripped), the tail lines are those of `rest`.
pub proof fn lemma_split_lines_step(a: Seq<char>, rest: Seq<char>)
    requires
        forall|j: int| 0 <= j < a.len() ==> a[j] != '\n',
    ensures
        split_lines(a + seq!['\n'] + rest) == seq![strip_cr(a)] + split_lines(rest),
{
    let t = a + seq!['\n'] + rest;
    assert(t[a.len() as int] == '\n');
    assert forall|j: int| 0 <= j < a.len() implies t[j] != '\n' by {
        assert(t[j] == a[j]);
    }
    lemma_find_char(t, '\n');
    match find_char(t, '\n') {
        None => {
            assert(false);
        },
        Some(i) => {
            if i < a.len() {
                assert(t[i] != '\n');
                assert(false);
            }
            if i > a.len() {
                assert(false);
            }
            assert(t.take(i) =~= a);
            assert(t.skip(i + 1) =~= rest);
        },
    }
}

/// Splits a character vector into its lines.
pub fn split_lines_vec(v: &Vec<char>) -> (r: Vec<Vec<char>>)
    ensures
        r.deep_view() == split_lines(v@),
{
    let n = v.len();
    let mut r: Vec<Vec<char>> = Vec::new();
    let mut pos: usize = 0;
    proof {
        assert(v@.skip(0) =~= v@);
        assert(r.deep_view() + split_lines(v@) =~~= split_lines(v@));
    }
    while pos < n
        invariant
            0 <= pos <= n,
            n == v@.len(),
            split_lines(v@) == r.deep_view() + split_lines(v@.skip(pos as int)),
        decreases n - pos,
    {
        let mut e: usize = pos;
        while e < n && v[e] != '\n'
            invariant
                pos <= e <= n,
                n == v@.len(),
                forall|j: int| pos <= j < e ==> v@[j] != '\n',
            decreases n - e,
        {
            e = e + 1;
        }
        let ghost t = v@.skip(pos as int);
        proof {
            lemma_find_char(t, '\n');
            assert forall|j: int| 0 <= j < e - pos implies t[j] != '\n' by {
                assert(t[j] == v@[pos + j]);
            }
        }
        let mut line = copy_range(v, pos, e);
        if e < n {
            // A terminated line: drop one trailing carriage return.
            proof {
                assert(t[e - pos] == v@[e as int]);
                match find_char(t, '\n') {
                    None => {
                        assert(false);
                    },
                    Some(i) => {
                        if i < e - pos {
                            assert(t[i] != '\n');
                            assert(false);
                        }
                        if i > e - pos {
                            assert(false);
                        }
                    },
                }
                assert(t.take(e - pos) =~= line@);
                assert(t.skip(e - pos + 1) =~= v@.skip(e + 1));
            }
            if line.len() > 0 && line[line.len() - 1] == '\r' {
                line.pop();
            }
            let ghost rd = r.deep_view();
            proof {
                assert(line@ == strip_cr(t.take(e - pos)));
            }
            r.push(line);
            proof {
                assert(r.deep_view() =~~= rd.push(line@));
                assert(rd.push(line@) + split_lines(v@.skip(e + 1)) =~~= rd + split_lines(t));
            }
            pos = e + 1;
        } else {
            // The final, unterminated line is taken whole.
            proof {
                match find_char(t, '\n') {
                    None => {},
                    Some(i) => {
                        assert(t[i] != '\n');
                        assert(false);
                    },
                }
                assert(t =~= line@);
                assert(split_lines(t) == seq![line@]);
            }
            let ghost rd = r.deep_view();
            r.push(line);
            proof {
                assert(r.deep_view() =~~= rd.push(line@));
                assert(split_lines(v@.skip(n as int)) =~= Seq::<Seq<char>>::empty());
                assert(rd.push(line@) + split_lines(v@.skip(n as int)) =~~= rd + split_lines(t));
            }
            pos = n;
        }
    }
    proof {
        assert(split_lines(v@.skip(pos as int)) =~= Seq::<Seq<char>>::empty());
        assert(r.deep_view() + Seq::<Seq<char>>::empty() =~= r.deep_view());
    }
    r
}

/// The digit character for a value in `0..=9`.
pub open spec fn dec_digit(d: int) -> char {
    ((0x30 + d) as u8) as char
}

/// The decimal numeral of `n`, most significant digit first, without
/// leading zeros (except for `n == 0` itself).
pub open spec fn dec_seq(n: nat) -> Seq<char>
    decreases n,
{
    if n < 10 {
        seq![dec_digit(n as int)]
    } else {
        dec_seq(n / 10).push(dec_digit((n % 10) as int))
    }
}

/// A numeral padded on the left with `0` to at least two characters, as the
/// width-two zero-fill format does.
pub open spec fn pad2(s: Seq<char>) -> Seq<char> {
    if s.len() >= 2 {
        s
    } else if s.len() == 1 {
        seq!['0'] + s
    } else {
        seq!['0', '0']
    }
}

/// Renders `n` as its decimal numeral.
pub fn u64_to_dec(n: u64) -> (r: Vec<char>)
    ensures
        r@ == dec_seq(n as nat),
{
    let mut digits: Vec<char> = Vec::new();
    if n == 0 {
        digits.push('0');
        return digits;
    }
    let mut m = n;
    proof {
        assert(dec_seq(n as nat) =~= dec_seq(n as nat) + digits@);
    }
    while m > 0
        invariant
            m > 0 ==> dec_seq(n as nat) == dec_seq(m as nat) + digits@,
            m == 0 ==> dec_seq(n as nat) == digits@,
        decreases m,
    {
        let d = (0x30u8 + (m % 10) as u8) as char;
        let m2 = m / 10;
        proof {
            if m2 > 0 {
                assert(dec_seq(m as nat) == dec_seq(m2 as nat).push(dec_digit((m % 10) as int)));
                assert(dec_seq(m2 as nat) + digits@.insert(0, d) =~= dec_seq(m as nat) + digits@);
            } else {
                assert(dec_seq(m as nat) =~= seq![d]);
                assert(digits@.insert(0, d) =~= dec_seq(m as nat) + digits@);
            }
        }
        digits.insert(0, d);
        m = m2;
    }
    digits
}

/// Whether `c` is a decimal digit.
pub open spec fn is_digit_char(c: char) -> bool {
    0x30 <= c as u32 <= 0x39
}

/// The numeric value of a digit character.
pub open spec fn digit_val(c: char) -> int {
    c as u32 - 0x30
}

/// Whether every character of `s` is a decimal digit.
pub open spec fn all_digits(s: Seq<char>) -> bool {
    forall|i: int| 0 <= i < s.len() ==> is_digit_char(s[i])
}

/// The value of the decimal numeral `s`.
pub open spec fn dec_val(s: Seq<char>) -> int
    decreases s.len(),
{
    if s.len() == 0 {
        0
    } else {
        dec_val(s.drop_last()) * 10 + digit_val(s.last())
    }
}

proof fn lemma_dec_val_nonneg(s: Seq<char>)
    requires
        all_digits(s),
    ensures
        dec_val(s) >= 0,
    decreases s.len(),
{
    if s.len() > 0 {
        lemma_dec_val_nonneg(s.drop_last());
    }
}

proof fn lemma_dec_val_prefix_mono(s: Seq<char>, k: int)
    requires
        all_digits(s),
        0 <= k <= s.len(),
    ensures
        dec_val(s) >= dec_val(s.take(k)),
    decreases s.len(),
{
    if s.len() > 0 && k < s.len() {
        assert(s.drop_last() =~= s.take(s.len() - 1));
        assert(all_digits(s.drop_last()));
        lemma_dec_val_prefix_mono(s.drop_last(), k);
        assert(s.drop_last().take(k) =~= s.take(k));
        lemma_dec_val_nonneg(s.drop_last());
    } else if k == s.len() {
        assert(s.take(k) =~= s);
    }
}

/// What `str::parse::<u32>` returns on `s`: the value of the numeral, with
/// one optional leading `+` sign; `None` on an empty or non-numeric string
/// and on overflow.
pub open spec fn parse_u32_spec(s: Seq<char>) -> Option<u32> {
    let body = if s.len() >= 1 && s[0] == '+' {
        s.drop_first()
    } else {
        s
    };
    if body.len() == 0 || !all_digits(body) {
        None
    } else if dec_val(body) > u32::MAX {
        None
    } else {
        Some(dec_val(body) as u32)
    }
}

/// Parses a decimal `u32` out of `v`.
pub fn parse_u32(v: &Vec<char>) -> (r: Option<u32>)
    ensures
        r == parse_u32_spec(v@),
{
    let n = v.len();
    let b: usize = if n > 0 && v[0] == '+' {
        1
    } else {
        0
    };
    let ghost body = if v@.len() >= 1 && v@[0] == '+' {
        v@.drop_first()
    } else {
        v@
    };
    proof {
        assert(body =~= v@.skip(b as int));
    }
    if n == b {
        return None;
    }
    let mut acc: u64 = 0;
    let mut i: usize = b;
    while i < n
        invariant
            b <= i <= n,
            n == v@.len(),
            body == v@.skip(b as int),
            body == (if v@.len() >= 1 && v@[0] == '+' {
                v@.drop_first()
            } else {
                v@
            }),
            body.len() > 0,
            all_digits(body.take(i - b)),
            acc == dec_val(body.take(i - b)),
            acc <= u32::MAX,
        decreases n - i,
    {
        let c = v[i];
        let u = c as u32;
        proof {
            assert(body[i - b] == v@[i as int]);
            assert(body.take(i + 1 - b).drop_last() =~= body.take(i - b));
        }
        if u < 0x30 || u > 0x39 {
            proof {
                assert(!is_digit_char(body[i - b]));
                assert(!all_digits(body));
            }
            return None;
        }
        let d = (u - 0x30) as u64;
        let next = acc * 10 + d;
        proof {
            assert(all_digits(body.take(i + 1 - b)));
            assert(dec_val(body.take(i + 1 - b)) == next);
        }
        if next > 0xffff_ffff {
            proof {
                if all_digits(body) {
                    lemma_dec_val_prefix_mono(body, i + 1 - b);
                    assert(body.take(body.len() as int) =~= body);
                }
            }
            return None;
        }
        acc = next;
        i = i + 1;
    }
    proof {
        assert(body.take(n - b) =~= body);
    }
    Some(acc as u32)
}

/// Number of leading occurrences of `c` in `s`.
pub open spec fn leading_matching(s: Seq<char>, c: char) -> int
    decreases s.len(),
{
    if s.len() == 0 || s[0] != c {
        0
    } else {
        1 + leading_matching(s.drop_first(), c)
    }
}

/// Number of trailing occurrences of `c` in `s`.
pub open spec fn trailing_matching(s: Seq<char>, c: char) -> int
    decreases s.len(),
{
    if s.len() == 0 || s[s.len() - 1] != c {
        0
    } else {
        1 + trailing_matching(s.drop_last(), c)
    }
}

/// What `str::trim_matches` leaves: `s` without every leading and trailing
/// occurrence of `c`.
pub open spec fn trim_matching(s: Seq<char>, c: char) -> Seq<char> {
    let a = leading_matching(s, c);
    let b = trailing_matching(s, c);
    if a + b <= s.len() {
        s.subrange(a, s.len() - b)
    } else {
        Seq::empty()
    }
}

proof fn lemma_leading_matching_bounds(s: Seq<char>, c: char)
    ensures
        0 <= leading_matching(s, c) <= s.len(),
        forall|i: int| 0 <= i < leading_matching(s, c) ==> s[i] == c,
        leading_matching(s, c) < s.len() ==> s[leading_matching(s, c)] != c,
    decreases s.len(),
{
    if s.len() > 0 && s[0] == c {
        lemma_leading_matching_bounds(s.drop_first(), c);
        assert forall|i: int| 0 <= i < leading_matching(s, c) implies s[i] == c by {
            if i > 0 {
                assert(s.drop_first()[i - 1] == s[i]);
            }
        }
    }
}

proof fn lemma_trailing_matching_bounds(s: Seq<char>, c: char)
    ensures
        0 <= trailing_matching(s, c) <= s.len(),
        forall|i: int| s.len() - trailing_matching(s, c) <= i < s.len() ==> s[i] == c,
        trailing_matching(s, c) < s.len() ==> s[s.len() - trailing_matching(s, c) - 1] != c,
    decreases s.len(),
{
    if s.len() > 0 && s[s.len() - 1] == c {
        lemma_trailing_matching_bounds(s.drop_last(), c);
        assert forall|i: int| s.len() - trailing_matching(s, c) <= i < s.len() implies s[i]
            == c by {
            if i < s.len() - 1 {
                assert(s.drop_last()[i] == s[i]);
            }
        }
    }
}

/// Trims every occurrence of `c` from both ends of a character vector.
pub fn trim_matching_chars(s: &Vec<char>, c: char) -> (r: Vec<char>)
    ensures
        r@ == trim_matching(s@, c),
{
    let n = s.len();
    let mut a: usize = 0;
    while a < n && s[a] == c
        invariant
            0 <= a <= n,
            n == s@.len(),
            forall|i: int| 0 <= i < a ==> s@[i] == c,
        decreases n - a,
    {
        a = a + 1;
    }
    let mut b: usize = n;
    while b > a && s[b - 1] == c
        invariant
            a <= b <= n,
            n == s@.len(),
            forall|i: int| b <= i < n ==> s@[i] == c,
        decreases b,
    {
        b = b - 1;
    }
    let r = copy_range(s, a, b);
    proof {
        lemma_leading_matching_bounds(s@, c);
        lemma_trailing_matching_bounds(s@, c);
        if a < n {
            assert(leading_matching(s@, c) == a) by {
                if leading_matching(s@, c) < a {
                    assert(s@[leading_matching(s@, c)] == c);
                }
            }
            assert(trailing_matching(s@, c) == n - b) by {
                if trailing_matching(s@, c) < n - b {
                    assert(s@[n - trailing_matching(s@, c) - 1] == c);
                } else if trailing_matching(s@, c) > n - b {
                    assert(s@[b - 1] == c);
                }
            }
            assert(r@ =~= trim_matching(s@, c));
        } else {
            assert(leading_matching(s@, c) == n) by {
                if leading_matching(s@, c) < n {
                    assert(s@[leading_matching(s@, c)] == c);
                }
            }
            assert(r@ =~= trim_matching(s@, c));
        }
    }
    r
}

/// Pads a numeral to at least two characters.
pub fn pad2_vec(v: Vec<char>) -> (r: Vec<char>)
    ensures
        r@ == pad2(v@),
{
    let ghost v0 = v@;
    if v.len() >= 2 {
        v
    } else if v.len() == 1 {
        let mut r = v;
        r.insert(0, '0');
        proof {
            assert(r@ =~= seq!['0'] + v0);
        }
        r
    } else {
        let mut r = v;
        r.push('0');
        r.push('0');
        proof {
            assert(r@ =~= seq!['0', '0']);
        }
        r
    }
}

/// Appends every character of `src` to `dst`.
pub fn push_all(dst: &mut Vec<char>, src: &Vec<char>)
    ensures
        final (dst)@ == old(dst)@ + src@,
{
    let n = src.len();
    let mut i: usize = 0;
    while i < n
        invariant
            0 <= i <= n,
            n == src@.len(),
            dst@ == old(dst)@ + src@.subrange(0, i as int),
        decreases n - i,
    {
        proof {
            assert(old(dst)@ + src@.subrange(0, i + 1) =~= (old(dst)@ + src@.subrange(
                0,
                i as int,
            )).push(src@[i as int]));
        }
        dst.push(src[i]);
        i = i + 1;
    }
    proof {
        assert(old(dst)@ + src@.subrange(0, n as int) =~= old(dst)@ + src@);
    }
}

/// Relies on `String::push`: appends the given character to the end of the
/// string.
#[verifier::external_body]
pub(crate) fn push_char(s: &mut String, c: char)
    ensures
        final (s)@ == old(s)@.push(c),
{
    s.push(c);
}

/// Builds a string out of a character vector.
pub fn chars_to_string(v: &Vec<char>) -> (r: String)
    ensures
        r@ == v@,
{
    let mut r = String::new();
    let n = v.len();
    let mut i: usize = 0;
    while i < n
        invariant
            0 <= i <= n,
            n == v@.len(),
            r@ == v@.subrange(0, i as int),
        decreases n - i,
    {
        proof {
            assert(v@.subrange(0, i + 1) =~= v@.subrange(0, i as int).push(v@[i as int]));
        }
        push_char(&mut r, v[i]);
        i = i + 1;
    }
    proof {
        assert(r@ =~= v@);
    }
    r
}

} // verus!
