//! Character-level helpers over `str` and `String`, with their models on `Seq<char>`.
use vstd::prelude::*;

verus! {

/// `c` is an ASCII digit or ASCII letter.
pub open spec fn is_ascii_alnum(c: char) -> bool {
    ('0' <= c && c <= '9') || ('a' <= c && c <= 'z') || ('A' <= c && c <= 'Z')
}

/// ASCII lowercasing of one character; every other character is unchanged.
pub open spec fn ascii_lower(c: char) -> char {
    if 'A' <= c && c <= 'Z' {
        ((c as u32) + 32) as char
    } else {
        c
    }
}

/// ASCII lowercasing of a whole character sequence.
pub open spec fn ascii_lower_seq(s: Seq<char>) -> Seq<char> {
    s.map_values(|c: char| ascii_lower(c))
}

/// Number of bytes in the UTF-8 encoding of `s` (what `str::len` returns).
pub open spec fn utf8_len(s: Seq<char>) -> nat {
    vstd::utf8::encode_utf8(s).len()
}

/// Index of the first occurrence of `c` in `s`, or `s.len()` when `c` does not occur.
pub open spec fn first_index_of(s: Seq<char>, c: char) -> int
    decreases s.len(),
{
    if s.len() == 0 {
        0
    } else if s[0] == c {
        0
    } else {
        1 + first_index_of(s.drop_first(), c)
    }
}

/// `s` starts with `p`.
pub open spec fn has_prefix(s: Seq<char>, p: Seq<char>) -> bool {
    p.len() <= s.len() && s.take(p.len() as int) == p
}

/// What `first_index_of` means: the position of the first `c`, or the length.
pub proof fn lemma_first_index_of(s: Seq<char>, c: char)
    ensures
        0 <= first_index_of(s, c) <= s.len(),
        first_index_of(s, c) < s.len() ==> s[first_index_of(s, c)] == c,
        forall|k: int| 0 <= k < first_index_of(s, c) ==> s[k] != c,
        (first_index_of(s, c) == s.len()) <==> !s.contains(c),
    decreases s.len(),
{
    if s.len() > 0 && s[0] != c {
        lemma_first_index_of(s.drop_first(), c);
        assert forall|k: int| 0 <= k < first_index_of(s, c) implies s[k] != c by {
            if k > 0 {
                assert(s[k] == s.drop_first()[k - 1]);
            }
        }
        if !s.drop_first().contains(c) {
            assert forall|k: int| 0 <= k < s.len() implies s[k] != c by {
                if k > 0 {
                    assert(s[k] == s.drop_first()[k - 1]);
                }
            }
        } else {
            let k = choose|k: int| 0 <= k < s.drop_first().len() && s.drop_first()[k] == c;
            assert(s[k + 1] == c);
        }
    } else if s.len() > 0 {
        assert(s.contains(c)) by {
            assert(s[0] == c);
        }
    }
}

/// The characterisation above determines `first_index_of` uniquely.
pub proof fn lemma_first_index_of_unique(s: Seq<char>, c: char, r: int)
    requires
        0 <= r <= s.len(),
        r < s.len() ==> s[r] == c,
        forall|k: int| 0 <= k < r ==> s[k] != c,
    ensures
        first_index_of(s, c) == r,
{
    lemma_first_index_of(s, c);
    let f = first_index_of(s, c);
    if f < r {
        assert(s[f] != c);
    } else if r < f {
        assert(s[r] == c);
    }
}

/// Every character takes between one and four bytes in UTF-8.
pub proof fn lemma_utf8_len_bounds(s: Seq<char>)
    ensures
        s.len() <= utf8_len(s) <= 4 * s.len(),
    decreases s.len(),
{
    if s.len() > 0 {
        lemma_utf8_len_bounds(s.drop_first());
        let c = s[0] as u32;
        let e = vstd::utf8::encode_scalar(c);
        assert(1 <= e.len() <= 4);
    }
}

/// The UTF-8 byte length of `s` when it is at most `limit`; otherwise `limit + 1`.
pub fn utf8_len_upto(s: &str, limit: usize) -> (r: usize)
    requires
        limit <= 4096,
    ensures
        (r <= limit) == (utf8_len(s@) <= limit),
        r <= limit ==> r == utf8_len(s@),
        r > limit ==> r == limit + 1,
{
    let nc = s.unicode_len();
    proof {
        lemma_utf8_len_bounds(s@);
    }
    if nc > limit {
        return limit + 1;
    }
    let len = s.len();
    if len > limit {
        limit + 1
    } else {
        len
    }
}

/// `s` with every occurrence of `c` removed.
pub open spec fn without_char(s: Seq<char>, c: char) -> Seq<char>
    decreases s.len(),
{
    if s.len() == 0 {
        seq![]
    } else if s.last() == c {
        without_char(s.drop_last(), c)
    } else {
        without_char(s.drop_last(), c).push(s.last())
    }
}

/// Appends every byte of `other` to `v`.
pub fn extend_bytes(v: &mut Vec<u8>, other: &[u8])
    ensures
        final(v)@ == old(v)@ + other@,
{
    let mut i: usize = 0;
    while i < other.len()
        invariant
            i <= other@.len(),
            v@ == old(v)@ + other@.take(i as int),
        decreases other@.len() - i,
    {
        v.push(other[i]);
        proof {
            assert(other@.take(i + 1) == other@.take(i as int).push(other@[i as int]));
        }
        i = i + 1;
    }
    proof {
        assert(other@.take(other@.len() as int) == other@);
    }
}

/// Copy of `s` with every occurrence of `c` removed.
pub fn remove_char(s: &str, c: char) -> (r: String)
    ensures
        r@ == without_char(s@, c),
{
    let n = s.unicode_len();
    let mut out = String::new();
    let mut i: usize = 0;
    while i < n
        invariant
            i <= n,
            n == s@.len(),
            out@ == without_char(s@.take(i as int), c),
        decreases n - i,
    {
        let x = s.get_char(i);
        proof {
            assert(s@.take(i + 1).drop_last() == s@.take(i as int));
        }
        if x != c {
            push_char(&mut out, x);
        }
        i = i + 1;
    }
    proof {
        assert(s@.take(n as int) == s@);
    }
    out
}

/// The ASCII digit for `d` (`0 <= d < 10`).
pub open spec fn digit_char(d: nat) -> char {
    ((48 + d) as u8) as char
}

/// Decimal notation of `n`, without leading zeros.
pub open spec fn decimal(n: nat) -> Seq<char>
    decreases n,
{
    if n < 10 {
        seq![digit_char(n)]
    } else {
        decimal(n / 10).push(digit_char(n % 10))
    }
}

/// Decimal notation of `n` (what `n.to_string()` gives).
pub fn usize_to_decimal(n: usize) -> (r: String)
    ensures
        r@ == decimal(n as nat),
    decreases n,
{
    if n < 10 {
        let b: u8 = 48 + (n as u8);
        let mut s = String::new();
        push_char(&mut s, b as char);
        s
    } else {
        let mut s = usize_to_decimal(n / 10);
        let b: u8 = 48 + ((n % 10) as u8);
        push_char(&mut s, b as char);
        s
    }
}

/// `s` with every `from` character replaced by `to`.
pub open spec fn replace_char(s: Seq<char>, from: char, to: char) -> Seq<char> {
    s.map_values(|c: char| if c == from { to } else { c })
}

/// `s` with every occurrence of `pat` replaced by `rep`, scanning from the left without
/// overlaps (what `str::replace` does).
pub open spec fn replace_all(s: Seq<char>, pat: Seq<char>, rep: Seq<char>) -> Seq<char>
    recommends
        pat.len() > 0,
    decreases s.len(),
{
    if s.len() == 0 || pat.len() == 0 {
        s
    } else if pat.len() <= s.len() && s.take(pat.len() as int) == pat {
        rep + replace_all(s.skip(pat.len() as int), pat, rep)
    } else {
        seq![s[0]] + replace_all(s.drop_first(), pat, rep)
    }
}

/// Copy of `s` with every `from` character replaced by `to`.
pub fn replace_char_str(s: &str, from: char, to: char) -> (r: String)
    ensures
        r@ == replace_char(s@, from, to),
{
    let n = s.unicode_len();
    let mut out = String::new();
    let mut i: usize = 0;
    while i < n
        invariant
            i <= n,
            n == s@.len(),
            out@ == replace_char(s@.take(i as int), from, to),
        decreases n - i,
    {
        let c = s.get_char(i);
        let d = if c == from { to } else { c };
        push_char(&mut out, d);
        proof {
            assert(s@.take(i + 1) == s@.take(i as int).push(c));
            assert(replace_char(s@.take(i + 1), from, to) =~= replace_char(s@.take(i as int), from, to).push(d));
        }
        i = i + 1;
    }
    proof {
        assert(s@.take(n as int) == s@);
    }
    out
}

/// Whether the characters of `s` at `i ..` start with `p`.
pub fn matches_at(s: &str, i: usize, p: &str) -> (b: bool)
    requires
        i <= s@.len(),
    ensures
        b == (p@.len() <= s@.len() - i && s@.skip(i as int).take(p@.len() as int) == p@),
{
    let n = s.unicode_len();
    let m = p.unicode_len();
    if m > n - i {
        return false;
    }
    let mut k: usize = 0;
    while k < m
        invariant
            k <= m,
            m <= n - i,
            n == s@.len(),
            m == p@.len(),
            forall|j: int| 0 <= j < k ==> s@[i + j] == p@[j],
        decreases m - k,
    {
        if s.get_char(i + k) != p.get_char(k) {
            proof {
                assert(s@.skip(i as int).take(m as int)[k as int] != p@[k as int]);
            }
            return false;
        }
        k = k + 1;
    }
    proof {
        assert(s@.skip(i as int).take(m as int) =~= p@);
    }
    true
}

/// `str::replace`: every occurrence of `pat` replaced by `rep`, from left to right.
pub fn replace_str(s: &str, pat: &str, rep: &str) -> (r: String)
    requires
        pat@.len() > 0,
    ensures
        r@ == replace_all(s@, pat@, rep@),
{
    let n = s.unicode_len();
    let m = pat.unicode_len();
    let mut out = String::new();
    let mut i: usize = 0;
    proof {
        assert(s@.skip(0) =~= s@);
        assert(out@ + replace_all(s@, pat@, rep@) =~= replace_all(s@, pat@, rep@));
    }
    while i < n
        invariant
            i <= n,
            n == s@.len(),
            m == pat@.len(),
            m > 0,
            out@ + replace_all(s@.skip(i as int), pat@, rep@) == replace_all(s@, pat@, rep@),
        decreases n - i,
    {
        let ghost rest = s@.skip(i as int);
        if matches_at(s, i, pat) {
            proof {
                assert(rest.skip(m as int) =~= s@.skip(i + m));
            }
            out.append(rep);
            i = i + m;
        } else {
            let c = s.get_char(i);
            proof {
                assert(rest.drop_first() =~= s@.skip(i + 1));
                assert(rest[0] == c);
            }
            push_char(&mut out, c);
            i = i + 1;
        }
    }
    proof {
        assert(s@.skip(n as int) =~= Seq::<char>::empty());
    }
    out
}

/// `s` without all trailing `c` characters (`str::trim_end_matches(c)`).
pub open spec fn trim_end_all(s: Seq<char>, c: char) -> Seq<char>
    decreases s.len(),
{
    if s.len() > 0 && s.last() == c {
        trim_end_all(s.drop_last(), c)
    } else {
        s
    }
}

/// `s` without all leading `c` characters (`str::trim_start_matches(c)`).
pub open spec fn trim_start_all(s: Seq<char>, c: char) -> Seq<char>
    decreases s.len(),
{
    if s.len() > 0 && s[0] == c {
        trim_start_all(s.drop_first(), c)
    } else {
        s
    }
}

/// Whether `c` is Unicode white space (`char::is_whitespace`: the `White_Space` property):
/// U+0009 to U+000D, U+0020, U+0085, U+00A0, U+1680, U+2000 to U+200A, U+2028, U+2029, U+202F,
/// U+205F and U+3000.
pub open spec fn unicode_white_space(c: char) -> bool {
    let v = c as u32;
    ||| 0x9 <= v <= 0xd
    ||| v == 0x20
    ||| v == 0x85
    ||| v == 0xa0
    ||| v == 0x1680
    ||| 0x2000 <= v <= 0x200a
    ||| v == 0x2028
    ||| v == 0x2029
    ||| v == 0x202f
    ||| v == 0x205f
    ||| v == 0x3000
}

/// Whether `c` is Unicode white space (what `char::is_whitespace` answers).
pub(crate) fn char_is_whitespace(c: char) -> (b: bool)
    ensures
        b == unicode_white_space(c),
{
    let v = c as u32;
    (0x9 <= v && v <= 0xd) || v == 0x20 || v == 0x85 || v == 0xa0 || v == 0x1680 || (0x2000 <= v
        && v <= 0x200a) || v == 0x2028 || v == 0x2029 || v == 0x202f || v == 0x205f || v == 0x3000
}

/// `s` without trailing white space.
pub open spec fn trim_end_ws(s: Seq<char>) -> Seq<char>
    decreases s.len(),
{
    if s.len() > 0 && unicode_white_space(s.last()) {
        trim_end_ws(s.drop_last())
    } else {
        s
    }
}

/// `s` without leading white space.
pub open spec fn trim_start_ws(s: Seq<char>) -> Seq<char>
    decreases s.len(),
{
    if s.len() > 0 && unicode_white_space(s[0]) {
        trim_start_ws(s.drop_first())
    } else {
        s
    }
}

/// Last index `e` such that `s[.. e]` is `s` without trailing `c`s.
proof fn lemma_trim_end_all_take(s: Seq<char>, c: char, e: int)
    requires
        0 <= e <= s.len(),
        forall|k: int| e <= k < s.len() ==> s[k] == c,
        e == 0 || s[e - 1] != c,
    ensures
        trim_end_all(s, c) == s.take(e),
    decreases s.len(),
{
    if s.len() > e {
        lemma_trim_end_all_take(s.drop_last(), c, e);
        assert(s.drop_last().take(e) == s.take(e));
    } else {
        assert(s.take(e) == s);
    }
}

proof fn lemma_trim_start_all_skip(s: Seq<char>, c: char, b: int)
    requires
        0 <= b <= s.len(),
        forall|k: int| 0 <= k < b ==> s[k] == c,
        b == s.len() || s[b] != c,
    ensures
        trim_start_all(s, c) == s.skip(b),
    decreases b,
{
    if b > 0 {
        assert forall|k: int| 0 <= k < b - 1 implies s.drop_first()[k] == c by {
            assert(s.drop_first()[k] == s[k + 1]);
        }
        lemma_trim_start_all_skip(s.drop_first(), c, b - 1);
        assert(s.drop_first().skip(b - 1) == s.skip(b));
    } else {
        assert(s.skip(0) == s);
    }
}

proof fn lemma_trim_end_ws_take(s: Seq<char>, e: int)
    requires
        0 <= e <= s.len(),
        forall|k: int| e <= k < s.len() ==> unicode_white_space(s[k]),
        e == 0 || !unicode_white_space(s[e - 1]),
    ensures
        trim_end_ws(s) == s.take(e),
    decreases s.len(),
{
    if s.len() > e {
        lemma_trim_end_ws_take(s.drop_last(), e);
        assert(s.drop_last().take(e) == s.take(e));
    } else {
        assert(s.take(e) == s);
    }
}

proof fn lemma_trim_start_ws_skip(s: Seq<char>, b: int)
    requires
        0 <= b <= s.len(),
        forall|k: int| 0 <= k < b ==> unicode_white_space(s[k]),
        b == s.len() || !unicode_white_space(s[b]),
    ensures
        trim_start_ws(s) == s.skip(b),
    decreases b,
{
    if b > 0 {
        assert forall|k: int| 0 <= k < b - 1 implies unicode_white_space(s.drop_first()[k]) by {
            assert(s.drop_first()[k] == s[k + 1]);
        }
        lemma_trim_start_ws_skip(s.drop_first(), b - 1);
        assert(s.drop_first().skip(b - 1) == s.skip(b));
    } else {
        assert(s.skip(0) == s);
    }
}

/// `str::trim_end_matches(c)`.
pub fn trim_end_char(s: &str, c: char) -> (r: &str)
    ensures
        r@ == trim_end_all(s@, c),
{
    let n = s.unicode_len();
    let mut e = n;
    while e > 0 && s.get_char(e - 1) == c
        invariant
            e <= n,
            n == s@.len(),
            forall|k: int| e <= k < n ==> s@[k] == c,
        decreases e,
    {
        e = e - 1;
    }
    proof {
        lemma_trim_end_all_take(s@, c, e as int);
    }
    s.substring_char(0, e)
}

/// `str::trim_matches(c)`: all leading and trailing `c` characters removed.
pub fn trim_char(s: &str, c: char) -> (r: &str)
    ensures
        r@ == trim_start_all(trim_end_all(s@, c), c),
{
    let t = trim_end_char(s, c);
    let n = t.unicode_len();
    let mut b: usize = 0;
    while b < n && t.get_char(b) == c
        invariant
            b <= n,
            n == t@.len(),
            forall|k: int| 0 <= k < b ==> t@[k] == c,
        decreases n - b,
    {
        b = b + 1;
    }
    proof {
        lemma_trim_start_all_skip(t@, c, b as int);
    }
    t.substring_char(b, n)
}

/// `str::trim`: leading and trailing white space removed.
pub fn trim_whitespace(s: &str) -> (r: &str)
    ensures
        r@ == trim_start_ws(trim_end_ws(s@)),
{
    let n = s.unicode_len();
    let mut e = n;
    while e > 0 && char_is_whitespace(s.get_char(e - 1))
        invariant
            e <= n,
            n == s@.len(),
            forall|k: int| e <= k < n ==> unicode_white_space(s@[k]),
        decreases e,
    {
        e = e - 1;
    }
    proof {
        lemma_trim_end_ws_take(s@, e as int);
    }
    let t = s.substring_char(0, e);
    let mut b: usize = 0;
    while b < e && char_is_whitespace(t.get_char(b))
        invariant
            b <= e,
            e == t@.len(),
            forall|k: int| 0 <= k < b ==> unicode_white_space(t@[k]),
        decreases e - b,
    {
        b = b + 1;
    }
    proof {
        lemma_trim_start_ws_skip(t@, b as int);
    }
    t.substring_char(b, e)
}

/// Appends one character to a `String` (`String::push`).
#[verifier::external_body]
pub(crate) fn push_char(s: &mut String, c: char)
    ensures
        final(s)@ == old(s)@.push(c),
{
    s.push(c)
}

/// Position of the first `c` in `s` at or after `from` (character index), or the length of `s`.
pub fn find_char_from(s: &str, c: char, from: usize) -> (r: usize)
    requires
        from <= s@.len(),
    ensures
        r == from + first_index_of(s@.skip(from as int), c),
        from <= r <= s@.len(),
{
    let n = s.unicode_len();
    let mut i = from;
    while i < n
        invariant
            from <= i <= n,
            n == s@.len(),
            forall|k: int| from <= k < i ==> s@[k] != c,
        decreases n - i,
    {
        if s.get_char(i) == c {
            proof {
                lemma_first_index_of_unique(s@.skip(from as int), c, (i - from) as int);
            }
            return i;
        }
        i = i + 1;
    }
    proof {
        lemma_first_index_of_unique(s@.skip(from as int), c, (n - from) as int);
    }
    n
}

/// Whether `c` occurs in `s`.
pub fn contains_char(s: &str, c: char) -> (b: bool)
    ensures
        b == s@.contains(c),
{
    let r = find_char_from(s, c, 0);
    proof {
        assert(s@.skip(0) == s@);
        lemma_first_index_of(s@, c);
    }
    r < s.unicode_len()
}

/// ASCII lowercasing of one character.
pub fn lower_char(c: char) -> (r: char)
    ensures
        r == ascii_lower(c),
{
    if 'A' <= c && c <= 'Z' {
        let code: u8 = (c as u8) + 32;
        code as char
    } else {
        c
    }
}

/// ASCII lowercasing of a whole string (`str::to_ascii_lowercase`).
pub fn to_ascii_lower(s: &str) -> (r: String)
    ensures
        r@ == ascii_lower_seq(s@),
{
    let n = s.unicode_len();
    let mut out = String::new();
    let mut i: usize = 0;
    while i < n
        invariant
            i <= n,
            n == s@.len(),
            out@ == ascii_lower_seq(s@.take(i as int)),
        decreases n - i,
    {
        let c = s.get_char(i);
        let l = lower_char(c);
        push_char(&mut out, l);
        proof {
            assert(s@.take(i + 1) == s@.take(i as int).push(c));
        }
        i = i + 1;
    }
    proof {
        assert(s@.take(n as int) == s@);
    }
    out
}

/// Owned copy of a string slice.
pub fn to_owned_string(s: &str) -> (r: String)
    ensures
        r@ == s@,
{
    s.to_owned()
}

/// `a` followed by `b`, as a new `String`.
pub fn concat_str(a: &str, b: &str) -> (r: String)
    ensures
        r@ == a@ + b@,
{
    let mut out = a.to_owned();
    out.append(b);
    out
}

/// Whether `s` starts with `p`.
pub fn starts_with_str(s: &str, p: &str) -> (b: bool)
    ensures
        b == has_prefix(s@, p@),
{
    let n = s.unicode_len();
    let m = p.unicode_len();
    if m > n {
        return false;
    }
    let mut i: usize = 0;
    while i < m
        invariant
            i <= m <= n,
            n == s@.len(),
            m == p@.len(),
            forall|k: int| 0 <= k < i ==> s@[k] == p@[k],
        decreases m - i,
    {
        if s.get_char(i) != p.get_char(i) {
            proof {
                assert(s@.take(m as int)[i as int] != p@[i as int]);
            }
            return false;
        }
        i = i + 1;
    }
    proof {
        assert(s@.take(m as int) =~= p@);
    }
    true
}

} // verus!
