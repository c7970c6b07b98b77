//! JSON text of strings and integers, as serde_json writes them: writing and reading back.
use vstd::prelude::*;

use crate::text::{decimal, digit_char, push_char, usize_to_decimal};

verus! {

/// Lowercase hexadecimal digit for `0 <= v < 16`.
pub open spec fn hex_char(v: int) -> char {
    if v < 10 {
        ('0' as int + v) as char
    } else {
        ('a' as int + (v - 10)) as char
    }
}

/// The JSON text of one character inside a string literal, as serde_json writes it:
/// `"` and `\` and the control characters are escaped (`\b \t \n \f \r` by name, the other
/// control characters as `\u00XX`); every other character stands for itself.
pub open spec fn escape_json_char(c: char) -> Seq<char> {
    if c == '"' {
        seq!['\\', '"']
    } else if c == '\\' {
        seq!['\\', '\\']
    } else if c == '\n' {
        seq!['\\', 'n']
    } else if c == '\r' {
        seq!['\\', 'r']
    } else if c == '\t' {
        seq!['\\', 't']
    } else if c == '\x08' {
        seq!['\\', 'b']
    } else if c == '\x0c' {
        seq!['\\', 'f']
    } else if (c as u32) < 0x20 {
        seq!['\\', 'u', '0', '0', hex_char(((c as u32) as int) / 16), hex_char(((c as u32) as int) % 16)]
    } else {
        seq![c]
    }
}

/// The escaped JSON text of a character sequence.
pub open spec fn escape_json(s: Seq<char>) -> Seq<char>
    decreases s.len(),
{
    if s.len() == 0 {
        seq![]
    } else {
        escape_json_char(s[0]) + escape_json(s.drop_first())
    }
}

/// A JSON string literal: `"` + escaped text + `"`.
pub open spec fn json_string(s: Seq<char>) -> Seq<char> {
    seq!['"'] + escape_json(s) + seq!['"']
}

/// A JSON integer literal.
pub open spec fn json_int(n: i64) -> Seq<char> {
    if n < 0 {
        seq!['-'] + decimal((-(n as int)) as nat)
    } else {
        decimal(n as nat)
    }
}

pub proof fn lemma_escape_concat(a: Seq<char>, b: Seq<char>)
    ensures
        escape_json(a + b) == escape_json(a) + escape_json(b),
    decreases a.len(),
{
    if a.len() == 0 {
        assert(a + b == b);
    } else {
        lemma_escape_concat(a.drop_first(), b);
        assert((a + b).drop_first() == a.drop_first() + b);
    }
}

proof fn lemma_escape_push(a: Seq<char>, c: char)
    ensures
        escape_json(a.push(c)) == escape_json(a) + escape_json_char(c),
{
    lemma_escape_concat(a, seq![c]);
    assert(a + seq![c] == a.push(c));
    assert(escape_json(seq![c]) == escape_json_char(c) + escape_json(seq![c].drop_first()));
    assert(seq![c].drop_first() == Seq::<char>::empty());
}

/// The escape of a character never begins with `"`.
proof fn lemma_escape_char_head(c: char)
    ensures
        escape_json_char(c).len() >= 1,
        escape_json_char(c)[0] != '"',
        escape_json_char(c)[0] == '\\' || (escape_json_char(c) == seq![c] && (c as u32) >= 0x20
            && c != '"' && c != '\\'),
{
}

/// A non-empty escape never begins with `"`.
proof fn lemma_escape_head(s: Seq<char>)
    requires
        s.len() > 0,
    ensures
        escape_json(s).len() > 0,
        escape_json(s)[0] == escape_json_char(s[0])[0],
        escape_json(s)[0] != '"',
{
    lemma_escape_char_head(s[0]);
}

/// Writes one character's escape to `out`.
fn push_escaped_char(out: &mut String, c: char)
    ensures
        final(out)@ == old(out)@ + escape_json_char(c),
{
    if c == '"' {
        push_char(out, '\\');
        push_char(out, '"');
    } else if c == '\\' {
        push_char(out, '\\');
        push_char(out, '\\');
    } else if c == '\n' {
        push_char(out, '\\');
        push_char(out, 'n');
    } else if c == '\r' {
        push_char(out, '\\');
        push_char(out, 'r');
    } else if c == '\t' {
        push_char(out, '\\');
        push_char(out, 't');
    } else if c == '\x08' {
        push_char(out, '\\');
        push_char(out, 'b');
    } else if c == '\x0c' {
        push_char(out, '\\');
        push_char(out, 'f');
    } else if (c as u32) < 0x20 {
        let v = c as u32;
        push_char(out, '\\');
        push_char(out, 'u');
        push_char(out, '0');
        push_char(out, '0');
        push_char(out, hex_digit((v / 16) as u8));
        push_char(out, hex_digit((v % 16) as u8));
    } else {
        push_char(out, c);
    }
    proof {
        assert(final(out)@ =~= old(out)@ + escape_json_char(c));
    }
}

/// Lowercase hexadecimal digit.
pub(crate) fn hex_digit(v: u8) -> (c: char)
    requires
        v < 16,
    ensures
        c == hex_char(v as int),
{
    if v < 10 {
        (48 + v) as char
    } else {
        (97 + (v - 10)) as char
    }
}

/// Appends the JSON string literal of `s` to `out`.
pub fn push_json_string(out: &mut String, s: &str)
    ensures
        final(out)@ == old(out)@ + json_string(s@),
{
    push_char(out, '"');
    let n = s.unicode_len();
    let mut i: usize = 0;
    while i < n
        invariant
            i <= n,
            n == s@.len(),
            out@ == old(out)@ + seq!['"'] + escape_json(s@.take(i as int)),
        decreases n - i,
    {
        let c = s.get_char(i);
        proof {
            assert(s@.take(i + 1) == s@.take(i as int).push(c));
            lemma_escape_push(s@.take(i as int), c);
        }
        push_escaped_char(out, c);
        i = i + 1;
    }
    push_char(out, '"');
    proof {
        assert(s@.take(n as int) == s@);
        assert(out@ =~= old(out)@ + json_string(s@));
    }
}

/// Appends the JSON integer literal of `n` to `out`.
pub fn push_json_int(out: &mut String, n: i64)
    ensures
        final(out)@ == old(out)@ + json_int(n),
{
    if n < 0 {
        push_char(out, '-');
        let m: u64 = if n == i64::MIN {
            0x8000_0000_0000_0000u64
        } else {
            (-n) as u64
        };
        let d = u64_to_decimal(m);
        out.append(d.as_str());
        proof {
            assert(m as int == -(n as int));
        }
    } else {
        let d = u64_to_decimal(n as u64);
        out.append(d.as_str());
    }
}

/// Decimal notation of a `u64`.
pub fn u64_to_decimal(n: u64) -> (r: String)
    ensures
        r@ == decimal(n as nat),
    decreases n,
{
    if n < 10 {
        let b: u8 = 48 + (n as u8);
        let mut s = String::new();
        push_char(&mut s, b as char);
        s
    } else {
        let mut s = u64_to_decimal(n / 10);
        let b: u8 = 48 + ((n % 10) as u8);
        push_char(&mut s, b as char);
        s
    }
}

// ---------------------------------------------------------------------------
// Reading back
// ---------------------------------------------------------------------------

/// The value of a lowercase hexadecimal digit.
pub open spec fn hex_value(c: char) -> Option<int> {
    if '0' <= c && c <= '9' {
        Some(c as int - '0' as int)
    } else if 'a' <= c && c <= 'f' {
        Some(c as int - 'a' as int + 10)
    } else {
        None
    }
}

proof fn lemma_hex_roundtrip(v: int)
    requires
        0 <= v < 16,
    ensures
        hex_value(hex_char(v)) == Some(v),
{
}

/// If two escapes agree on a common continuation, they are escapes of the same character.
proof fn lemma_escape_char_unique(a: char, b: char, x: Seq<char>, y: Seq<char>)
    requires
        escape_json_char(a) + x == escape_json_char(b) + y,
    ensures
        a == b,
        x == y,
{
    let ea = escape_json_char(a);
    let eb = escape_json_char(b);
    let l = ea + x;
    assert(l[0] == ea[0] && l[0] == eb[0]);
    if ea.len() > 1 {
        assert(l[1] == ea[1]);
    }
    if eb.len() > 1 {
        assert(l[1] == eb[1]);
    }
    if ea.len() == 6 && eb.len() == 6 {
        assert(l[4] == ea[4] && l[4] == eb[4]);
        assert(l[5] == ea[5] && l[5] == eb[5]);
        let va = a as u32;
        let vb = b as u32;
        lemma_hex_roundtrip((va / 16) as int);
        lemma_hex_roundtrip((vb / 16) as int);
        lemma_hex_roundtrip((va % 16) as int);
        lemma_hex_roundtrip((vb % 16) as int);
        assert(va == vb);
        vstd::utf8::char_u32_cast(a, va);
        vstd::utf8::char_u32_cast(b, vb);
    }
    assert(ea.len() == eb.len());
    assert(ea =~= eb);
    assert(x =~= l.skip(ea.len() as int));
    assert(y =~= l.skip(eb.len() as int));
}

/// The decoder's view: if the escape of `d` followed by `y` is the escape of `s` followed by
/// a closing quote and `r`, then `d` is a prefix of `s` and `y` continues with the escape of
/// the rest.
proof fn lemma_escape_prefix(d: Seq<char>, y: Seq<char>, s: Seq<char>, r: Seq<char>)
    requires
        escape_json(d) + y == escape_json(s) + seq!['"'] + r,
    ensures
        d.len() <= s.len(),
        s.take(d.len() as int) == d,
        y == escape_json(s.skip(d.len() as int)) + seq!['"'] + r,
    decreases d.len(),
{
    if d.len() == 0 {
        assert(escape_json(d) + y == y);
        assert(s.skip(0) == s);
    } else {
        if s.len() == 0 {
            lemma_escape_head(d);
            assert((escape_json(d) + y)[0] == escape_json(d)[0]);
            assert((escape_json(s) + seq!['"'] + r)[0] == '"');
        } else {
            let a = d[0];
            let b = s[0];
            assert(escape_json(d) == escape_json_char(a) + escape_json(d.drop_first()));
            assert(escape_json(s) == escape_json_char(b) + escape_json(s.drop_first()));
            let x = escape_json(d.drop_first()) + y;
            let z = escape_json(s.drop_first()) + seq!['"'] + r;
            assert(escape_json_char(a) + x == escape_json(d) + y);
            assert(escape_json_char(b) + z == escape_json(s) + seq!['"'] + r);
            lemma_escape_char_unique(a, b, x, z);
            lemma_escape_prefix(d.drop_first(), y, s.drop_first(), r);
            assert(s.drop_first().skip(d.drop_first().len() as int) == s.skip(d.len() as int));
            assert(s.take(d.len() as int) =~= seq![b] + s.drop_first().take(d.drop_first().len() as int));
            assert(d =~= seq![a] + d.drop_first());
        }
    }
}

/// A JSON string literal ends where its closing quote stands: two literals followed by
/// continuations agree only when the strings and the continuations agree.
pub proof fn lemma_json_string_unique(a: Seq<char>, b: Seq<char>, x: Seq<char>, y: Seq<char>)
    requires
        json_string(a) + x == json_string(b) + y,
    ensures
        a == b,
        x == y,
{
    let l = json_string(a) + x;
    assert(json_string(a) + x =~= seq!['"'] + (escape_json(a) + (seq!['"'] + x)));
    assert(json_string(b) + y =~= seq!['"'] + (escape_json(b) + (seq!['"'] + y)));
    let la = escape_json(a) + (seq!['"'] + x);
    let lb = escape_json(b) + (seq!['"'] + y);
    assert(la =~= l.drop_first());
    assert(lb =~= l.drop_first());
    assert(escape_json(a) + (seq!['"'] + x) == escape_json(b) + seq!['"'] + y) by {
        assert(escape_json(b) + seq!['"'] + y =~= lb);
    }
    lemma_escape_prefix(a, seq!['"'] + x, b, y);
    assert(escape_json(b) + (seq!['"'] + y) == escape_json(a) + seq!['"'] + x) by {
        assert(escape_json(a) + seq!['"'] + x =~= la);
    }
    lemma_escape_prefix(b, seq!['"'] + y, a, x);
    assert(a.len() == b.len());
    assert(a =~= a.take(b.len() as int));
    assert(b =~= b.take(a.len() as int));
    assert(a.skip(a.len() as int) =~= Seq::<char>::empty());
    assert(escape_json(Seq::<char>::empty()) =~= Seq::<char>::empty());
    assert(seq!['"'] + x =~= seq!['"'] + y);
    assert(x =~= (seq!['"'] + x).drop_first());
    assert(y =~= (seq!['"'] + y).drop_first());
}

/// A JSON integer literal followed by a continuation that does not start with a digit is
/// read back unambiguously.
pub proof fn lemma_json_int_unique(a: i64, b: i64, x: Seq<char>, y: Seq<char>)
    requires
        json_int(a) + x == json_int(b) + y,
        x.len() == 0 || !is_digit(x[0]),
        y.len() == 0 || !is_digit(y[0]),
    ensures
        a == b,
        x == y,
{
    let ma: nat = if a < 0 { (-(a as int)) as nat } else { a as nat };
    let mb: nat = if b < 0 { (-(b as int)) as nat } else { b as nat };
    lemma_decimal_canonical(ma);
    lemma_decimal_canonical(mb);
    let da = decimal(ma);
    let db = decimal(mb);
    let l = json_int(a) + x;
    // The sign agrees.
    assert(is_digit(da[0]));
    assert(is_digit(db[0]));
    assert(l[0] == json_int(a)[0]);
    assert(l[0] == (json_int(b) + y)[0]);
    assert((a < 0) == (b < 0));
    let off: int = if a < 0 { 1 } else { 0 };
    assert(json_int(a) == if a < 0 { seq!['-'] + da } else { da });
    assert(json_int(b) == if b < 0 { seq!['-'] + db } else { db });
    let ra = l.skip(off);
    assert(ra =~= da + x);
    assert(ra =~= db + y);
    // The digit runs have the same length.
    if da.len() < db.len() {
        assert((da + x)[da.len() as int] == (db + y)[da.len() as int]);
        assert(is_digit(db[da.len() as int]));
    }
    if db.len() < da.len() {
        assert((da + x)[db.len() as int] == (db + y)[db.len() as int]);
        assert(is_digit(da[db.len() as int]));
    }
    assert(da.len() == db.len());
    assert(da =~= ra.take(da.len() as int));
    assert(db =~= ra.take(db.len() as int));
    assert(ma == mb);
    assert(x =~= ra.skip(da.len() as int));
    assert(y =~= ra.skip(db.len() as int));
}

/// The text after a decoded prefix either closes the string or starts the next escape.
proof fn lemma_next_escape(x: Seq<char>, sr: Seq<char>, rest: Seq<char>)
    requires
        x == escape_json(sr) + seq!['"'] + rest,
        x.len() > 0,
        x[0] != '"',
    ensures
        sr.len() > 0,
        x == escape_json_char(sr[0]) + (escape_json(sr.drop_first()) + seq!['"'] + rest),
{
    if sr.len() == 0 {
        assert(x[0] == '"');
    }
    assert(escape_json(sr) == escape_json_char(sr[0]) + escape_json(sr.drop_first()));
}

/// Reads the escape of one character at position `p` of `t` (a character other than the
/// closing quote), in the form that `escape_json_char` writes; returns the character and the
/// length of its escape.
fn read_escaped_char(t: &str, p: usize) -> (r: Option<(char, usize)>)
    requires
        p < t@.len(),
        t@[p as int] != '"',
    ensures
        r matches Some((c, step)) ==> p + step <= t@.len() && t@.subrange(p as int, p + step)
            == escape_json_char(c),
        forall|c: char, z: Seq<char>| #[trigger] (escape_json_char(c) + z) == t@.skip(p as int)
            ==> r is Some,
{
    let n = t.unicode_len();
    let ghost x = t@.skip(p as int);
    let c = t.get_char(p);
    proof {
        assert(x[0] == c);
    }
    if c != '\\' {
        if (c as u32) < 0x20 {
            proof {
                assert forall|c2: char, z: Seq<char>| #[trigger] (escape_json_char(c2) + z) == x implies false by {
                    lemma_escape_char_head(c2);
                    assert(escape_json_char(c2)[0] == x[0]);
                }
            }
            return None;
        }
        proof {
            assert(t@.subrange(p as int, p + 1) =~= escape_json_char(c));
        }
        return Some((c, 1));
    }
    if n - p < 2 {
        proof {
            assert forall|c2: char, z: Seq<char>| #[trigger] (escape_json_char(c2) + z) == x implies false by {
                lemma_escape_char_head(c2);
                assert(escape_json_char(c2)[0] == x[0]);
                assert(escape_json_char(c2).len() >= 2);
                assert(x.len() == n - p);
            }
        }
        return None;
    }
    let e = t.get_char(p + 1);
    proof {
        assert(x[1] == e);
    }
    if e != 'u' {
        let decoded = if e == '"' {
            '"'
        } else if e == '\\' {
            '\\'
        } else if e == 'n' {
            '\n'
        } else if e == 'r' {
            '\r'
        } else if e == 't' {
            '\t'
        } else if e == 'b' {
            '\x08'
        } else if e == 'f' {
            '\x0c'
        } else {
            proof {
                assert forall|c2: char, z: Seq<char>| #[trigger] (escape_json_char(c2) + z) == x implies false by {
                    lemma_escape_char_head(c2);
                    let ec = escape_json_char(c2);
                    assert(ec[0] == x[0]);
                    assert(ec[1] == x[1]);
                }
            }
            return None;
        };
        proof {
            assert(t@.subrange(p as int, p + 2) =~= escape_json_char(decoded));
        }
        return Some((decoded, 2));
    }
    if n - p < 6 {
        proof {
            assert forall|c2: char, z: Seq<char>| #[trigger] (escape_json_char(c2) + z) == x implies false by {
                lemma_escape_char_head(c2);
                let ec = escape_json_char(c2);
                assert(ec[0] == x[0]);
                assert(ec[1] == x[1]);
                assert(ec.len() == 6);
                assert(x.len() == n - p);
            }
        }
        return None;
    }
    let z1 = t.get_char(p + 2);
    let z2 = t.get_char(p + 3);
    let h1 = t.get_char(p + 4);
    let h2 = t.get_char(p + 5);
    proof {
        assert(x[2] == z1 && x[3] == z2 && x[4] == h1 && x[5] == h2);
    }
    let ok_digits = z1 == '0' && z2 == '0' && (h1 == '0' || h1 == '1') && (('0' <= h2 && h2 <= '9')
        || ('a' <= h2 && h2 <= 'f'));
    if !ok_digits {
        proof {
            assert forall|c2: char, z: Seq<char>| #[trigger] (escape_json_char(c2) + z) == x implies false by {
                lemma_escape_char_head(c2);
                let ec = escape_json_char(c2);
                assert(ec[0] == x[0]);
                assert(ec[1] == x[1]);
                assert(ec.len() == 6);
                assert(ec[2] == x[2] && ec[3] == x[3] && ec[4] == x[4] && ec[5] == x[5]);
                let cv = (c2 as u32) as int;
                assert((c2 as u32) < 0x20);
                assert(0 <= cv < 32);
                assert(0 <= cv / 16 < 2);
                assert(0 <= cv % 16 < 16);
                assert(hex_char(cv / 16) == '0' || hex_char(cv / 16) == '1');
                assert(('0' <= hex_char(cv % 16) && hex_char(cv % 16) <= '9') || ('a' <= hex_char(cv % 16) && hex_char(cv % 16) <= 'f'));
            }
        }
        return None;
    }
    let hi: u8 = if h1 == '1' { 1 } else { 0 };
    let lo: u8 = if h2 <= '9' { (h2 as u8) - 48 } else { (h2 as u8) - 87 };
    let v: u8 = hi * 16 + lo;
    if v == 8 || v == 9 || v == 10 || v == 12 || v == 13 {
        proof {
            assert forall|c2: char, z: Seq<char>| #[trigger] (escape_json_char(c2) + z) == x implies false by {
                lemma_escape_char_head(c2);
                let ec = escape_json_char(c2);
                assert(ec[0] == x[0]);
                assert(ec[1] == x[1]);
                assert(ec.len() == 6);
                assert(ec[4] == x[4] && ec[5] == x[5]);
                let cv = (c2 as u32) as int;
                assert((c2 as u32) < 0x20);
                assert(0 <= cv < 32);
                lemma_hex_roundtrip(cv / 16);
                lemma_hex_roundtrip(cv % 16);
                assert(h1 == hex_char(cv / 16));
                assert(h2 == hex_char(cv % 16));
                assert(hi as int == cv / 16);
                assert(lo as int == cv % 16);
                assert(v as int == cv);
                vstd::utf8::char_u32_cast(c2, c2 as u32);
            }
        }
        return None;
    }
    let decoded = v as char;
    proof {
        assert((decoded as u32) == v);
        assert(hex_char((v / 16) as int) == h1);
        assert(hex_char((v % 16) as int) == h2);
        assert(t@.subrange(p as int, p + 6) =~= escape_json_char(decoded));
    }
    Some((decoded, 6))
}

/// Reads the JSON string literal that starts at character `start` of `t`, in the form that
/// `push_json_string` writes; returns the text and the position after the closing quote.
pub fn read_json_string(t: &str, start: usize) -> (r: Option<(String, usize)>)
    requires
        start <= t@.len(),
    ensures
        r matches Some((s, end)) ==> start < end <= t@.len() && t@.subrange(start as int, end as int)
            == json_string(s@),
        forall|s: Seq<char>, rest: Seq<char>| #[trigger] (json_string(s) + rest) == t@.skip(start as int)
            ==> (r matches Some((s2, end)) && s2@ == s && end == start + json_string(s).len()),
{
    let n = t.unicode_len();
    if start >= n || t.get_char(start) != '"' {
        proof {
            assert forall|s: Seq<char>, rest: Seq<char>| #[trigger] (json_string(s) + rest) == t@.skip(start as int)
                implies false by {
                assert((json_string(s) + rest)[0] == '"');
                if start >= n {
                    assert(t@.skip(start as int).len() == 0);
                }
            }
        }
        return None;
    }
    let mut out = String::new();
    let mut p: usize = start + 1;
    proof {
        assert forall|s: Seq<char>, rest: Seq<char>| #[trigger] (json_string(s) + rest) == t@.skip(start as int)
            implies out@.len() <= s.len() && s.take(out@.len() as int) == out@ && t@.skip(p as int)
            == escape_json(s.skip(out@.len() as int)) + seq!['"'] + rest by {
            assert(t@.skip(p as int) =~= t@.skip(start as int).drop_first());
            assert((json_string(s) + rest).drop_first() =~= escape_json(s) + seq!['"'] + rest);
            assert(s.skip(0) =~= s);
            assert(s.take(0) =~= out@);
        }
        assert(t@.subrange(start + 1, p as int) =~= escape_json(out@));
    }
    loop
        invariant
            n == t@.len(),
            start < p <= n,
            t@.subrange(start + 1, p as int) == escape_json(out@),
            t@[start as int] == '"',
            forall|s: Seq<char>, rest: Seq<char>| #[trigger] (json_string(s) + rest) == t@.skip(start as int)
                ==> out@.len() <= s.len() && s.take(out@.len() as int) == out@ && t@.skip(p as int)
                == escape_json(s.skip(out@.len() as int)) + seq!['"'] + rest,
        decreases n - p,
    {
        let ghost d = out@;
        if p >= n {
            proof {
                assert forall|s: Seq<char>, rest: Seq<char>| #[trigger] (json_string(s) + rest) == t@.skip(start as int)
                    implies false by {
                    assert(t@.skip(p as int).len() == 0);
                }
            }
            return None;
        }
        let c = t.get_char(p);
        let ghost x = t@.skip(p as int);
        if c == '"' {
            proof {
                assert(t@.subrange(start as int, p + 1) =~= json_string(out@));
                assert forall|s: Seq<char>, rest: Seq<char>| #[trigger] (json_string(s) + rest) == t@.skip(start as int)
                    implies out@ == s by {
                    let sr = s.skip(out@.len() as int);
                    if sr.len() > 0 {
                        lemma_escape_head(sr);
                        assert(x[0] == c);
                        assert((escape_json(sr) + seq!['"'] + rest)[0] == escape_json(sr)[0]);
                    } else {
                        assert(s =~= s.take(out@.len() as int));
                    }
                }
            }
            return Some((out, p + 1));
        }
        proof {
            assert(x[0] == c);
        }
        let step_result = read_escaped_char(t, p);
        let (decoded, step) = match step_result {
            Some(pair) => pair,
            None => {
                proof {
                    assert forall|s: Seq<char>, rest: Seq<char>| #[trigger] (json_string(s) + rest) == t@.skip(start as int)
                        implies false by {
                        let sr = s.skip(out@.len() as int);
                        lemma_next_escape(x, sr, rest);
                        let z = escape_json(sr.drop_first()) + seq!['"'] + rest;
                        assert(escape_json_char(sr[0]) + z == x);
                    }
                }
                return None;
            },
        };
        proof {
            assert forall|s: Seq<char>, rest: Seq<char>| #[trigger] (json_string(s) + rest) == t@.skip(start as int)
                implies d.len() + 1 <= s.len() && s.take(d.len() + 1 as int) == d.push(decoded)
                && t@.skip(p + step) == escape_json(s.skip(d.len() + 1 as int)) + seq!['"'] + rest by {
                let sr = s.skip(d.len() as int);
                lemma_next_escape(x, sr, rest);
                let z = escape_json(sr.drop_first()) + seq!['"'] + rest;
                assert(x =~= t@.subrange(p as int, p + step) + t@.skip(p + step));
                lemma_escape_char_unique(decoded, sr[0], t@.skip(p + step), z);
                assert(sr.drop_first() =~= s.skip(d.len() + 1 as int));
                assert(s.take(d.len() + 1 as int) =~= s.take(d.len() as int).push(sr[0]));
            }
        }
        push_char(&mut out, decoded);
        proof {
            lemma_escape_push(d, decoded);
            assert(t@.subrange(start + 1, p + step) =~= t@.subrange(start + 1, p as int)
                + t@.subrange(p as int, p + step));
        }
        p = p + step;
    }
}


/// `c` is an ASCII digit.
pub open spec fn is_digit(c: char) -> bool {
    '0' <= c && c <= '9'
}

/// The number that a string of ASCII digits denotes.
pub open spec fn digits_value(ds: Seq<char>) -> nat
    decreases ds.len(),
{
    if ds.len() == 0 {
        0
    } else {
        digits_value(ds.drop_last()) * 10 + ((ds.last() as u32) - 48) as nat
    }
}

/// Decimal digit strings without a superfluous leading zero.
pub open spec fn canonical_digits(ds: Seq<char>) -> bool {
    &&& ds.len() > 0
    &&& forall|i: int| 0 <= i < ds.len() ==> is_digit(#[trigger] ds[i])
    &&& (ds.len() > 1 ==> ds[0] != '0')
}

proof fn lemma_digit_char(d: nat)
    requires
        d < 10,
    ensures
        digit_char(d) as u32 == 48 + d,
        is_digit(digit_char(d)),
{
    let b = (48 + d) as u8;
    assert(b as u32 == 48 + d);
    vstd::utf8::char_u32_cast(digit_char(d), digit_char(d) as u32);
}

/// `decimal(n)` is a canonical digit string that denotes `n`.
pub proof fn lemma_decimal_canonical(n: nat)
    ensures
        canonical_digits(decimal(n)),
        digits_value(decimal(n)) == n,
    decreases n,
{
    if n < 10 {
        lemma_digit_char(n);
        assert(decimal(n) == seq![digit_char(n)]);
        assert(decimal(n).drop_last() =~= Seq::<char>::empty());
        assert(decimal(n).last() == digit_char(n));
        assert(digits_value(decimal(n)) == digits_value(decimal(n).drop_last()) * 10 + ((digit_char(n) as u32) - 48) as nat);
    } else {
        lemma_decimal_canonical(n / 10);
        lemma_digit_char(n % 10);
        let p = decimal(n / 10);
        assert(decimal(n) == p.push(digit_char(n % 10)));
        assert(decimal(n).drop_last() == p);
        assert(decimal(n).last() == digit_char(n % 10));
        assert(digits_value(decimal(n)) == digits_value(p) * 10 + (n % 10));
        assert(n == (n / 10) * 10 + n % 10);
        assert(decimal(n)[0] == p[0]);
        if p.len() == 1 {
            if n / 10 >= 10 {
                assert(p == decimal(n / 10 / 10).push(digit_char(n / 10 % 10)));
                assert(false);
            }
            assert(p == seq![digit_char(n / 10)]);
            lemma_digit_char(n / 10);
        }
    }
}

/// A canonical digit string denoting at least one starts with a non-zero digit, and
/// conversely.
proof fn lemma_canonical_value_positive(ds: Seq<char>)
    requires
        canonical_digits(ds),
        ds[0] != '0',
    ensures
        digits_value(ds) >= 1,
    decreases ds.len(),
{
    if ds.len() > 1 {
        let p = ds.drop_last();
        assert(p[0] == ds[0]);
        assert forall|i: int| 0 <= i < p.len() implies is_digit(#[trigger] p[i]) by {
            assert(p[i] == ds[i]);
        }
        lemma_canonical_value_positive(p);
    } else {
        assert(ds.drop_last() =~= Seq::<char>::empty());
    }
}

/// A canonical digit string is the decimal notation of its value.
pub proof fn lemma_canonical_is_decimal(ds: Seq<char>)
    requires
        canonical_digits(ds),
    ensures
        decimal(digits_value(ds)) == ds,
    decreases ds.len(),
{
    let v = digits_value(ds);
    if ds.len() == 1 {
        assert(ds.drop_last() =~= Seq::<char>::empty());
        let d = ((ds[0] as u32) - 48) as nat;
        assert(v == d);
        assert(d < 10);
        lemma_digit_char(d);
        vstd::utf8::char_u32_cast(ds[0], ds[0] as u32);
        vstd::utf8::char_u32_cast(digit_char(d), digit_char(d) as u32);
        assert(decimal(v) =~= ds);
    } else {
        let p = ds.drop_last();
        assert(p[0] == ds[0]);
        assert forall|i: int| 0 <= i < p.len() implies is_digit(#[trigger] p[i]) by {
            assert(p[i] == ds[i]);
        }
        lemma_canonical_is_decimal(p);
        lemma_canonical_value_positive(p);
        let d = ((ds.last() as u32) - 48) as nat;
        assert(is_digit(ds[ds.len() - 1]));
        assert(d < 10);
        assert(v == digits_value(p) * 10 + d);
        assert(v >= 10);
        assert(v / 10 == digits_value(p));
        assert(v % 10 == d);
        lemma_digit_char(d);
        vstd::utf8::char_u32_cast(ds.last(), ds.last() as u32);
        vstd::utf8::char_u32_cast(digit_char(d), digit_char(d) as u32);
        assert(digit_char(d) == ds.last());
        assert(decimal(v) == p.push(ds.last()));
        assert(ds =~= p.push(ds.last()));
    }
}

/// Reads the maximal run of digits of `t` from `start`.
fn digit_run_end(t: &str, start: usize) -> (e: usize)
    requires
        start <= t@.len(),
    ensures
        start <= e <= t@.len(),
        forall|i: int| start <= i < e ==> is_digit(#[trigger] t@[i]),
        e == t@.len() || !is_digit(t@[e as int]),
{
    let n = t.unicode_len();
    let mut e = start;
    while e < n && t.get_char(e) >= '0' && t.get_char(e) <= '9'
        invariant
            start <= e <= n,
            n == t@.len(),
            forall|i: int| start <= i < e ==> is_digit(#[trigger] t@[i]),
        decreases n - e,
    {
        e = e + 1;
    }
    e
}

/// The value of a digit string, or `None` when it exceeds `limit`.
fn digits_value_upto(t: &str, start: usize, end: usize, limit: u64) -> (r: Option<u64>)
    requires
        start <= end <= t@.len(),
        forall|i: int| start <= i < end ==> is_digit(#[trigger] t@[i]),
    ensures
        r matches Some(v) ==> v == digits_value(t@.subrange(start as int, end as int)) && v <= limit,
        r is None ==> digits_value(t@.subrange(start as int, end as int)) > limit,
{
    let mut acc: u64 = 0;
    let mut i = start;
    while i < end
        invariant
            start <= i <= end,
            end <= t@.len(),
            forall|k: int| start <= k < end ==> is_digit(#[trigger] t@[k]),
            acc == digits_value(t@.subrange(start as int, i as int)),
            acc <= limit,
        decreases end - i,
    {
        let c = t.get_char(i);
        let d: u64 = (c as u32 - 48) as u64;
        proof {
            assert(t@.subrange(start as int, i + 1).drop_last() =~= t@.subrange(start as int, i as int));
            assert(t@.subrange(start as int, i + 1).last() == c);
            assert(is_digit(t@[i as int]));
        }
        if d > limit || acc > (limit - d) / 10 {
            proof {
                lemma_digits_value_monotone(t@.subrange(start as int, end as int), (i + 1 - start) as int);
                assert(t@.subrange(start as int, end as int).take((i + 1 - start) as int) =~= t@.subrange(start as int, i + 1));
                assert(acc * 10 + d > limit) by (nonlinear_arith)
                    requires d > limit || acc > (limit - d) / 10, d < 10, acc >= 0;
            }
            return None;
        }
        proof {
            assert(acc * 10 + d <= limit) by (nonlinear_arith)
                requires acc <= (limit - d) / 10, d <= 9, limit >= 0;
        }
        acc = acc * 10 + d;
        i = i + 1;
    }
    Some(acc)
}

/// Digit strings only grow in value when extended.
proof fn lemma_digits_value_monotone(ds: Seq<char>, k: int)
    requires
        0 <= k <= ds.len(),
        forall|i: int| 0 <= i < ds.len() ==> is_digit(#[trigger] ds[i]),
    ensures
        digits_value(ds.take(k)) <= digits_value(ds),
    decreases ds.len() - k,
{
    if k < ds.len() {
        lemma_digits_value_monotone(ds, k + 1);
        assert(ds.take(k + 1).drop_last() =~= ds.take(k));
        assert(is_digit(ds[k]));
        assert(digits_value(ds.take(k + 1)) >= digits_value(ds.take(k)) * 10);
        assert(digits_value(ds.take(k)) * 10 >= digits_value(ds.take(k))) by (nonlinear_arith);
    } else {
        assert(ds.take(k) =~= ds);
    }
}

/// Reads the JSON integer literal that starts at character `start` of `t`, in the form that
/// `push_json_int` writes, and that is not followed by another digit; returns the value and
/// the position after it.
pub fn read_json_int(t: &str, start: usize) -> (r: Option<(i64, usize)>)
    requires
        start <= t@.len(),
    ensures
        r matches Some((v, end)) ==> start < end <= t@.len() && t@.subrange(start as int, end as int)
            == json_int(v) && (end == t@.len() || !is_digit(t@[end as int])),
        forall|v: i64, rest: Seq<char>| #[trigger] (json_int(v) + rest) == t@.skip(start as int) && (
        rest.len() == 0 || !is_digit(rest[0])) ==> r == Some((v, (start + json_int(v).len()) as usize)),
{
    let n = t.unicode_len();
    if start >= n {
        proof {
            assert forall|v: i64, rest: Seq<char>| #[trigger] (json_int(v) + rest) == t@.skip(start as int)
                && (rest.len() == 0 || !is_digit(rest[0])) implies false by {
                lemma_json_int_len(v);
                assert(t@.skip(start as int).len() == 0);
            }
        }
        return None;
    }
    let neg = t.get_char(start) == '-';
    let ds: usize = if neg { start + 1 } else { start };
    let e = digit_run_end(t, ds);
    proof {
        assert forall|v: i64, rest: Seq<char>| #[trigger] (json_int(v) + rest) == t@.skip(start as int)
            && (rest.len() == 0 || !is_digit(rest[0])) implies (neg <==> v < 0) && {
                let m = if v < 0 { -(v as int) } else { v as int };
                &&& e == ds + decimal(m as nat).len()
                &&& t@.subrange(ds as int, e as int) == decimal(m as nat)
            } by {
            lemma_json_int_len(v);
            let m = if v < 0 { -(v as int) } else { v as int };
            let dm = decimal(m as nat);
            lemma_decimal_canonical(m as nat);
            let x = t@.skip(start as int);
            if v < 0 {
                assert(x[0] == '-');
                assert(x == seq!['-'] + (dm + rest));
            } else {
                assert(x == dm + rest);
                assert(x[0] == dm[0]);
                assert(is_digit(dm[0]));
            }
            assert forall|i: int| 0 <= i < dm.len() implies t@[ds + i] == dm[i] by {
                if v < 0 {
                    assert(t@[ds + i] == x[1 + i]);
                } else {
                    assert(t@[ds + i] == x[i]);
                }
            }
            let l = dm.len() as int;
            if e < ds + l {
                assert(is_digit(dm[e - ds]));
            } else if e > ds + l {
                assert(is_digit(t@[ds + l]));
                if v < 0 {
                    assert(t@[ds + l] == x[1 + l]);
                } else {
                    assert(t@[ds + l] == x[l]);
                }
                assert(rest[0] == t@[ds + l]);
            }
            assert(t@.subrange(ds as int, e as int) =~= dm);
        }
    }
    if e == ds {
        proof {
            assert forall|v: i64, rest: Seq<char>| #[trigger] (json_int(v) + rest) == t@.skip(start as int)
                && (rest.len() == 0 || !is_digit(rest[0])) implies false by {
                let m = if v < 0 { -(v as int) } else { v as int };
                lemma_decimal_canonical(m as nat);
            }
        }
        return None;
    }
    if t.get_char(ds) == '0' && e - ds > 1 {
        proof {
            assert forall|v: i64, rest: Seq<char>| #[trigger] (json_int(v) + rest) == t@.skip(start as int)
                && (rest.len() == 0 || !is_digit(rest[0])) implies false by {
                let m = if v < 0 { -(v as int) } else { v as int };
                lemma_decimal_canonical(m as nat);
                assert(t@.subrange(ds as int, e as int)[0] == t@[ds as int]);
            }
        }
        return None;
    }
    proof {
        assert(canonical_digits(t@.subrange(ds as int, e as int)));
        lemma_canonical_is_decimal(t@.subrange(ds as int, e as int));
    }
    let limit: u64 = if neg { 0x8000_0000_0000_0000u64 } else { 0x7fff_ffff_ffff_ffffu64 };
    let mag = match digits_value_upto(t, ds, e, limit) {
        Some(m) => m,
        None => {
            proof {
                assert forall|v: i64, rest: Seq<char>| #[trigger] (json_int(v) + rest) == t@.skip(start as int)
                    && (rest.len() == 0 || !is_digit(rest[0])) implies false by {
                    let m = if v < 0 { -(v as int) } else { v as int };
                    lemma_decimal_canonical(m as nat);
                }
            }
            return None;
        },
    };
    if neg && mag == 0 {
        proof {
            assert forall|v: i64, rest: Seq<char>| #[trigger] (json_int(v) + rest) == t@.skip(start as int)
                && (rest.len() == 0 || !is_digit(rest[0])) implies false by {
                let m = if v < 0 { -(v as int) } else { v as int };
                lemma_decimal_canonical(m as nat);
            }
        }
        return None;
    }
    let v: i64 = if neg {
        if mag == 0x8000_0000_0000_0000u64 {
            i64::MIN
        } else {
            -(mag as i64)
        }
    } else {
        mag as i64
    };
    proof {
        let dm = t@.subrange(ds as int, e as int);
        if neg {
            assert(t@[start as int] == '-');
            assert(v as int == -(mag as int));
            assert(t@.subrange(start as int, e as int) =~= seq!['-'] + dm);
        } else {
            assert(t@.subrange(start as int, e as int) =~= dm);
        }
        assert(t@.subrange(start as int, e as int) == json_int(v));
        assert forall|v2: i64, rest: Seq<char>| #[trigger] (json_int(v2) + rest) == t@.skip(start as int)
            && (rest.len() == 0 || !is_digit(rest[0])) implies v2 == v && e == start + json_int(v2).len() by {
            let m = if v2 < 0 { -(v2 as int) } else { v2 as int };
            lemma_decimal_canonical(m as nat);
            assert(m == mag);
        }
    }
    Some((v, e))
}

/// A JSON integer is never empty.
proof fn lemma_json_int_len(v: i64)
    ensures
        json_int(v).len() >= 1,
{
    let m = if v < 0 { -(v as int) } else { v as int };
    lemma_decimal_canonical(m as nat);
}

} // verus!
