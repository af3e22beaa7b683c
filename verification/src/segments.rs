//! Splitting text into pieces the way `str::split`, `str::split_whitespace`
//! and `str::trim_matches` do, for the separator classes the heuristics use;
//! plus UTF-8 lengths and decimal rendering of counts.
use vstd::prelude::*;

use crate::text::{
    alphabetic, alphanumeric, char_from_ascii, is_alphabetic, is_alphanumeric, is_whitespace, is_ws,
    push_char,
};

verus! {

/// A class of separator characters.
#[derive(Clone, Copy, PartialEq, Eq, Debug)]
pub enum Sep {
    /// Unicode white space (`char::is_whitespace`).
    Whitespace,
    /// Anything but `char::is_alphanumeric`.
    NonAlphanumeric,
    /// Anything but `char::is_alphabetic`.
    NonAlphabetic,
    /// Sentence ends: `.`, `!`, `?` and line feed.
    SentenceEnd,
    /// Line feed.
    LineFeed,
    /// Line feed or carriage return.
    LineBreak,
    /// The byte order mark U+FEFF.
    ByteOrderMark,
}

/// Whether `c` belongs to the separator class `k`.
pub open spec fn is_sep(k: Sep, c: char) -> bool {
    match k {
        Sep::Whitespace => is_ws(c),
        Sep::NonAlphanumeric => !alphanumeric(c),
        Sep::NonAlphabetic => !alphabetic(c),
        Sep::SentenceEnd => c == '.' || c == '!' || c == '?' || c == '\n',
        Sep::LineFeed => c == '\n',
        Sep::LineBreak => c == '\n' || c == '\r',
        Sep::ByteOrderMark => c == '\u{feff}',
    }
}

/// Membership test for a separator class.
pub fn sep_matches(k: Sep, c: char) -> (r: bool)
    ensures
        r == is_sep(k, c),
{
    match k {
        Sep::Whitespace => is_whitespace(c),
        Sep::NonAlphanumeric => !is_alphanumeric(c),
        Sep::NonAlphabetic => !is_alphabetic(c),
        Sep::SentenceEnd => c == '.' || c == '!' || c == '?' || c == '\n',
        Sep::LineFeed => c == '\n',
        Sep::LineBreak => c == '\n' || c == '\r',
        Sep::ByteOrderMark => c == '\u{feff}',
    }
}

/// The pieces between separators, empty ones included (`str::split`).
pub open spec fn split_all(s: Seq<char>, k: Sep) -> Seq<Seq<char>>
    decreases s.len(),
{
    if s.len() == 0 {
        seq![Seq::empty()]
    } else {
        let p = split_all(s.drop_last(), k);
        if is_sep(k, s.last()) {
            p.push(Seq::empty())
        } else {
            p.update(p.len() - 1, p.last().push(s.last()))
        }
    }
}

/// There is always at least one piece.
pub proof fn lemma_split_all_len(s: Seq<char>, k: Sep)
    ensures
        split_all(s, k).len() >= 1,
    decreases s.len(),
{
    if s.len() > 0 {
        lemma_split_all_len(s.drop_last(), k);
    }
}

/// The non-empty pieces of a list, in order.
pub open spec fn nonempty(parts: Seq<Seq<char>>) -> Seq<Seq<char>>
    decreases parts.len(),
{
    if parts.len() == 0 {
        Seq::empty()
    } else if parts.last().len() > 0 {
        nonempty(parts.drop_last()).push(parts.last())
    } else {
        nonempty(parts.drop_last())
    }
}

/// The non-empty pieces between separators (`split_whitespace` for
/// white space).
pub open spec fn fields(s: Seq<char>, k: Sep) -> Seq<Seq<char>> {
    nonempty(split_all(s, k))
}

/// The character sequences of a list of vectors.
pub open spec fn views(v: Seq<Vec<char>>) -> Seq<Seq<char>> {
    v.map_values(|x: Vec<char>| x@)
}

/// `str::split` with the separator class `k`.
pub fn split_all_exec(v: &Vec<char>, k: Sep) -> (out: Vec<Vec<char>>)
    ensures
        views(out@) == split_all(v@, k),
{
    let mut done: Vec<Vec<char>> = Vec::new();
    let mut cur: Vec<char> = Vec::new();
    let mut i: usize = 0;
    assert(v@.take(0) =~= Seq::<char>::empty());
    assert(views(done@).push(cur@) =~= split_all(v@.take(0), k));
    while i < v.len()
        invariant
            i <= v.len(),
            views(done@).push(cur@) == split_all(v@.take(i as int), k),
        decreases v.len() - i,
    {
        let c = v[i];
        let ghost pre = v@.take(i as int);
        assert(v@.take(i + 1).drop_last() =~= pre);
        assert(v@.take(i + 1).last() == c);
        if sep_matches(k, c) {
            let ghost d = done@;
            let finished = cur;
            done.push(finished);
            cur = Vec::new();
            assert(views(done@) =~= views(d).push(finished@));
            assert(views(done@).push(cur@) =~= split_all(pre, k).push(Seq::empty()));
        } else {
            let ghost old_cur = cur@;
            cur.push(c);
            proof {
                let p = split_all(pre, k);
                assert(p =~= views(done@).push(old_cur));
                assert(views(done@).push(cur@) =~= p.update(p.len() - 1, p.last().push(c)));
            }
        }
        i += 1;
    }
    assert(v@.take(v.len() as int) =~= v@);
    let ghost d = done@;
    done.push(cur);
    assert(views(done@) =~= views(d).push(done@.last()@));
    done
}

/// Keep the non-empty pieces of a list.
pub fn nonempty_exec(parts: Vec<Vec<char>>) -> (out: Vec<Vec<char>>)
    ensures
        views(out@) == nonempty(views(parts@)),
{
    let mut out: Vec<Vec<char>> = Vec::new();
    let mut parts = parts;
    let ghost all = views(parts@);
    let n = parts.len();
    let mut rest: Vec<Vec<char>> = Vec::new();
    // Take the pieces from the back, then restore their order.
    while parts.len() > 0
        invariant
            parts@.len() <= n,
            all.len() == n,
            views(parts@) == all.take(parts@.len() as int),
            nonempty(all) == nonempty(views(parts@)) + views(rest@).reverse(),
        decreases parts@.len(),
    {
        let ghost before = views(parts@);
        let ghost r0 = views(rest@);
        let p = parts.pop().unwrap();
        proof {
            assert(views(parts@) =~= before.drop_last());
            assert(before.last() == p@);
            assert(views(parts@) =~= all.take(parts@.len() as int));
        }
        if p.len() > 0 {
            rest.push(p);
            proof {
                assert(views(rest@) =~= r0.push(p@));
                assert(views(rest@).reverse() =~= seq![p@] + r0.reverse());
                assert(nonempty(before) =~= nonempty(views(parts@)).push(p@));
                assert(nonempty(views(parts@)).push(p@) + r0.reverse() =~= nonempty(views(parts@))
                    + views(rest@).reverse());
            }
        } else {
            assert(nonempty(before) == nonempty(views(parts@)));
        }
    }
    assert(views(parts@) =~= Seq::<Seq<char>>::empty());
    assert(nonempty(views(parts@)) =~= Seq::<Seq<char>>::empty());
    let ghost rv = views(rest@);
    while rest.len() > 0
        invariant
            views(out@) + views(rest@).reverse() == rv.reverse(),
        decreases rest@.len(),
    {
        let ghost r0 = views(rest@);
        let ghost o0 = views(out@);
        let p = rest.pop().unwrap();
        out.push(p);
        proof {
            assert(views(rest@) =~= r0.drop_last());
            assert(r0.last() == p@);
            assert(views(out@) =~= o0.push(p@));
            assert(r0.reverse() =~= seq![p@] + views(rest@).reverse());
            assert(views(out@) + views(rest@).reverse() =~= o0 + r0.reverse());
        }
    }
    assert(views(rest@).reverse() =~= Seq::<Seq<char>>::empty());
    assert(views(out@) =~= rv.reverse());
    assert(views(out@) =~= nonempty(all));
    out
}

/// The non-empty pieces between separators of class `k`.
pub fn fields_exec(v: &Vec<char>, k: Sep) -> (out: Vec<Vec<char>>)
    ensures
        views(out@) == fields(v@, k),
{
    let parts = split_all_exec(v, k);
    nonempty_exec(parts)
}

/// `s` without its leading characters of class `k`.
pub open spec fn strip_start(s: Seq<char>, k: Sep) -> Seq<char>
    decreases s.len(),
{
    if s.len() > 0 && is_sep(k, s[0]) {
        strip_start(s.drop_first(), k)
    } else {
        s
    }
}

/// `s` without its trailing characters of class `k`.
pub open spec fn strip_end(s: Seq<char>, k: Sep) -> Seq<char>
    decreases s.len(),
{
    if s.len() > 0 && is_sep(k, s.last()) {
        strip_end(s.drop_last(), k)
    } else {
        s
    }
}

/// `str::trim_matches` with the class `k`.
pub open spec fn strip(s: Seq<char>, k: Sep) -> Seq<char> {
    strip_end(strip_start(s, k), k)
}

proof fn lemma_strip_start_skip(s: Seq<char>, k: Sep, i: int)
    requires
        0 <= i <= s.len(),
        forall|j: int| 0 <= j < i ==> is_sep(k, #[trigger] s[j]),
    ensures
        strip_start(s, k) == strip_start(s.skip(i), k),
    decreases i,
{
    if i > 0 {
        assert(is_sep(k, s[0]));
        assert forall|j: int| 0 <= j < i - 1 implies is_sep(k, #[trigger] s.drop_first()[j]) by {
            assert(s.drop_first()[j] == s[j + 1]);
        }
        assert(s.drop_first().skip(i - 1) =~= s.skip(i));
        lemma_strip_start_skip(s.drop_first(), k, i - 1);
    } else {
        assert(s.skip(0) =~= s);
    }
}

proof fn lemma_strip_end_take(s: Seq<char>, k: Sep, i: int)
    requires
        0 <= i <= s.len(),
        forall|j: int| i <= j < s.len() ==> is_sep(k, #[trigger] s[j]),
    ensures
        strip_end(s, k) == strip_end(s.take(i), k),
    decreases s.len() - i,
{
    if i < s.len() {
        assert(is_sep(k, s[s.len() - 1]));
        assert forall|j: int| i <= j < s.len() - 1 implies is_sep(k, #[trigger] s.drop_last()[j]) by {
            assert(s.drop_last()[j] == s[j]);
        }
        assert(s.drop_last().take(i) =~= s.take(i));
        lemma_strip_end_take(s.drop_last(), k, i);
    } else {
        assert(s.take(s.len() as int) =~= s);
    }
}

/// `str::trim_start_matches` with the class `k`, on a character vector.
pub fn strip_start_exec(v: &Vec<char>, k: Sep) -> (out: Vec<char>)
    ensures
        out@ == strip_start(v@, k),
{
    let mut a: usize = 0;
    while a < v.len() && sep_matches(k, v[a])
        invariant
            a <= v.len(),
            forall|j: int| 0 <= j < a ==> is_sep(k, #[trigger] v@[j]),
        decreases v.len() - a,
    {
        a += 1;
    }
    proof {
        lemma_strip_start_skip(v@, k, a as int);
        let t = v@.skip(a as int);
        if a < v.len() {
            assert(t[0] == v@[a as int]);
        }
        assert(strip_start(t, k) == t);
    }
    let mut out: Vec<char> = Vec::new();
    let mut i = a;
    while i < v.len()
        invariant
            a <= i <= v.len(),
            out@ == v@.subrange(a as int, i as int),
        decreases v.len() - i,
    {
        out.push(v[i]);
        assert(v@.subrange(a as int, i as int).push(v@[i as int]) =~= v@.subrange(a as int, i + 1));
        i += 1;
    }
    assert(out@ =~= v@.skip(a as int));
    out
}

/// `str::trim_matches` with the class `k`, on a character vector.
pub fn strip_exec(v: &Vec<char>, k: Sep) -> (out: Vec<char>)
    ensures
        out@ == strip(v@, k),
{
    let mut a: usize = 0;
    while a < v.len() && sep_matches(k, v[a])
        invariant
            a <= v.len(),
            forall|j: int| 0 <= j < a ==> is_sep(k, #[trigger] v@[j]),
        decreases v.len() - a,
    {
        a += 1;
    }
    let ghost t = v@.skip(a as int);
    proof {
        lemma_strip_start_skip(v@, k, a as int);
        if a < v.len() {
            assert(t[0] == v@[a as int]);
        }
        assert(strip_start(t, k) == t);
    }
    let mut b: usize = v.len();
    while b > a && sep_matches(k, v[b - 1])
        invariant
            a <= b <= v.len(),
            forall|j: int| b <= j < v.len() ==> is_sep(k, #[trigger] v@[j]),
        decreases b - a,
    {
        b -= 1;
    }
    proof {
        let tt = t.take(b - a);
        assert forall|j: int| b - a <= j < t.len() implies is_sep(k, #[trigger] t[j]) by {
            assert(t[j] == v@[a + j]);
        }
        lemma_strip_end_take(t, k, b - a);
        if b > a {
            assert(tt.last() == v@[b - 1]);
        }
        assert(strip_end(tt, k) == tt);
        assert(tt =~= v@.subrange(a as int, b as int));
    }
    let mut out: Vec<char> = Vec::new();
    let mut i = a;
    while i < b
        invariant
            a <= i <= b <= v.len(),
            out@ == v@.subrange(a as int, i as int),
        decreases b - i,
    {
        out.push(v[i]);
        assert(v@.subrange(a as int, i as int).push(v@[i as int]) =~= v@.subrange(a as int, i + 1));
        i += 1;
    }
    out
}

/// Number of bytes of `c` in UTF-8.
pub open spec fn utf8_width(c: char) -> nat {
    let u = c as u32;
    if u < 0x80 {
        1
    } else if u < 0x800 {
        2
    } else if u < 0x10000 {
        3
    } else {
        4
    }
}

/// Number of bytes of `s` in UTF-8 (`str::len`).
pub open spec fn utf8_len(s: Seq<char>) -> nat
    decreases s.len(),
{
    if s.len() == 0 {
        0
    } else {
        utf8_len(s.drop_last()) + utf8_width(s.last())
    }
}

/// The UTF-8 length of a character vector.
pub fn utf8_len_exec(v: &Vec<char>) -> (n: u128)
    ensures
        n == utf8_len(v@),
{
    let mut n: u128 = 0;
    let mut i: usize = 0;
    while i < v.len()
        invariant
            i <= v.len(),
            n == utf8_len(v@.take(i as int)),
            n <= 4 * i,
        decreases v.len() - i,
    {
        let u = v[i] as u32;
        let w: u128 = if u < 0x80 {
            1
        } else if u < 0x800 {
            2
        } else if u < 0x10000 {
            3
        } else {
            4
        };
        assert(v@.take(i + 1).drop_last() =~= v@.take(i as int));
        n = n + w;
        i += 1;
    }
    assert(v@.take(v.len() as int) =~= v@);
    n
}

/// The ASCII digit for `d < 10`.
pub open spec fn digit(d: nat) -> char {
    (48 + d) as char
}

/// Decimal representation of `n`, without leading zeros.
pub open spec fn decimal(n: nat) -> Seq<char>
    decreases n,
{
    if n < 10 {
        seq![digit(n)]
    } else {
        decimal(n / 10).push(digit(n % 10))
    }
}

/// Append the decimal representation of `n` to `s`.
pub fn push_decimal(s: &mut String, n: u128)
    ensures
        final(s)@ == old(s)@ + decimal(n as nat),
    decreases n,
{
    if n >= 10 {
        push_decimal(s, n / 10);
    }
    let d = (n % 10) as u32;
    let c = char_from_ascii(48 + d);
    push_char(s, c);
    proof {
        if n < 10 {
            assert(old(s)@ + decimal(n as nat) =~= old(s)@.push(c));
        } else {
            assert(old(s)@ + decimal(n as nat) =~= (old(s)@ + decimal((n / 10) as nat)).push(c));
        }
    }
}

/// The decimal representation of `n` as a `String` (`usize::to_string`).
pub fn decimal_string(n: u128) -> (s: String)
    ensures
        s@ == decimal(n as nat),
{
    let mut s = String::new();
    push_decimal(&mut s, n);
    assert(Seq::<char>::empty() + decimal(n as nat) =~= decimal(n as nat));
    s
}

/// A line without the carriage return that ended it.
pub open spec fn strip_cr(p: Seq<char>) -> Seq<char> {
    if p.len() > 0 && p.last() == '\r' {
        p.drop_last()
    } else {
        p
    }
}

/// The lines of a text (`str::lines`): split at line feeds, a carriage
/// return before a line feed dropped, no empty line after a final feed.
pub open spec fn lines(s: Seq<char>) -> Seq<Seq<char>> {
    let p = split_all(s, Sep::LineFeed);
    let init = p.drop_last().map_values(|x: Seq<char>| strip_cr(x));
    if p.last().len() == 0 {
        init
    } else {
        init.push(p.last())
    }
}

/// The lines of a character vector (see `lines`).
pub fn lines_exec(v: &Vec<char>) -> (out: Vec<Vec<char>>)
    ensures
        views(out@) == lines(v@),
{
    let parts = split_all_exec(v, Sep::LineFeed);
    proof {
        lemma_split_all_len(v@, Sep::LineFeed);
    }
    let n = parts.len();
    let ghost p = views(parts@);
    let ghost init = p.drop_last().map_values(|x: Seq<char>| strip_cr(x));
    let mut out: Vec<Vec<char>> = Vec::new();
    let mut i: usize = 0;
    while i + 1 < n
        invariant
            n == parts@.len(),
            n >= 1,
            p == views(parts@),
            init == p.drop_last().map_values(|x: Seq<char>| strip_cr(x)),
            i + 1 <= n,
            views(out@) == init.take(i as int),
        decreases n - i,
    {
        let part = &parts[i];
        let mut line: Vec<char> = Vec::new();
        let mut k: usize = 0;
        let end = if part.len() > 0 && part[part.len() - 1] == '\r' {
            part.len() - 1
        } else {
            part.len()
        };
        while k < end
            invariant
                k <= end <= part@.len(),
                line@ == part@.take(k as int),
            decreases end - k,
        {
            line.push(part[k]);
            assert(part@.take(k + 1) =~= part@.take(k as int).push(part@[k as int]));
            k += 1;
        }
        proof {
            assert(p[i as int] == part@);
            assert(init[i as int] == strip_cr(part@));
            assert(line@ =~= strip_cr(part@));
        }
        let ghost before = views(out@);
        let ghost lv = line@;
        out.push(line);
        assert(views(out@) =~= before.push(lv));
        assert(views(out@) =~= init.take(i + 1));
        i += 1;
    }
    assert(init.take(i as int) =~= init);
    if parts[n - 1].len() > 0 {
        let last = parts[n - 1].clone();
        let ghost before = views(out@);
        out.push(last);
        assert(last@ =~= p.last());
        assert(views(out@) =~= before.push(p.last()));
    }
    out
}

/// The UTF-8 bytes of one character.
pub open spec fn utf8_char(c: char) -> Seq<u8> {
    let u = c as u32;
    if u < 0x80 {
        seq![u as u8]
    } else if u < 0x800 {
        seq![(0xC0 + u / 64) as u8, (0x80 + u % 64) as u8]
    } else if u < 0x10000 {
        seq![(0xE0 + u / 4096) as u8, (0x80 + (u / 64) % 64) as u8, (0x80 + u % 64) as u8]
    } else {
        seq![
            (0xF0 + u / 262144) as u8,
            (0x80 + (u / 4096) % 64) as u8,
            (0x80 + (u / 64) % 64) as u8,
            (0x80 + u % 64) as u8,
        ]
    }
}

/// The UTF-8 encoding of a text (`String::into_bytes`).
pub open spec fn utf8_encode(s: Seq<char>) -> Seq<u8>
    decreases s.len(),
{
    if s.len() == 0 {
        Seq::empty()
    } else {
        utf8_encode(s.drop_last()) + utf8_char(s.last())
    }
}

/// The UTF-8 bytes of a text.
pub fn utf8_bytes(s: &str) -> (out: Vec<u8>)
    ensures
        out@ == utf8_encode(s@),
{
    let v = crate::text::chars_of(s);
    let mut out: Vec<u8> = Vec::new();
    let mut i: usize = 0;
    while i < v.len()
        invariant
            i <= v@.len(),
            v@ == s@,
            out@ == utf8_encode(v@.take(i as int)),
        decreases v@.len() - i,
    {
        let c = v[i];
        let u = c as u32;
        assert(v@.take(i + 1).drop_last() =~= v@.take(i as int));
        let ghost before = out@;
        if u < 0x80 {
            out.push(u as u8);
        } else if u < 0x800 {
            out.push((0xC0 + u / 64) as u8);
            out.push((0x80 + u % 64) as u8);
        } else if u < 0x10000 {
            out.push((0xE0 + u / 4096) as u8);
            out.push((0x80 + (u / 64) % 64) as u8);
            out.push((0x80 + u % 64) as u8);
        } else {
            out.push((0xF0 + u / 262144) as u8);
            out.push((0x80 + (u / 4096) % 64) as u8);
            out.push((0x80 + (u / 64) % 64) as u8);
            out.push((0x80 + u % 64) as u8);
        }
        assert(out@ =~= before + utf8_char(c));
        i += 1;
    }
    assert(v@.take(v@.len() as int) =~= v@);
    out
}

/// An integer in decimal, with a minus sign when negative.
pub open spec fn signed_decimal(n: int) -> Seq<char> {
    if n < 0 {
        seq!['-'] + decimal((-n) as nat)
    } else {
        decimal(n as nat)
    }
}

/// Append an `i64` in decimal (`i64::to_string`).
pub fn push_signed_decimal(s: &mut String, n: i64)
    ensures
        final(s)@ == old(s)@ + signed_decimal(n as int),
{
    if n < 0 {
        push_char(s, '-');
        let m: u128 = (-(n as i128)) as u128;
        push_decimal(s, m);
        assert(final(s)@ =~= old(s)@ + (seq!['-'] + decimal((-n) as nat)));
    } else {
        push_decimal(s, n as u128);
    }
}

} // verus!
