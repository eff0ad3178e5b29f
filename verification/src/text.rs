//! Character-level helpers on strings, stated over `Seq<char>`.

use vstd::prelude::*;
use vstd::utf8::*;

verus! {

/// The texts of a list of strings.
pub open spec fn strs(v: Seq<String>) -> Seq<Seq<char>> {
    v.map_values(|a: String| a@)
}

/// The characters of `s`, one by one.
pub fn chars_of(s: &str) -> (out: Vec<char>)
    ensures
        out@ == s@,
{
    let mut out: Vec<char> = Vec::new();
    for c in it: s.chars()
        invariant
            out@ == it.seq().take(it.index() as int),
    {
        out.push(c);
    }
    out
}

/// ASCII lower-casing of one character (others unchanged), as
/// `char::to_ascii_lowercase` does.
pub open spec fn lower_char(c: char) -> char {
    if 'A' <= c && c <= 'Z' {
        ((c as u32) + 32) as char
    } else {
        c
    }
}

/// ASCII lower-casing of a text, as `str::to_ascii_lowercase` does.
pub open spec fn lower(s: Seq<char>) -> Seq<char> {
    s.map_values(|c: char| lower_char(c))
}

/// `s` ends with `t`.
pub open spec fn ends_with(s: Seq<char>, t: Seq<char>) -> bool {
    t.len() <= s.len() && s.subrange(s.len() - t.len(), s.len() as int) == t
}

/// Whether `a ++ t` ends with `u` is decided by `t` alone when `u` is not
/// longer than `t`; otherwise `u` must end with `t` and `a` with the rest.
pub proof fn lemma_ends_with_concat(a: Seq<char>, t: Seq<char>, u: Seq<char>)
    ensures
        u.len() <= t.len() ==> (ends_with(a + t, u) == ends_with(t, u)),
        u.len() > t.len() ==> (ends_with(a + t, u) == (ends_with(u, t) && ends_with(
            a,
            u.take(u.len() - t.len()),
        ))),
{
    let s = a + t;
    if u.len() <= t.len() {
        assert(s.subrange(s.len() - u.len(), s.len() as int) =~= t.subrange(
            t.len() - u.len(),
            t.len() as int,
        ));
    } else {
        let k = u.len() - t.len();
        if ends_with(s, u) {
            let w = s.subrange(s.len() - u.len(), s.len() as int);
            assert(u.subrange(u.len() - t.len(), u.len() as int) =~= t) by {
                assert forall|i: int| 0 <= i < t.len() implies u.subrange(
                    u.len() - t.len(),
                    u.len() as int,
                )[i] == t[i] by {
                    assert(w[k + i] == s[s.len() - u.len() + k + i]);
                }
            }
            assert(a.subrange(a.len() - k, a.len() as int) =~= u.take(k)) by {
                assert forall|i: int| 0 <= i < k implies a.subrange(a.len() - k, a.len() as int)[i]
                    == u.take(k)[i] by {
                    assert(w[i] == s[s.len() - u.len() + i]);
                }
            }
        }
        if ends_with(u, t) && ends_with(a, u.take(k)) {
            assert(s.subrange(s.len() - u.len(), s.len() as int) =~= u) by {
                assert forall|i: int| 0 <= i < u.len() implies s.subrange(
                    s.len() - u.len(),
                    s.len() as int,
                )[i] == u[i] by {
                    if i < k {
                        assert(a.subrange(a.len() - k, a.len() as int)[i] == u.take(k)[i]);
                    } else {
                        assert(u.subrange(u.len() - t.len(), u.len() as int)[i - k] == t[i - k]);
                    }
                }
            }
        }
    }
}

/// `s` does not end with `u` when they differ `k` places before their ends.
pub proof fn lemma_ends_differ(s: Seq<char>, u: Seq<char>, k: int)
    requires
        0 <= k < u.len() <= s.len(),
        s[s.len() - 1 - k] != u[u.len() - 1 - k],
    ensures
        !ends_with(s, u),
{
    if ends_with(s, u) {
        assert(s.subrange(s.len() - u.len(), s.len() as int)[u.len() - 1 - k] == s[s.len() - 1 - k]);
    }
}

/// A text that ends with `t` does not end with `u` when the two differ at
/// the same distance `k` from their ends.
pub proof fn lemma_suffix_excludes(p: Seq<char>, t: Seq<char>, u: Seq<char>, k: int)
    requires
        ends_with(p, t),
        0 <= k < u.len(),
        k < t.len(),
        t[t.len() - 1 - k] != u[u.len() - 1 - k],
    ensures
        !ends_with(p, u),
{
    assert(p.subrange(p.len() - t.len(), p.len() as int)[t.len() - 1 - k] == p[p.len() - 1 - k]);
    if ends_with(p, u) {
        assert(p.subrange(p.len() - u.len(), p.len() as int)[u.len() - 1 - k] == p[p.len() - 1 - k]);
    }
}

/// Lower-casing goes piece by piece.
pub proof fn lemma_lower_concat(a: Seq<char>, b: Seq<char>)
    ensures
        lower(a + b) == lower(a) + lower(b),
{
    assert(lower(a + b) =~= lower(a) + lower(b));
}

/// `s` starts with `t`.
pub open spec fn starts_with(s: Seq<char>, t: Seq<char>) -> bool {
    t.len() <= s.len() && s.subrange(0, t.len() as int) == t
}

/// The ASCII lower-case of one character.
pub fn lower_char_exec(c: char) -> (r: char)
    ensures
        r == lower_char(c),
{
    if 'A' <= c && c <= 'Z' {
        let u: u32 = (c as u32) + 32;
        assert(u <= 0x7f);
        (u as u8) as char
    } else {
        c
    }
}

/// The ASCII lower-case of a text.
pub fn lowercase(s: &[char]) -> (out: Vec<char>)
    ensures
        out@ == lower(s@),
{
    let mut out: Vec<char> = Vec::new();
    let mut i: usize = 0;
    while i < s.len()
        invariant
            i <= s@.len(),
            out@ == lower(s@.take(i as int)),
        decreases s.len() - i,
    {
        let c = lower_char_exec(s[i]);
        out.push(c);
        i = i + 1;
        assert(out@ =~= lower(s@.take(i as int)));
    }
    assert(s@.take(i as int) =~= s@);
    out
}

/// Whether `s[lo..]` starts with all of `t`.
pub fn matches_at(s: &[char], lo: usize, t: &[char]) -> (r: bool)
    requires
        lo <= s@.len(),
    ensures
        r == (lo + t@.len() <= s@.len() && s@.subrange(lo as int, lo + t@.len()) == t@),
{
    if t.len() > s.len() - lo {
        return false;
    }
    let n = s.len();
    let mut i: usize = 0;
    while i < t.len()
        invariant
            i <= t@.len(),
            n == s@.len(),
            lo <= s@.len(),
            lo + t@.len() <= s@.len(),
            s@.subrange(lo as int, lo + i) == t@.take(i as int),
        decreases t.len() - i,
    {
        if s[lo + i] != t[i] {
            proof {
                if s@.subrange(lo as int, lo + t@.len()) == t@ {
                    assert(s@.subrange(lo as int, lo + t@.len())[i as int] == s@[lo + i]);
                }
            }
            return false;
        }
        i = i + 1;
        assert(s@.subrange(lo as int, lo + i) =~= t@.take(i as int));
    }
    assert(t@.take(i as int) =~= t@);
    true
}

/// `t` occurs somewhere in `s` (`str::contains` of a text).
pub open spec fn contains_seq(s: Seq<char>, t: Seq<char>) -> bool {
    exists|i: int| 0 <= i && i + t.len() <= s.len() && #[trigger] s.subrange(i, i + t.len()) == t
}

/// Whether the text `t` occurs in `s`.
pub fn contains_str(s: &[char], t: &str) -> (r: bool)
    ensures
        r == contains_seq(s@, t@),
{
    let tc = chars_of(t);
    if tc.len() > s.len() {
        return false;
    }
    let last = s.len() - tc.len();
    let mut i: usize = 0;
    loop
        invariant
            i <= last,
            last + t@.len() == s@.len(),
            tc@ == t@,
            forall|j: int| 0 <= j < i ==> #[trigger] s@.subrange(j, j + t@.len()) != t@,
        decreases last - i,
    {
        if matches_at(s, i, tc.as_slice()) {
            return true;
        }
        if i == last {
            return false;
        }
        i = i + 1;
    }
}

/// Whether `s` ends with the text `t`.
pub fn ends_with_str(s: &[char], t: &str) -> (r: bool)
    ensures
        r == ends_with(s@, t@),
{
    let tc = chars_of(t);
    if tc.len() > s.len() {
        return false;
    }
    matches_at(s, s.len() - tc.len(), tc.as_slice())
}

/// Whether `s` starts with the text `t`.
pub fn starts_with_str(s: &[char], t: &str) -> (r: bool)
    ensures
        r == starts_with(s@, t@),
{
    let tc = chars_of(t);
    matches_at(s, 0, tc.as_slice())
}

/// Whether `s` is exactly the text `t`.
pub fn eq_str(s: &[char], t: &str) -> (r: bool)
    ensures
        r == (s@ == t@),
{
    let tc = chars_of(t);
    if tc.len() != s.len() {
        return false;
    }
    let r = matches_at(s, 0, tc.as_slice());
    assert(s@.subrange(0, s@.len() as int) =~= s@);
    r
}

/// The decimal digits of `n`, most significant first (`"0"` for zero).
pub open spec fn decimal(n: nat) -> Seq<char>
    decreases n,
{
    if n < 10 {
        seq![(('0' as u32) + n) as char]
    } else {
        decimal(n / 10).push((('0' as u32) + (n % 10)) as char)
    }
}

/// `decimal(n)` left-padded with zeros to at least `w` characters.
pub open spec fn decimal_padded(n: nat, w: nat) -> Seq<char> {
    let d = decimal(n);
    if d.len() >= w {
        d
    } else {
        Seq::new((w - d.len()) as nat, |i: int| '0') + d
    }
}

/// The digit character for `d < 10`.
pub fn digit_char(d: u64) -> (c: char)
    requires
        d < 10,
    ensures
        c == (('0' as u32) + d) as char,
{
    let u: u8 = 48u8 + (d as u8);
    u as char
}

/// The decimal representation of `n`.
pub fn decimal_chars(n: u64) -> (out: Vec<char>)
    ensures
        out@ == decimal(n as nat),
    decreases n,
{
    if n < 10 {
        let mut out: Vec<char> = Vec::new();
        out.push(digit_char(n));
        out
    } else {
        let mut out = decimal_chars(n / 10);
        out.push(digit_char(n % 10));
        out
    }
}

/// The decimal representation of `n`, zero-padded to `w` characters.
pub fn decimal_padded_chars(n: u64, w: usize) -> (out: Vec<char>)
    ensures
        out@ == decimal_padded(n as nat, w as nat),
{
    let d = decimal_chars(n);
    if d.len() >= w {
        return d;
    }
    let mut out: Vec<char> = Vec::new();
    let pad = w - d.len();
    let mut i: usize = 0;
    while i < pad
        invariant
            i <= pad,
            out@ == Seq::new(i as nat, |k: int| '0'),
        decreases pad - i,
    {
        out.push('0');
        i = i + 1;
        assert(out@ =~= Seq::new(i as nat, |k: int| '0'));
    }
    let mut j: usize = 0;
    while j < d.len()
        invariant
            j <= d@.len(),
            out@ == Seq::new(pad as nat, |k: int| '0') + d@.take(j as int),
        decreases d.len() - j,
    {
        out.push(d[j]);
        j = j + 1;
        assert(out@ =~= Seq::new(pad as nat, |k: int| '0') + d@.take(j as int));
    }
    assert(d@.take(j as int) =~= d@);
    out
}

/// Appends the characters of `t` to `out`.
pub fn push_str(out: &mut Vec<char>, t: &str)
    ensures
        final(out)@ == old(out)@ + t@,
{
    let tc = chars_of(t);
    push_chars(out, tc.as_slice());
}

/// Appends `src` to `out`.
pub fn push_chars(out: &mut Vec<char>, src: &[char])
    ensures
        final(out)@ == old(out)@ + src@,
{
    let ghost start = out@;
    let mut i: usize = 0;
    while i < src.len()
        invariant
            i <= src@.len(),
            out@ == start + src@.take(i as int),
        decreases src.len() - i,
    {
        out.push(src[i]);
        i = i + 1;
        assert(out@ =~= start + src@.take(i as int));
    }
    assert(src@.take(i as int) =~= src@);
}

/// `prefix ++ body` as a `String`.
pub fn concat_string(prefix: &str, body: &str) -> (r: String)
    ensures
        r@ == prefix@ + body@,
{
    let mut v: Vec<char> = Vec::new();
    push_str(&mut v, prefix);
    push_str(&mut v, body);
    string_from_chars(v.as_slice())
}

/// Index of the last `c` in `s`, or -1.
pub open spec fn last_index_of(s: Seq<char>, c: char) -> int
    decreases s.len(),
{
    if s.len() == 0 {
        -1
    } else if s.last() == c {
        s.len() - 1
    } else {
        last_index_of(s.drop_last(), c)
    }
}

/// Index of the last `c` in `s`, if any.
pub fn rfind_char(s: &[char], c: char) -> (r: Option<usize>)
    ensures
        match r {
            Some(i) => i == last_index_of(s@, c) && i < s@.len(),
            None => last_index_of(s@, c) == -1,
        },
{
    let mut i: usize = s.len();
    assert(s@.take(i as int) =~= s@);
    while i > 0
        invariant
            i <= s@.len(),
            last_index_of(s@, c) == last_index_of(s@.take(i as int), c),
        decreases i,
    {
        if s[i - 1] == c {
            assert(s@.take(i as int).last() == c);
            return Some(i - 1);
        }
        assert(s@.take(i as int).drop_last() =~= s@.take(i - 1));
        i = i - 1;
    }
    None
}

/// `last_index_of` is -1 or a position of `c`.
pub proof fn lemma_last_index_bounds(s: Seq<char>, c: char)
    ensures
        -1 <= last_index_of(s, c) < s.len(),
        last_index_of(s, c) >= 0 ==> s[last_index_of(s, c)] == c,
        forall|j: int| last_index_of(s, c) < j < s.len() ==> s[j] != c,
    decreases s.len(),
{
    if s.len() > 0 && s.last() != c {
        lemma_last_index_bounds(s.drop_last(), c);
        assert forall|j: int| last_index_of(s, c) < j < s.len() implies s[j] != c by {
            if j < s.len() - 1 {
                assert(s[j] == s.drop_last()[j]);
            }
        }
    }
}

/// The last `c` of `a ++ b` lies in `b` when `b` holds one, else in `a`.
pub proof fn lemma_last_index_concat(a: Seq<char>, b: Seq<char>, c: char)
    ensures
        last_index_of(a + b, c) == if last_index_of(b, c) >= 0 {
            a.len() + last_index_of(b, c)
        } else {
            last_index_of(a, c)
        },
    decreases b.len(),
{
    if b.len() == 0 {
        assert(a + b =~= a);
    } else {
        assert((a + b).drop_last() =~= a + b.drop_last());
        lemma_last_index_concat(a, b.drop_last(), c);
    }
}

/// No piece of a split holds the separator.
pub proof fn lemma_split_pieces_lack_sep(p: Seq<char>, sep: char)
    ensures
        forall|k: int| 0 <= k < split_on(p, sep).len() ==> !(#[trigger] split_on(p, sep)[k]).contains(sep),
    decreases p.len(),
{
    lemma_last_index_bounds(p, sep);
    let i = last_index_of(p, sep);
    if i < 0 || i >= p.len() {
        assert forall|k: int| 0 <= k < split_on(p, sep).len() implies !(#[trigger] split_on(p, sep)[k]).contains(
            sep,
        ) by {
            assert(split_on(p, sep)[k] == p);
            if p.contains(sep) {
                let j = choose|j: int| 0 <= j < p.len() && p[j] == sep;
                assert(p[j] == sep);
            }
        }
    } else {
        lemma_split_pieces_lack_sep(p.take(i), sep);
        let rest = p.skip(i + 1);
        assert forall|k: int| 0 <= k < split_on(p, sep).len() implies !(#[trigger] split_on(p, sep)[k]).contains(
            sep,
        ) by {
            let front = split_on(p.take(i), sep);
            if k < front.len() {
                assert(split_on(p, sep)[k] == front[k]);
            } else {
                assert(split_on(p, sep)[k] == rest);
                if rest.contains(sep) {
                    let j = choose|j: int| 0 <= j < rest.len() && rest[j] == sep;
                    assert(p[i + 1 + j] == sep);
                }
            }
        }
    }
}

/// `char::is_whitespace`: the Unicode `White_Space` characters.
pub open spec fn is_ws(c: char) -> bool {
    ('\u{9}' <= c && c <= '\u{d}') || c == ' ' || c == '\u{85}' || c == '\u{a0}' || c
        == '\u{1680}' || ('\u{2000}' <= c && c <= '\u{200a}') || c == '\u{2028}' || c
        == '\u{2029}' || c == '\u{202f}' || c == '\u{205f}' || c == '\u{3000}'
}

/// Leading white space removed.
pub open spec fn trim_start_ws(s: Seq<char>) -> Seq<char>
    decreases s.len(),
{
    if s.len() > 0 && is_ws(s[0]) {
        trim_start_ws(s.drop_first())
    } else {
        s
    }
}

/// Trailing white space removed.
pub open spec fn trim_end_ws(s: Seq<char>) -> Seq<char>
    decreases s.len(),
{
    if s.len() > 0 && is_ws(s.last()) {
        trim_end_ws(s.drop_last())
    } else {
        s
    }
}

/// `str::trim`: white space removed at both ends.
pub open spec fn trim_ws(s: Seq<char>) -> Seq<char> {
    trim_end_ws(trim_start_ws(s))
}

/// Whether `c` is white space.
pub fn is_ws_exec(c: char) -> (b: bool)
    ensures
        b == is_ws(c),
{
    ('\u{9}' <= c && c <= '\u{d}') || c == ' ' || c == '\u{85}' || c == '\u{a0}' || c
        == '\u{1680}' || ('\u{2000}' <= c && c <= '\u{200a}') || c == '\u{2028}' || c
        == '\u{2029}' || c == '\u{202f}' || c == '\u{205f}' || c == '\u{3000}'
}

/// `s` with white space removed at both ends.
pub fn trim_chars(s: &[char]) -> (r: Vec<char>)
    ensures
        r@ == trim_ws(s@),
{
    let mut lo: usize = 0;
    assert(s@.skip(0) =~= s@);
    while lo < s.len() && is_ws_exec(s[lo])
        invariant
            lo <= s@.len(),
            trim_start_ws(s@) == trim_start_ws(s@.skip(lo as int)),
        decreases s.len() - lo,
    {
        assert(s@.skip(lo as int).drop_first() =~= s@.skip(lo + 1));
        lo = lo + 1;
    }
    let mut hi: usize = s.len();
    assert(s@.subrange(lo as int, hi as int) =~= trim_start_ws(s@));
    while hi > lo && is_ws_exec(s[hi - 1])
        invariant
            lo <= hi <= s@.len(),
            trim_ws(s@) == trim_end_ws(s@.subrange(lo as int, hi as int)),
        decreases hi,
    {
        assert(s@.subrange(lo as int, hi as int).drop_last() =~= s@.subrange(lo as int, hi - 1));
        hi = hi - 1;
    }
    let mut out: Vec<char> = Vec::new();
    let mut i = lo;
    while i < hi
        invariant
            lo <= i <= hi,
            hi <= s@.len(),
            out@ == s@.subrange(lo as int, i as int),
        decreases hi - i,
    {
        out.push(s[i]);
        i = i + 1;
        assert(out@ =~= s@.subrange(lo as int, i as int));
    }
    out
}

/// The `sep`-separated pieces of `p`, empty ones included.
pub open spec fn split_on(p: Seq<char>, sep: char) -> Seq<Seq<char>>
    decreases p.len(),
{
    let i = last_index_of(p, sep);
    if i < 0 || i >= p.len() {
        seq![p]
    } else {
        split_on(p.take(i), sep) + seq![p.skip(i + 1)]
    }
}

pub proof fn lemma_split_on_push(q: Seq<char>, c: char, sep: char)
    requires
        q.len() >= 0,
    ensures
        c == sep ==> split_on(q.push(c), sep) == split_on(q, sep) + seq![Seq::<char>::empty()],
        c != sep ==> split_on(q.push(c), sep) == split_on(q, sep).drop_last().push(
            split_on(q, sep).last().push(c),
        ),
        split_on(q, sep).len() >= 1,
        split_on(q, sep).last() == q.skip(last_index_of(q, sep) + 1),
    decreases q.len(),
{
    lemma_last_index_bounds(q, sep);
    let r = q.push(c);
    assert(r.drop_last() =~= q);
    lemma_last_index_bounds(r, sep);
    if c == sep {
        assert(r.take(q.len() as int) =~= q);
        assert(r.skip(q.len() as int + 1) =~= Seq::<char>::empty());
    } else {
        let i = last_index_of(q, sep);
        assert(last_index_of(r, sep) == i);
        if i >= 0 {
            assert(r.take(i) =~= q.take(i));
            assert(r.skip(i + 1) =~= q.skip(i + 1).push(c));
        } else {
            assert(q.skip(0) =~= q);
            assert(r.skip(0) =~= r);
        }
    }
    if last_index_of(q, sep) >= 0 {
        assert(split_on(q, sep).last() == q.skip(last_index_of(q, sep) + 1));
    } else {
        assert(q.skip(0) =~= q);
    }
}

/// The pieces of `p` between `sep`s.
pub fn split_on_exec(p: &[char], sep: char) -> (segs: Vec<Vec<char>>)
    ensures
        segs@.map_values(|v: Vec<char>| v@) == split_on(p@, sep),
{
    let mut segs: Vec<Vec<char>> = Vec::new();
    let mut cur: Vec<char> = Vec::new();
    let mut i: usize = 0;
    assert(p@.take(0) =~= Seq::<char>::empty());
    assert(split_on(Seq::<char>::empty(), sep) =~= seq![Seq::<char>::empty()]) by {
        assert(last_index_of(Seq::<char>::empty(), sep) == -1);
    }
    while i < p.len()
        invariant
            i <= p@.len(),
            split_on(p@.take(i as int), sep) == segs@.map_values(|v: Vec<char>| v@).push(cur@),
        decreases p.len() - i,
    {
        let ghost q = p@.take(i as int);
        proof {
            lemma_split_on_push(q, p@[i as int], sep);
            assert(p@.take(i + 1) =~= q.push(p@[i as int]));
        }
        if p[i] == sep {
            let done = cur;
            segs.push(done);
            cur = Vec::new();
            assert(segs@.map_values(|v: Vec<char>| v@).push(cur@) =~= split_on(q, sep) + seq![
                Seq::<char>::empty(),
            ]);
        } else {
            let ghost old_segs = segs@.map_values(|v: Vec<char>| v@);
            cur.push(p[i]);
            assert(segs@.map_values(|v: Vec<char>| v@).push(cur@) =~= split_on(q, sep).drop_last().push(
                split_on(q, sep).last().push(p@[i as int]),
            ));
        }
        i = i + 1;
    }
    assert(p@.take(i as int) =~= p@);
    segs.push(cur);
    segs
}

/// `String::from_utf8` (std): the bytes as a `String` when they are valid
/// UTF-8, and `None` otherwise; std documents that it fails exactly on invalid
/// UTF-8 and otherwise holds the text those bytes encode.
#[verifier::external_body]
pub(crate) fn string_from_utf8(bytes: Vec<u8>) -> (r: Option<String>)
    ensures
        r is Some <==> valid_utf8(bytes@),
        r matches Some(s) ==> s@ == decode_utf8(bytes@),
{
    String::from_utf8(bytes).ok()
}

/// `String::from_iter` over `char`s (std): the string holding exactly these
/// characters, in order.
#[verifier::external_body]
pub(crate) fn string_from_chars(cs: &[char]) -> (r: String)
    ensures
        r@ == cs@,
{
    String::from_iter(cs.iter())
}

} // verus!
