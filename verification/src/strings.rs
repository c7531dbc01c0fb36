//! Text helpers over character sequences, each with the specification of
//! what it computes.

use vstd::prelude::*;
use vstd::std_specs::iter::IteratorSpec;

verus! {

/// Whether `c` is white space in the sense of Unicode's `White_Space`
/// property (the set that `char::is_whitespace` and the `\s` class use).
pub open spec fn is_ws(c: char) -> bool {
    ||| c == '\t' || c == '\n' || c == '\x0B' || c == '\x0C' || c == '\r' || c == ' '
    ||| c == '\u{85}' || c == '\u{A0}' || c == '\u{1680}'
    ||| ('\u{2000}' <= c && c <= '\u{200A}')
    ||| c == '\u{2028}' || c == '\u{2029}' || c == '\u{202F}' || c == '\u{205F}' || c == '\u{3000}'
}

/// `s` without its leading white space.
pub open spec fn trim_start(s: Seq<char>) -> Seq<char>
    decreases s.len(),
{
    if s.len() > 0 && is_ws(s[0]) { trim_start(s.drop_first()) } else { s }
}

/// `s` without its trailing white space.
pub open spec fn trim_end(s: Seq<char>) -> Seq<char>
    decreases s.len(),
{
    if s.len() > 0 && is_ws(s.last()) { trim_end(s.drop_last()) } else { s }
}

/// `s` without leading and trailing white space.
pub open spec fn trim(s: Seq<char>) -> Seq<char> {
    trim_end(trim_start(s))
}

/// Whether `p` is a prefix of `s`.
pub open spec fn has_prefix(s: Seq<char>, p: Seq<char>) -> bool {
    p.len() <= s.len() && s.subrange(0, p.len() as int) == p
}

/// Whether `p` is a suffix of `s`.
pub open spec fn has_suffix(s: Seq<char>, p: Seq<char>) -> bool {
    p.len() <= s.len() && s.subrange(s.len() - p.len(), s.len() as int) == p
}

/// Whether `p` occurs in `s` at position `i`.
pub open spec fn occurs_at(s: Seq<char>, p: Seq<char>, i: int) -> bool {
    0 <= i && i + p.len() <= s.len() && s.subrange(i, i + p.len()) == p
}

/// Whether `p` occurs anywhere in `s`.
pub open spec fn contains_seq(s: Seq<char>, p: Seq<char>) -> bool {
    exists|i: int| occurs_at(s, p, i)
}

/// The maximal runs of non-white-space characters of `s`, in order, where
/// `cur` is a run already begun.
pub open spec fn words_from(s: Seq<char>, cur: Seq<char>) -> Seq<Seq<char>>
    decreases s.len(),
{
    if s.len() == 0 {
        if cur.len() == 0 { Seq::empty() } else { seq![cur] }
    } else if is_ws(s[0]) {
        let head: Seq<Seq<char>> = if cur.len() == 0 { Seq::empty() } else { seq![cur] };
        head + words_from(s.drop_first(), Seq::empty())
    } else {
        words_from(s.drop_first(), cur.push(s[0]))
    }
}

/// The white-space separated words of `s`.
pub open spec fn words(s: Seq<char>) -> Seq<Seq<char>> {
    words_from(s, Seq::empty())
}

/// The parts of `s` joined with `sep` between each two of them.
pub open spec fn join(parts: Seq<Seq<char>>, sep: Seq<char>) -> Seq<char>
    decreases parts.len(),
{
    if parts.len() == 0 {
        Seq::empty()
    } else if parts.len() == 1 {
        parts[0]
    } else {
        join(parts.drop_last(), sep) + sep + parts.last()
    }
}

/// `s` with every occurrence of `from` (taken left to right, without
/// overlap) replaced by `to`; `from` is not empty.
pub open spec fn replace_all(s: Seq<char>, from: Seq<char>, to: Seq<char>) -> Seq<char>
    decreases s.len(),
{
    if from.len() == 0 || s.len() < from.len() {
        s
    } else if s.subrange(0, from.len() as int) == from {
        to + replace_all(s.subrange(from.len() as int, s.len() as int), from, to)
    } else {
        seq![s[0]] + replace_all(s.drop_first(), from, to)
    }
}

/// Equality of two strings, character by character.
pub(crate) fn str_eq(a: &str, b: &str) -> (r: bool)
    ensures
        r == (a@ == b@),
{
    let x = to_chars(a);
    let y = to_chars(b);
    if x.len() != y.len() {
        return false;
    }
    let mut i: usize = 0;
    while i < x.len()
        invariant
            x@ == a@,
            y@ == b@,
            x@.len() == y@.len(),
            i <= x@.len(),
            forall|j: int| 0 <= j < i ==> x@[j] == y@[j],
        decreases x.len() - i,
    {
        if x[i] != y[i] {
            return false;
        }
        i = i + 1;
    }
    assert(x@ =~= y@);
    true
}

/// The characters of a string.
pub(crate) fn to_chars(s: &str) -> (r: Vec<char>)
    ensures
        r@ == s@,
{
    broadcast use {vstd::string::axiom_spec_iter, vstd::string::next_postcondition};
    let mut out: Vec<char> = Vec::new();
    let mut chars = s.chars();
    loop
        invariant
            out@ + chars.remaining() == s@,
            chars.obeys_prophetic_iter_laws(),
            chars.decrease() is Some,
        decreases chars.decrease()->0,
    {
        let ghost before = chars.remaining();
        match chars.next() {
            Some(c) => {
                assert(before.len() > 0);
                out.push(c);
                assert(out@ + chars.remaining() =~= s@) by {
                    assert(before =~= seq![c] + before.drop_first());
                }
            },
            None => {
                assert(out@ =~= s@);
                return out;
            },
        }
    }
}

/// The string made of the given characters.
#[verifier::external_body]
pub(crate) fn from_chars(v: &[char]) -> (r: String)
    ensures
        r@ == v@,
{
    v.iter().collect()
}

/// A copy of a string slice as an owned string.
pub fn owned(s: &str) -> (r: String)
    ensures
        r@ == s@,
{
    String::from_str(s)
}

/// Whether `c` is white space.
pub fn is_whitespace(c: char) -> (r: bool)
    ensures
        r == is_ws(c),
{
    c == '\t' || c == '\n' || c == '\x0B' || c == '\x0C' || c == '\r' || c == ' '
        || c == '\u{85}' || c == '\u{A0}' || c == '\u{1680}' || ('\u{2000}' <= c && c <= '\u{200A}')
        || c == '\u{2028}' || c == '\u{2029}' || c == '\u{202F}' || c == '\u{205F}' || c == '\u{3000}'
}

pub proof fn lemma_trim_start_sub(s: Seq<char>, i: int)
    requires
        0 <= i < s.len(),
        is_ws(s[i]),
    ensures
        trim_start(s.subrange(i, s.len() as int)) == trim_start(s.subrange(i + 1, s.len() as int)),
{
    assert(s.subrange(i, s.len() as int).drop_first() =~= s.subrange(i + 1, s.len() as int));
}

pub proof fn lemma_trim_end_sub(s: Seq<char>, j: int)
    requires
        0 < j <= s.len(),
        is_ws(s[j - 1]),
    ensures
        trim_end(s.subrange(0, j)) == trim_end(s.subrange(0, j - 1)),
{
    assert(s.subrange(0, j).drop_last() =~= s.subrange(0, j - 1));
}

/// The characters of `s` without leading and trailing white space.
pub fn trim_chars(s: &[char]) -> (r: Vec<char>)
    ensures
        r@ == trim(s@),
{
    let n = s.len();
    let mut i: usize = 0;
    assert(s@.subrange(0, n as int) =~= s@);
    while i < n && is_whitespace(s[i])
        invariant
            n == s@.len(), i <= n,
            trim_start(s@) == trim_start(s@.subrange(i as int, n as int)),
        decreases n - i,
    {
        proof { lemma_trim_start_sub(s@, i as int); }
        i = i + 1;
    }
    let ghost t = s@.subrange(i as int, n as int);
    assert(trim_start(s@) == t);
    let mut j: usize = n;
    assert(t.subrange(0, (j - i) as int) =~= t);
    while j > i && is_whitespace(s[j - 1])
        invariant
            i <= j <= n, n == s@.len(),
            t == s@.subrange(i as int, n as int),
            trim_end(t) == trim_end(t.subrange(0, (j - i) as int)),
        decreases j,
    {
        proof {
            assert(t[(j - 1 - i) as int] == s@[j - 1]);
            lemma_trim_end_sub(t, (j - i) as int);
        }
        j = j - 1;
    }
    let mut out: Vec<char> = Vec::new();
    let mut k: usize = i;
    while k < j
        invariant
            i <= k <= j, j <= n, n == s@.len(),
            out@ == s@.subrange(i as int, k as int),
        decreases j - k,
    {
        out.push(s[k]);
        k = k + 1;
        assert(out@ =~= s@.subrange(i as int, k as int));
    }
    assert(t.subrange(0, (j - i) as int) =~= s@.subrange(i as int, j as int));
    out
}

/// `s` without leading and trailing white space.
pub fn trim_str(s: &str) -> (r: String)
    ensures
        r@ == trim(s@),
{
    let cs = to_chars(s);
    let t = trim_chars(cs.as_slice());
    from_chars(t.as_slice())
}

/// Whether `s` begins with `p`.
pub fn starts_with(s: &[char], p: &[char]) -> (r: bool)
    ensures
        r == has_prefix(s@, p@),
{
    if p.len() > s.len() {
        return false;
    }
    let mut i: usize = 0;
    while i < p.len()
        invariant
            p@.len() <= s@.len(), i <= p@.len(),
            forall|k: int| 0 <= k < i ==> s@[k] == p@[k],
        decreases p.len() - i,
    {
        if s[i] != p[i] {
            assert(s@.subrange(0, p@.len() as int)[i as int] != p@[i as int]);
            return false;
        }
        i = i + 1;
    }
    assert(s@.subrange(0, p@.len() as int) =~= p@);
    true
}

/// Whether `s` ends with `p`.
pub fn ends_with(s: &[char], p: &[char]) -> (r: bool)
    ensures
        r == has_suffix(s@, p@),
{
    if p.len() > s.len() {
        return false;
    }
    let off = s.len() - p.len();
    let mut i: usize = 0;
    while i < p.len()
        invariant
            p@.len() <= s@.len(), off == s@.len() - p@.len(), i <= p@.len(), s@.len() == s.len(),
            forall|k: int| 0 <= k < i ==> s@[off + k] == p@[k],
        decreases p.len() - i,
    {
        if s[off + i] != p[i] {
            assert(s@.subrange(off as int, s@.len() as int)[i as int] != p@[i as int]);
            return false;
        }
        i = i + 1;
    }
    assert(s@.subrange(off as int, s@.len() as int) =~= p@);
    true
}

/// Whether `p` occurs in `s` at position `i`.
pub fn matches_at(s: &[char], p: &[char], i: usize) -> (r: bool)
    ensures
        r == occurs_at(s@, p@, i as int),
{
    if i > s.len() || p.len() > s.len() - i {
        return false;
    }
    let mut k: usize = 0;
    while k < p.len()
        invariant
            i + p@.len() <= s@.len(), k <= p@.len(), s@.len() == s.len(),
            forall|m: int| 0 <= m < k ==> s@[i + m] == p@[m],
        decreases p.len() - k,
    {
        if s[i + k] != p[k] {
            assert(s@.subrange(i as int, i + p@.len())[k as int] != p@[k as int]);
            return false;
        }
        k = k + 1;
    }
    assert(s@.subrange(i as int, i + p@.len()) =~= p@);
    true
}

/// Whether `p` occurs anywhere in `s`.
pub fn contains(s: &[char], p: &[char]) -> (r: bool)
    ensures
        r == contains_seq(s@, p@),
{
    let mut i: usize = 0;
    loop
        invariant
            i <= s@.len(),
            forall|k: int| 0 <= k < i ==> !occurs_at(s@, p@, k),
        decreases s.len() - i,
    {
        if matches_at(s, p, i) {
            return true;
        }
        if i == s.len() {
            assert forall|k: int| !occurs_at(s@, p@, k) by {
                if 0 <= k < i {
                } else if k == i {
                }
            }
            return false;
        }
        i = i + 1;
    }
}

/// Whether the string `s` contains the string `p`.
pub fn str_contains(s: &str, p: &str) -> (r: bool)
    ensures
        r == contains_seq(s@, p@),
{
    let a = to_chars(s);
    let b = to_chars(p);
    contains(a.as_slice(), b.as_slice())
}

/// Whether the string `s` begins with the string `p`.
pub fn str_starts_with(s: &str, p: &str) -> (r: bool)
    ensures
        r == has_prefix(s@, p@),
{
    let a = to_chars(s);
    let b = to_chars(p);
    starts_with(a.as_slice(), b.as_slice())
}

/// Whether the string `s` ends with the string `p`.
pub fn str_ends_with(s: &str, p: &str) -> (r: bool)
    ensures
        r == has_suffix(s@, p@),
{
    let a = to_chars(s);
    let b = to_chars(p);
    ends_with(a.as_slice(), b.as_slice())
}

/// The white-space separated words of `s`.
pub fn split_whitespace(s: &str) -> (r: Vec<String>)
    ensures
        r@.len() == words(s@).len(),
        forall|i: int| 0 <= i < r@.len() ==> (#[trigger] r@[i])@ == words(s@)[i],
{
    let cs = to_chars(s);
    let n = cs.len();
    let mut out: Vec<String> = Vec::new();
    let ghost outv: Seq<Seq<char>> = Seq::empty();
    let mut cur: Vec<char> = Vec::new();
    let mut i: usize = 0;
    assert(cs@.subrange(0, n as int) =~= cs@);
    while i < n
        invariant
            n == cs@.len(), i <= n,
            out@.len() == outv.len(),
            forall|k: int| 0 <= k < out@.len() ==> (#[trigger] out@[k])@ == outv[k],
            outv + words_from(cs@.subrange(i as int, n as int), cur@) == words(s@),
            cs@ == s@,
        decreases n - i,
    {
        let c = cs[i];
        let ghost rest = cs@.subrange(i as int, n as int);
        assert(rest.drop_first() =~= cs@.subrange(i + 1, n as int));
        assert(rest[0] == c);
        if is_whitespace(c) {
            if cur.len() > 0 {
                let w = from_chars(cur.as_slice());
                proof { outv = outv.push(cur@); }
                out.push(w);
                assert(seq![cur@] + words_from(cs@.subrange(i + 1, n as int), Seq::empty()) =~= seq![cur@].add(words_from(cs@.subrange(i + 1, n as int), Seq::empty())));
                assert(outv.drop_last() + seq![cur@] =~= outv);
            }
            cur = Vec::new();
        } else {
            cur.push(c);
        }
        i = i + 1;
        proof {
            if !is_ws(c) {
            } else {
                assert(cs@.subrange(i as int, n as int) == rest.drop_first());
            }
        }
    }
    assert(cs@.subrange(n as int, n as int).len() == 0);
    if cur.len() > 0 {
        let w = from_chars(cur.as_slice());
        proof { outv = outv.push(cur@); }
        out.push(w);
    }
    assert(outv =~= words(s@)) by {
        assert(words_from(cs@.subrange(n as int, n as int), cur@) == (if cur@.len() == 0 { Seq::<Seq<char>>::empty() } else { seq![cur@] }));
    }
    out
}

/// The parts joined with `sep` between each two of them.
pub fn join_strings(parts: &Vec<String>, sep: &str) -> (r: String)
    ensures
        r@ == join(parts@.map_values(|p: String| p@), sep@),
{
    let ghost pv = parts@.map_values(|p: String| p@);
    let mut out = String::new();
    let mut i: usize = 0;
    while i < parts.len()
        invariant
            i <= parts@.len(),
            pv == parts@.map_values(|p: String| p@),
            out@ == join(pv.take(i as int), sep@),
        decreases parts.len() - i,
    {
        assert(pv.take(i + 1).drop_last() =~= pv.take(i as int));
        if i > 0 {
            out.append(sep);
        }
        out.append(parts[i].as_str());
        i = i + 1;
        proof {
            if i == 1 {
                assert(pv.take(1) =~= seq![pv[0]]);
            }
        }
    }
    assert(pv.take(parts@.len() as int) =~= pv);
    out
}

/// Index of the first occurrence of `c` in `s`, or `-1`.
pub open spec fn char_index(s: Seq<char>, c: char) -> int
    decreases s.len(),
{
    if s.len() == 0 {
        -1
    } else if s[0] == c {
        0
    } else {
        let r = char_index(s.drop_first(), c);
        if r < 0 { -1 } else { r + 1 }
    }
}

/// `char_index` is the first place of `c`: none comes before it.
pub proof fn lemma_char_index(s: Seq<char>, c: char, i: int)
    requires
        0 <= i <= s.len(),
        forall|j: int| 0 <= j < i ==> s[j] != c,
        i == s.len() || s[i] == c,
    ensures
        char_index(s, c) == (if i == s.len() { -1 } else { i }),
    decreases s.len(),
{
    if s.len() > 0 && i > 0 {
        let t = s.drop_first();
        assert forall|j: int| 0 <= j < i - 1 implies t[j] != c by {
            assert(t[j] == s[j + 1]);
        }
        if i < s.len() {
            assert(t[i - 1] == s[i]);
        }
        lemma_char_index(t, c, i - 1);
    }
}

/// An occurrence of `c` at `j` puts the first one at `j` or before.
pub proof fn lemma_char_index_found(s: Seq<char>, c: char, j: int)
    requires
        0 <= j < s.len(),
        s[j] == c,
    ensures
        0 <= char_index(s, c) <= j,
    decreases s.len(),
{
    if s[0] != c {
        assert(s.drop_first()[j - 1] == s[j]);
        lemma_char_index_found(s.drop_first(), c, j - 1);
    }
}

/// The position of the first `c` in `s`.
pub fn find_char(s: &[char], c: char) -> (r: Option<usize>)
    ensures
        match r {
            Some(i) => i as int == char_index(s@, c) && i < s@.len(),
            None => char_index(s@, c) == -1,
        },
{
    let mut i: usize = 0;
    while i < s.len() && s[i] != c
        invariant
            i <= s@.len(),
            forall|j: int| 0 <= j < i ==> s@[j] != c,
        decreases s.len() - i,
    {
        i = i + 1;
    }
    proof { lemma_char_index(s@, c, i as int); }
    if i < s.len() { Some(i) } else { None }
}

/// The characters of `s` from position `n` on.
pub fn chars_from(s: &[char], n: usize) -> (r: String)
    requires
        n <= s@.len(),
    ensures
        r@ == s@.skip(n as int),
{
    let mut out: Vec<char> = Vec::new();
    let mut k: usize = n;
    while k < s.len()
        invariant
            n <= k <= s@.len(),
            out@ == s@.subrange(n as int, k as int),
        decreases s.len() - k,
    {
        out.push(s[k]);
        k = k + 1;
        assert(out@ =~= s@.subrange(n as int, k as int));
    }
    from_chars(out.as_slice())
}

/// The characters of `s` before position `n`.
pub fn chars_until(s: &[char], n: usize) -> (r: String)
    requires
        n <= s@.len(),
    ensures
        r@ == s@.take(n as int),
{
    let mut out: Vec<char> = Vec::new();
    let mut k: usize = 0;
    while k < n
        invariant
            k <= n <= s@.len(),
            out@ == s@.take(k as int),
        decreases n - k,
    {
        out.push(s[k]);
        k = k + 1;
        assert(out@ =~= s@.take(k as int));
    }
    from_chars(out.as_slice())
}

/// The pieces of `s` between the occurrences of `c`, `cur` standing before
/// the first piece.
pub open spec fn split_from(s: Seq<char>, c: char, cur: Seq<char>) -> Seq<Seq<char>>
    decreases s.len(),
{
    if s.len() == 0 {
        seq![cur]
    } else if s[0] == c {
        seq![cur] + split_from(s.drop_first(), c, Seq::empty())
    } else {
        split_from(s.drop_first(), c, cur.push(s[0]))
    }
}

/// The pieces of `s` between the occurrences of `c`: one more than there
/// are occurrences.
pub open spec fn split_on(s: Seq<char>, c: char) -> Seq<Seq<char>> {
    split_from(s, c, Seq::empty())
}

/// Splits `s` at each `c`.
pub fn split_char(s: &str, c: char) -> (r: Vec<String>)
    ensures
        r@.len() == split_on(s@, c).len(),
        forall|i: int| 0 <= i < r@.len() ==> (#[trigger] r@[i])@ == split_on(s@, c)[i],
{
    let cs = to_chars(s);
    let n = cs.len();
    let mut out: Vec<String> = Vec::new();
    let ghost outv: Seq<Seq<char>> = Seq::empty();
    let mut cur: Vec<char> = Vec::new();
    let mut i: usize = 0;
    assert(cs@.subrange(0, n as int) =~= cs@);
    while i < n
        invariant
            n == cs@.len(), i <= n,
            out@.len() == outv.len(),
            forall|k: int| 0 <= k < out@.len() ==> (#[trigger] out@[k])@ == outv[k],
            outv + split_from(cs@.subrange(i as int, n as int), c, cur@) == split_on(s@, c),
            cs@ == s@,
        decreases n - i,
    {
        let ghost rest = cs@.subrange(i as int, n as int);
        assert(rest.drop_first() =~= cs@.subrange(i + 1, n as int));
        assert(rest[0] == cs@[i as int]);
        if cs[i] == c {
            let w = from_chars(cur.as_slice());
            proof { outv = outv.push(cur@); }
            out.push(w);
            assert(outv.drop_last() + seq![cur@] =~= outv);
            assert(outv.drop_last() + (seq![cur@] + split_from(cs@.subrange(i + 1, n as int), c, Seq::empty()))
                =~= outv + split_from(cs@.subrange(i + 1, n as int), c, Seq::empty()));
            cur = Vec::new();
        } else {
            cur.push(cs[i]);
        }
        i = i + 1;
    }
    let w = from_chars(cur.as_slice());
    proof { outv = outv.push(cur@); }
    out.push(w);
    assert(cs@.subrange(n as int, n as int).len() == 0);
    assert(outv =~= split_on(s@, c));
    out
}

/// Whether one of the strings equals `x`.
pub fn contains_string(v: &Vec<String>, x: &str) -> (r: bool)
    ensures
        r == v@.map_values(|s: String| s@).contains(x@),
{
    let ghost sv = v@.map_values(|s: String| s@);
    let mut i: usize = 0;
    while i < v.len()
        invariant
            i <= v@.len(), sv == v@.map_values(|s: String| s@),
            forall|k: int| 0 <= k < i ==> sv[k] != x@,
        decreases v.len() - i,
    {
        if str_eq(v[i].as_str(), x) {
            assert(sv[i as int] == x@);
            return true;
        }
        i = i + 1;
    }
    false
}

/// What `str::to_lowercase` gives: the Unicode lowercase mapping of each
/// character.
pub uninterp spec fn lowercase(s: Seq<char>) -> Seq<char>;

/// What `str::to_uppercase` gives: the Unicode uppercase mapping of each
/// character.
pub uninterp spec fn uppercase(s: Seq<char>) -> Seq<char>;

/// The UTF-8 bytes of a character: one byte below U+0080, then two, three
/// or four, the first marking the length and each further one carrying six
/// bits under the marker `10`.
pub open spec fn utf8_char(c: char) -> Seq<u8> {
    let v = c as int;
    if v < 0x80 {
        seq![v as u8]
    } else if v < 0x800 {
        seq![(0xC0 + v / 64) as u8, (0x80 + v % 64) as u8]
    } else if v < 0x10000 {
        seq![(0xE0 + v / 4096) as u8, (0x80 + (v / 64) % 64) as u8, (0x80 + v % 64) as u8]
    } else {
        seq![(0xF0 + v / 262144) as u8, (0x80 + (v / 4096) % 64) as u8, (0x80 + (v / 64) % 64) as u8,
            (0x80 + v % 64) as u8]
    }
}

/// The UTF-8 bytes of a text, character after character.
pub open spec fn utf8_bytes(s: Seq<char>) -> Seq<u8>
    decreases s.len(),
{
    if s.len() == 0 {
        Seq::empty()
    } else {
        utf8_bytes(s.drop_last()) + utf8_char(s.last())
    }
}

/// A character in ASCII lower case: `A`..`Z` become `a`..`z`.
pub open spec fn ascii_lower(c: char) -> char {
    if 'A' <= c && c <= 'Z' { ((c as u32) + 32) as char } else { c }
}

/// A character in ASCII upper case: `a`..`z` become `A`..`Z`.
pub open spec fn ascii_upper(c: char) -> char {
    if 'a' <= c && c <= 'z' { ((c as u32) - 32) as char } else { c }
}

/// Whether every character of a text is ASCII.
pub open spec fn all_ascii(s: Seq<char>) -> bool {
    forall|i: int| 0 <= i < s.len() ==> (s[i] as u32) < 128
}

/// A text in lower case as `str::to_lowercase` gives it: letter by letter
/// for an ASCII text, by the Unicode mapping otherwise.
pub open spec fn lower_text(s: Seq<char>) -> Seq<char> {
    if all_ascii(s) { s.map_values(|c: char| ascii_lower(c)) } else { lowercase(s) }
}

/// A text in upper case as `str::to_uppercase` gives it: letter by letter
/// for an ASCII text, by the Unicode mapping otherwise.
pub open spec fn upper_text(s: Seq<char>) -> Seq<char> {
    if all_ascii(s) { s.map_values(|c: char| ascii_upper(c)) } else { uppercase(s) }
}

/// The string in lower case (`str::to_lowercase`).  The Unicode mapping is
/// named; of an ASCII text the contract says what std's documentation and
/// the Unicode tables give: each letter `A`..`Z` becomes `a`..`z` and every
/// other character stays.
#[verifier::external_body]
pub(crate) fn to_lowercase(s: &str) -> (r: String)
    ensures
        r@ == lowercase(s@),
        all_ascii(s@) ==> r@ == s@.map_values(|c: char| ascii_lower(c)),
{
    s.to_lowercase()
}

/// The string in upper case (`str::to_uppercase`).  The Unicode mapping is
/// named; of an ASCII text the contract says that each letter `a`..`z`
/// becomes `A`..`Z` and every other character stays.
#[verifier::external_body]
pub(crate) fn to_uppercase(s: &str) -> (r: String)
    ensures
        r@ == uppercase(s@),
        all_ascii(s@) ==> r@ == s@.map_values(|c: char| ascii_upper(c)),
{
    s.to_uppercase()
}

/// The pieces of `s` between the occurrences of the non-empty `sep`, found
/// from the left without overlap; `cur` stands before the first piece.
pub open spec fn split_str_from(s: Seq<char>, sep: Seq<char>, cur: Seq<char>) -> Seq<Seq<char>>
    recommends
        sep.len() > 0,
    decreases s.len(),
{
    if s.len() == 0 || sep.len() == 0 {
        seq![cur]
    } else if has_prefix(s, sep) {
        seq![cur] + split_str_from(s.skip(sep.len() as int), sep, Seq::empty())
    } else {
        split_str_from(s.drop_first(), sep, cur.push(s[0]))
    }
}

/// The pieces of `s` that `str::split(sep)` gives: for an empty separator,
/// an empty piece, each character alone, and an empty piece.
pub open spec fn split_str_spec(s: Seq<char>, sep: Seq<char>) -> Seq<Seq<char>> {
    if sep.len() == 0 {
        seq![Seq::<char>::empty()] + s.map_values(|c: char| seq![c]) + seq![Seq::<char>::empty()]
    } else {
        split_str_from(s, sep, Seq::empty())
    }
}

/// Splits `s` at each occurrence of `sep`.
pub fn split_str(s: &str, sep: &str) -> (r: Vec<String>)
    ensures
        str_seq(r@) == split_str_spec(s@, sep@),
{
    let cs = to_chars(s);
    let ps = to_chars(sep);
    let n = cs.len();
    let mut out: Vec<String> = Vec::new();
    if ps.len() == 0 {
        out.push(String::new());
        let mut i: usize = 0;
        while i < n
            invariant
                i <= n, n == cs@.len(), cs@ == s@,
                str_seq(out@) == seq![Seq::<char>::empty()] + cs@.take(i as int).map_values(|c: char| seq![c]),
            decreases n - i,
        {
            let mut one: Vec<char> = Vec::new();
            one.push(cs[i]);
            let ghost before = out@;
            out.push(from_chars(one.as_slice()));
            assert(one@ =~= seq![cs@[i as int]]);
            assert(str_seq(out@) =~= str_seq(before).push(seq![cs@[i as int]]));
            assert(cs@.take(i + 1).map_values(|c: char| seq![c]) =~= cs@.take(i as int).map_values(|c: char| seq![c]).push(seq![cs@[i as int]]));
            i = i + 1;
        }
        let ghost before = out@;
        out.push(String::new());
        assert(str_seq(out@) =~= str_seq(before).push(Seq::<char>::empty()));
        assert(cs@.take(n as int) =~= cs@);
        assert(str_seq(out@) =~= split_str_spec(s@, sep@));
        return out;
    }
    let ghost outv: Seq<Seq<char>> = Seq::empty();
    let mut cur: Vec<char> = Vec::new();
    let mut i: usize = 0;
    assert(cs@.subrange(0, n as int) =~= cs@);
    while i < n
        invariant
            n == cs@.len(), i <= n, ps@.len() > 0, ps@ == sep@, cs@ == s@,
            str_seq(out@) == outv,
            outv + split_str_from(cs@.subrange(i as int, n as int), ps@, cur@) == split_str_spec(s@, sep@),
        decreases n - i,
    {
        let ghost rest = cs@.subrange(i as int, n as int);
        if matches_at(cs.as_slice(), ps.as_slice(), i) {
            assert(has_prefix(rest, ps@)) by {
                assert(rest.subrange(0, ps@.len() as int) =~= cs@.subrange(i as int, i + ps@.len()));
            }
            assert(rest.skip(ps@.len() as int) =~= cs@.subrange(i + ps@.len(), n as int));
            let w = from_chars(cur.as_slice());
            let ghost before = out@;
            out.push(w);
            proof { outv = outv.push(cur@); }
            assert(str_seq(out@) =~= str_seq(before).push(cur@));
            assert(outv.drop_last() + (seq![cur@] + split_str_from(cs@.subrange(i + ps@.len(), n as int), ps@, Seq::empty()))
                =~= outv + split_str_from(cs@.subrange(i + ps@.len(), n as int), ps@, Seq::empty()));
            cur = Vec::new();
            i = i + ps.len();
        } else {
            assert(!has_prefix(rest, ps@)) by {
                if has_prefix(rest, ps@) {
                    assert(rest.subrange(0, ps@.len() as int) =~= cs@.subrange(i as int, i + ps@.len()));
                }
            }
            assert(rest.drop_first() =~= cs@.subrange(i + 1, n as int));
            cur.push(cs[i]);
            i = i + 1;
        }
    }
    let w = from_chars(cur.as_slice());
    let ghost before = out@;
    out.push(w);
    proof { outv = outv.push(cur@); }
    assert(str_seq(out@) =~= str_seq(before).push(cur@));
    assert(cs@.subrange(n as int, n as int).len() == 0);
    assert(outv =~= split_str_spec(s@, sep@));
    out
}

/// The strings as character sequences.
pub open spec fn str_seq(v: Seq<String>) -> Seq<Seq<char>> {
    v.map_values(|s: String| s@)
}


/// `s` with every occurrence of `from` replaced by `to`, taken left to
/// right and without overlap; an empty `from` leaves `s` as it is.
pub fn replace_str(s: &str, from: &str, to: &str) -> (r: String)
    ensures
        r@ == replace_all(s@, from@, to@),
{
    let cs = to_chars(s);
    let fs = to_chars(from);
    let ts = to_chars(to);
    if fs.len() == 0 {
        return owned(s);
    }
    let n = cs.len();
    let mut out: Vec<char> = Vec::new();
    let mut i: usize = 0;
    assert(cs@.skip(0) =~= cs@);
    while i < n
        invariant
            i <= n, n == cs@.len(), cs@ == s@, fs@ == from@, ts@ == to@, fs@.len() > 0,
            out@ + replace_all(cs@.skip(i as int), fs@, ts@) == replace_all(cs@, fs@, ts@),
        decreases n - i,
    {
        let ghost rest = cs@.skip(i as int);
        let ghost before = out@;
        if matches_at(cs.as_slice(), fs.as_slice(), i) {
            assert(rest.subrange(0, fs@.len() as int) =~= fs@);
            assert(rest.subrange(fs@.len() as int, rest.len() as int) =~= cs@.skip(i + fs@.len()));
            assert(replace_all(rest, fs@, ts@) == ts@ + replace_all(cs@.skip(i + fs@.len()), fs@, ts@));
            let mut k: usize = 0;
            while k < ts.len()
                invariant
                    k <= ts@.len(), out@ == before + ts@.take(k as int),
                decreases ts.len() - k,
            {
                out.push(ts[k]);
                k = k + 1;
                assert(out@ =~= before + ts@.take(k as int));
            }
            assert(ts@.take(ts@.len() as int) =~= ts@);
            assert(out@ + replace_all(cs@.skip(i + fs@.len()), fs@, ts@)
                =~= before + (ts@ + replace_all(cs@.skip(i + fs@.len()), fs@, ts@)));
            i = i + fs.len();
        } else {
            assert(rest.drop_first() =~= cs@.skip(i + 1));
            proof {
                if rest.len() >= fs@.len() {
                    assert(rest.subrange(0, fs@.len() as int) =~= cs@.subrange(i as int, i + fs@.len()));
                    assert(rest.subrange(0, fs@.len() as int) != fs@);
                    assert(replace_all(rest, fs@, ts@) == seq![rest[0]] + replace_all(rest.drop_first(), fs@, ts@));
                }
                if rest.len() < fs@.len() {
                    assert(replace_all(rest.drop_first(), fs@, ts@) == rest.drop_first());
                    assert(rest =~= seq![rest[0]] + rest.drop_first());
                }
            }
            out.push(cs[i]);
            assert(out@ + replace_all(cs@.skip(i + 1), fs@, ts@)
                =~= before + (seq![rest[0]] + replace_all(rest.drop_first(), fs@, ts@)));
            i = i + 1;
        }
    }
    assert(cs@.skip(n as int) =~= Seq::<char>::empty());
    assert(out@ =~= out@ + Seq::<char>::empty());
    from_chars(out.as_slice())
}


/// The number of white-space characters that `s` begins with.
pub fn leading_ws_len(s: &[char]) -> (r: usize)
    ensures
        r <= s@.len(),
        trim_start(s@) == s@.subrange(r as int, s@.len() as int),
{
    let n = s.len();
    let mut i: usize = 0;
    assert(s@.subrange(0, n as int) =~= s@);
    while i < n && is_whitespace(s[i])
        invariant
            n == s@.len(), i <= n,
            trim_start(s@) == trim_start(s@.subrange(i as int, n as int)),
        decreases n - i,
    {
        proof { lemma_trim_start_sub(s@, i as int); }
        i = i + 1;
    }
    i
}

/// Where `p` first occurs in `s`, or `-1` when it does not.
pub open spec fn seq_index(s: Seq<char>, p: Seq<char>) -> int
    decreases s.len(),
{
    if occurs_at(s, p, 0) {
        0
    } else if s.len() == 0 {
        -1
    } else {
        let r = seq_index(s.drop_first(), p);
        if r < 0 { -1 } else { r + 1 }
    }
}

pub proof fn lemma_seq_index(s: Seq<char>, p: Seq<char>)
    ensures
        seq_index(s, p) >= 0 ==> occurs_at(s, p, seq_index(s, p)),
        seq_index(s, p) >= 0 ==> forall|k: int| 0 <= k < seq_index(s, p) ==> !occurs_at(s, p, k),
        seq_index(s, p) < 0 ==> seq_index(s, p) == -1 && forall|k: int| !occurs_at(s, p, k),
    decreases s.len(),
{
    if !occurs_at(s, p, 0) && s.len() > 0 {
        let t = s.drop_first();
        lemma_seq_index(t, p);
        assert forall|k: int| 0 <= k && k + p.len() <= t.len() implies
            (#[trigger] occurs_at(t, p, k)) == occurs_at(s, p, k + 1) by {
            assert(t.subrange(k, k + p.len()) =~= s.subrange(k + 1, k + 1 + p.len()));
        }
        assert forall|k: int| 1 <= k && k + p.len() <= s.len() implies
            occurs_at(s, p, k) == #[trigger] occurs_at(t, p, k - 1) by {
            assert(t.subrange(k - 1, k - 1 + p.len()) =~= s.subrange(k, k + p.len()));
        }
        if seq_index(t, p) < 0 {
            assert forall|k: int| !occurs_at(s, p, k) by {
                if k >= 1 && k + p.len() <= s.len() {
                    assert(!occurs_at(t, p, k - 1));
                }
            }
        } else {
            let r = seq_index(t, p);
            assert(occurs_at(t, p, r));
            assert forall|k: int| 0 <= k < r + 1 implies !occurs_at(s, p, k) by {
                if k >= 1 && k + p.len() <= s.len() {
                    assert(!occurs_at(t, p, k - 1));
                }
            }
        }
    } else if !occurs_at(s, p, 0) {
        assert forall|k: int| !occurs_at(s, p, k) by {
            if occurs_at(s, p, k) {
                assert(k == 0 && p.len() == 0);
                assert(s.subrange(0, 0) =~= p);
            }
        }
    }
}

proof fn lemma_seq_first(s: Seq<char>, p: Seq<char>, i: int)
    requires
        occurs_at(s, p, i),
        forall|k: int| 0 <= k < i ==> !occurs_at(s, p, k),
    ensures
        seq_index(s, p) == i,
{
    lemma_seq_index(s, p);
    let r = seq_index(s, p);
    if r < 0 {
        assert(!occurs_at(s, p, i));
    } else if r < i {
        assert(!occurs_at(s, p, r));
    } else if r > i {
        assert(!occurs_at(s, p, i));
    }
}

/// Where `p` first occurs in `s`.
pub fn find_seq(s: &[char], p: &[char]) -> (r: Option<usize>)
    ensures
        match r {
            Some(i) => i as int == seq_index(s@, p@),
            None => seq_index(s@, p@) == -1,
        },
{
    proof { lemma_seq_index(s@, p@); }
    if p.len() > s.len() {
        assert(forall|k: int| !occurs_at(s@, p@, k));
        assert(seq_index(s@, p@) < 0) by {
            if seq_index(s@, p@) >= 0 { assert(occurs_at(s@, p@, seq_index(s@, p@))); }
        }
        return None;
    }
    let n = s.len() - p.len();
    let mut i: usize = 0;
    while i < n
        invariant
            n == s@.len() - p@.len(), i <= n,
            forall|k: int| 0 <= k < i ==> !occurs_at(s@, p@, k),
        decreases n - i,
    {
        if matches_at(s, p, i) {
            proof { lemma_seq_first(s@, p@, i as int); }
            return Some(i);
        }
        i = i + 1;
    }
    if matches_at(s, p, n) {
        proof { lemma_seq_first(s@, p@, n as int); }
        return Some(n);
    }
    proof {
        let r = seq_index(s@, p@);
        if r >= 0 {
            assert(occurs_at(s@, p@, r));
            assert(r <= n);
            assert(!occurs_at(s@, p@, r));
        }
    }
    None
}

} // verus!
