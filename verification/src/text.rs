//! String primitives shared by the rest of the library: character lists,
//! Unicode whitespace trimming, prefix/suffix stripping and substring search.
use vstd::prelude::*;
use vstd::std_specs::iter::IteratorSpec;
use vstd::string::StringExecFns;

use crate::graph::types::string_views;

verus! {

broadcast use vstd::string::group_string_axioms;

/// Whether two string slices hold the same characters.
pub fn str_eq(a: &str, b: &str) -> (r: bool)
    ensures
        r == (a@ == b@),
{
    let xs = chars_of(a);
    let ys = chars_of(b);
    if xs.len() != ys.len() {
        return false;
    }
    let mut i: usize = 0;
    while i < xs.len()
        invariant
            xs@ == a@,
            ys@ == b@,
            xs@.len() == ys@.len(),
            i <= xs@.len(),
            forall|j: int| 0 <= j < i ==> a@[j] == b@[j],
        decreases xs.len() - i,
    {
        if xs[i] != ys[i] {
            return false;
        }
        i = i + 1;
    }
    assert(a@ =~= b@);
    true
}

/// Appends one character to a string with std's `String::push`.
#[verifier::external_body]
pub(crate) fn push_char(s: &mut String, c: char)
    ensures
        final(s)@ == old(s)@.push(c),
{
    s.push(c)
}

/// Makes an owned copy of a string slice (`str::to_owned`).
pub fn owned(s: &str) -> (r: String)
    ensures
        r@ == s@,
{
    s.to_owned()
}

/// The characters of a string slice, in order.
pub fn chars_of(s: &str) -> (v: Vec<char>)
    ensures
        v@ == s@,
{
    let mut v: Vec<char> = Vec::new();
    for c in it: s.chars()
        invariant
            it.seq() == s@,
            v@ == s@.take(it.index() as int),
    {
        v.push(c);
    }
    v
}

// ----------------------------------------------------------------------
// Whitespace and trimming
// ----------------------------------------------------------------------

/// The Unicode `White_Space` characters, which `char::is_whitespace`
/// recognises and `str::trim` removes.
pub open spec fn is_ws(c: char) -> bool {
    let n = c as u32;
    (0x9 <= n && n <= 0xD) || n == 0x20 || n == 0x85 || n == 0xA0 || n == 0x1680 || (0x2000 <= n
        && n <= 0x200A) || n == 0x2028 || n == 0x2029 || n == 0x202F || n == 0x205F || n == 0x3000
}

/// `s` without its leading whitespace.
pub open spec fn trim_start(s: Seq<char>) -> Seq<char>
    decreases s.len(),
{
    if s.len() > 0 && is_ws(s[0]) {
        trim_start(s.drop_first())
    } else {
        s
    }
}

/// `s` without its trailing whitespace.
pub open spec fn trim_end(s: Seq<char>) -> Seq<char>
    decreases s.len(),
{
    if s.len() > 0 && is_ws(s.last()) {
        trim_end(s.drop_last())
    } else {
        s
    }
}

/// `s` without its leading and trailing whitespace.
pub open spec fn trimmed(s: Seq<char>) -> Seq<char> {
    trim_end(trim_start(s))
}

/// Whether `c` is Unicode whitespace.
pub fn is_whitespace(c: char) -> (r: bool)
    ensures
        r == is_ws(c),
{
    let n = c as u32;
    (0x9 <= n && n <= 0xD) || n == 0x20 || n == 0x85 || n == 0xA0 || n == 0x1680 || (0x2000 <= n
        && n <= 0x200A) || n == 0x2028 || n == 0x2029 || n == 0x202F || n == 0x205F || n == 0x3000
}

proof fn lemma_trim_start_skip(s: Seq<char>, a: int)
    requires
        0 <= a <= s.len(),
        forall|i: int| 0 <= i < a ==> is_ws(#[trigger] s[i]),
        a == s.len() || !is_ws(s[a]),
    ensures
        trim_start(s) == s.skip(a),
    decreases a,
{
    if a == 0 {
        assert(s.skip(0) =~= s);
    } else {
        let t = s.drop_first();
        assert forall|i: int| 0 <= i < a - 1 implies is_ws(#[trigger] t[i]) by {
            assert(t[i] == s[i + 1]);
        }
        if a - 1 < t.len() {
            assert(t[a - 1] == s[a]);
        }
        lemma_trim_start_skip(t, a - 1);
        assert(t.skip(a - 1) =~= s.skip(a));
    }
}

proof fn lemma_trim_end_take(s: Seq<char>, b: int)
    requires
        0 <= b <= s.len(),
        forall|i: int| b <= i < s.len() ==> is_ws(#[trigger] s[i]),
        b == 0 || !is_ws(s[b - 1]),
    ensures
        trim_end(s) == s.take(b),
    decreases s.len() - b,
{
    if b == s.len() {
        assert(s.take(b) =~= s);
    } else {
        let t = s.drop_last();
        assert forall|i: int| b <= i < t.len() implies is_ws(#[trigger] t[i]) by {
            assert(t[i] == s[i]);
        }
        if b > 0 {
            assert(t[b - 1] == s[b - 1]);
        }
        lemma_trim_end_take(t, b);
        assert(t.take(b) =~= s.take(b));
    }
}

/// `s` without leading and trailing Unicode whitespace (`str::trim`).
pub fn trim(s: &str) -> (r: &str)
    ensures
        r@ == trimmed(s@),
{
    let cs = chars_of(s);
    let n = cs.len();
    let mut a: usize = 0;
    while a < n && is_whitespace(cs[a])
        invariant
            cs@ == s@,
            n == cs@.len(),
            a <= n,
            forall|i: int| 0 <= i < a ==> is_ws(#[trigger] cs@[i]),
        decreases n - a,
    {
        a = a + 1;
    }
    let mut b: usize = n;
    while b > a && is_whitespace(cs[b - 1])
        invariant
            cs@ == s@,
            n == cs@.len(),
            a <= b <= n,
            forall|i: int| b <= i < n ==> is_ws(#[trigger] cs@[i]),
        decreases b - a,
    {
        b = b - 1;
    }
    proof {
        lemma_trim_start_skip(s@, a as int);
        let t = s@.skip(a as int);
        assert forall|i: int| (b - a) <= i < t.len() implies is_ws(#[trigger] t[i]) by {
            assert(t[i] == s@[i + a]);
        }
        if b > a {
            assert(t[b - a - 1] == s@[b - 1]);
        }
        lemma_trim_end_take(t, (b - a) as int);
        assert(t.take((b - a) as int) =~= s@.subrange(a as int, b as int));
    }
    s.substring_char(a, b)
}

// ----------------------------------------------------------------------
// Prefixes, suffixes and substrings
// ----------------------------------------------------------------------

/// Whether `s` starts with `p`.
pub fn starts_with(s: &str, p: &str) -> (r: bool)
    ensures
        r == p@.is_prefix_of(s@),
{
    let cs = chars_of(s);
    let ps = chars_of(p);
    if ps.len() > cs.len() {
        return false;
    }
    let mut i: usize = 0;
    while i < ps.len()
        invariant
            cs@ == s@,
            ps@ == p@,
            ps@.len() <= cs@.len(),
            i <= ps@.len(),
            forall|j: int| 0 <= j < i ==> cs@[j] == ps@[j],
        decreases ps.len() - i,
    {
        if cs[i] != ps[i] {
            assert(s@.subrange(0, p@.len() as int)[i as int] != p@[i as int]);
            return false;
        }
        i = i + 1;
    }
    assert(p@ =~= s@.subrange(0, p@.len() as int));
    true
}

/// Whether `s` ends with `p`.
pub fn ends_with(s: &str, p: &str) -> (r: bool)
    ensures
        r == p@.is_suffix_of(s@),
{
    let cs = chars_of(s);
    let ps = chars_of(p);
    if ps.len() > cs.len() {
        return false;
    }
    let off = cs.len() - ps.len();
    let mut i: usize = 0;
    while i < ps.len()
        invariant
            cs@ == s@,
            ps@ == p@,
            ps@.len() <= cs@.len(),
            off == cs@.len() - ps@.len(),
            i <= ps@.len(),
            forall|j: int| 0 <= j < i ==> cs@[off + j] == ps@[j],
        decreases ps.len() - i,
    {
        assert(off + i < cs.len());
        if cs[off + i] != ps[i] {
            assert(s@.subrange(off as int, s@.len() as int)[i as int] != p@[i as int]);
            return false;
        }
        i = i + 1;
    }
    assert(p@ =~= s@.subrange(off as int, s@.len() as int));
    true
}

/// `s` without the prefix `p`, if it starts with it (`str::strip_prefix`).
pub fn strip_prefix<'a>(s: &'a str, p: &str) -> (r: Option<&'a str>)
    ensures
        match r {
            Some(rest) => p@.is_prefix_of(s@) && rest@ == s@.skip(p@.len() as int),
            None => !p@.is_prefix_of(s@),
        },
{
    if starts_with(s, p) {
        let n = s.unicode_len();
        let m = p.unicode_len();
        Some(s.substring_char(m, n))
    } else {
        None
    }
}

/// `s` without the suffix `p`, if it ends with it (`str::strip_suffix`).
pub fn strip_suffix<'a>(s: &'a str, p: &str) -> (r: Option<&'a str>)
    ensures
        match r {
            Some(rest) => p@.is_suffix_of(s@) && rest@ == s@.take(s@.len() - p@.len()),
            None => !p@.is_suffix_of(s@),
        },
{
    if ends_with(s, p) {
        let n = s.unicode_len();
        let m = p.unicode_len();
        Some(s.substring_char(0, n - m))
    } else {
        None
    }
}

/// `pat` occurs in `s` at position `i`.
pub open spec fn matches_at(s: Seq<char>, pat: Seq<char>, i: int) -> bool {
    0 <= i && i + pat.len() <= s.len() && s.subrange(i, i + pat.len()) == pat
}

/// `i` is the first position at which `pat` occurs in `s`.
pub open spec fn is_first_match(s: Seq<char>, pat: Seq<char>, i: int) -> bool {
    matches_at(s, pat, i) && forall|j: int| 0 <= j < i ==> !matches_at(s, pat, j)
}

/// The first position at which `pat` occurs in `s` (`str::find`, counted in
/// characters), if any.
pub open spec fn first_match(s: Seq<char>, pat: Seq<char>) -> Option<int> {
    if exists|i: int| matches_at(s, pat, i) {
        Some(choose|i: int| is_first_match(s, pat, i))
    } else {
        None
    }
}

/// Whether `pat` occurs in `s` (`str::contains`).
pub open spec fn occurs_in(s: Seq<char>, pat: Seq<char>) -> bool {
    exists|i: int| matches_at(s, pat, i)
}

pub proof fn lemma_first_match_unique(s: Seq<char>, pat: Seq<char>, i: int)
    requires
        is_first_match(s, pat, i),
    ensures
        first_match(s, pat) == Some(i),
{
    assert(matches_at(s, pat, i));
    let k = choose|k: int| is_first_match(s, pat, k);
    assert(is_first_match(s, pat, k));
    if k < i {
        assert(!matches_at(s, pat, k));
    }
    if i < k {
        assert(!matches_at(s, pat, i));
    }
}

/// The character position of the first occurrence of `pat` in `s`.
pub fn find(s: &str, pat: &str) -> (r: Option<usize>)
    ensures
        r matches Some(i) ==> first_match(s@, pat@) == Some(i as int) && is_first_match(s@, pat@, i as int),
        r is None ==> first_match(s@, pat@) is None && !occurs_in(s@, pat@),
{
    let cs = chars_of(s);
    let ps = chars_of(pat);
    let n = cs.len();
    let m = ps.len();
    if m > n {
        assert forall|i: int| !matches_at(s@, pat@, i) by {}
        return None;
    }
    let mut i: usize = 0;
    while i <= n - m
        invariant
            cs@ == s@,
            ps@ == pat@,
            n == cs@.len(),
            m == ps@.len(),
            m <= n,
            i <= n - m + 1,
            forall|j: int| 0 <= j < i ==> !matches_at(s@, pat@, j),
        decreases n - m + 1 - i,
    {
        let mut k: usize = 0;
        let mut same = true;
        while k < m
            invariant
                cs@ == s@,
                ps@ == pat@,
                n == cs@.len(),
                m == ps@.len(),
                i + m <= n,
                k <= m,
                same == forall|t: int| 0 <= t < k ==> cs@[i + t] == ps@[t],
            decreases m - k,
        {
            if cs[i + k] != ps[k] {
                same = false;
            }
            k = k + 1;
        }
        if same {
            assert(s@.subrange(i as int, i + m) =~= pat@);
            proof {
                lemma_first_match_unique(s@, pat@, i as int);
            }
            return Some(i);
        }
        assert(!matches_at(s@, pat@, i as int)) by {
            let t = choose|t: int| 0 <= t < m && cs@[i + t] != ps@[t];
            assert(s@.subrange(i as int, i + m)[t] != pat@[t]);
        }
        i = i + 1;
    }
    assert forall|j: int| !matches_at(s@, pat@, j) by {
        if 0 <= j && j + m <= n {
            assert(j < i);
        }
    }
    None
}

/// Whether `pat` occurs in `s`.
pub fn contains(s: &str, pat: &str) -> (r: bool)
    ensures
        r == occurs_in(s@, pat@),
{
    match find(s, pat) {
        Some(_) => true,
        None => false,
    }
}

// ----------------------------------------------------------------------
// Decimal numbers
// ----------------------------------------------------------------------

/// The ASCII digit for `d` (below ten).
pub open spec fn digit_char(d: nat) -> char {
    ((d + 48) as u8) as char
}

/// The decimal representation of `n`, without leading zeros.
pub open spec fn decimal(n: nat) -> Seq<char>
    decreases n,
{
    if n < 10 {
        seq![digit_char(n)]
    } else {
        decimal(n / 10).push(digit_char(n % 10))
    }
}

/// `s` left-padded with `'0'` to at least `width` characters.
pub open spec fn zero_padded(s: Seq<char>, width: nat) -> Seq<char> {
    if s.len() < width {
        Seq::new((width - s.len()) as nat, |i: int| '0') + s
    } else {
        s
    }
}

/// Appends the decimal representation of `n`.
pub fn push_decimal(out: &mut String, n: u64)
    ensures
        final(out)@ == old(out)@ + decimal(n as nat),
    decreases n,
{
    if n >= 10 {
        push_decimal(out, n / 10);
    }
    let d = (n % 10) as u8;
    push_char(out, (d + 48) as char);
    assert(final(out)@ =~= old(out)@ + decimal(n as nat)) by {
        if n >= 10 {
            assert(decimal(n as nat) == decimal((n / 10) as nat).push(digit_char((n % 10) as nat)));
        }
    }
}

/// The number of decimal digits of `n`.
fn decimal_width(n: u64) -> (w: u64)
    ensures
        w == decimal(n as nat).len(),
    decreases n,
{
    if n >= 10 {
        let w = decimal_width(n / 10);
        proof {
            lemma_decimal_len_bound(n as nat);
        }
        w + 1
    } else {
        1
    }
}

proof fn lemma_decimal_len_bound(n: nat)
    ensures
        decimal(n).len() <= 1 + n / 10,
        decimal(n).len() >= 1,
    decreases n,
{
    if n >= 10 {
        lemma_decimal_len_bound(n / 10);
    }
}

/// Appends `n` in decimal, left-padded with `'0'` to at least `width`
/// characters (the `{:0width$}` format).
pub fn push_decimal_padded(out: &mut String, n: u64, width: u64)
    ensures
        final(out)@ == old(out)@ + zero_padded(decimal(n as nat), width as nat),
{
    let w = decimal_width(n);
    let mut k: u64 = w;
    while k < width
        invariant
            w <= k,
            w == decimal(n as nat).len(),
            k <= width || k == w,
            out@ == old(out)@ + Seq::new((k - w) as nat, |i: int| '0'),
        decreases width - k,
    {
        push_char(out, '0');
        k = k + 1;
        assert(out@ =~= old(out)@ + Seq::new((k - w) as nat, |i: int| '0'));
    }
    let ghost mid = out@;
    push_decimal(out, n);
    if w < width {
        assert(k == width);
        assert(out@ =~= old(out)@ + zero_padded(decimal(n as nat), width as nat));
    } else {
        assert(k == w);
        assert(out@ =~= old(out)@ + zero_padded(decimal(n as nat), width as nat));
    }
}

// ----------------------------------------------------------------------
// Trailing characters
// ----------------------------------------------------------------------

/// `s` without the copies of `c` at its end (`str::trim_end_matches`
/// with a character).
pub open spec fn trim_end_char(s: Seq<char>, c: char) -> Seq<char>
    decreases s.len(),
{
    if s.len() > 0 && s.last() == c {
        trim_end_char(s.drop_last(), c)
    } else {
        s
    }
}

proof fn lemma_trim_end_char_take(s: Seq<char>, c: char, b: int)
    requires
        0 <= b <= s.len(),
        forall|i: int| b <= i < s.len() ==> #[trigger] s[i] == c,
        b == 0 || s[b - 1] != c,
    ensures
        trim_end_char(s, c) == s.take(b),
    decreases s.len() - b,
{
    if b == s.len() {
        assert(s.take(b) =~= s);
    } else {
        let t = s.drop_last();
        assert forall|i: int| b <= i < t.len() implies #[trigger] t[i] == c by {
            assert(t[i] == s[i]);
        }
        if b > 0 {
            assert(t[b - 1] == s[b - 1]);
        }
        lemma_trim_end_char_take(t, c, b);
        assert(t.take(b) =~= s.take(b));
    }
}

/// `s` without the copies of `c` at its end.
pub fn trim_end_matches_char(s: &str, c: char) -> (r: &str)
    ensures
        r@ == trim_end_char(s@, c),
{
    let cs = chars_of(s);
    let mut b: usize = cs.len();
    while b > 0 && cs[b - 1] == c
        invariant
            cs@ == s@,
            b <= cs@.len(),
            forall|i: int| b <= i < cs@.len() ==> #[trigger] cs@[i] == c,
        decreases b,
    {
        b = b - 1;
    }
    proof {
        lemma_trim_end_char_take(s@, c, b as int);
    }
    s.substring_char(0, b)
}

// ----------------------------------------------------------------------
// Joining
// ----------------------------------------------------------------------

/// The parts, in order, with `sep` between each two (`[T]::join`).
pub open spec fn join(parts: Seq<Seq<char>>, sep: Seq<char>) -> Seq<char>
    decreases parts.len(),
{
    if parts.len() == 0 {
        Seq::empty()
    } else if parts.len() == 1 {
        parts[0]
    } else {
        join(parts.drop_last(), sep) + sep + parts.last()
    }
}

/// Joins the strings with `sep` between each two.
pub fn join_strings(parts: &Vec<String>, sep: &str) -> (r: String)
    ensures
        r@ == join(string_views(parts@), sep@),
{
    let mut out = String::new();
    let mut i: usize = 0;
    while i < parts.len()
        invariant
            i <= parts@.len(),
            out@ == join(string_views(parts@.take(i as int)), sep@),
        decreases parts.len() - i,
    {
        let ghost prev = string_views(parts@.take(i as int));
        if i > 0 {
            out.append(sep);
        }
        out.append(parts[i].as_str());
        proof {
            let next = string_views(parts@.take(i + 1));
            assert(next.drop_last() =~= prev);
            assert(next.last() == parts@[i as int]@);
            if i == 0 {
                assert(out@ =~= next[0]);
            }
        }
        i = i + 1;
    }
    assert(parts@.take(i as int) =~= parts@);
    out
}

// ----------------------------------------------------------------------
// Association lists
// ----------------------------------------------------------------------

/// The (key, value) pairs as character sequences.
pub open spec fn pair_views(v: Seq<(String, String)>) -> Seq<(Seq<char>, Seq<char>)> {
    v.map_values(|p: (String, String)| (p.0@, p.1@))
}

/// The value paired last with `key`, as when the pairs are inserted into a
/// map in order.
pub open spec fn last_value_of(pairs: Seq<(Seq<char>, Seq<char>)>, key: Seq<char>) -> Option<
    Seq<char>,
>
    decreases pairs.len(),
{
    if pairs.len() == 0 {
        None
    } else if pairs.last().0 == key {
        Some(pairs.last().1)
    } else {
        last_value_of(pairs.drop_last(), key)
    }
}

/// The value paired last with `key`.
pub fn find_last_value<'a>(pairs: &'a Vec<(String, String)>, key: &str) -> (r: Option<&'a String>)
    ensures
        match r {
            Some(v) => last_value_of(pair_views(pairs@), key@) == Some(v@),
            None => last_value_of(pair_views(pairs@), key@) is None,
        },
{
    let mut i: usize = pairs.len();
    assert(pairs@.take(i as int) =~= pairs@);
    while i > 0
        invariant
            i <= pairs@.len(),
            last_value_of(pair_views(pairs@), key@) == last_value_of(
                pair_views(pairs@.take(i as int)),
                key@,
            ),
        decreases i,
    {
        let ghost pre = pair_views(pairs@.take(i as int));
        assert(pre.drop_last() =~= pair_views(pairs@.take(i - 1)));
        if str_eq(pairs[i - 1].0.as_str(), key) {
            return Some(&pairs[i - 1].1);
        }
        i = i - 1;
    }
    None
}

// ----------------------------------------------------------------------
// Replacing characters
// ----------------------------------------------------------------------

/// `s` with every `from` replaced by `to`.
pub open spec fn replaced(s: Seq<char>, from: char, to: char) -> Seq<char> {
    s.map_values(|c: char| if c == from { to } else { c })
}

/// Replaces every `from` in `s` by `to` (`str::replace` with a one-character
/// pattern and replacement).
pub fn replace_char(s: &str, from: char, to: char) -> (r: String)
    ensures
        r@ == replaced(s@, from, to),
{
    let cs = chars_of(s);
    let mut out = String::new();
    let mut i: usize = 0;
    while i < cs.len()
        invariant
            i <= cs@.len(),
            cs@ == s@,
            out@ == replaced(s@.take(i as int), from, to),
        decreases cs.len() - i,
    {
        let c = cs[i];
        if c == from {
            push_char(&mut out, to);
        } else {
            push_char(&mut out, c);
        }
        assert(replaced(s@.take(i + 1), from, to) =~= replaced(s@.take(i as int), from, to).push(
            if c == from { to } else { c },
        ));
        i = i + 1;
    }
    assert(s@.take(i as int) =~= s@);
    out
}

// ----------------------------------------------------------------------
// Ordering
// ----------------------------------------------------------------------

/// `a` comes before `b` in the lexicographic order of their characters,
/// which is also the byte order of their UTF-8 encodings (`Ord for str`).
pub open spec fn text_before(a: Seq<char>, b: Seq<char>) -> bool
    decreases a.len(),
{
    if b.len() == 0 {
        false
    } else if a.len() == 0 {
        true
    } else if a[0] != b[0] {
        a[0] < b[0]
    } else {
        text_before(a.drop_first(), b.drop_first())
    }
}

/// No text comes before itself, and of two texts at most one comes first.
pub proof fn lemma_text_before_asymmetric(a: Seq<char>, b: Seq<char>)
    ensures
        !text_before(a, a),
        text_before(a, b) ==> !text_before(b, a),
    decreases a.len(),
{
    if a.len() > 0 && b.len() > 0 {
        lemma_text_before_asymmetric(a.drop_first(), b.drop_first());
    }
    if a.len() > 0 {
        lemma_text_before_asymmetric(a.drop_first(), a.drop_first());
    }
}

/// Of two different texts, one comes before the other.
pub proof fn lemma_text_before_total(a: Seq<char>, b: Seq<char>)
    ensures
        a != b ==> text_before(a, b) || text_before(b, a),
    decreases a.len(),
{
    if a.len() > 0 && b.len() > 0 && a[0] == b[0] {
        lemma_text_before_total(a.drop_first(), b.drop_first());
        if a.drop_first() == b.drop_first() {
            assert(a =~= seq![a[0]] + a.drop_first());
            assert(b =~= seq![b[0]] + b.drop_first());
        }
    }
    if a.len() == 0 && b.len() == 0 {
        assert(a =~= b);
    }
}

/// The order is transitive.
pub proof fn lemma_text_before_transitive(a: Seq<char>, b: Seq<char>, c: Seq<char>)
    requires
        text_before(a, b),
        text_before(b, c),
    ensures
        text_before(a, c),
    decreases a.len(),
{
    if a.len() > 0 && b.len() > 0 && c.len() > 0 && a[0] == b[0] && b[0] == c[0] {
        lemma_text_before_transitive(a.drop_first(), b.drop_first(), c.drop_first());
    }
}

/// Whether `a` comes before `b` (`a < b` on strings).
pub fn text_less(a: &str, b: &str) -> (r: bool)
    ensures
        r == text_before(a@, b@),
{
    let xs = chars_of(a);
    let ys = chars_of(b);
    let mut i: usize = 0;
    assert(a@.skip(0) =~= a@);
    assert(b@.skip(0) =~= b@);
    while i < xs.len() && i < ys.len()
        invariant
            xs@ == a@,
            ys@ == b@,
            i <= xs@.len(),
            i <= ys@.len(),
            text_before(a@, b@) == text_before(a@.skip(i as int), b@.skip(i as int)),
        decreases xs.len() - i,
    {
        let x = xs[i];
        let y = ys[i];
        assert(a@.skip(i as int)[0] == x);
        assert(b@.skip(i as int)[0] == y);
        if x != y {
            return x < y;
        }
        assert(a@.skip(i as int).drop_first() =~= a@.skip(i + 1));
        assert(b@.skip(i as int).drop_first() =~= b@.skip(i + 1));
        i = i + 1;
    }
    i < ys.len()
}

/// A text that comes first stays first when each is extended, if the two
/// have the same length.
pub proof fn lemma_text_before_extend(p: Seq<char>, q: Seq<char>, x: Seq<char>, y: Seq<char>)
    requires
        p.len() == q.len(),
        text_before(p, q),
    ensures
        text_before(p + x, q + y),
    decreases p.len(),
{
    assert((p + x)[0] == p[0]);
    assert((q + y)[0] == q[0]);
    if p[0] == q[0] {
        assert((p + x).drop_first() =~= p.drop_first() + x);
        assert((q + y).drop_first() =~= q.drop_first() + y);
        lemma_text_before_extend(p.drop_first(), q.drop_first(), x, y);
    }
}

/// A common beginning does not change which text comes first.
pub proof fn lemma_text_before_common(a: Seq<char>, x: Seq<char>, y: Seq<char>)
    requires
        text_before(x, y),
    ensures
        text_before(a + x, a + y),
    decreases a.len(),
{
    if a.len() == 0 {
        assert(a + x =~= x);
        assert(a + y =~= y);
    } else {
        assert((a + x)[0] == a[0]);
        assert((a + y)[0] == a[0]);
        assert((a + x).drop_first() =~= a.drop_first() + x);
        assert((a + y).drop_first() =~= a.drop_first() + y);
        lemma_text_before_common(a.drop_first(), x, y);
    }
}

/// Ten to the power `k`.
pub open spec fn pow10(k: nat) -> nat
    decreases k,
{
    if k == 0 {
        1
    } else {
        10 * pow10((k - 1) as nat)
    }
}

proof fn lemma_decimal_fits(n: nat, w: nat)
    requires
        w >= 1,
        n < pow10(w),
    ensures
        decimal(n).len() <= w,
    decreases w,
{
    if n >= 10 {
        assert(w >= 2) by {
            if w == 1 {
                assert(pow10(0) == 1);
            }
        }
        assert(n / 10 < pow10((w - 1) as nat));
        lemma_decimal_fits(n / 10, (w - 1) as nat);
    }
}

/// A number below `10^w`, zero-padded to `w` digits, is `w` characters long.
pub proof fn lemma_padded_len(n: nat, w: nat)
    requires
        w >= 1,
        n < pow10(w),
    ensures
        zero_padded(decimal(n), w).len() == w,
{
    lemma_decimal_fits(n, w);
}

proof fn lemma_padded_split(n: nat, w: nat)
    requires
        w >= 2,
        n < pow10(w),
    ensures
        zero_padded(decimal(n), w) == zero_padded(decimal(n / 10), (w - 1) as nat).push(
            digit_char(n % 10),
        ),
{
    lemma_decimal_fits(n, w);
    if n >= 10 {
        assert(n / 10 < pow10((w - 1) as nat));
        lemma_decimal_fits(n / 10, (w - 1) as nat);
        let s = decimal(n / 10);
        assert(zero_padded(decimal(n), w) =~= zero_padded(s, (w - 1) as nat).push(digit_char(n % 10)));
    } else {
        assert(decimal(0) == seq!['0']);
        assert(zero_padded(decimal(n), w) =~= zero_padded(decimal(n / 10), (w - 1) as nat).push(
            digit_char(n % 10),
        ));
    }
}

/// Numbers below `10^w`, zero-padded to `w` digits, are ordered as text as
/// they are as numbers.
pub proof fn lemma_padded_ordered(a: nat, b: nat, w: nat)
    requires
        w >= 1,
        a < b,
        b < pow10(w),
    ensures
        text_before(zero_padded(decimal(a), w), zero_padded(decimal(b), w)),
    decreases w,
{
    if w == 1 {
        assert(pow10(0) == 1);
        assert(zero_padded(decimal(a), w) == seq![digit_char(a)]);
        assert(zero_padded(decimal(b), w) == seq![digit_char(b)]);
    } else {
        lemma_padded_split(a, w);
        lemma_padded_split(b, w);
        let pa = zero_padded(decimal(a / 10), (w - 1) as nat);
        let pb = zero_padded(decimal(b / 10), (w - 1) as nat);
        assert(b / 10 < pow10((w - 1) as nat));
        assert(pa.push(digit_char(a % 10)) =~= pa + seq![digit_char(a % 10)]);
        assert(pb.push(digit_char(b % 10)) =~= pb + seq![digit_char(b % 10)]);
        if a / 10 < b / 10 {
            lemma_padded_ordered(a / 10, b / 10, (w - 1) as nat);
            lemma_padded_len(a / 10, (w - 1) as nat);
            lemma_padded_len(b / 10, (w - 1) as nat);
            lemma_text_before_extend(pa, pb, seq![digit_char(a % 10)], seq![digit_char(b % 10)]);
        } else {
            assert(a / 10 == b / 10);
            assert(a % 10 < b % 10);
            assert(text_before(seq![digit_char(a % 10)], seq![digit_char(b % 10)]));
            lemma_text_before_common(pa, seq![digit_char(a % 10)], seq![digit_char(b % 10)]);
        }
    }
}

} // verus!
