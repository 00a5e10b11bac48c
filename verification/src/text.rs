//! Character-level text utilities with exact specifications.

use vstd::prelude::*;
use vstd::utf8::{decode_utf8, valid_utf8};

verus! {

/// The characters of `s`, in order.
pub fn chars_of(s: &str) -> (v: Vec<char>)
    ensures
        v@ == s@,
{
    let mut v: Vec<char> = Vec::new();
    for c in it: s.chars()
        invariant
            v@ == it.seq().take(it.index()),
    {
        v.push(c);
    }
    v
}

/// `String::push`: appends one character at the end of the string.
#[verifier::external_body]
fn push_char(s: &mut String, c: char)
    ensures
        final(s)@ == old(s)@.push(c),
{
    s.push(c);
}

/// Appends the characters of `s` to `out`.
pub fn push_text(out: &mut Vec<char>, s: &str)
    ensures
        final(out)@ == old(out)@ + s@,
{
    let cs = chars_of(s);
    let n = cs.len();
    let ghost head = out@;
    for i in 0..n
        invariant
            n == cs@.len(),
            cs@ == s@,
            out@ == head + cs@.take(i as int),
    {
        out.push(cs[i]);
        assert(head + cs@.take(i + 1) =~= (head + cs@.take(i as int)).push(cs@[i as int]));
    }
    assert(cs@.take(n as int) =~= cs@);
}

/// Whether `a` and `b` hold the same characters.
pub fn same_chars(a: &[char], b: &[char]) -> (r: bool)
    ensures
        r == (a@ == b@),
{
    if a.len() != b.len() {
        return false;
    }
    let n = a.len();
    for i in 0..n
        invariant
            n == a@.len() == b@.len(),
            forall|j: int| 0 <= j < i ==> a@[j] == b@[j],
    {
        if a[i] != b[i] {
            assert(a@[i as int] != b@[i as int]);
            return false;
        }
    }
    assert(a@ =~= b@);
    true
}

/// The string made of the characters of `cs`, in order.
pub fn string_from(cs: &[char]) -> (s: String)
    ensures
        s@ == cs@,
{
    let mut s = String::new();
    let n = cs.len();
    for i in 0..n
        invariant
            n == cs@.len(),
            s@ == cs@.take(i as int),
    {
        push_char(&mut s, cs[i]);
        assert(cs@.take(i + 1) == cs@.take(i as int).push(cs@[i as int]));
    }
    assert(cs@.take(n as int) == cs@);
    s
}

/// Unicode `White_Space`, the characters that `char::is_whitespace` accepts.
pub open spec fn is_whitespace(c: char) -> bool {
    ||| ('\u{9}' <= c && c <= '\u{d}')
    ||| c == ' '
    ||| c == '\u{85}'
    ||| c == '\u{a0}'
    ||| c == '\u{1680}'
    ||| ('\u{2000}' <= c && c <= '\u{200a}')
    ||| c == '\u{2028}'
    ||| c == '\u{2029}'
    ||| c == '\u{202f}'
    ||| c == '\u{205f}'
    ||| c == '\u{3000}'
}

pub fn char_is_whitespace(c: char) -> (b: bool)
    ensures
        b == is_whitespace(c),
{
    ('\u{9}' <= c && c <= '\u{d}') || c == ' ' || c == '\u{85}' || c == '\u{a0}' || c == '\u{1680}'
        || ('\u{2000}' <= c && c <= '\u{200a}') || c == '\u{2028}' || c == '\u{2029}' || c
        == '\u{202f}' || c == '\u{205f}' || c == '\u{3000}'
}

/// Separator of `str::lines`.
pub open spec fn newline_sep() -> spec_fn(char) -> bool {
    |c: char| c == '\n'
}

/// Separator of `str::split_whitespace`.
pub open spec fn whitespace_sep() -> spec_fn(char) -> bool {
    |c: char| is_whitespace(c)
}

/// The pieces of `s` between the characters that `sep` accepts, as `str::split`
/// yields them (empty pieces included).
pub open spec fn split_where(s: Seq<char>, sep: spec_fn(char) -> bool) -> Seq<Seq<char>>
    decreases s.len(),
{
    if s.len() == 0 {
        seq![Seq::<char>::empty()]
    } else {
        let pieces = split_where(s.drop_last(), sep);
        if sep(s.last()) {
            pieces.push(Seq::<char>::empty())
        } else {
            pieces.update(pieces.len() - 1, pieces.last().push(s.last()))
        }
    }
}

/// `l` without one trailing carriage return.
pub open spec fn strip_cr(l: Seq<char>) -> Seq<char> {
    if l.len() > 0 && l.last() == '\r' {
        l.drop_last()
    } else {
        l
    }
}

/// The lines of `s`, as `str::lines` yields them: pieces ended by `\n`, with that
/// `\n` and one `\r` before it removed, and a last piece without `\n` kept as it
/// stands unless it is empty.
pub open spec fn lines(s: Seq<char>) -> Seq<Seq<char>> {
    let pieces = split_where(s, newline_sep());
    let ended = pieces.drop_last().map_values(|l: Seq<char>| strip_cr(l));
    if pieces.last().len() == 0 {
        ended
    } else {
        ended.push(pieces.last())
    }
}

/// The words of `s`, as `str::split_whitespace` yields them.
pub open spec fn words(s: Seq<char>) -> Seq<Seq<char>> {
    split_where(s, whitespace_sep()).filter(nonempty_word())
}

pub open spec fn views(v: Seq<Vec<char>>) -> Seq<Seq<char>> {
    v.map_values(|w: Vec<char>| w@)
}

/// The lines of `cs` (see `lines`).
pub fn lines_of(cs: &[char]) -> (ls: Vec<Vec<char>>)
    ensures
        views(ls@) == lines(cs@),
{
    let mut ls: Vec<Vec<char>> = Vec::new();
    let mut cur: Vec<char> = Vec::new();
    let n = cs.len();
    proof {
        assert(cs@.take(0) =~= Seq::<char>::empty());
    }
    for i in 0..n
        invariant
            n == cs@.len(),
            split_where(cs@.take(i as int), newline_sep()).len() >= 1,
            views(ls@) == split_where(cs@.take(i as int), newline_sep()).drop_last().map_values(
                |l: Seq<char>| strip_cr(l),
            ),
            cur@ == split_where(cs@.take(i as int), newline_sep()).last(),
    {
        let c = cs[i];
        let ghost pre = cs@.take(i as int);
        let ghost post = cs@.take(i + 1);
        assert(post.drop_last() =~= pre);
        assert(post.last() == c);
        let ghost old_ls = ls@;
        if c == '\n' {
            let mut line = cur;
            let k = line.len();
            if k > 0 && line[k - 1] == '\r' {
                line.pop();
            }
            ls.push(line);
            cur = Vec::new();
            assert(views(ls@) =~= views(old_ls).push(line@));
            assert(split_where(post, newline_sep()).drop_last() =~= split_where(pre, newline_sep()));
        } else {
            cur.push(c);
            assert(split_where(post, newline_sep()).drop_last() =~= split_where(pre, newline_sep()).drop_last());
        }
    }
    assert(cs@.take(n as int) =~= cs@);
    if cur.len() > 0 {
        let ghost old_ls = ls@;
        ls.push(cur);
        assert(views(ls@) =~= views(old_ls).push(cur@));
    }
    ls
}

pub open spec fn nonempty_word() -> spec_fn(Seq<char>) -> bool {
    |w: Seq<char>| w.len() > 0
}

/// The words of `cs` (see `words`).
pub fn words_of(cs: &[char]) -> (ws: Vec<Vec<char>>)
    ensures
        views(ws@) == words(cs@),
{
    let mut ws: Vec<Vec<char>> = Vec::new();
    let mut cur: Vec<char> = Vec::new();
    let n = cs.len();
    proof {
        assert(cs@.take(0) =~= Seq::<char>::empty());
        reveal(Seq::filter);
    }
    for i in 0..n
        invariant
            n == cs@.len(),
            split_where(cs@.take(i as int), whitespace_sep()).len() >= 1,
            views(ws@) == split_where(cs@.take(i as int), whitespace_sep()).drop_last().filter(
                nonempty_word(),
            ),
            cur@ == split_where(cs@.take(i as int), whitespace_sep()).last(),
    {
        let c = cs[i];
        let ghost pre = cs@.take(i as int);
        let ghost post = cs@.take(i + 1);
        assert(post.drop_last() =~= pre);
        assert(post.last() == c);
        let ghost old_ws = ws@;
        let ghost pieces = split_where(pre, whitespace_sep());
        if char_is_whitespace(c) {
            assert(split_where(post, whitespace_sep()).drop_last() =~= pieces);
            assert(pieces =~= pieces.drop_last().push(pieces.last()));
            proof {
                pieces.drop_last().lemma_filter_push(pieces.last(), nonempty_word());
            }
            if cur.len() > 0 {
                ws.push(cur);
                assert(views(ws@) =~= views(old_ws).push(cur@));
            }
            cur = Vec::new();
        } else {
            cur.push(c);
            assert(split_where(post, whitespace_sep()).drop_last() =~= pieces.drop_last());
        }
    }
    assert(cs@.take(n as int) =~= cs@);
    let ghost pieces = split_where(cs@, whitespace_sep());
    assert(pieces =~= pieces.drop_last().push(pieces.last()));
    proof {
        pieces.drop_last().lemma_filter_push(pieces.last(), nonempty_word());
    }
    if cur.len() > 0 {
        let ghost old_ws = ws@;
        ws.push(cur);
        assert(views(ws@) =~= views(old_ws).push(cur@));
    }
    assert(words(cs@) == pieces.filter(nonempty_word()));
    ws
}

/// `s` without its leading white space, as `str::trim_start` gives it.
pub open spec fn trim_start(s: Seq<char>) -> Seq<char>
    decreases s.len(),
{
    if s.len() > 0 && is_whitespace(s[0]) {
        trim_start(s.drop_first())
    } else {
        s
    }
}

/// `s` without its trailing white space, as `str::trim_end` gives it.
pub open spec fn trim_end(s: Seq<char>) -> Seq<char>
    decreases s.len(),
{
    if s.len() > 0 && is_whitespace(s.last()) {
        trim_end(s.drop_last())
    } else {
        s
    }
}

/// `s` without leading and trailing white space, as `str::trim` gives it.
pub open spec fn trim(s: Seq<char>) -> Seq<char> {
    trim_end(trim_start(s))
}

/// The bounds of the trimmed part of `cs`.
pub fn trim_bounds(cs: &[char]) -> (r: (usize, usize))
    ensures
        r.0 <= r.1 <= cs@.len(),
        cs@.subrange(r.0 as int, r.1 as int) == trim(cs@),
{
    let n = cs.len();
    let mut a: usize = 0;
    assert(cs@.subrange(0, n as int) =~= cs@);
    while a < n && char_is_whitespace(cs[a])
        invariant
            a <= n == cs@.len(),
            trim_start(cs@) == trim_start(cs@.subrange(a as int, n as int)),
        decreases n - a,
    {
        assert(cs@.subrange(a as int, n as int).drop_first() =~= cs@.subrange(a + 1, n as int));
        a = a + 1;
    }
    let mut b: usize = n;
    assert(trim_start(cs@.subrange(a as int, n as int)) == cs@.subrange(a as int, n as int));
    while b > a && char_is_whitespace(cs[b - 1])
        invariant
            a <= b <= n == cs@.len(),
            trim(cs@) == trim_end(cs@.subrange(a as int, b as int)),
        decreases b - a,
    {
        assert(cs@.subrange(a as int, b as int).drop_last() =~= cs@.subrange(a as int, b - 1));
        b = b - 1;
    }
    (a, b)
}

/// The first `k` characters of `s` equal `prefix`.
pub open spec fn starts_with(s: Seq<char>, prefix: Seq<char>) -> bool {
    prefix.len() <= s.len() && s.take(prefix.len() as int) == prefix
}

/// The last characters of `s` equal `suffix`.
pub open spec fn ends_with(s: Seq<char>, suffix: Seq<char>) -> bool {
    suffix.len() <= s.len() && s.skip(s.len() - suffix.len()) == suffix
}

pub fn has_prefix(cs: &[char], prefix: &[char]) -> (b: bool)
    ensures
        b == starts_with(cs@, prefix@),
{
    let k = prefix.len();
    if k > cs.len() {
        return false;
    }
    for i in 0..k
        invariant
            k == prefix@.len() <= cs@.len(),
            forall|j: int| 0 <= j < i ==> cs@[j] == prefix@[j],
    {
        if cs[i] != prefix[i] {
            assert(cs@.take(k as int)[i as int] != prefix@[i as int]);
            return false;
        }
    }
    assert(cs@.take(k as int) =~= prefix@);
    true
}

pub fn has_suffix(cs: &[char], suffix: &[char]) -> (b: bool)
    ensures
        b == ends_with(cs@, suffix@),
{
    let k = suffix.len();
    let n = cs.len();
    if k > n {
        return false;
    }
    let off = n - k;
    for i in 0..k
        invariant
            k == suffix@.len() <= cs@.len() == n,
            off == n - k,
            forall|j: int| 0 <= j < i ==> cs@[off + j] == suffix@[j],
    {
        if cs[off + i] != suffix[i] {
            assert(cs@.skip(off as int)[i as int] != suffix@[i as int]);
            return false;
        }
    }
    assert(cs@.skip(off as int) =~= suffix@);
    true
}

/// `pat` stands in `s` from index `i` on.
pub open spec fn occurs_at(s: Seq<char>, pat: Seq<char>, i: int) -> bool {
    0 <= i && i + pat.len() <= s.len() && s.subrange(i, i + pat.len()) == pat
}

/// The smallest index at which `pat` stands in `s`, as `str::find` gives it.
pub open spec fn first_occurrence(s: Seq<char>, pat: Seq<char>) -> Option<int> {
    if exists|i: int| occurs_at(s, pat, i) {
        Some(
            choose|i: int|
                occurs_at(s, pat, i) && forall|j: int| 0 <= j < i ==> !occurs_at(s, pat, j),
        )
    } else {
        None
    }
}

/// What `str::split_once` gives for the pattern `pat`: the text before its first
/// occurrence and the text after it.
pub open spec fn split_once(s: Seq<char>, pat: Seq<char>) -> Option<(Seq<char>, Seq<char>)> {
    match first_occurrence(s, pat) {
        Some(i) => Some((s.take(i), s.skip(i + pat.len()))),
        None => None,
    }
}

/// When `pat` occurs in `s`, its first occurrence is one.
pub proof fn lemma_first_occurrence_exists(s: Seq<char>, pat: Seq<char>, w: int)
    requires
        occurs_at(s, pat, w),
    ensures
        first_occurrence(s, pat) matches Some(i) && occurs_at(s, pat, i) && forall|j: int|
            0 <= j < i ==> !occurs_at(s, pat, j),
    decreases w,
{
    if exists|j: int| 0 <= j < w && occurs_at(s, pat, j) {
        let j = choose|j: int| 0 <= j < w && occurs_at(s, pat, j);
        lemma_first_occurrence_exists(s, pat, j);
    } else {
        lemma_first_occurrence_is(s, pat, w);
    }
}

/// An occurrence with none before it is the first occurrence.
pub proof fn lemma_first_occurrence_is(s: Seq<char>, pat: Seq<char>, i: int)
    requires
        occurs_at(s, pat, i),
        forall|j: int| 0 <= j < i ==> !occurs_at(s, pat, j),
    ensures
        first_occurrence(s, pat) == Some(i),
{
    let k = choose|k: int|
        occurs_at(s, pat, k) && forall|j: int| 0 <= j < k ==> !occurs_at(s, pat, j);
    assert(occurs_at(s, pat, k));
    if k < i {
        assert(!occurs_at(s, pat, k));
    }
    if i < k {
        assert(!occurs_at(s, pat, i));
    }
}

/// The first index at which `pat` stands in `cs`.
pub fn find(cs: &[char], pat: &[char]) -> (r: Option<usize>)
    ensures
        r matches Some(i) ==> occurs_at(cs@, pat@, i as int),
        match r {
            Some(i) => first_occurrence(cs@, pat@) == Some(i as int),
            None => first_occurrence(cs@, pat@) is None,
        },
{
    let n = cs.len();
    let k = pat.len();
    if k > n {
        assert forall|i: int| !occurs_at(cs@, pat@, i) by {}
        return None;
    }
    let last = n - k;
    let mut i: usize = 0;
    while i <= last
        invariant
            n == cs@.len(),
            k == pat@.len() <= n,
            last == n - k,
            forall|j: int| 0 <= j < i ==> !occurs_at(cs@, pat@, j),
        decreases last + 1 - i,
    {
        let mut m: usize = 0;
        while m < k && cs[i + m] == pat[m]
            invariant
                i <= last,
                last == n - k,
                n == cs@.len(),
                k == pat@.len(),
                m <= k,
                forall|t: int| 0 <= t < m ==> cs@[i + t] == pat@[t],
            decreases k - m,
        {
            m = m + 1;
        }
        if m == k {
            assert(cs@.subrange(i as int, i + k) =~= pat@);
            proof {
                lemma_first_occurrence_is(cs@, pat@, i as int);
            }
            return Some(i);
        }
        assert(cs@.subrange(i as int, i + k)[m as int] != pat@[m as int]);
        i = i + 1;
    }
    assert forall|j: int| !occurs_at(cs@, pat@, j) by {
        if 0 <= j && j + k <= n {
            assert(j < i);
        }
    }
    None
}

/// The largest index at which `c` stands in `s`.
pub open spec fn last_index_of(s: Seq<char>, c: char) -> Option<int> {
    if exists|i: int| 0 <= i < s.len() && s[i] == c {
        Some(
            choose|i: int|
                0 <= i < s.len() && s[i] == c && forall|j: int| i < j < s.len() ==> s[j] != c,
        )
    } else {
        None
    }
}

/// What `str::rsplit_once` gives for the character `c`: the text before its last
/// occurrence and the text after it.
pub open spec fn rsplit_once(s: Seq<char>, c: char) -> Option<(Seq<char>, Seq<char>)> {
    match last_index_of(s, c) {
        Some(i) => Some((s.take(i), s.skip(i + 1))),
        None => None,
    }
}

/// The last index at which `c` stands in `cs`.
pub fn rfind_char(cs: &[char], c: char) -> (r: Option<usize>)
    ensures
        r matches Some(i) ==> i < cs@.len() && cs@[i as int] == c,
        match r {
            Some(i) => last_index_of(cs@, c) == Some(i as int),
            None => last_index_of(cs@, c) is None,
        },
{
    let mut i = cs.len();
    while i > 0
        invariant
            i <= cs@.len(),
            forall|j: int| i <= j < cs@.len() ==> cs@[j] != c,
        decreases i,
    {
        if cs[i - 1] == c {
            proof {
                let w = (i - 1) as int;
                let k = choose|k: int|
                    0 <= k < cs@.len() && cs@[k] == c && forall|j: int|
                        k < j < cs@.len() ==> cs@[j] != c;
                assert(cs@[w] == c);
                if k < w {
                    assert(cs@[w] != c);
                }
                if w < k {
                    assert(cs@[k] != c);
                }
            }
            return Some(i - 1);
        }
        i = i - 1;
    }
    None
}

pub open spec fn is_digit(c: char) -> bool {
    '0' <= c && c <= '9'
}

pub open spec fn digit_value(c: char) -> nat {
    (c as int - '0' as int) as nat
}

/// The number that the decimal digits `s` spell.
pub open spec fn decimal_value(s: Seq<char>) -> nat
    decreases s.len(),
{
    if s.len() == 0 {
        0
    } else {
        decimal_value(s.drop_last()) * 10 + digit_value(s.last())
    }
}

pub open spec fn all_digits(s: Seq<char>) -> bool {
    forall|i: int| 0 <= i < s.len() ==> is_digit(s[i])
}

/// What `str::parse` gives for an unsigned integer type whose largest value is
/// `max`: one optional `+`, then at least one ASCII digit and nothing else, of a
/// value no larger than `max`.
pub open spec fn parse_unsigned(s: Seq<char>, max: nat) -> Option<nat> {
    let digits = if s.len() > 0 && s[0] == '+' {
        s.drop_first()
    } else {
        s
    };
    if digits.len() > 0 && all_digits(digits) && decimal_value(digits) <= max {
        Some(decimal_value(digits))
    } else {
        None
    }
}

/// `str::parse::<u16>`.
pub open spec fn parse_u16(s: Seq<char>) -> Option<u16> {
    match parse_unsigned(s, u16::MAX as nat) {
        Some(v) => Some(v as u16),
        None => None,
    }
}

/// `str::parse::<u32>`.
pub open spec fn parse_u32(s: Seq<char>) -> Option<u32> {
    match parse_unsigned(s, u32::MAX as nat) {
        Some(v) => Some(v as u32),
        None => None,
    }
}

proof fn lemma_decimal_value_prefix(s: Seq<char>, k: int)
    requires
        0 <= k <= s.len(),
    ensures
        decimal_value(s.take(k)) <= decimal_value(s),
    decreases s.len() - k,
{
    if k < s.len() {
        lemma_decimal_value_prefix(s, k + 1);
        assert(s.take(k + 1).drop_last() =~= s.take(k));
    } else {
        assert(s.take(k) =~= s);
    }
}

/// The value of `cs` read as an unsigned number no larger than `max` (see
/// `parse_unsigned`).
pub fn parse_unsigned_chars(cs: &[char], max: u32) -> (r: Option<u32>)
    ensures
        match r {
            Some(v) => parse_unsigned(cs@, max as nat) == Some(v as nat),
            None => parse_unsigned(cs@, max as nat) is None,
        },
{
    let n = cs.len();
    let start: usize = if n > 0 && cs[0] == '+' {
        1
    } else {
        0
    };
    let ghost digits = cs@.skip(start as int);
    assert(digits =~= (if cs@.len() > 0 && cs@[0] == '+' {
        cs@.drop_first()
    } else {
        cs@
    }));
    if start == n {
        return None;
    }
    let mut acc: u64 = 0;
    let mut i = start;
    assert(digits.take(0) =~= Seq::<char>::empty());
    while i < n
        invariant
            start <= i <= n == cs@.len(),
            start < n,
            digits == cs@.skip(start as int),
            digits == (if cs@.len() > 0 && cs@[0] == '+' {
                cs@.drop_first()
            } else {
                cs@
            }),
            acc <= max,
            acc == decimal_value(digits.take(i - start)),
            all_digits(digits.take(i - start)),
        decreases n - i,
    {
        let c = cs[i];
        let ghost k = (i - start) as int;
        if !('0' <= c && c <= '9') {
            assert(!is_digit(digits[k]));
            return None;
        }
        assert(digits.take(k + 1).drop_last() =~= digits.take(k));
        assert(digits.take(k + 1).last() == c);
        let d = (c as u32 - '0' as u32) as u64;
        acc = acc * 10 + d;
        i = i + 1;
        if acc > max as u64 {
            proof {
                let t = digits.take(k + 1);
                if all_digits(digits) {
                    lemma_decimal_value_prefix(digits, k + 1);
                }
            }
            return None;
        }
    }
    assert(digits.take(n - start) =~= digits);
    Some(acc as u32)
}

/// The decimal digit for `d` (below ten).
pub open spec fn digit_char(d: nat) -> char {
    (d + '0' as nat) as char
}

/// The decimal notation of `n`, as `Display` writes it for an unsigned integer.
pub open spec fn decimal(n: nat) -> Seq<char>
    decreases n,
{
    if n < 10 {
        seq![digit_char(n)]
    } else {
        decimal(n / 10).push(digit_char(n % 10))
    }
}

/// Appends the decimal notation of `n` to `out`.
pub fn push_decimal(n: u64, out: &mut Vec<char>)
    ensures
        final(out)@ == old(out)@ + decimal(n as nat),
    decreases n,
{
    if n >= 10 {
        push_decimal(n / 10, out);
    }
    let d = (n % 10) as u8;
    let c = (d + 48) as char;
    assert(c == digit_char((n % 10) as nat));
    out.push(c);
}

proof fn lemma_decimal_digits(n: nat)
    ensures
        decimal(n).len() > 0,
        all_digits(decimal(n)),
        decimal_value(decimal(n)) == n,
        decimal(n)[0] != '+',
    decreases n,
{
    if n >= 10 {
        lemma_decimal_digits(n / 10);
        let d = decimal(n / 10);
        assert(decimal(n).drop_last() =~= d);
        assert(decimal(n)[0] == d[0]);
        assert(decimal(n).last() == digit_char(n % 10));
        assert(digit_value(digit_char(n % 10)) == n % 10);
        assert(n == (n / 10) * 10 + n % 10);
        assert(decimal_value(decimal(n)) == decimal_value(d) * 10 + digit_value(digit_char(n % 10)));
    } else {
        assert(decimal(n).drop_last() =~= Seq::<char>::empty());
        assert(decimal_value(Seq::<char>::empty()) == 0);
        assert(digit_value(digit_char(n)) == n);
    }
}

/// What the decimal notation of a number says, read back as a number of a type
/// that holds it, is that number: `push_decimal` and `parse_unsigned_chars` undo
/// each other.
pub proof fn lemma_decimal_reads_back(n: nat, max: nat)
    requires
        n <= max,
    ensures
        parse_unsigned(decimal(n), max) == Some(n),
{
    lemma_decimal_digits(n);
}

/// `c` with an ASCII capital letter made small, as `char::to_ascii_lowercase` does.
pub open spec fn ascii_lower(c: char) -> char {
    if 'A' <= c && c <= 'Z' {
        (c as int + 32) as char
    } else {
        c
    }
}

pub fn char_ascii_lower(c: char) -> (r: char)
    ensures
        r == ascii_lower(c),
{
    if 'A' <= c && c <= 'Z' {
        let b = c as u8;
        assert(b == c as int);
        (b + 32) as char
    } else {
        c
    }
}

/// `str::to_ascii_lowercase`.
pub open spec fn to_ascii_lowercase(s: Seq<char>) -> Seq<char> {
    s.map_values(|c: char| ascii_lower(c))
}

/// Lower case stays lower case: `to_ascii_lowercase` changes nothing the second
/// time.
pub proof fn lemma_lowercase_idempotent(s: Seq<char>)
    ensures
        to_ascii_lowercase(to_ascii_lowercase(s)) == to_ascii_lowercase(s),
{
    assert(to_ascii_lowercase(to_ascii_lowercase(s)) =~= to_ascii_lowercase(s));
}

/// `str::eq_ignore_ascii_case` against a pattern of ASCII characters.
pub open spec fn eq_ignore_ascii_case(a: Seq<char>, b: Seq<char>) -> bool {
    a.len() == b.len() && forall|i: int| 0 <= i < a.len() ==> ascii_lower(a[i]) == ascii_lower(b[i])
}

pub fn lowercase_ascii(cs: &[char]) -> (r: Vec<char>)
    ensures
        r@ == to_ascii_lowercase(cs@),
{
    let mut r: Vec<char> = Vec::new();
    let n = cs.len();
    for i in 0..n
        invariant
            n == cs@.len(),
            r@ == to_ascii_lowercase(cs@.take(i as int)),
    {
        let c = char_ascii_lower(cs[i]);
        r.push(c);
        assert(to_ascii_lowercase(cs@.take(i + 1)) =~= to_ascii_lowercase(cs@.take(i as int)).push(
            c,
        ));
    }
    assert(cs@.take(n as int) =~= cs@);
    r
}

pub fn same_ignoring_ascii_case(a: &[char], b: &[char]) -> (r: bool)
    ensures
        r == eq_ignore_ascii_case(a@, b@),
{
    if a.len() != b.len() {
        return false;
    }
    let n = a.len();
    for i in 0..n
        invariant
            n == a@.len() == b@.len(),
            forall|j: int| 0 <= j < i ==> ascii_lower(a@[j]) == ascii_lower(b@[j]),
    {
        if char_ascii_lower(a[i]) != char_ascii_lower(b[i]) {
            return false;
        }
    }
    true
}

/// What `String::from_utf8_lossy` makes of `bytes`.
pub uninterp spec fn utf8_lossy(bytes: Seq<u8>) -> Seq<char>;

/// `String::from_utf8_lossy`: decodes `bytes`, with U+FFFD in place of each
/// invalid sequence. Its documentation promises that valid UTF-8 is decoded as
/// it stands; how invalid sequences are replaced is left to the name.
#[verifier::external_body]
fn decode_lossy(bytes: &[u8]) -> (s: String)
    ensures
        s@ == utf8_lossy(bytes@),
        valid_utf8(bytes@) ==> s@ == decode_utf8(bytes@),
{
    String::from_utf8_lossy(bytes).into_owned()
}

/// The characters of `bytes` decoded as `String::from_utf8_lossy` decodes them.
pub fn lossy_chars(bytes: &[u8]) -> (v: Vec<char>)
    ensures
        v@ == utf8_lossy(bytes@),
{
    let s = decode_lossy(bytes);
    chars_of(s.as_str())
}

} // verus!
