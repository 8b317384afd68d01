//! Character-level text primitives: whitespace, trimming, prefixes, equality,
//! decimal numbers and line splitting, each stated over `Seq<char>`.
use vstd::prelude::*;
use vstd::string::StringExecFns;

verus! {

/// Unicode `White_Space`, the property that `char::is_whitespace` tests.
pub open spec fn is_ws(c: char) -> bool {
    ||| ('\t' <= c && c <= '\r')
    ||| c == ' '
    ||| c == '\u{85}'
    ||| c == '\u{a0}'
    ||| c == '\u{1680}'
    ||| ('\u{2000}' <= c && c <= '\u{200a}')
    ||| c == '\u{2028}'
    ||| c == '\u{2029}'
    ||| c == '\u{202f}'
    ||| c == '\u{205f}'
    ||| c == '\u{3000}'
}

/// Number of whitespace characters at the start of `s`.
pub open spec fn leading_ws(s: Seq<char>) -> nat
    decreases s.len(),
{
    if s.len() > 0 && is_ws(s[0]) {
        1 + leading_ws(s.drop_first())
    } else {
        0
    }
}

/// Number of whitespace characters at the end of `s`.
pub open spec fn trailing_ws(s: Seq<char>) -> nat
    decreases s.len(),
{
    if s.len() > 0 && is_ws(s.last()) {
        1 + trailing_ws(s.drop_last())
    } else {
        0
    }
}

/// `s` without its leading whitespace (`str::trim_start`).
pub open spec fn trim_start(s: Seq<char>) -> Seq<char> {
    s.skip(leading_ws(s) as int)
}

/// `s` without its trailing whitespace (`str::trim_end`).
pub open spec fn trim_end(s: Seq<char>) -> Seq<char> {
    s.take(s.len() - trailing_ws(s))
}

/// `s` without whitespace at either end (`str::trim`).
pub open spec fn trim(s: Seq<char>) -> Seq<char> {
    trim_end(trim_start(s))
}

/// Every character of `s` is whitespace.
pub open spec fn all_ws(s: Seq<char>) -> bool {
    forall|i: int| 0 <= i < s.len() ==> is_ws(#[trigger] s[i])
}

/// The index of the first occurrence of `c` in `s`, if any.
#[verifier::opaque]
pub open spec fn first_index_of(s: Seq<char>, c: char) -> Option<int> {
    if exists|i: int| 0 <= i < s.len() && s[i] == c {
        Some(choose|i: int| 0 <= i < s.len() && s[i] == c && forall|j: int| 0 <= j < i ==> s[j] != c)
    } else {
        None
    }
}

/// `leading_ws` is the length of the whitespace run at the start.
pub proof fn lemma_leading_ws(s: Seq<char>, k: int)
    requires
        0 <= k <= s.len(),
        all_ws(s.take(k)),
        k == s.len() || !is_ws(s[k]),
    ensures
        leading_ws(s) == k,
    decreases k,
{
    if k > 0 {
        assert(is_ws(s.take(k)[0]));
        let t = s.drop_first();
        assert forall|i: int| 0 <= i < k - 1 implies is_ws(#[trigger] t.take(k - 1)[i]) by {
            assert(t.take(k - 1)[i] == s.take(k)[i + 1]);
        }
        if k < s.len() {
            assert(t[k - 1] == s[k]);
        }
        lemma_leading_ws(t, k - 1);
    }
}

/// `trailing_ws` is the length of the whitespace run at the end.
pub proof fn lemma_trailing_ws(s: Seq<char>, k: int)
    requires
        0 <= k <= s.len(),
        all_ws(s.skip(s.len() - k)),
        k == s.len() || !is_ws(s[s.len() - k - 1]),
    ensures
        trailing_ws(s) == k,
    decreases k,
{
    if k > 0 {
        assert(is_ws(s.skip(s.len() - k)[k - 1]));
        let t = s.drop_last();
        assert forall|i: int| 0 <= i < k - 1 implies is_ws(#[trigger] t.skip(t.len() - (k - 1))[i]) by {
            assert(t.skip(t.len() - (k - 1))[i] == s.skip(s.len() - k)[i]);
        }
        if k < s.len() {
            assert(t[t.len() - (k - 1) - 1] == s[s.len() - k - 1]);
        }
        lemma_trailing_ws(t, k - 1);
    }
}

/// `char::is_whitespace`.
pub fn is_whitespace(c: char) -> (r: bool)
    ensures
        r == is_ws(c),
{
    ('\t' <= c && c <= '\r') || c == ' ' || c == '\u{85}' || c == '\u{a0}' || c == '\u{1680}' || (
    '\u{2000}' <= c && c <= '\u{200a}') || c == '\u{2028}' || c == '\u{2029}' || c == '\u{202f}'
        || c == '\u{205f}' || c == '\u{3000}'
}

/// The characters of `s`, in order.
pub fn chars_of(s: &str) -> (v: Vec<char>)
    ensures
        v@ == s@,
{
    broadcast use vstd::string::group_string_axioms;

    let mut v: Vec<char> = Vec::new();
    for c in it: s.chars()
        invariant
            v@ == it.seq().take(it.index() as int),
    {
        v.push(c);
    }
    v
}

/// Position of the first non-whitespace character of `s` at or after `from`.
pub fn skip_ws(s: &[char], from: usize) -> (k: usize)
    requires
        from <= s@.len(),
    ensures
        k == from + leading_ws(s@.skip(from as int)),
        from <= k <= s@.len(),
{
    let mut k = from;
    while k < s.len() && is_whitespace(s[k])
        invariant
            from <= k <= s@.len(),
            forall|i: int| from <= i < k ==> is_ws(#[trigger] s@[i]),
        decreases s@.len() - k,
    {
        k = k + 1;
    }
    proof {
        let t = s@.skip(from as int);
        assert forall|i: int| 0 <= i < k - from implies is_ws(#[trigger] t.take(k - from)[i]) by {
            assert(t.take(k - from)[i] == s@[from + i]);
        }
        if k < s@.len() {
            assert(t[k - from] == s@[k as int]);
        }
        lemma_leading_ws(t, k - from);
    }
    k
}

/// End of `s[..to]` once its trailing whitespace is removed.
pub fn trim_end_pos(s: &[char], to: usize) -> (k: usize)
    requires
        to <= s@.len(),
    ensures
        k == to - trailing_ws(s@.take(to as int)),
        k <= to,
{
    let mut k = to;
    while k > 0 && is_whitespace(s[k - 1])
        invariant
            k <= to <= s@.len(),
            forall|i: int| k <= i < to ==> is_ws(#[trigger] s@[i]),
        decreases k,
    {
        k = k - 1;
    }
    proof {
        let t = s@.take(to as int);
        assert forall|i: int| 0 <= i < to - k implies is_ws(#[trigger] t.skip(t.len() - (to - k))[i]) by {
            assert(t.skip(t.len() - (to - k))[i] == s@[k + i]);
        }
        if k > 0 {
            assert(t[t.len() - (to - k) - 1] == s@[k - 1]);
        }
        lemma_trailing_ws(t, to - k);
    }
    k
}

/// The text `s` contains only whitespace (`s.trim().is_empty()`).
pub fn is_blank(s: &[char]) -> (r: bool)
    ensures
        r == all_ws(s@),
        r == (trim(s@).len() == 0),
{
    let k = skip_ws(s, 0);
    proof {
        assert(s@.skip(0) =~= s@);
        let t = trim_start(s@);
        if k == s@.len() {
            assert forall|i: int| 0 <= i < s@.len() implies is_ws(#[trigger] s@[i]) by {
                lemma_leading_ws_prefix(s@, i);
            }
            assert(t.len() == 0);
            assert(t.take(0) =~= t);
        } else {
            lemma_leading_ws_bound(s@);
            assert(!is_ws(s@[k as int]));
            assert(t[0] == s@[k as int]);
            lemma_trailing_ws_bound(t);
            lemma_trailing_ws_first(t);
        }
    }
    k == s.len()
}

/// Characters before the whitespace run counted by `leading_ws` are whitespace.
pub proof fn lemma_leading_ws_prefix(s: Seq<char>, i: int)
    requires
        0 <= i < leading_ws(s),
    ensures
        is_ws(s[i]),
    decreases i,
{
    lemma_leading_ws_bound(s);
    if i > 0 {
        lemma_leading_ws_prefix(s.drop_first(), i - 1);
    }
}

/// `leading_ws` never exceeds the length.
pub proof fn lemma_leading_ws_bound(s: Seq<char>)
    ensures
        leading_ws(s) <= s.len(),
        leading_ws(s) < s.len() ==> !is_ws(s[leading_ws(s) as int]),
    decreases s.len(),
{
    if s.len() > 0 && is_ws(s[0]) {
        lemma_leading_ws_bound(s.drop_first());
    }
}

/// `trailing_ws` never exceeds the length.
pub proof fn lemma_trailing_ws_bound(s: Seq<char>)
    ensures
        trailing_ws(s) <= s.len(),
    decreases s.len(),
{
    if s.len() > 0 && is_ws(s.last()) {
        lemma_trailing_ws_bound(s.drop_last());
    }
}

/// A text whose first character is not whitespace keeps it after `trim_end`.
pub proof fn lemma_trailing_ws_first(s: Seq<char>)
    requires
        s.len() > 0,
        !is_ws(s[0]),
    ensures
        trailing_ws(s) < s.len(),
    decreases s.len(),
{
    if is_ws(s.last()) {
        assert(s.len() > 1);
        assert(s.drop_last()[0] == s[0]);
        lemma_trailing_ws_first(s.drop_last());
    }
}

/// `s[pos..]` starts with `p`.
pub open spec fn has_prefix_at(s: Seq<char>, pos: int, p: Seq<char>) -> bool {
    p.is_prefix_of(s.skip(pos))
}

/// Whether `p` occurs in `s` starting at `pos`.
pub fn starts_with_at(s: &[char], pos: usize, p: &[char]) -> (r: bool)
    requires
        pos <= s@.len(),
    ensures
        r == has_prefix_at(s@, pos as int, p@),
        r ==> pos + p@.len() <= s@.len(),
{
    if p.len() > s.len() - pos {
        return false;
    }
    let mut i: usize = 0;
    while i < p.len()
        invariant
            pos + p@.len() <= s@.len(),
            s@.len() == s.len(),
            i <= p@.len(),
            forall|j: int| 0 <= j < i ==> p@[j] == s@[pos + j],
        decreases p@.len() - i,
    {
        if p[i] != s[pos + i] {
            proof {
                assert(s@.skip(pos as int).subrange(0, p@.len() as int)[i as int] == s@[pos + i]);
            }
            return false;
        }
        i = i + 1;
    }
    proof {
        assert(p@ =~= s@.skip(pos as int).subrange(0, p@.len() as int));
    }
    true
}

/// Whether the text `s` starts with the literal `p` at `pos`.
pub fn starts_with_str_at(s: &[char], pos: usize, p: &str) -> (r: bool)
    requires
        pos <= s@.len(),
    ensures
        r == has_prefix_at(s@, pos as int, p@),
        r ==> pos + p@.len() <= s@.len(),
{
    let pc = chars_of(p);
    starts_with_at(s, pos, pc.as_slice())
}

/// Two texts are equal.
pub fn chars_eq(a: &[char], b: &[char]) -> (r: bool)
    ensures
        r == (a@ == b@),
{
    if a.len() != b.len() {
        return false;
    }
    let r = starts_with_at(a, 0, b);
    proof {
        assert(a@.skip(0) =~= a@);
        if r {
            assert(a@ =~= b@);
        }
    }
    r
}

/// `str` equality.
pub fn str_eq(a: &str, b: &str) -> (r: bool)
    ensures
        r == (a@ == b@),
{
    let ac = chars_of(a);
    let bc = chars_of(b);
    chars_eq(ac.as_slice(), bc.as_slice())
}

/// Appends one character to a string by `String::push`, which vstd leaves
/// without a specification. Trusted: the contract claims that the string's
/// characters after the call are those before it followed by `c`, as the
/// standard library documents (`push` appends the given char to the end).
#[verifier::external_body]
pub(crate) fn push_char(s: &mut String, c: char)
    ensures
        final(s)@ == old(s)@.push(c),
{
    s.push(c);
}

/// Appends the characters `s[from..to]` to `out`.
pub fn push_chars(out: &mut String, s: &[char], from: usize, to: usize)
    requires
        from <= to <= s@.len(),
    ensures
        final(out)@ == old(out)@ + s@.subrange(from as int, to as int),
{
    let mut i = from;
    while i < to
        invariant
            from <= i <= to <= s@.len(),
            out@ == old(out)@ + s@.subrange(from as int, i as int),
        decreases to - i,
    {
        push_char(out, s[i]);
        proof {
            assert(s@.subrange(from as int, i + 1) =~= s@.subrange(from as int, i as int).push(s@[i as int]));
        }
        i = i + 1;
    }
}

/// A new `String` holding `s[from..to]`.
pub fn string_of(s: &[char], from: usize, to: usize) -> (r: String)
    requires
        from <= to <= s@.len(),
    ensures
        r@ == s@.subrange(from as int, to as int),
{
    let mut r = String::new();
    push_chars(&mut r, s, from, to);
    proof {
        assert(Seq::<char>::empty() + s@.subrange(from as int, to as int) =~= s@.subrange(from as int, to as int));
    }
    r
}

/// The decimal digit `d`.
pub open spec fn digit_char(d: int) -> char {
    if d == 0 { '0' }
    else if d == 1 { '1' }
    else if d == 2 { '2' }
    else if d == 3 { '3' }
    else if d == 4 { '4' }
    else if d == 5 { '5' }
    else if d == 6 { '6' }
    else if d == 7 { '7' }
    else if d == 8 { '8' }
    else { '9' }
}

/// The decimal representation of `n`, without leading zeros.
pub open spec fn decimal(n: nat) -> Seq<char>
    decreases n,
{
    if n < 10 {
        seq![digit_char(n as int)]
    } else {
        decimal(n / 10).push(digit_char((n % 10) as int))
    }
}

/// The decimal representation of a signed integer.
pub open spec fn signed_decimal(n: int) -> Seq<char> {
    if n < 0 {
        seq!['-'] + decimal((-n) as nat)
    } else {
        decimal(n as nat)
    }
}

fn digit(d: u64) -> (c: char)
    requires
        d < 10,
    ensures
        c == digit_char(d as int),
{
    match d {
        0 => '0',
        1 => '1',
        2 => '2',
        3 => '3',
        4 => '4',
        5 => '5',
        6 => '6',
        7 => '7',
        8 => '8',
        _ => '9',
    }
}

/// Appends the decimal representation of `n`.
pub fn push_decimal(out: &mut String, n: u64)
    ensures
        final(out)@ == old(out)@ + decimal(n as nat),
    decreases n,
{
    if n >= 10 {
        push_decimal(out, n / 10);
        push_char(out, digit(n % 10));
        proof {
            assert(decimal(n as nat) == decimal((n / 10) as nat).push(digit_char((n % 10) as int)));
            assert(old(out)@ + decimal(n as nat) =~= old(out)@ + decimal((n / 10) as nat) + seq![digit_char((n % 10) as int)]);
        }
    } else {
        push_char(out, digit(n));
        proof {
            assert(old(out)@ + decimal(n as nat) =~= old(out)@.push(digit_char(n as int)));
        }
    }
}

/// Appends the decimal representation of a signed `n`.
pub fn push_signed_decimal(out: &mut String, n: i64)
    ensures
        final(out)@ == old(out)@ + signed_decimal(n as int),
{
    if n < 0 {
        push_char(out, '-');
        let m: u64 = if n == i64::MIN {
            9223372036854775808u64
        } else {
            (-n) as u64
        };
        push_decimal(out, m);
        proof {
            assert(old(out)@ + signed_decimal(n as int) =~= old(out)@.push('-') + decimal(m as nat));
        }
    } else {
        push_decimal(out, n as u64);
    }
}

/// The decimal representation of `n` as a `String`.
pub fn decimal_string(n: usize) -> (r: String)
    ensures
        r@ == decimal(n as nat),
{
    let mut r = String::new();
    push_decimal(&mut r, n as u64);
    proof {
        assert(Seq::<char>::empty() + decimal(n as nat) =~= decimal(n as nat));
    }
    r
}

/// Appends a literal.
pub fn push_str(out: &mut String, s: &str)
    ensures
        final(out)@ == old(out)@ + s@,
{
    out.append(s);
}

/// A `String` holding the literal `s`.
pub fn string_from(s: &str) -> (r: String)
    ensures
        r@ == s@,
{
    s.to_owned()
}

/// The bounds of `trim(s)` within `s`.
pub fn trim_bounds(s: &[char]) -> (r: (usize, usize))
    ensures
        r.0 <= r.1 <= s@.len(),
        s@.subrange(r.0 as int, r.1 as int) == trim(s@),
        r.0 == leading_ws(s@),
{
    let n = s.len();
    let a = skip_ws(s, 0);
    proof {
        assert(s@.skip(0) =~= s@);
    }
    let mut b = n;
    while b > a && is_whitespace(s[b - 1])
        invariant
            a <= b <= n,
            n == s@.len(),
            forall|i: int| b <= i < n ==> is_ws(#[trigger] s@[i]),
        decreases b,
    {
        b = b - 1;
    }
    proof {
        let t = s@.skip(a as int);
        lemma_leading_ws_bound(s@);
        assert(trim_start(s@) == t);
        let k = (n - b) as int;
        assert forall|i: int| 0 <= i < k implies is_ws(#[trigger] t.skip(t.len() - k)[i]) by {
            assert(t.skip(t.len() - k)[i] == s@[b + i]);
        }
        if k < t.len() {
            assert(t[t.len() - k - 1] == s@[b - 1]);
            assert(b > a);
        }
        lemma_trailing_ws(t, k);
        assert(trim_end(t) =~= s@.subrange(a as int, b as int));
    }
    (a, b)
}

/// `s` without one trailing carriage return.
pub open spec fn strip_cr(s: Seq<char>) -> Seq<char> {
    if s.len() > 0 && s.last() == '\r' {
        s.drop_last()
    } else {
        s
    }
}

/// The pieces of `t` between newline characters (`str::split('\n')`).
pub open spec fn split_newlines(t: Seq<char>) -> Seq<Seq<char>>
    decreases t.len(),
{
    if t.len() == 0 {
        seq![Seq::<char>::empty()]
    } else {
        let rest = split_newlines(t.drop_last());
        if t.last() == '\n' {
            rest.push(Seq::<char>::empty())
        } else {
            rest.update(rest.len() - 1, rest.last().push(t.last()))
        }
    }
}

/// The lines of `t` (`str::lines`): the pieces between newlines, each piece
/// that a newline ends losing one trailing `\r`, and a final empty piece dropped.
pub open spec fn lines_of(t: Seq<char>) -> Seq<Seq<char>> {
    let p = split_newlines(t);
    let ended = Seq::new((p.len() - 1) as nat, |i: int| strip_cr(p[i]));
    if p.last().len() == 0 {
        ended
    } else {
        ended.push(p.last())
    }
}

/// Sum of the lengths of `ls`.
pub open spec fn total_len(ls: Seq<Seq<char>>) -> nat
    decreases ls.len(),
{
    if ls.len() == 0 {
        0
    } else {
        total_len(ls.drop_last()) + ls.last().len()
    }
}

/// The texts of a slice of strings.
pub open spec fn texts(ls: Seq<String>) -> Seq<Seq<char>> {
    ls.map_values(|l: String| l@)
}

pub proof fn lemma_split_newlines_nonempty(t: Seq<char>)
    ensures
        split_newlines(t).len() >= 1,
    decreases t.len(),
{
    if t.len() > 0 {
        lemma_split_newlines_nonempty(t.drop_last());
    }
}

/// The lines of `text` (`str::lines`).
pub fn split_lines(text: &str) -> (r: Vec<String>)
    ensures
        texts(r@) == lines_of(text@),
        total_len(texts(r@)) <= text@.len(),
        text@.len() <= usize::MAX,
{
    let s = chars_of(text);
    let n = s.len();
    let mut out: Vec<String> = Vec::new();
    let mut cur: Vec<char> = Vec::new();
    let ghost mut done: Seq<Seq<char>> = Seq::empty();
    let mut i: usize = 0;
    while i < n
        invariant
            n == s@.len(),
            s@ == text@,
            i <= n,
            split_newlines(s@.take(i as int)) == done.push(cur@),
            texts(out@) == done.map_values(|p: Seq<char>| strip_cr(p)),
            total_len(texts(out@)) + cur@.len() <= i,
        decreases n - i,
    {
        let c = s[i];
        proof {
            assert(s@.take(i + 1).drop_last() =~= s@.take(i as int));
            assert(s@.take(i + 1).last() == c);
            lemma_split_newlines_nonempty(s@.take(i as int));
        }
        if c == '\n' {
            let line = if cur.len() > 0 && cur[cur.len() - 1] == '\r' {
                string_of(cur.as_slice(), 0, cur.len() - 1)
            } else {
                string_of(cur.as_slice(), 0, cur.len())
            };
            proof {
                if cur@.len() > 0 {
                    assert(cur@.subrange(0, cur@.len() - 1) =~= cur@.drop_last());
                }
                assert(cur@.subrange(0, cur@.len() as int) =~= cur@);
                assert(line@ == strip_cr(cur@));
            }
            let ghost old_out = out@;
            out.push(line);
            proof {
                assert(texts(out@) =~= texts(old_out).push(line@));
                assert(texts(out@).drop_last() =~= texts(old_out));
                let d2 = done.push(cur@);
                assert(d2.map_values(|p: Seq<char>| strip_cr(p)) =~= done.map_values(
                    |p: Seq<char>| strip_cr(p),
                ).push(strip_cr(cur@)));
                done = d2;
            }
            cur = Vec::new();
            proof {
                assert(split_newlines(s@.take(i + 1)) =~= done.push(cur@));
            }
        } else {
            let ghost old_cur = cur@;
            cur.push(c);
            proof {
                let prev = split_newlines(s@.take(i as int));
                assert(prev.last() =~= old_cur);
                assert(split_newlines(s@.take(i + 1)) =~= done.push(cur@));
            }
        }
        i = i + 1;
    }
    proof {
        assert(s@.take(n as int) =~= s@);
    }
    if cur.len() > 0 {
        let line = string_of(cur.as_slice(), 0, cur.len());
        let ghost old_out = out@;
        out.push(line);
        proof {
            assert(cur@.subrange(0, cur@.len() as int) =~= cur@);
            assert(texts(out@).drop_last() =~= texts(old_out));
            let p = split_newlines(text@);
            assert(p == done.push(cur@));
            assert(p.len() - 1 == done.len());
            assert(p.last() == cur@);
            let ended = Seq::new((p.len() - 1) as nat, |i: int| strip_cr(p[i]));
            assert(lines_of(text@) == ended.push(p.last()));
            let m = done.map_values(|q: Seq<char>| strip_cr(q));
            assert(texts(old_out) == m);
            assert forall|j: int| 0 <= j < m.len() implies m[j] == ended[j] by {
                assert(p[j] == done[j]);
            }
            assert(m =~= ended);
            assert(texts(out@) =~= texts(old_out).push(line@));
            assert(texts(out@) =~= lines_of(text@));
        }
    } else {
        proof {
            let p = split_newlines(text@);
            assert(p == done.push(cur@));
            assert(p.len() - 1 == done.len());
            assert(p.last().len() == 0);
            assert forall|j: int| 0 <= j < done.len() implies #[trigger] p[j] == done[j] by {}
            let ended = Seq::new((p.len() - 1) as nat, |i: int| strip_cr(p[i]));
            assert(lines_of(text@) == ended);
            let m = done.map_values(|q: Seq<char>| strip_cr(q));
            assert(texts(out@) == m);
            assert(m.len() == ended.len());
            assert forall|j: int| 0 <= j < m.len() implies m[j] == ended[j] by {
                assert(p[j] == done[j]);
            }
            assert(m =~= ended);
        }
    }
    out
}


/// Every character of `s` is an ASCII digit.
pub open spec fn all_digits(s: Seq<char>) -> bool {
    forall|i: int| 0 <= i < s.len() ==> '0' <= #[trigger] s[i] && s[i] <= '9'
}

/// The value of the decimal digits `s`.
pub open spec fn digits_value(s: Seq<char>) -> nat
    decreases s.len(),
{
    if s.len() == 0 {
        0
    } else {
        digits_value(s.drop_last()) * 10 + (s.last() as int - '0' as int) as nat
    }
}

/// `usize::from_str`: an optional `+` followed by one or more ASCII digits
/// whose value fits in a `usize`.
pub open spec fn parse_usize_of(s: Seq<char>) -> Option<usize> {
    let d = if s.len() > 0 && s[0] == '+' {
        s.drop_first()
    } else {
        s
    };
    if d.len() > 0 && all_digits(d) && digits_value(d) <= usize::MAX {
        Some(digits_value(d) as usize)
    } else {
        None
    }
}

/// The value of a prefix of digits is at most that of the whole.
pub proof fn lemma_digits_value_prefix(s: Seq<char>, j: int)
    requires
        0 <= j <= s.len(),
        all_digits(s),
    ensures
        digits_value(s.take(j)) <= digits_value(s),
    decreases s.len() - j,
{
    if j < s.len() {
        let t = s.drop_last();
        assert(t.take(j) =~= s.take(j));
        assert forall|i: int| 0 <= i < t.len() implies '0' <= #[trigger] t[i] && t[i] <= '9' by {
            assert(t[i] == s[i]);
        }
        lemma_digits_value_prefix(t, j);
        assert(digits_value(t) <= digits_value(s)) by (nonlinear_arith)
            requires
                digits_value(s) == digits_value(t) * 10 + (s.last() as int - '0' as int) as nat,
        {}
    } else {
        assert(s.take(j) =~= s);
    }
}

/// `usize::from_str` on `text`.
pub fn parse_usize(text: &str) -> (r: Option<usize>)
    ensures
        r == parse_usize_of(text@),
{
    let s = chars_of(text);
    let n = s.len();
    let start: usize = if n > 0 && s[0] == '+' {
        1
    } else {
        0
    };
    let ghost d = s@.skip(start as int);
    proof {
        if n > 0 && s@[0] == '+' {
            assert(d =~= s@.drop_first());
        } else {
            assert(d =~= s@);
        }
    }
    if start == n {
        return None;
    }
    let mut v: usize = 0;
    let mut i = start;
    while i < n
        invariant
            start <= i <= n,
            n == s@.len(),
            d == s@.skip(start as int),
            s@ == text@,
            d == (if s@.len() > 0 && s@[0] == '+' {
                s@.drop_first()
            } else {
                s@
            }),
            start < n,
            all_digits(d.take(i - start)),
            v == digits_value(d.take(i - start)),
        decreases n - i,
    {
        let c = s[i];
        proof {
            assert(d.take(i - start + 1).drop_last() =~= d.take(i - start));
            assert(d.take(i - start + 1).last() == c);
        }
        if !('0' <= c && c <= '9') {
            proof {
                assert(d[i - start] == c);
            }
            return None;
        }
        let dv: usize = (c as u32 - '0' as u32) as usize;
        proof {
            assert(digits_value(d.take(i - start + 1)) == v * 10 + dv);
        }
        match v.checked_mul(10) {
            Some(m) => match m.checked_add(dv) {
                Some(w) => {
                    v = w;
                },
                None => {
                    proof {
                        assert forall|k: int| 0 <= k < i - start + 1 implies '0' <= #[trigger] d.take(i - start + 1)[k] && d.take(i - start + 1)[k] <= '9' by {
                            if k < i - start {
                                assert(d.take(i - start + 1)[k] == d.take(i - start)[k]);
                            }
                        }
                        assert(digits_value(d.take(i - start + 1)) > usize::MAX);
                        if all_digits(d) {
                            lemma_digits_value_prefix(d, i - start + 1);
                        }
                    }
                    return None;
                },
            },
            None => {
                proof {
                    assert forall|k: int| 0 <= k < i - start + 1 implies '0' <= #[trigger] d.take(i - start + 1)[k] && d.take(i - start + 1)[k] <= '9' by {
                        if k < i - start {
                            assert(d.take(i - start + 1)[k] == d.take(i - start)[k]);
                        }
                    }
                    if all_digits(d) {
                        lemma_digits_value_prefix(d, i - start + 1);
                    }
                    assert(digits_value(d.take(i - start + 1)) >= v * 10) by (nonlinear_arith)
                        requires
                            digits_value(d.take(i - start + 1)) == v * 10 + dv,
                            dv >= 0,
                    {}
                    assert(v * 10 > usize::MAX);
                }
                return None;
            },
        }
        proof {
            assert forall|k: int| 0 <= k < i - start + 1 implies '0' <= #[trigger] d.take(i - start + 1)[k] && d.take(i - start + 1)[k] <= '9' by {
                if k < i - start {
                    assert(d.take(i - start + 1)[k] == d.take(i - start)[k]);
                }
            }
        }
        i = i + 1;
    }
    proof {
        assert(d.take(n - start) =~= d);
    }
    Some(v)
}


/// The texts `ls` joined with newlines between them (`[&str]::join("\n")`).
pub open spec fn join_lines(ls: Seq<Seq<char>>) -> Seq<char>
    decreases ls.len(),
{
    if ls.len() == 0 {
        Seq::empty()
    } else if ls.len() == 1 {
        ls[0]
    } else {
        join_lines(ls.drop_last()) + seq!['\n'] + ls.last()
    }
}

/// Appends the lines `ls[from..to]` joined with newlines.
pub fn push_joined(out: &mut String, ls: &[String], from: usize, to: usize)
    requires
        from <= to <= ls@.len(),
    ensures
        final(out)@ == old(out)@ + join_lines(texts(ls@).subrange(from as int, to as int)),
{
    let ghost t = texts(ls@);
    let mut i = from;
    proof {
        assert(t.subrange(from as int, from as int) =~= Seq::<Seq<char>>::empty());
        assert(old(out)@ + Seq::<char>::empty() =~= old(out)@);
    }
    while i < to
        invariant
            from <= i <= to <= ls@.len(),
            t == texts(ls@),
            out@ == old(out)@ + join_lines(t.subrange(from as int, i as int)),
        decreases to - i,
    {
        let ghost before = out@;
        if i > from {
            push_char(out, '\n');
        }
        push_str(out, ls[i].as_str());
        proof {
            let sub = t.subrange(from as int, i + 1);
            assert(sub.drop_last() =~= t.subrange(from as int, i as int));
            assert(sub.last() == ls@[i as int]@);
            if i > from {
                assert(out@ =~= old(out)@ + join_lines(sub));
            } else {
                assert(sub.len() == 1);
                assert(out@ =~= old(out)@ + join_lines(sub));
            }
        }
        i = i + 1;
    }
}

} // verus!
