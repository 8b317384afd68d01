//! Searching files for lines that contain a pattern or open a named item, and
//! ordering what was found.
use vstd::prelude::*;
use crate::span::{file_name_of, last_component_at};
use crate::symbol::{occurs_at, symbol_name_of, symbol_parts, symbol_parts_of};
use crate::text::{chars_eq, chars_of, lines_of, push_str, split_lines, starts_with_at, string_from, texts};

verus! {

/// A match: the path of a file and a one-based line number.
pub open spec fn match_view(m: (String, usize)) -> (Seq<char>, usize) {
    (m.0@, m.1)
}

/// The values of a list of matches.
pub open spec fn matches_view(v: Seq<(String, usize)>) -> Seq<(Seq<char>, usize)> {
    v.map_values(|m: (String, usize)| match_view(m))
}

/// `pat` occurs in `line` (`str::contains`; the empty pattern occurs everywhere).
pub open spec fn contains_text(line: Seq<char>, pat: Seq<char>) -> bool {
    exists|q: int| occurs_at(line, q, pat)
}

/// The line opens an item named `symbol`.
pub open spec fn defines_symbol(line: Seq<char>, symbol: Seq<char>) -> bool {
    symbol_parts_of(line) is Some && symbol_name_of(line) == symbol
}

/// The lines of `ls` that satisfy `pred`, as matches in `path`, in order.
pub open spec fn line_matches(path: Seq<char>, ls: Seq<Seq<char>>, pred: spec_fn(Seq<char>) -> bool) -> Seq<(Seq<char>, usize)>
    decreases ls.len(),
{
    if ls.len() == 0 {
        Seq::empty()
    } else {
        let rest = line_matches(path, ls.drop_last(), pred);
        if pred(ls.last()) {
            rest.push((path, ls.len() as usize))
        } else {
            rest
        }
    }
}

/// Whether `p` occurs in `s`.
fn contains_chars(s: &[char], p: &[char]) -> (r: bool)
    ensures
        r == contains_text(s@, p@),
{
    let n = s.len();
    let m = p.len();
    if m > n {
        proof {
            assert forall|q: int| !occurs_at(s@, q, p@) by {}
        }
        return false;
    }
    let mut q: usize = 0;
    while q <= n - m
        invariant
            m <= n,
            n == s@.len(),
            m == p@.len(),
            q <= n - m + 1,
            forall|r: int| 0 <= r < q ==> !occurs_at(s@, r, p@),
        decreases n - m + 1 - q,
    {
        let hit = starts_with_at(s, q, p);
        proof {
            assert(s@.skip(q as int).subrange(0, m as int) =~= s@.subrange(q as int, q + m));
        }
        if hit {
            proof {
                assert(occurs_at(s@, q as int, p@));
            }
            return true;
        }
        q = q + 1;
    }
    proof {
        assert forall|r: int| !occurs_at(s@, r, p@) by {}
    }
    false
}

/// Adds the lines of the file `path` (whose contents are `text`) that contain
/// `pattern`, with their one-based numbers.
pub fn collect_matches(path: &str, text: &str, pattern: &str, matches: &mut Vec<(String, usize)>)
    ensures
        matches_view(final(matches)@) == matches_view(old(matches)@) + line_matches(
            path@,
            lines_of(text@),
            |l: Seq<char>| contains_text(l, pattern@),
        ),
{
    let ghost pred = |l: Seq<char>| contains_text(l, pattern@);
    let lines = split_lines(text);
    let pc = chars_of(pattern);
    let n = lines.len();
    let ghost ls = texts(lines@);
    let mut i: usize = 0;
    proof {
        assert(ls.take(0) =~= Seq::<Seq<char>>::empty());
        assert(matches_view(matches@) =~= matches_view(old(matches)@) + line_matches(path@, ls.take(0), pred));
    }
    while i < n
        invariant
            n == lines@.len(),
            ls == texts(lines@),
            ls == lines_of(text@),
            pc@ == pattern@,
            pred == (|l: Seq<char>| contains_text(l, pattern@)),
            i <= n,
            matches_view(matches@) == matches_view(old(matches)@) + line_matches(path@, ls.take(i as int), pred),
        decreases n - i,
    {
        let lc = chars_of(lines[i].as_str());
        let ghost before = matches@;
        let hit = contains_chars(lc.as_slice(), pc.as_slice());
        proof {
            assert(ls[i as int] == lines@[i as int]@);
            assert(hit == pred(ls[i as int]));
        }
        if hit {
            let entry = (string_from(path), i + 1);
            matches.push(entry);
            proof {
                assert(matches_view(matches@) =~= matches_view(before).push((path@, (i + 1) as usize)));
            }
        }
        proof {
            let t = ls.take(i + 1);
            assert(t.drop_last() =~= ls.take(i as int));
            assert(t.last() == ls[i as int]);
            assert(t.len() == i + 1);
            assert(matches_view(matches@) =~= matches_view(old(matches)@) + line_matches(path@, t, pred));
        }
        i = i + 1;
    }
    proof {
        assert(ls.take(n as int) =~= ls);
    }
}

/// Adds the lines of the file `path` (whose contents are `text`) that open an
/// item named `symbol`, with their one-based numbers.
pub fn collect_symbol_matches(path: &str, text: &str, symbol: &str, matches: &mut Vec<(String, usize)>)
    ensures
        matches_view(final(matches)@) == matches_view(old(matches)@) + line_matches(
            path@,
            lines_of(text@),
            |l: Seq<char>| defines_symbol(l, symbol@),
        ),
{
    let ghost pred = |l: Seq<char>| defines_symbol(l, symbol@);
    let lines = split_lines(text);
    let sc = chars_of(symbol);
    let n = lines.len();
    let ghost ls = texts(lines@);
    let mut i: usize = 0;
    proof {
        assert(ls.take(0) =~= Seq::<Seq<char>>::empty());
        assert(matches_view(matches@) =~= matches_view(old(matches)@) + line_matches(path@, ls.take(0), pred));
    }
    while i < n
        invariant
            n == lines@.len(),
            ls == texts(lines@),
            ls == lines_of(text@),
            sc@ == symbol@,
            pred == (|l: Seq<char>| defines_symbol(l, symbol@)),
            i <= n,
            matches_view(matches@) == matches_view(old(matches)@) + line_matches(path@, ls.take(i as int), pred),
        decreases n - i,
    {
        let ghost before = matches@;
        let hit = match symbol_parts(lines[i].as_str()) {
            Some((_, name)) => {
                let nc = chars_of(name.as_str());
                chars_eq(nc.as_slice(), sc.as_slice())
            },
            None => false,
        };
        proof {
            assert(ls[i as int] == lines@[i as int]@);
            assert(hit == defines_symbol(ls[i as int], symbol@));
            assert(hit == pred(ls[i as int]));
        }
        if hit {
            let entry = (string_from(path), i + 1);
            matches.push(entry);
            proof {
                assert(matches_view(matches@) =~= matches_view(before).push((path@, (i + 1) as usize)));
            }
        }
        proof {
            let t = ls.take(i + 1);
            assert(t.drop_last() =~= ls.take(i as int));
            assert(t.last() == ls[i as int]);
            assert(t.len() == i + 1);
            assert(matches_view(matches@) =~= matches_view(old(matches)@) + line_matches(path@, t, pred));
        }
        i = i + 1;
    }
    proof {
        assert(ls.take(n as int) =~= ls);
    }
}

// ---------------------------------------------------------------- ordering

/// Lexicographic order of texts by character (for UTF-8 text this is the
/// byte order in which `String`s compare).
pub open spec fn text_le(a: Seq<char>, b: Seq<char>) -> bool
    decreases a.len(),
{
    if a.len() == 0 {
        true
    } else if b.len() == 0 {
        false
    } else if a[0] != b[0] {
        a[0] < b[0]
    } else {
        text_le(a.drop_first(), b.drop_first())
    }
}

/// Matches ordered by path, then by line number.
pub open spec fn match_le(a: (Seq<char>, usize), b: (Seq<char>, usize)) -> bool {
    if a.0 == b.0 {
        a.1 <= b.1
    } else {
        text_le(a.0, b.0)
    }
}

/// The matches are in order.
pub open spec fn sorted_matches(s: Seq<(Seq<char>, usize)>) -> bool {
    forall|i: int, j: int| 0 <= i < j < s.len() ==> match_le(s[i], s[j])
}

/// `text_le` is total.
pub proof fn lemma_text_le_total(a: Seq<char>, b: Seq<char>)
    ensures
        text_le(a, b) || text_le(b, a),
    decreases a.len(),
{
    if a.len() > 0 && b.len() > 0 && a[0] == b[0] {
        lemma_text_le_total(a.drop_first(), b.drop_first());
    }
}

/// `text_le` is antisymmetric.
pub proof fn lemma_text_le_antisym(a: Seq<char>, b: Seq<char>)
    requires
        text_le(a, b),
        text_le(b, a),
    ensures
        a == b,
    decreases a.len(),
{
    if a.len() == 0 {
        assert(b.len() == 0);
        assert(a =~= b);
    } else {
        lemma_text_le_antisym(a.drop_first(), b.drop_first());
        assert(a =~= seq![a[0]] + a.drop_first());
        assert(b =~= seq![b[0]] + b.drop_first());
    }
}

/// `text_le` is transitive.
pub proof fn lemma_text_le_trans(a: Seq<char>, b: Seq<char>, c: Seq<char>)
    requires
        text_le(a, b),
        text_le(b, c),
    ensures
        text_le(a, c),
    decreases a.len(),
{
    if a.len() > 0 && b.len() > 0 && c.len() > 0 && a[0] == b[0] && b[0] == c[0] {
        lemma_text_le_trans(a.drop_first(), b.drop_first(), c.drop_first());
    }
}

/// `match_le` is a total preorder.
pub proof fn lemma_match_le(a: (Seq<char>, usize), b: (Seq<char>, usize), c: (Seq<char>, usize))
    ensures
        match_le(a, b) || match_le(b, a),
        match_le(a, b) && match_le(b, c) ==> match_le(a, c),
{
    lemma_text_le_total(a.0, b.0);
    if match_le(a, b) && match_le(b, c) {
        if a.0 != b.0 && b.0 != c.0 {
            lemma_text_le_trans(a.0, b.0, c.0);
            if a.0 == c.0 {
                lemma_text_le_antisym(a.0, b.0);
            }
        }
    }
}

/// `text_le` of two texts.
fn text_le_exec(a: &[char], b: &[char]) -> (r: bool)
    ensures
        r == text_le(a@, b@),
{
    let n = a.len();
    let m = b.len();
    let mut i: usize = 0;
    proof {
        assert(a@.skip(0) =~= a@);
        assert(b@.skip(0) =~= b@);
    }
    loop
        invariant
            n == a@.len(),
            m == b@.len(),
            i <= n,
            i <= m,
            text_le(a@, b@) == text_le(a@.skip(i as int), b@.skip(i as int)),
        decreases n - i,
    {
        if i == n {
            return true;
        }
        if i == m {
            return false;
        }
        proof {
            assert(a@.skip(i as int)[0] == a@[i as int]);
            assert(b@.skip(i as int)[0] == b@[i as int]);
            assert(a@.skip(i as int).drop_first() =~= a@.skip(i + 1));
            assert(b@.skip(i as int).drop_first() =~= b@.skip(i + 1));
        }
        if a[i] != b[i] {
            return a[i] < b[i];
        }
        i = i + 1;
    }
}

/// `match_le` of two matches whose paths are given as characters.
fn match_le_exec(ak: &[char], a: usize, bk: &[char], b: usize) -> (r: bool)
    ensures
        r == match_le((ak@, a), (bk@, b)),
{
    if chars_eq(ak, bk) {
        a <= b
    } else {
        text_le_exec(ak, bk)
    }
}

proof fn lemma_multiset_insert(s: Seq<(Seq<char>, usize)>, p: int, x: (Seq<char>, usize))
    requires
        0 <= p <= s.len(),
    ensures
        s.insert(p, x).to_multiset() =~= s.to_multiset().insert(x),
{
    broadcast use vstd::seq_lib::group_to_multiset_ensures;

    let t = s.insert(p, x);
    assert(t.remove(p) =~= s);
    assert(t[p] == x);
    assert(t.contains(x));
}

/// The matches ordered by path and line number (`sort`).
pub fn sort_matches(v: Vec<(String, usize)>) -> (r: Vec<(String, usize)>)
    ensures
        sorted_matches(matches_view(r@)),
        matches_view(r@).to_multiset() == matches_view(v@).to_multiset(),
{
    broadcast use vstd::seq_lib::group_to_multiset_ensures;

    let n = v.len();
    let mut out: Vec<(String, usize)> = Vec::new();
    let mut keys: Vec<Vec<char>> = Vec::new();
    let mut i: usize = 0;
    proof {
        assert(matches_view(v@).take(0) =~= Seq::<(Seq<char>, usize)>::empty());
        assert(matches_view(out@) =~= Seq::<(Seq<char>, usize)>::empty());
    }
    while i < n
        invariant
            n == v@.len(),
            i <= n,
            out@.len() == keys@.len(),
            forall|k: int| 0 <= k < keys@.len() ==> #[trigger] keys@[k]@ == out@[k].0@,
            sorted_matches(matches_view(out@)),
            matches_view(out@).to_multiset() == matches_view(v@).take(i as int).to_multiset(),
        decreases n - i,
    {
        let key = chars_of(v[i].0.as_str());
        let line = v[i].1;
        let ghost mv = matches_view(out@);
        let ghost x = (key@, line);
        // The first position whose match comes strictly after `x`.
        let mut lo: usize = 0;
        let mut hi: usize = out.len();
        while lo < hi
            invariant
                0 <= lo <= hi <= out@.len(),
                out@.len() == keys@.len(),
                mv == matches_view(out@),
                x == (key@, line),
                forall|k: int| 0 <= k < keys@.len() ==> #[trigger] keys@[k]@ == out@[k].0@,
                sorted_matches(mv),
                forall|k: int| 0 <= k < lo ==> match_le(#[trigger] mv[k], x),
                forall|k: int| hi <= k < mv.len() ==> !match_le(#[trigger] mv[k], x),
            decreases hi - lo,
        {
            let mid = lo + (hi - lo) / 2;
            let le = match_le_exec(keys[mid].as_slice(), out[mid].1, key.as_slice(), line);
            proof {
                assert(mv[mid as int] == (keys@[mid as int]@, out@[mid as int].1));
            }
            if le {
                proof {
                    assert forall|k: int| 0 <= k <= mid implies match_le(#[trigger] mv[k], x) by {
                        if k < mid {
                            assert(match_le(mv[k], mv[mid as int]));
                            lemma_match_le(mv[k], mv[mid as int], x);
                        }
                    }
                }
                lo = mid + 1;
            } else {
                proof {
                    assert forall|k: int| mid <= k < mv.len() implies !match_le(#[trigger] mv[k], x) by {
                        if k > mid {
                            assert(match_le(mv[mid as int], mv[k]));
                            lemma_match_le(mv[mid as int], mv[k], x);
                        }
                    }
                }
                hi = mid;
            }
        }
        let entry = (v[i].0.clone(), line);
        proof {
            assert(match_view(entry) == x);
            assert(match_view(v@[i as int]) == x);
        }
        let ghost before = out@;
        let ghost keys_before = keys@;
        out.insert(lo, entry);
        keys.insert(lo, key);
        proof {
            let nv = matches_view(out@);
            assert(nv =~= mv.insert(lo as int, x));
            lemma_multiset_insert(mv, lo as int, x);
            assert(matches_view(v@).take(i + 1) =~= matches_view(v@).take(i as int).push(x));
            matches_view(v@).take(i as int).to_multiset_ensures();
            assert(matches_view(v@).take(i as int).push(x).to_multiset() =~= matches_view(v@).take(i as int).to_multiset().insert(x));
            assert(nv.to_multiset() =~= matches_view(v@).take(i + 1).to_multiset());
            assert forall|k: int| 0 <= k < keys@.len() implies #[trigger] keys@[k]@ == out@[k].0@ by {
                if k < lo {
                    assert(keys@[k] == keys_before[k] && out@[k] == before[k]);
                } else if k > lo {
                    assert(keys@[k] == keys_before[k - 1] && out@[k] == before[k - 1]);
                }
            }
            assert forall|a: int, b: int| 0 <= a < b < nv.len() implies match_le(nv[a], nv[b]) by {
                if b < lo {
                    assert(nv[a] == mv[a] && nv[b] == mv[b]);
                } else if b == lo {
                    assert(nv[a] == mv[a]);
                } else if a == lo {
                    assert(nv[b] == mv[b - 1]);
                    lemma_match_le(x, mv[b - 1], x);
                } else if a < lo {
                    assert(nv[a] == mv[a] && nv[b] == mv[b - 1]);
                } else {
                    assert(nv[a] == mv[a - 1] && nv[b] == mv[b - 1]);
                }
            }
        }
        i = i + 1;
    }
    proof {
        assert(matches_view(v@).take(n as int) =~= matches_view(v@));
    }
    out
}

fn not_found(prefix: &str, what: &str) -> (r: String)
    ensures
        r@ == prefix@ + what@,
{
    let mut m = string_from(prefix);
    push_str(&mut m, what);
    m
}

/// The value of a search result.
pub open spec fn search_result_view(r: Result<Vec<(String, usize)>, String>) -> Result<Seq<(Seq<char>, usize)>, Seq<char>> {
    match r {
        Ok(v) => Ok(matches_view(v@)),
        Err(m) => Err(m@),
    }
}

/// The lines containing `pattern` that a search collected, in order; an error
/// when there are none.
pub fn find_contains(pattern: &str, matches: Vec<(String, usize)>) -> (r: Result<Vec<(String, usize)>, String>)
    ensures
        matches@.len() == 0 ==> search_result_view(r) == Err::<Seq<(Seq<char>, usize)>, Seq<char>>("pattern not found: "@ + pattern@),
        matches@.len() > 0 ==> (r matches Ok(v) && sorted_matches(matches_view(v@)) && matches_view(v@).to_multiset()
            == matches_view(matches@).to_multiset()),
{
    let sorted = sort_matches(matches);
    if sorted.len() == 0 {
        proof {
            broadcast use vstd::seq_lib::group_to_multiset_ensures;
            assert(matches_view(sorted@).to_multiset().len() == matches_view(sorted@).len());
            assert(matches_view(matches@).to_multiset().len() == matches_view(matches@).len());
        }
        Err(not_found("pattern not found: ", pattern))
    } else {
        proof {
            broadcast use vstd::seq_lib::group_to_multiset_ensures;
            assert(matches_view(sorted@).to_multiset().len() == matches_view(sorted@).len());
            assert(matches_view(matches@).to_multiset().len() == matches_view(matches@).len());
        }
        Ok(sorted)
    }
}

/// The lines opening an item named `symbol` that a search collected, in
/// order; an error when there are none.
pub fn find_symbol(symbol: &str, matches: Vec<(String, usize)>) -> (r: Result<Vec<(String, usize)>, String>)
    ensures
        matches@.len() == 0 ==> search_result_view(r) == Err::<Seq<(Seq<char>, usize)>, Seq<char>>("symbol not found: "@ + symbol@),
        matches@.len() > 0 ==> (r matches Ok(v) && sorted_matches(matches_view(v@)) && matches_view(v@).to_multiset()
            == matches_view(matches@).to_multiset()),
{
    let sorted = sort_matches(matches);
    if sorted.len() == 0 {
        proof {
            broadcast use vstd::seq_lib::group_to_multiset_ensures;
            assert(matches_view(sorted@).to_multiset().len() == matches_view(sorted@).len());
            assert(matches_view(matches@).to_multiset().len() == matches_view(matches@).len());
        }
        Err(not_found("symbol not found: ", symbol))
    } else {
        proof {
            broadcast use vstd::seq_lib::group_to_multiset_ensures;
            assert(matches_view(sorted@).to_multiset().len() == matches_view(sorted@).len());
            assert(matches_view(matches@).to_multiset().len() == matches_view(matches@).len());
        }
        Ok(sorted)
    }
}

/// Directory entries that searches do not descend into.
pub open spec fn is_skipped_name(name: Seq<char>) -> bool {
    name == ".git"@ || name == "target"@ || name == "node_modules"@
}

/// Whether a search skips the entry `path`: its file name is `.git`,
/// `target` or `node_modules`.
pub fn is_skipped_entry(path: &str) -> (r: bool)
    ensures
        r == match file_name_of(path@) {
            Some(name) => is_skipped_name(name),
            None => false,
        },
{
    let p = chars_of(path);
    let n = p.len();
    proof {
        assert(p@.take(n as int) =~= p@);
    }
    match last_component_at(p.as_slice(), n) {
        None => false,
        Some((a, b)) => {
            let name = string_from_range(p.as_slice(), a, b);
            if str_eq_any(name.as_str()) {
                proof {
                    reveal_strlit("..");
                    reveal_strlit(".git");
                    reveal_strlit("target");
                    reveal_strlit("node_modules");
                    if name@ == ".."@ {
                        assert(name@.len() == 2);
                    }
                }
                true
            } else {
                false
            }
        },
    }
}

fn string_from_range(p: &[char], a: usize, b: usize) -> (r: String)
    requires
        a <= b <= p@.len(),
    ensures
        r@ == p@.subrange(a as int, b as int),
{
    crate::text::string_of(p, a, b)
}

fn str_eq_any(name: &str) -> (r: bool)
    ensures
        r == is_skipped_name(name@),
{
    crate::text::str_eq(name, ".git") || crate::text::str_eq(name, "target") || crate::text::str_eq(
        name,
        "node_modules",
    )
}

} // verus!
