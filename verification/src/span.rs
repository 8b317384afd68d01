//! Finding the span of lines around a target line: a Markdown fence, an item
//! whose first line precedes the target, or a window of context lines.
use vstd::prelude::*;
use crate::symbol::{
    classify_symbol_of, kind_name, kind_text, symbol_name_of, symbol_parts, symbol_parts_of,
    SpanKind,
};
use crate::text::{
    all_ws, chars_of, is_blank, leading_ws, skip_ws, starts_with_str_at, string_from, string_of,
    texts, total_len, trim, trim_bounds, trim_start, lemma_leading_ws_bound,
};

verus! {

/// Lines of context shown on each side of the target line when no block is found.
pub const CONTEXT_RADIUS: usize = 20;

/// A span of lines: one-based, inclusive bounds, with its kind and symbol.
#[derive(Debug)]
pub struct Span {
    pub start: usize,
    pub end: usize,
    pub kind: SpanKind,
    pub symbol: String,
}

/// The mathematical value of a span.
pub struct SpanModel {
    pub start: int,
    pub end: int,
    pub kind: SpanKind,
    pub symbol: Seq<char>,
}

impl View for Span {
    type V = SpanModel;

    open spec fn view(&self) -> SpanModel {
        SpanModel { start: self.start as int, end: self.end as int, kind: self.kind, symbol: self.symbol@ }
    }
}

/// The symbol reported for a Markdown fence.
pub open spec fn fence_symbol() -> Seq<char> {
    "```"@
}

/// The symbol reported for a window of context lines.
pub open spec fn window_symbol() -> Seq<char> {
    "<line-window>"@
}

// ---------------------------------------------------------------- Markdown fences

/// A line that opens or closes a Markdown fence.
pub open spec fn is_fence_text(l: Seq<char>) -> bool {
    fence_symbol().is_prefix_of(trim_start(l))
}

/// The fence that is open after lines `1..=n`, by the line number that opened it.
pub open spec fn open_fence_after(ls: Seq<Seq<char>>, n: int) -> Option<int>
    decreases n,
{
    if n <= 0 {
        None
    } else {
        let prev = open_fence_after(ls, n - 1);
        if is_fence_text(ls[n - 1]) {
            if prev is Some {
                None
            } else {
                Some(n)
            }
        } else {
            prev
        }
    }
}

/// Lines `s` and `e` open and close the same fence.
pub open spec fn fence_pair(ls: Seq<Seq<char>>, s: int, e: int) -> bool {
    1 <= e <= ls.len() && is_fence_text(ls[e - 1]) && open_fence_after(ls, e - 1) == Some(s)
}

/// The fence from line `s` to line `e` contains `line`.
pub open spec fn fence_contains(ls: Seq<Seq<char>>, line: int, s: int, e: int) -> bool {
    fence_pair(ls, s, e) && s <= line <= e
}

/// The fence, if any, that contains `line`.
pub open spec fn fence_span_of(ls: Seq<Seq<char>>, line: int) -> Option<(int, int)> {
    if exists|p: (int, int)| fence_contains(ls, line, p.0, p.1) {
        Some(choose|p: (int, int)| fence_contains(ls, line, p.0, p.1))
    } else {
        None
    }
}

/// What the fence state after line `k` says about the fence that is open.
pub proof fn lemma_open_fence_after(ls: Seq<Seq<char>>, k: int)
    requires
        0 <= k <= ls.len(),
    ensures
        open_fence_after(ls, k) matches Some(s) ==> {
            &&& 1 <= s <= k
            &&& is_fence_text(ls[s - 1])
            &&& open_fence_after(ls, s - 1) is None
            &&& forall|m: int| s <= m <= k ==> #[trigger] open_fence_after(ls, m) == Some(s)
            &&& forall|m: int| s < m <= k ==> !is_fence_text(#[trigger] ls[m - 1])
        },
    decreases k,
{
    if k > 0 {
        lemma_open_fence_after(ls, k - 1);
        if let Some(s) = open_fence_after(ls, k) {
            if s == k {
                assert forall|m: int| s <= m <= k implies #[trigger] open_fence_after(ls, m) == Some(s) by {}
            } else {
                assert(open_fence_after(ls, k - 1) == Some(s));
            }
        }
    }
}

/// At most one fence contains a line.
pub proof fn lemma_fence_unique(ls: Seq<Seq<char>>, line: int, s1: int, e1: int, s2: int, e2: int)
    requires
        fence_contains(ls, line, s1, e1),
        fence_contains(ls, line, s2, e2),
    ensures
        s1 == s2 && e1 == e2,
{
    lemma_open_fence_after(ls, e1 - 1);
    lemma_open_fence_after(ls, e2 - 1);
    if e1 < e2 {
        if e1 == s2 {
            assert(open_fence_after(ls, e1) is None);
        } else {
            assert(!is_fence_text(ls[e1 - 1]));
        }
    } else if e2 < e1 {
        if e2 == s1 {
            assert(open_fence_after(ls, e2) is None);
        } else {
            assert(!is_fence_text(ls[e2 - 1]));
        }
    }
}

/// The characters of line `i` (zero-based).
pub(crate) fn line_chars(lines: &[String], i: usize) -> (v: Vec<char>)
    requires
        i < lines@.len(),
    ensures
        v@ == texts(lines@)[i as int],
{
    chars_of(lines[i].as_str())
}

/// The Markdown fence that contains `line`, if any.
pub fn markdown_fence_span(lines: &[String], line: usize) -> (r: Option<Span>)
    ensures
        r is Some <==> exists|p: (int, int)| fence_contains(texts(lines@), line as int, p.0, p.1),
        r matches Some(sp) ==> {
            &&& fence_contains(texts(lines@), line as int, sp.start as int, sp.end as int)
            &&& sp.kind == SpanKind::MarkdownFence
            &&& sp.symbol@ == fence_symbol()
            &&& fence_span_of(texts(lines@), line as int) == Some((sp.start as int, sp.end as int))
        },
{
    let ghost ls = texts(lines@);
    let n = lines.len();
    let mut open_start: Option<usize> = None;
    let mut index: usize = 0;
    while index < n
        invariant
            n == lines@.len(),
            ls == texts(lines@),
            index <= n,
            match open_start {
                Some(s) => open_fence_after(ls, index as int) == Some(s as int),
                None => open_fence_after(ls, index as int) is None,
            },
            forall|s: int, e: int| 1 <= e <= index ==> !fence_contains(ls, line as int, s, e),
        decreases n - index,
    {
        let fence_line = index + 1;
        let lc = line_chars(lines, index);
        let a = skip_ws(lc.as_slice(), 0);
        let is_fence = starts_with_str_at(lc.as_slice(), a, "```");
        proof {
            assert(lc@.skip(0) =~= lc@);
            assert(trim_start(ls[index as int]) == lc@.skip(a as int));
            assert(is_fence == is_fence_text(ls[fence_line - 1]));
        }
        if is_fence {
            if let Some(start) = open_start {
                if line >= start && line <= fence_line {
                    let sym = string_from("```");
                    proof {
                        let pr = (start as int, fence_line as int);
                        assert(fence_contains(ls, line as int, pr.0, pr.1));
                        let p = choose|p: (int, int)| fence_contains(ls, line as int, p.0, p.1);
                        lemma_fence_unique(ls, line as int, p.0, p.1, start as int, fence_line as int);
                    }
                    return Some(
                        Span { start, end: fence_line, kind: SpanKind::MarkdownFence, symbol: sym },
                    );
                }
                open_start = None;
            } else {
                open_start = Some(fence_line);
            }
        }
        proof {
            assert forall|s: int, e: int| 1 <= e <= fence_line implies !fence_contains(ls, line as int, s, e) by {
                if e == fence_line && fence_contains(ls, line as int, s, e) {
                    assert(open_fence_after(ls, index as int) == Some(s));
                }
            }
        }
        index = fence_line;
        if fence_line > line && open_start.is_none() {
            proof {
                assert forall|p: (int, int)| !fence_contains(ls, line as int, p.0, p.1) by {
                    let (s, e) = p;
                    if fence_contains(ls, line as int, s, e) && e > index {
                        lemma_open_fence_after(ls, e - 1);
                        assert(open_fence_after(ls, index as int) == Some(s));
                    }
                }
            }
            return None;
        }
    }
    proof {
        assert forall|p: (int, int)| !fence_contains(ls, line as int, p.0, p.1) by {}
    }
    None
}

// ---------------------------------------------------------------- brace blocks

/// Change of brace depth for one character.
pub open spec fn brace_delta(c: char) -> int {
    if c == '{' {
        1
    } else if c == '}' {
        -1
    } else {
        0
    }
}

/// Number of `{` minus number of `}` in `l`.
pub open spec fn brace_balance(l: Seq<char>) -> int
    decreases l.len(),
{
    if l.len() == 0 {
        0
    } else {
        brace_balance(l.drop_last()) + brace_delta(l.last())
    }
}

/// `l` holds an opening brace.
pub open spec fn has_open_brace(l: Seq<char>) -> bool
    decreases l.len(),
{
    l.len() > 0 && (has_open_brace(l.drop_last()) || l.last() == '{')
}

/// Brace depth after lines `start..=e` (one-based).
pub open spec fn block_depth(ls: Seq<Seq<char>>, start: int, e: int) -> int
    decreases e - start + 1,
{
    if e < start {
        0
    } else {
        block_depth(ls, start, e - 1) + brace_balance(ls[e - 1])
    }
}

/// Some line among `start..=e` holds an opening brace.
pub open spec fn block_opened(ls: Seq<Seq<char>>, start: int, e: int) -> bool
    decreases e - start + 1,
{
    if e < start {
        false
    } else {
        block_opened(ls, start, e - 1) || has_open_brace(ls[e - 1])
    }
}

/// The brace block that begins at line `start` is closed by the end of line `e`.
pub open spec fn closes_block(ls: Seq<Seq<char>>, start: int, e: int) -> bool {
    start <= e <= ls.len() && block_opened(ls, start, e) && block_depth(ls, start, e) <= 0
}

/// The first line at whose end the braces opened from line `start` on balance.
pub open spec fn brace_end(ls: Seq<Seq<char>>, start: int) -> Option<int> {
    if exists|e: int| closes_block(ls, start, e) {
        Some(choose|e: int| closes_block(ls, start, e) && forall|f: int| start <= f < e ==> !closes_block(ls, start, f))
    } else {
        None
    }
}

proof fn lemma_total_len_take(ls: Seq<Seq<char>>, k: int)
    requires
        0 <= k < ls.len(),
    ensures
        total_len(ls.take(k + 1)) == total_len(ls.take(k)) + ls[k].len(),
{
    assert(ls.take(k + 1).drop_last() =~= ls.take(k));
}

proof fn lemma_total_len_mono(ls: Seq<Seq<char>>, k: int)
    requires
        0 <= k <= ls.len(),
    ensures
        total_len(ls.take(k)) <= total_len(ls),
    decreases ls.len() - k,
{
    if k < ls.len() {
        lemma_total_len_take(ls, k);
        lemma_total_len_mono(ls, k + 1);
    } else {
        assert(ls.take(k) =~= ls);
    }
}

/// The line at whose end the brace block starting at line `start` closes.
pub fn brace_span_end(lines: &[String], start: usize) -> (r: Option<usize>)
    requires
        1 <= start <= lines@.len() + 1,
        total_len(texts(lines@)) <= usize::MAX,
    ensures
        match r {
            Some(e) => brace_end(texts(lines@), start as int) == Some(e as int),
            None => brace_end(texts(lines@), start as int) is None,
        },
        r matches Some(e) ==> start <= e <= lines@.len(),
{
    let ghost ls = texts(lines@);
    let n = lines.len();
    let mut depth: i128 = 0;
    let mut saw_open = false;
    let mut k: usize = start - 1;
    proof {
        lemma_total_len_mono(ls, k as int);
    }
    while k < n
        invariant
            n == lines@.len(),
            ls == texts(lines@),
            total_len(ls) <= usize::MAX,
            1 <= start <= k + 1,
            k <= n,
            depth == block_depth(ls, start as int, k as int),
            saw_open == block_opened(ls, start as int, k as int),
            -total_len(ls.take(k as int)) <= depth <= total_len(ls.take(k as int)),
            forall|f: int| start <= f <= k ==> !closes_block(ls, start as int, f),
        decreases n - k,
    {
        let lc = line_chars(lines, k);
        let m = lc.len();
        let ghost base = depth;
        let ghost base_open = saw_open;
        proof {
            lemma_total_len_take(ls, k as int);
            lemma_total_len_mono(ls, k + 1);
        }
        let mut j: usize = 0;
        while j < m
            invariant
                m == lc@.len(),
                lc@ == ls[k as int],
                j <= m,
                total_len(ls.take(k as int)) + m <= usize::MAX,
                depth == base + brace_balance(lc@.take(j as int)),
                saw_open == (base_open || has_open_brace(lc@.take(j as int))),
                -total_len(ls.take(k as int)) <= base <= total_len(ls.take(k as int)),
                -j <= depth - base <= j,
            decreases m - j,
        {
            let c = lc[j];
            proof {
                assert(lc@.take(j + 1).drop_last() =~= lc@.take(j as int));
                assert(lc@.take(j + 1).last() == c);
            }
            if c == '{' {
                saw_open = true;
                depth = depth + 1;
            } else if c == '}' {
                depth = depth - 1;
            }
            j = j + 1;
        }
        proof {
            assert(lc@.take(m as int) =~= lc@);
        }
        k = k + 1;
        if saw_open && depth <= 0 {
            proof {
                assert(closes_block(ls, start as int, k as int));
                assert(closes_block(ls, start as int, k as int) && forall|f: int|
                    start <= f < k ==> !closes_block(ls, start as int, f));
                let w = choose|e: int| closes_block(ls, start as int, e) && forall|f: int|
                    start <= f < e ==> !closes_block(ls, start as int, f);
                assert(w == k);
            }
            return Some(k);
        }
    }
    proof {
        assert forall|e: int| !closes_block(ls, start as int, e) by {}
    }
    None
}

// ---------------------------------------------------------------- indentation blocks

/// Number of leading whitespace characters of `line`.
pub fn indent(line: &str) -> (r: usize)
    ensures
        r == leading_ws(line@),
{
    let s = chars_of(line);
    let r = skip_ws(s.as_slice(), 0);
    proof {
        assert(s@.skip(0) =~= s@);
    }
    r
}

/// Line `j` is the first line that leaves the indented block begun at `start`.
pub open spec fn ends_indent_block(ls: Seq<Seq<char>>, start: int, j: int) -> bool {
    start < j <= ls.len() && !all_ws(ls[j - 1]) && leading_ws(ls[j - 1]) <= leading_ws(ls[start - 1])
}

/// The last line of the block begun at `start` by indentation: the line before
/// the first later non-blank line indented no deeper than line `start`, or the
/// last line.
pub open spec fn indented_end(ls: Seq<Seq<char>>, start: int) -> int {
    if exists|j: int| ends_indent_block(ls, start, j) {
        (choose|j: int| ends_indent_block(ls, start, j) && forall|i: int| start < i < j ==> !ends_indent_block(ls, start, i)) - 1
    } else {
        ls.len() as int
    }
}

/// The last line of the block begun at `start` by indentation.
pub fn indented_span_end(lines: &[String], start: usize) -> (r: usize)
    requires
        1 <= start <= lines@.len(),
    ensures
        r == indented_end(texts(lines@), start as int),
        start <= r <= lines@.len(),
{
    let ghost ls = texts(lines@);
    let n = lines.len();
    let first = line_chars(lines, start - 1);
    let base = skip_ws(first.as_slice(), 0);
    proof {
        assert(first@.skip(0) =~= first@);
    }
    let mut end = start;
    while end < n
        invariant
            n == lines@.len(),
            ls == texts(lines@),
            start <= end <= n,
            base == leading_ws(ls[start - 1]),
            forall|i: int| start < i <= end ==> !ends_indent_block(ls, start as int, i),
        decreases n - end,
    {
        let lc = line_chars(lines, end);
        let blank = is_blank(lc.as_slice());
        let ind = skip_ws(lc.as_slice(), 0);
        proof {
            assert(lc@.skip(0) =~= lc@);
        }
        if !blank && ind <= base {
            proof {
                let j = end + 1;
                assert(ends_indent_block(ls, start as int, j as int));
                assert(ends_indent_block(ls, start as int, j as int) && forall|i: int|
                    start < i < j ==> !ends_indent_block(ls, start as int, i));
                let w = choose|j2: int| ends_indent_block(ls, start as int, j2) && forall|i: int|
                    start < i < j2 ==> !ends_indent_block(ls, start as int, i);
                assert(w == j);
            }
            return end;
        }
        end = end + 1;
    }
    proof {
        assert forall|j: int| !ends_indent_block(ls, start as int, j) by {}
    }
    end
}

// ---------------------------------------------------------------- items

/// The zero-based index of the last line before `line` that opens an item.
pub open spec fn symbol_line_before(ls: Seq<Seq<char>>, line: int) -> Option<int> {
    if exists|i: int| 0 <= i < line && i < ls.len() && symbol_parts_of(ls[i]) is Some {
        Some(choose|i: int| 0 <= i < line && i < ls.len() && symbol_parts_of(ls[i]) is Some && forall|j: int|
            i < j < line && j < ls.len() ==> symbol_parts_of(ls[j]) is None)
    } else {
        None
    }
}

/// The item line found before `line` is the last line before it that opens an item.
pub proof fn lemma_symbol_line_before(ls: Seq<Seq<char>>, line: int)
    requires
        0 <= line <= ls.len(),
    ensures
        symbol_line_before(ls, line) matches Some(i) ==> 0 <= i < line && symbol_parts_of(ls[i]) is Some
            && forall|j: int| i < j < line ==> symbol_parts_of(#[trigger] ls[j]) is None,
        symbol_line_before(ls, line) is None ==> forall|j: int| 0 <= j < line ==> symbol_parts_of(#[trigger] ls[j]) is None,
    decreases line,
{
    if exists|i: int| 0 <= i < line && i < ls.len() && symbol_parts_of(ls[i]) is Some {
        let w = last_symbol_line(ls, line);
        assert(0 <= w < line && w < ls.len() && symbol_parts_of(ls[w]) is Some && forall|j: int|
            w < j < line && j < ls.len() ==> symbol_parts_of(ls[j]) is None);
    }
}

/// A witness for the last line before `line` that opens an item.
pub proof fn last_symbol_line(ls: Seq<Seq<char>>, line: int) -> (w: int)
    requires
        0 <= line <= ls.len(),
        exists|i: int| 0 <= i < line && i < ls.len() && symbol_parts_of(ls[i]) is Some,
    ensures
        0 <= w < line,
        symbol_parts_of(ls[w]) is Some,
        forall|j: int| w < j < line ==> symbol_parts_of(#[trigger] ls[j]) is None,
    decreases line,
{
    if symbol_parts_of(ls[line - 1]) is Some {
        line - 1
    } else {
        let i = choose|i: int| 0 <= i < line && i < ls.len() && symbol_parts_of(ls[i]) is Some;
        assert(i < line - 1);
        last_symbol_line(ls, line - 1)
    }
}

/// The span of the item whose first line is the last one before `line` that
/// opens an item: it ends where its braces balance, or else where its
/// indentation ends.
pub open spec fn syntactic_span_of(ls: Seq<Seq<char>>, line: int) -> Option<SpanModel> {
    match symbol_line_before(ls, line) {
        Some(i) => {
            let start = i + 1;
            let t = trim(ls[i]);
            Some(
                SpanModel {
                    start,
                    end: match brace_end(ls, start) {
                        Some(e) => e,
                        None => indented_end(ls, start),
                    },
                    kind: classify_symbol_of(t),
                    symbol: symbol_name_of(t),
                },
            )
        },
        None => None,
    }
}

/// The span of the item that begins on the last line at or before `line` that opens one.
pub fn syntactic_start_span(lines: &[String], line: usize) -> (r: Option<Span>)
    requires
        line <= lines@.len(),
        total_len(texts(lines@)) <= usize::MAX,
    ensures
        match syntactic_span_of(texts(lines@), line as int) {
            Some(m) => r matches Some(sp) && sp@ == m,
            None => r is None,
        },
        r matches Some(sp) ==> 1 <= sp.start <= sp.end <= lines@.len(),
        r matches Some(sp) ==> sp.start <= line,
{
    let ghost ls = texts(lines@);
    let mut index = line;
    let mut found_at: Option<usize> = None;
    while index > 0
        invariant_except_break
            index <= line <= lines@.len(),
            ls == texts(lines@),
            found_at is None,
            forall|j: int| index <= j < line ==> symbol_parts_of(#[trigger] ls[j]) is None,
        ensures
            found_at matches Some(f) ==> f < line && symbol_parts_of(ls[f as int]) is Some
                && forall|j: int| f < j < line ==> symbol_parts_of(#[trigger] ls[j]) is None,
            found_at is None ==> forall|j: int| 0 <= j < line ==> symbol_parts_of(#[trigger] ls[j]) is None,
        decreases index,
    {
        index = index - 1;
        let parts = symbol_parts(lines[index].as_str());
        if parts.is_some() {
            found_at = Some(index);
            break;
        }
    }
    let found = match found_at {
        Some(f) => f,
        None => {
            proof {
                assert(!exists|i: int| 0 <= i < line && i < ls.len() && symbol_parts_of(ls[i]) is Some);
            }
            return None;
        },
    };
    let start = found + 1;
    proof {
        let i = found as int;
        assert(0 <= i < line && i < ls.len() && symbol_parts_of(ls[i]) is Some && forall|j: int|
            i < j < line && j < ls.len() ==> symbol_parts_of(ls[j]) is None);
        let w = choose|w: int| 0 <= w < line && w < ls.len() && symbol_parts_of(ls[w]) is Some && forall|j: int|
            w < j < line && j < ls.len() ==> symbol_parts_of(ls[j]) is None;
        if w < i {
            assert(symbol_parts_of(ls[i]) is None);
        }
        if i < w {
            assert(symbol_parts_of(ls[w]) is None);
        }
        assert(symbol_line_before(ls, line as int) == Some(i));
    }
    let lc = line_chars(lines, found);
    let (a, b) = trim_bounds(lc.as_slice());
    let trimmed = string_of(lc.as_slice(), a, b);
    let kind = match symbol_parts(trimmed.as_str()) {
        Some((k, _)) => k,
        None => SpanKind::Block,
    };
    let symbol = match symbol_parts(trimmed.as_str()) {
        Some((_, s)) => s,
        None => string_from("<unknown>"),
    };
    let end = match brace_span_end(lines, start) {
        Some(e) => e,
        None => indented_span_end(lines, start),
    };
    Some(Span { start, end, kind, symbol })
}

// ---------------------------------------------------------------- paths

/// The last normal component of a `/`-separated path (`Path::file_name`):
/// empty and `.` components are skipped, and a final `..` has no name.
pub open spec fn last_component(p: Seq<char>) -> Option<Seq<char>>
    decreases p.len(),
{
    if p.len() == 0 {
        None
    } else if p.last() == '/' {
        last_component(p.drop_last())
    } else {
        let cut = last_slash_end(p);
        let seg = p.skip(cut);
        if seg == "."@ {
            proof {
                lemma_last_slash_end(p.drop_last());
            }
            last_component(p.take(cut))
        } else {
            Some(seg)
        }
    }
}

/// Index just after the last `/` in `p`, or 0.
pub open spec fn last_slash_end(p: Seq<char>) -> int
    decreases p.len(),
{
    if p.len() == 0 {
        0
    } else if p.last() == '/' {
        p.len() as int
    } else {
        last_slash_end(p.drop_last())
    }
}

/// The file name of a path: its last normal component, unless that is `..`.
pub open spec fn file_name_of(p: Seq<char>) -> Option<Seq<char>> {
    match last_component(p) {
        Some(seg) => if seg == ".."@ {
            None
        } else {
            Some(seg)
        },
        None => None,
    }
}

/// Index of the last `.` in `s`, if any.
pub open spec fn last_dot(s: Seq<char>) -> Option<int>
    decreases s.len(),
{
    if s.len() == 0 {
        None
    } else if s.last() == '.' {
        Some(s.len() - 1)
    } else {
        last_dot(s.drop_last())
    }
}

/// The extension of a file name (`Path::extension`): the text after its last
/// `.`, unless that dot is its first character.
pub open spec fn extension_of(name: Seq<char>) -> Option<Seq<char>> {
    match last_dot(name) {
        Some(q) => if q == 0 {
            None
        } else {
            Some(name.skip(q + 1))
        },
        None => None,
    }
}

/// The path names a Markdown file: its extension is `md` in any ASCII case.
pub open spec fn is_markdown_path(p: Seq<char>) -> bool {
    match file_name_of(p) {
        Some(name) => match extension_of(name) {
            Some(ext) => is_md_extension(ext),
            None => false,
        },
        None => false,
    }
}

pub proof fn lemma_last_slash_end(p: Seq<char>)
    ensures
        0 <= last_slash_end(p) <= p.len(),
        forall|i: int| last_slash_end(p) <= i < p.len() ==> p[i] != '/',
        last_slash_end(p) > 0 ==> p[last_slash_end(p) - 1] == '/',
    decreases p.len(),
{
    if p.len() > 0 && p.last() != '/' {
        lemma_last_slash_end(p.drop_last());
        assert forall|i: int| 0 <= i < p.len() - 1 implies p.drop_last()[i] == p[i] by {}
    }
}

pub proof fn lemma_last_dot(s: Seq<char>)
    ensures
        last_dot(s) matches Some(q) ==> 0 <= q < s.len() && s[q] == '.' && forall|i: int| q < i < s.len() ==> s[i] != '.',
        last_dot(s) is None ==> forall|i: int| 0 <= i < s.len() ==> s[i] != '.',
    decreases s.len(),
{
    if s.len() > 0 && s.last() != '.' {
        lemma_last_dot(s.drop_last());
        assert forall|i: int| 0 <= i < s.len() - 1 implies s.drop_last()[i] == s[i] by {}
    }
}

/// Bounds `[a, b)` of the last component of `p[..to]`.
pub(crate) fn last_component_at(p: &[char], to: usize) -> (r: Option<(usize, usize)>)
    requires
        to <= p@.len(),
    ensures
        match r {
            Some((a, b)) => a <= b <= to && last_component(p@.take(to as int)) == Some(p@.subrange(a as int, b as int)),
            None => last_component(p@.take(to as int)) is None,
        },
    decreases to,
{
    let dot = chars_of(".");
    proof {
        reveal_strlit(".");
    }
    let ghost t = p@.take(to as int);
    if to == 0 {
        return None;
    }
    proof {
        assert(t.drop_last() =~= p@.take(to - 1));
    }
    if p[to - 1] == '/' {
        return last_component_at(p, to - 1);
    }
    let mut cut = to - 1;
    while cut > 0 && p[cut - 1] != '/'
        invariant
            cut < to <= p@.len(),
            t == p@.take(to as int),
            forall|i: int| cut <= i < to ==> p@[i] != '/',
        decreases cut,
    {
        cut = cut - 1;
    }
    proof {
        lemma_last_slash_end(t);
        let c = last_slash_end(t);
        if c < cut {
            assert(t[cut - 1] == '/');
        }
        if c > cut {
            assert(t[c - 1] == '/');
        }
        assert(c == cut);
        assert(t.skip(cut as int) =~= p@.subrange(cut as int, to as int));
        assert(t.take(cut as int) =~= p@.take(cut as int));
    }
    if to - cut == 1 && p[cut] == '.' {
        proof {
            assert(p@.subrange(cut as int, to as int) =~= "."@);
        }
        return last_component_at(p, cut);
    }
    proof {
        if p@.subrange(cut as int, to as int) == "."@ {
            assert(p@.subrange(cut as int, to as int)[0] == '.');
        }
    }
    Some((cut, to))
}

/// An extension that marks a Markdown file: `md` in any ASCII case.
pub open spec fn is_md_extension(ext: Seq<char>) -> bool {
    ext.len() == 2 && (ext[0] == 'm' || ext[0] == 'M') && (ext[1] == 'd' || ext[1] == 'D')
}

/// Whether the file name `p[a..b]` has a Markdown extension.
fn name_has_md_extension(p: &[char], a: usize, b: usize) -> (r: bool)
    requires
        a <= b <= p@.len(),
    ensures
        r == match extension_of(p@.subrange(a as int, b as int)) {
            Some(ext) => is_md_extension(ext),
            None => false,
        },
{
    let ghost name = p@.subrange(a as int, b as int);
    let mut q = b;
    while q > a && p[q - 1] != '.'
        invariant
            a <= q <= b <= p@.len(),
            forall|i: int| q <= i < b ==> p@[i] != '.',
        decreases q,
    {
        q = q - 1;
    }
    proof {
        lemma_last_dot(name);
    }
    if q - a <= 1 {
        proof {
            if q == a + 1 {
                assert(name[0] == '.');
                assert forall|i: int| 0 < i < name.len() implies name[i] != '.' by {
                    assert(name[i] == p@[a + i]);
                }
                assert(last_dot(name) == Some(0int));
            } else {
                assert forall|i: int| 0 <= i < name.len() implies name[i] != '.' by {
                    assert(name[i] == p@[a + i]);
                }
            }
        }
        return false;
    }
    proof {
        let d = (q - 1 - a) as int;
        assert(name[d] == '.');
        assert forall|i: int| d < i < name.len() implies name[i] != '.' by {
            assert(name[i] == p@[a + i]);
        }
        assert(last_dot(name) == Some(d));
        assert(name.skip(d + 1) =~= p@.subrange(q as int, b as int));
    }
    b - q == 2 && (p[q] == 'm' || p[q] == 'M') && (p[q + 1] == 'd' || p[q + 1] == 'D')
}

/// Whether the path `file` names a Markdown file (extension `md`, any ASCII case).
pub fn has_markdown_extension(file: &str) -> (r: bool)
    ensures
        r == is_markdown_path(file@),
{
    let p = chars_of(file);
    let n = p.len();
    proof {
        assert(p@.take(n as int) =~= p@);
        reveal_strlit("..");
    }
    match last_component_at(p.as_slice(), n) {
        None => false,
        Some((a, b)) => {
            let ghost name = p@.subrange(a as int, b as int);
            if b - a == 2 && p[a] == '.' && p[a + 1] == '.' {
                proof {
                    assert(name =~= ".."@);
                }
                return false;
            }
            proof {
                if name == ".."@ {
                    assert(name[0] == '.' && name[1] == '.');
                }
            }
            name_has_md_extension(p.as_slice(), a, b)
        },
    }
}

// ---------------------------------------------------------------- spans

/// The window of context lines around `line`.
pub open spec fn context_span(line: int, len: int) -> SpanModel {
    SpanModel {
        start: if line - CONTEXT_RADIUS <= 1 {
            1
        } else {
            line - CONTEXT_RADIUS
        },
        end: if line + CONTEXT_RADIUS <= len {
            line + CONTEXT_RADIUS
        } else {
            len
        },
        kind: SpanKind::Context,
        symbol: window_symbol(),
    }
}

/// The span reported for `line` of `file`: the Markdown fence holding the line
/// (Markdown files only), else the item that begins on the last item line at
/// or before it when that item reaches the line, else a window of context
/// lines.
pub open spec fn find_span_of(file: Seq<char>, ls: Seq<Seq<char>>, line: int) -> SpanModel {
    if is_markdown_path(file) && fence_span_of(ls, line) is Some {
        let p = fence_span_of(ls, line).unwrap();
        SpanModel { start: p.0, end: p.1, kind: SpanKind::MarkdownFence, symbol: fence_symbol() }
    } else if syntactic_span_of(ls, line) matches Some(m) && m.end >= line {
        syntactic_span_of(ls, line).unwrap()
    } else {
        context_span(line, ls.len() as int)
    }
}

/// A span within `1..=len` whose end does not precede its start.
pub open spec fn span_within(m: SpanModel, len: int) -> bool {
    1 <= m.start <= m.end <= len
}

/// A span within `1..=len` that may also be empty: its end is then the line
/// just before its start.
pub open spec fn span_fits(m: SpanModel, len: int) -> bool {
    1 <= m.start <= m.end + 1 && m.end <= len
}

/// The span reported for `line` of `file`.
pub fn find_span(file: &str, lines: &[String], line: usize) -> (r: Span)
    requires
        line <= lines@.len(),
        total_len(texts(lines@)) <= usize::MAX,
    ensures
        r@ == find_span_of(file@, texts(lines@), line as int),
        lines@.len() >= 1 ==> span_within(r@, lines@.len() as int),
        1 <= line ==> r.start <= line <= r.end,
{
    let ghost ls = texts(lines@);
    if has_markdown_extension(file) {
        if let Some(span) = markdown_fence_span(lines, line) {
            proof {
                lemma_open_fence_after(ls, span.end - 1);
            }
            return span;
        }
    }
    if let Some(span) = syntactic_start_span(lines, line) {
        if span.end >= line {
            proof {
                assert(!(is_markdown_path(file@) && fence_span_of(ls, line as int) is Some));
                lemma_symbol_line_before(ls, line as int);
            }
            return span;
        }
    }
    let n = lines.len();
    let start = if line <= CONTEXT_RADIUS + 1 {
        1
    } else {
        line - CONTEXT_RADIUS
    };
    let end = if n >= CONTEXT_RADIUS && line <= n - CONTEXT_RADIUS {
        line + CONTEXT_RADIUS
    } else {
        n
    };
    let symbol = string_from("<line-window>");
    Span { start, end, kind: SpanKind::Context, symbol }
}

/// The span holds more than `max_lines` lines.
pub open spec fn truncates(m: SpanModel, max_lines: int) -> bool {
    m.end >= m.start && m.end - m.start + 1 > max_lines
}

/// The span holds more than `max_lines` lines.
pub fn is_span_truncated(span: &Span, max_lines: usize) -> (r: bool)
    ensures
        r == truncates(span@, max_lines as int),
{
    span.end >= span.start && span.end - span.start >= max_lines
}

/// The span with its end moved so that it holds at most `max_lines` lines (and
/// no fewer than one), never past line `total_lines`.
pub open spec fn capped(m: SpanModel, max_lines: int, total_lines: int) -> SpanModel {
    let end = if m.end < m.start {
        m.start
    } else {
        m.end
    };
    let end2 = if end - m.start + 1 > max_lines {
        if m.start + max_lines - 1 <= total_lines {
            m.start + max_lines - 1
        } else {
            total_lines
        }
    } else {
        end
    };
    SpanModel { end: end2, ..m }
}

/// The span cut down to at most `max_lines` lines.
pub fn cap_span(span: Span, max_lines: usize, total_lines: usize) -> (r: Span)
    requires
        span.start + max_lines >= 1,
    ensures
        r@ == capped(span@, max_lines as int, total_lines as int),
{
    let mut span = span;
    if span.end < span.start {
        span.end = span.start;
    }
    if span.end - span.start >= max_lines {
        let last = span.start + max_lines - 1;
        span.end = if last <= total_lines {
            last
        } else {
            total_lines
        };
    }
    span
}

} // verus!
