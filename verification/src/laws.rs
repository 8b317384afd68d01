//! Properties of the library as a whole, stated over the specifications that
//! the functions' contracts use.
use vstd::prelude::*;
use crate::backend::{
    backend_step_of, external_result_of, first_program, is_external_symbol_of,
    runs_programs, selection_of, show_launch, BackendStepModel, ExternalModel, OutcomeModel, SelectionModel,
};
use crate::cli::{parse_target_of, Backend};
use crate::render::{escape_char, json_escape_of};
use crate::run::{candidate_of, no_span_error_of, search_of, CandidateModel};
use crate::search::{
    line_matches, lemma_match_le, lemma_text_le_antisym, match_le, sorted_matches,
};
use crate::span::{
    capped, context_span, fence_span_of, find_span_of, is_markdown_path, span_within,
    syntactic_span_of, truncates, SpanModel, lemma_fence_unique, lemma_symbol_line_before, fence_contains,
    lemma_open_fence_after, symbol_line_before, closes_block, ends_indent_block, brace_end, indented_end,
};
use crate::symbol::{
    kind_text, matched_prefix_from, n_symbol_prefixes, strip_symbol_prefixes_of, symbol_parts_of,
    symbol_prefix, lemma_symbol_prefix_nonempty,
};
use crate::text::{
    all_digits, decimal, digit_char, digits_value, lines_of, parse_usize_of, trim_end, trim_start, leading_ws,
    lemma_leading_ws,
};

verus! {

/// The span of a line contains it: a Markdown fence holding the line, an
/// item whose first line is at or before the line and whose end reaches it,
/// or a window of context lines around it.
pub proof fn law_span_contains_line(file: Seq<char>, ls: Seq<Seq<char>>, line: int)
    requires
        1 <= line <= ls.len(),
    ensures
        find_span_of(file, ls, line).start <= line <= find_span_of(file, ls, line).end,
        span_within(find_span_of(file, ls, line), ls.len() as int),
{
    if is_markdown_path(file) && fence_span_of(ls, line) is Some {
        let p = fence_span_of(ls, line).unwrap();
        assert(fence_contains(ls, line, p.0, p.1));
        lemma_open_fence_after(ls, p.1 - 1);
    } else if syntactic_span_of(ls, line) matches Some(m) && m.end >= line {
        lemma_syntactic_span_within(ls, line);
    }
}

/// An item span starts on an item line at or before `line` and lies within the file.
proof fn lemma_syntactic_span_within(ls: Seq<Seq<char>>, line: int)
    requires
        0 <= line <= ls.len(),
    ensures
        syntactic_span_of(ls, line) matches Some(m) ==> 1 <= m.start <= line && m.start <= m.end <= ls.len(),
{
    lemma_symbol_line_before(ls, line);
    if let Some(i) = symbol_line_before(ls, line) {
        lemma_brace_end_bounds(ls, i + 1);
        lemma_indented_end_bounds(ls, i + 1);
    }
}

/// Where the braces of a block balance lies between its start and the last line.
proof fn lemma_brace_end_bounds(ls: Seq<Seq<char>>, start: int)
    requires
        1 <= start <= ls.len(),
    ensures
        brace_end(ls, start) matches Some(e) ==> start <= e <= ls.len(),
{
    if exists|e: int| closes_block(ls, start, e) {
        let e0 = choose|e: int| closes_block(ls, start, e);
        lemma_least_close(ls, start, e0);
    }
}

proof fn lemma_least_close(ls: Seq<Seq<char>>, start: int, e: int)
    requires
        closes_block(ls, start, e),
    ensures
        exists|m: int| #[trigger] closes_block(ls, start, m) && forall|f: int| start <= f < m ==> !closes_block(ls, start, f),
    decreases e - start,
{
    if exists|f: int| start <= f < e && #[trigger] closes_block(ls, start, f) {
        let f = choose|f: int| start <= f < e && #[trigger] closes_block(ls, start, f);
        lemma_least_close(ls, start, f);
    } else {
        assert(closes_block(ls, start, e) && forall|f: int| start <= f < e ==> !closes_block(ls, start, f));
    }
}

/// The end of an indented block lies between its start and the last line.
proof fn lemma_indented_end_bounds(ls: Seq<Seq<char>>, start: int)
    requires
        1 <= start <= ls.len(),
    ensures
        start <= indented_end(ls, start) <= ls.len(),
{
    if exists|j: int| ends_indent_block(ls, start, j) {
        let j0 = choose|j: int| ends_indent_block(ls, start, j);
        lemma_least_indent_end(ls, start, j0);
    }
}

proof fn lemma_least_indent_end(ls: Seq<Seq<char>>, start: int, j: int)
    requires
        ends_indent_block(ls, start, j),
    ensures
        exists|m: int| #[trigger] ends_indent_block(ls, start, m) && forall|i: int| start < i < m ==> !ends_indent_block(ls, start, i),
    decreases j - start,
{
    if exists|i: int| start < i < j && #[trigger] ends_indent_block(ls, start, i) {
        let i = choose|i: int| start < i < j && #[trigger] ends_indent_block(ls, start, i);
        lemma_least_indent_end(ls, start, i);
    } else {
        assert(ends_indent_block(ls, start, j) && forall|i: int| start < i < j ==> !ends_indent_block(ls, start, i));
    }
}

/// The span shown for a candidate line lies within its file, holds at most
/// `max_lines` lines, and its JSON text from the built-in extractor has at
/// most `max_lines` lines: the JSON `range` is one-based and inclusive, and
/// `text` is bounded by `--max-lines`.
pub proof fn law_shown_span_bounded(
    kind: Option<Seq<char>>,
    max_lines: usize,
    file: Seq<char>,
    line: usize,
    text: Result<Seq<char>, Seq<char>>,
    sel: SelectionModel,
)
    requires
        candidate_of(kind, max_lines, file, line, text) is Found,
        max_lines >= 1,
        sel.external is None,
    ensures
        ({
            let c = candidate_of(kind, max_lines, file, line, text);
            &&& span_within(c->span, c->lines.len() as int)
            &&& c->span.end - c->span.start + 1 <= max_lines
            &&& lines_of(crate::render::json_text_of(c->lines, c->span, sel)).len() <= max_lines
        }),
{
    let t = text->Ok_0;
    let ls = lines_of(t);
    let sp = find_span_of(file, ls, line as int);
    law_span_contains_line(file, ls, line as int);
    law_cap_bounds(sp, max_lines as int, ls.len() as int);
    law_lines_have_no_newline(t);
    law_heuristic_text_bounded(ls, capped(sp, max_lines as int, ls.len() as int), sel, max_lines as int);
}

/// A capped span holds at least one and at most `max_lines` lines, starts
/// where the span started, and does not end later than it, nor past the last
/// line.
pub proof fn law_cap_bounds(m: SpanModel, max_lines: int, total: int)
    requires
        max_lines >= 1,
        span_within(m, total),
    ensures
        capped(m, max_lines, total).start == m.start,
        m.start <= capped(m, max_lines, total).end <= m.end,
        capped(m, max_lines, total).end - m.start + 1 <= max_lines,
        span_within(capped(m, max_lines, total), total),
{
}

/// Capping twice with the same limit changes nothing more.
pub proof fn law_cap_idempotent(m: SpanModel, max_lines: int, total: int)
    requires
        max_lines >= 1,
        span_within(m, total),
    ensures
        capped(capped(m, max_lines, total), max_lines, total) == capped(m, max_lines, total),
{
}

/// The truncation flag tells exactly whether capping shortens the span.
pub proof fn law_truncated_iff_shortened(m: SpanModel, max_lines: int, total: int)
    requires
        max_lines >= 1,
        span_within(m, total),
    ensures
        truncates(m, max_lines) <==> capped(m, max_lines, total).end < m.end,
        !truncates(m, max_lines) ==> capped(m, max_lines, total) == m,
{
}

/// A Markdown fence contains a line at most once: the fence reported for a
/// line is the only one that holds it.
pub proof fn law_fence_unique(ls: Seq<Seq<char>>, line: int, s1: int, e1: int, s2: int, e2: int)
    requires
        crate::span::fence_contains(ls, line, s1, e1),
        crate::span::fence_contains(ls, line, s2, e2),
    ensures
        s1 == s2,
        e1 == e2,
{
    lemma_fence_unique(ls, line, s1, e1, s2, e2);
}

/// `auto` never fails: when no external backend gives a span it falls back to
/// the built-in extractor.
pub proof fn law_auto_never_fails(
    symbol: Seq<char>,
    local_truncated: bool,
    r1: Result<ExternalModel, Seq<char>>,
    r2: Result<ExternalModel, Seq<char>>,
)
    ensures
        selection_of(Backend::Auto, symbol, local_truncated, r1, r2) is Ok,
        (r1 is Err && r2 is Err) ==> (selection_of(Backend::Auto, symbol, local_truncated, r1, r2) matches Ok(sel)
            && sel.backend == Backend::Heuristic && sel.fallback_used && sel.external is None),
{
}

/// External backends are only used for a concrete symbol.
pub proof fn law_external_only_for_concrete_symbol(
    backend: Backend,
    symbol: Seq<char>,
    local_truncated: bool,
    r1: Result<ExternalModel, Seq<char>>,
    r2: Result<ExternalModel, Seq<char>>,
)
    requires
        selection_of(backend, symbol, local_truncated, r1, r2) matches Ok(sel) && sel.external is Some,
    ensures
        is_external_symbol_of(symbol),
        backend != Backend::Heuristic,
{
}

/// An explicit external backend fails, with a message naming it, when no
/// concrete symbol was inferred.
pub proof fn law_explicit_backend_needs_symbol(
    backend: Backend,
    symbol: Seq<char>,
    local_truncated: bool,
    r1: Result<ExternalModel, Seq<char>>,
    r2: Result<ExternalModel, Seq<char>>,
)
    requires
        backend == Backend::AstOutline || backend == Backend::AstBro,
        !is_external_symbol_of(symbol),
    ensures
        selection_of(backend, symbol, local_truncated, r1, r2) == Err::<SelectionModel, Seq<char>>(
            "backend "@ + crate::cli::backend_text(backend) + " requires a concrete symbol; got "@ + symbol,
        ),
{
}

/// No program is started for `heuristic`, nor for a span without a concrete
/// symbol: the choice is made at once, whatever ran before.
pub proof fn law_no_program_without_concrete_symbol(
    backend: Backend,
    file: Seq<char>,
    symbol: Seq<char>,
    local_truncated: bool,
    max_lines: int,
    outs: Seq<OutcomeModel>,
)
    requires
        backend == Backend::Heuristic || !is_external_symbol_of(symbol),
    ensures
        backend_step_of(backend, file, symbol, local_truncated, max_lines, outs) is Done,
{
}

/// Each program is started at most once: the first (`ast-outline`, or the one
/// asked for) only before any outcome is in, and `ast-bro` under `auto` only
/// after `ast-outline` failed; with two outcomes in, the choice is made.
pub proof fn law_programs_started_once(
    backend: Backend,
    file: Seq<char>,
    symbol: Seq<char>,
    local_truncated: bool,
    max_lines: int,
    outs: Seq<OutcomeModel>,
)
    requires
        backend_step_of(backend, file, symbol, local_truncated, max_lines, outs) is Start,
    ensures
        runs_programs(backend, symbol),
        outs.len() <= 1,
        outs.len() == 0 ==> backend_step_of(backend, file, symbol, local_truncated, max_lines, outs)
            == BackendStepModel::Start(show_launch(first_program(backend)@, file, symbol)),
        outs.len() == 1 ==> {
            &&& backend == Backend::Auto
            &&& external_result_of(Backend::AstOutline, max_lines, outs[0]) is Err
            &&& backend_step_of(backend, file, symbol, local_truncated, max_lines, outs)
                == BackendStepModel::Start(show_launch("ast-bro"@, file, symbol))
        },
{
}

/// `auto` never starts `ast-bro` once `ast-outline` has given a span: it
/// chooses `ast-outline`, with no fallback.
pub proof fn law_auto_stops_after_success(
    file: Seq<char>,
    symbol: Seq<char>,
    local_truncated: bool,
    max_lines: int,
    outs: Seq<OutcomeModel>,
)
    requires
        is_external_symbol_of(symbol),
        outs.len() >= 1,
        external_result_of(Backend::AstOutline, max_lines, outs[0]) is Ok,
    ensures
        backend_step_of(Backend::Auto, file, symbol, local_truncated, max_lines, outs) matches BackendStepModel::Done(
            Ok(sel),
        ) && sel.external == Some(external_result_of(Backend::AstOutline, max_lines, outs[0])->Ok_0)
            && !sel.fallback_used,
{
}

/// An explicit external backend gives what its run gives: its error as it
/// is, or its span, chosen with no fallback; never the built-in extractor.
pub proof fn law_explicit_backend_result(
    backend: Backend,
    file: Seq<char>,
    symbol: Seq<char>,
    local_truncated: bool,
    max_lines: int,
    outs: Seq<OutcomeModel>,
)
    requires
        backend == Backend::AstOutline || backend == Backend::AstBro,
        is_external_symbol_of(symbol),
        outs.len() >= 1,
    ensures
        match external_result_of(backend, max_lines, outs[0]) {
            Err(m) => backend_step_of(backend, file, symbol, local_truncated, max_lines, outs)
                == BackendStepModel::Done(Err(m)),
            Ok(e) => backend_step_of(backend, file, symbol, local_truncated, max_lines, outs)
                == BackendStepModel::Done(
                Ok(
                    SelectionModel {
                        backend: e.backend,
                        reason: "explicit backend "@ + crate::cli::backend_text(e.backend) + " selected for symbol "@
                            + symbol,
                        fallback_used: false,
                        external: Some(e),
                        truncated: e.truncated,
                    },
                ),
            ),
        },
{
}

/// The built-in extractor is never a fallback and reports the local truncation.
pub proof fn law_heuristic_selection(
    symbol: Seq<char>,
    local_truncated: bool,
    r1: Result<ExternalModel, Seq<char>>,
    r2: Result<ExternalModel, Seq<char>>,
)
    ensures
        selection_of(Backend::Heuristic, symbol, local_truncated, r1, r2) matches Ok(sel) && sel.backend
            == Backend::Heuristic && !sel.fallback_used && sel.external is None && sel.truncated == local_truncated,
{
}

/// `--kind` filters: a candidate is shown only when its span has the kind asked for.
pub proof fn law_kind_filter(
    kind: Option<Seq<char>>,
    max_lines: usize,
    file: Seq<char>,
    line: usize,
    text: Result<Seq<char>, Seq<char>>,
)
    requires
        candidate_of(kind, max_lines, file, line, text) is Found,
        kind is Some,
    ensures
        kind_text(candidate_of(kind, max_lines, file, line, text)->span.kind) == kind.unwrap(),
{
}

/// A span request shows the first candidate that is not passed over for its
/// kind (or fails with its error); when every candidate is passed over, it
/// fails with the kind error, or with "no matching span found" when there was
/// none.
pub proof fn law_first_candidate_of_kind(kind: Option<Seq<char>>, cs: Seq<CandidateModel>)
    ensures
        (forall|i: int| 0 <= i < cs.len() ==> #[trigger] cs[i] is KindMismatch) ==> search_of(kind, false, cs) == Err::<
            (Seq<Seq<char>>, SpanModel, bool),
            Seq<char>,
        >(no_span_error_of(kind, cs.len() > 0)),
        forall|i: int|
            0 <= i < cs.len() && !(#[trigger] cs[i] is KindMismatch) && (forall|j: int| 0 <= j < i ==> cs[j] is KindMismatch)
                ==> search_of(kind, false, cs) == match cs[i] {
                CandidateModel::Failed(m) => Err(m),
                CandidateModel::Found { lines, span, local_truncated } => Ok((lines, span, local_truncated)),
                CandidateModel::KindMismatch => Err(Seq::empty()),
            },
{
    lemma_search_from(kind, false, cs);
}

proof fn lemma_search_from(kind: Option<Seq<char>>, saw: bool, cs: Seq<CandidateModel>)
    ensures
        (forall|i: int| 0 <= i < cs.len() ==> #[trigger] cs[i] is KindMismatch) ==> search_of(kind, saw, cs) == Err::<
            (Seq<Seq<char>>, SpanModel, bool),
            Seq<char>,
        >(no_span_error_of(kind, saw || cs.len() > 0)),
        forall|i: int|
            0 <= i < cs.len() && !(#[trigger] cs[i] is KindMismatch) && (forall|j: int| 0 <= j < i ==> cs[j] is KindMismatch)
                ==> search_of(kind, saw, cs) == match cs[i] {
                CandidateModel::Failed(m) => Err(m),
                CandidateModel::Found { lines, span, local_truncated } => Ok((lines, span, local_truncated)),
                CandidateModel::KindMismatch => Err(Seq::empty()),
            },
    decreases cs.len(),
{
    if cs.len() > 0 {
        let rest = cs.skip(1);
        lemma_search_from(kind, true, rest);
        if forall|i: int| 0 <= i < cs.len() ==> #[trigger] cs[i] is KindMismatch {
            assert(cs[0] is KindMismatch);
            assert forall|i: int| 0 <= i < rest.len() implies #[trigger] rest[i] is KindMismatch by {
                assert(cs[i + 1] is KindMismatch);
            }
        }
        assert forall|i: int|
            0 <= i < cs.len() && !(#[trigger] cs[i] is KindMismatch) && (forall|j: int| 0 <= j < i ==> cs[j] is KindMismatch)
                implies search_of(kind, saw, cs) == match cs[i] {
                CandidateModel::Failed(m) => Err(m),
                CandidateModel::Found { lines, span, local_truncated } => Ok((lines, span, local_truncated)),
                CandidateModel::KindMismatch => Err(Seq::empty()),
            } by {
            if i > 0 {
                assert(cs[0] is KindMismatch);
                assert(rest[i - 1] == cs[i]);
                assert forall|j: int| 0 <= j < i - 1 implies rest[j] is KindMismatch by {
                    assert(cs[j + 1] is KindMismatch);
                }
            }
        }
    }
}

/// Every match that a search reports is a line of the file that satisfies the
/// search, with its one-based number.
pub proof fn law_matches_are_real(path: Seq<char>, ls: Seq<Seq<char>>, pred: spec_fn(Seq<char>) -> bool, k: int)
    requires
        0 <= k < line_matches(path, ls, pred).len(),
        ls.len() <= usize::MAX,
    ensures
        line_matches(path, ls, pred)[k].0 == path,
        1 <= line_matches(path, ls, pred)[k].1 <= ls.len(),
        pred(ls[line_matches(path, ls, pred)[k].1 - 1]),
    decreases ls.len(),
{
    let rest = line_matches(path, ls.drop_last(), pred);
    if pred(ls.last()) && k == rest.len() {
    } else {
        law_matches_are_real(path, ls.drop_last(), pred, k);
    }
}

/// Two orderings of the same matches are equal: the result of a search
/// depends only on what was found, not on the order it was found in.
pub proof fn law_sorted_matches_unique(a: Seq<(Seq<char>, usize)>, b: Seq<(Seq<char>, usize)>)
    requires
        sorted_matches(a),
        sorted_matches(b),
        a.to_multiset() == b.to_multiset(),
    ensures
        a == b,
    decreases a.len(),
{
    broadcast use vstd::seq_lib::group_to_multiset_ensures;

    assert(a.len() == a.to_multiset().len());
    assert(b.len() == b.to_multiset().len());
    if a.len() == 0 {
        assert(a =~= b);
    } else {
        let x = a.last();
        let y = b.last();
        assert(a.contains(x));
        assert(b.to_multiset().count(x) > 0);
        assert(b.contains(x));
        assert(a.to_multiset().count(y) > 0);
        assert(a.contains(y));
        let i = choose|i: int| 0 <= i < b.len() && b[i] == x;
        let j = choose|j: int| 0 <= j < a.len() && a[j] == y;
        if i < b.len() - 1 {
            assert(match_le(b[i], b[b.len() - 1]));
        }
        if j < a.len() - 1 {
            assert(match_le(a[j], a[a.len() - 1]));
        }
        lemma_match_le_antisym(x, y);
        assert(x == y);
        let a2 = a.drop_last();
        let b2 = b.drop_last();
        assert(a2.push(x) =~= a);
        assert(b2.push(x) =~= b);
        a2.to_multiset_ensures();
        b2.to_multiset_ensures();
        assert(a2.to_multiset() =~= a.to_multiset().remove(x));
        assert(b2.to_multiset() =~= b.to_multiset().remove(x));
        assert(sorted_matches(a2)) by {
            assert forall|p: int, q: int| 0 <= p < q < a2.len() implies match_le(a2[p], a2[q]) by {
                assert(a2[p] == a[p] && a2[q] == a[q]);
            }
        }
        assert(sorted_matches(b2)) by {
            assert forall|p: int, q: int| 0 <= p < q < b2.len() implies match_le(b2[p], b2[q]) by {
                assert(b2[p] == b[p] && b2[q] == b[q]);
            }
        }
        law_sorted_matches_unique(a2, b2);
    }
}

/// `match_le` both ways means the matches are equal.
pub proof fn lemma_match_le_antisym(a: (Seq<char>, usize), b: (Seq<char>, usize))
    requires
        match_le(a, b),
        match_le(b, a),
    ensures
        a == b,
{
    if a.0 != b.0 {
        lemma_text_le_antisym(a.0, b.0);
    }
}

/// JSON escaping works character by character, so it distributes over
/// concatenation.
pub proof fn law_json_escape_concat(a: Seq<char>, b: Seq<char>)
    ensures
        json_escape_of(a + b) == json_escape_of(a) + json_escape_of(b),
    decreases b.len(),
{
    if b.len() == 0 {
        assert(a + b =~= a);
        assert(json_escape_of(a) + json_escape_of(b) =~= json_escape_of(a));
    } else {
        assert((a + b).drop_last() =~= a + b.drop_last());
        law_json_escape_concat(a, b.drop_last());
        assert(json_escape_of(a) + json_escape_of(b) =~= json_escape_of(a) + json_escape_of(b.drop_last())
            + escape_char(b.last()));
    }
}

/// Escaped text holds no character below U+0020 (so no line break or tab)
/// and no unescaped quote, so it may stand inside a JSON string and a JSON
/// report stays on one line.
pub proof fn law_json_escape_one_line(s: Seq<char>, i: int)
    requires
        0 <= i < json_escape_of(s).len(),
    ensures
        (json_escape_of(s)[i] as int) >= 0x20,
        json_escape_of(s)[i] == '"' ==> i > 0 && json_escape_of(s)[i - 1] == '\\',
    decreases s.len(),
{
    if s.len() > 0 {
        let prev = json_escape_of(s.drop_last());
        if i < prev.len() {
            law_json_escape_one_line(s.drop_last(), i);
        } else {
            lemma_escape_char_printable(s.last());
            assert(json_escape_of(s)[i] == escape_char(s.last())[i - prev.len()]);
        }
    }
}

/// The value of a hexadecimal digit character (upper or lower case).
pub open spec fn hex_value(c: char) -> int {
    if '0' <= c && c <= '9' {
        c as int - '0' as int
    } else if 'a' <= c && c <= 'f' {
        c as int - 'a' as int + 10
    } else if 'A' <= c && c <= 'F' {
        c as int - 'A' as int + 10
    } else {
        0
    }
}

/// The character that a short escape `\\e` of a JSON string stands for.
pub open spec fn short_escape_value(e: char) -> char {
    if e == 'n' {
        '\n'
    } else if e == 'r' {
        '\r'
    } else if e == 't' {
        '\t'
    } else if e == 'b' {
        '\u{8}'
    } else if e == 'f' {
        '\u{c}'
    } else {
        e
    }
}

/// The characters that the inside `t` of a JSON string stands for: each
/// escape sequence (`\\"`, `\\\\`, `\\/`, `\\b`, `\\f`, `\\n`, `\\r`, `\\t`, and `\\uXXXX`
/// read as the character with that code) replaced by its character.
pub open spec fn json_decode(t: Seq<char>) -> Seq<char>
    decreases t.len(),
{
    if t.len() == 0 {
        Seq::empty()
    } else if t[0] == '\\' && t.len() >= 6 && t[1] == 'u' {
        seq![(4096 * hex_value(t[2]) + 256 * hex_value(t[3]) + 16 * hex_value(t[4]) + hex_value(t[5])) as char]
            + json_decode(t.skip(6))
    } else if t[0] == '\\' && t.len() >= 2 {
        seq![short_escape_value(t[1])] + json_decode(t.skip(2))
    } else {
        seq![t[0]] + json_decode(t.skip(1))
    }
}

proof fn lemma_hex_digit(d: int)
    requires
        0 <= d < 16,
    ensures
        hex_value(crate::render::hex_digit(d)) == d,
        (crate::render::hex_digit(d) as int) >= 0x30,
{
}

proof fn lemma_escape_char_printable(c: char)
    ensures
        forall|j: int| 0 <= j < escape_char(c).len() ==> (#[trigger] escape_char(c)[j] as int) >= 0x20,
        forall|j: int| 0 <= j < escape_char(c).len() && #[trigger] escape_char(c)[j] == '"' ==> j > 0 && escape_char(c)[j - 1] == '\\',
{
    if (c as int) < 0x20 && c != '\n' && c != '\r' && c != '\t' {
        lemma_hex_digit(c as int / 16);
        lemma_hex_digit(c as int % 16);
    }
}

proof fn lemma_decode_escape_char(c: char, r: Seq<char>)
    ensures
        json_decode(escape_char(c) + r) == seq![c] + json_decode(r),
{
    let t = escape_char(c) + r;
    if c == '\\' || c == '"' || c == '\n' || c == '\r' || c == '\t' {
        assert(t.skip(2) =~= r);
    } else if (c as int) < 0x20 {
        lemma_hex_digit(c as int / 16);
        lemma_hex_digit(c as int % 16);
        assert(t.skip(6) =~= r);
        assert(16 * (c as int / 16) + c as int % 16 == c as int);
    } else {
        assert(t.skip(1) =~= r);
    }
}

/// Escaping loses nothing: decoding the escaped text as the inside of a JSON
/// string gives back the original text.
pub proof fn law_json_escape_decodes(s: Seq<char>)
    ensures
        json_decode(json_escape_of(s)) == s,
    decreases s.len(),
{
    if s.len() > 0 {
        let c = s[0];
        let rest = s.skip(1);
        assert(s =~= seq![c] + rest);
        law_json_escape_concat(seq![c], rest);
        assert(seq![c].drop_last() =~= Seq::<char>::empty());
        assert(json_escape_of(Seq::<char>::empty()) == Seq::<char>::empty());
        assert(json_escape_of(seq![c]) == json_escape_of(seq![c].drop_last()) + escape_char(c));
        assert(json_escape_of(seq![c]) =~= escape_char(c));
        lemma_decode_escape_char(c, json_escape_of(rest));
        law_json_escape_decodes(rest);
    }
}

/// Number of newline characters in `s`.
pub open spec fn count_newlines(s: Seq<char>) -> nat
    decreases s.len(),
{
    if s.len() == 0 {
        0
    } else {
        count_newlines(s.drop_last()) + if s.last() == '\n' {
            1nat
        } else {
            0nat
        }
    }
}

/// No text of `ls` holds a newline.
pub open spec fn no_newlines(ls: Seq<Seq<char>>) -> bool {
    forall|i: int, j: int| 0 <= i < ls.len() && 0 <= j < ls[i].len() ==> ls[i][j] != '\n'
}

proof fn lemma_split_newlines_len(s: Seq<char>)
    ensures
        crate::text::split_newlines(s).len() == count_newlines(s) + 1,
    decreases s.len(),
{
    if s.len() > 0 {
        lemma_split_newlines_len(s.drop_last());
    }
}

proof fn lemma_count_newlines_concat(a: Seq<char>, b: Seq<char>)
    ensures
        count_newlines(a + b) == count_newlines(a) + count_newlines(b),
    decreases b.len(),
{
    if b.len() == 0 {
        assert(a + b =~= a);
    } else {
        assert((a + b).drop_last() =~= a + b.drop_last());
        lemma_count_newlines_concat(a, b.drop_last());
    }
}

proof fn lemma_count_newlines_none(s: Seq<char>)
    requires
        forall|j: int| 0 <= j < s.len() ==> s[j] != '\n',
    ensures
        count_newlines(s) == 0,
    decreases s.len(),
{
    if s.len() > 0 {
        lemma_count_newlines_none(s.drop_last());
    }
}

proof fn lemma_join_newlines(ls: Seq<Seq<char>>)
    requires
        ls.len() >= 1,
        no_newlines(ls),
    ensures
        count_newlines(crate::text::join_lines(ls)) == ls.len() - 1,
    decreases ls.len(),
{
    if ls.len() == 1 {
        lemma_count_newlines_none(ls[0]);
    } else {
        let init = ls.drop_last();
        assert(no_newlines(init)) by {
            assert forall|i: int, j: int| 0 <= i < init.len() && 0 <= j < init[i].len() implies init[i][j] != '\n' by {
                assert(init[i] == ls[i]);
            }
        }
        lemma_join_newlines(init);
        let a = crate::text::join_lines(init);
        assert(crate::text::join_lines(ls) == a + seq!['\n'] + ls.last());
        lemma_count_newlines_concat(a + seq!['\n'], ls.last());
        lemma_count_newlines_concat(a, seq!['\n']);
        assert(seq!['\n'].drop_last() =~= Seq::<char>::empty());
        let nl = seq!['\n'];
        assert(nl.drop_last() =~= Seq::<char>::empty());
        assert(count_newlines(nl.drop_last()) == 0);
        assert(nl.last() == '\n');
        assert(count_newlines(nl) == 1);
        assert forall|j: int| 0 <= j < ls.last().len() implies ls.last()[j] != '\n' by {
            assert(ls.last() == ls[ls.len() - 1]);
        }
        lemma_count_newlines_none(ls.last());
    }
}

proof fn lemma_split_pieces_no_newline(s: Seq<char>)
    ensures
        no_newlines(crate::text::split_newlines(s)),
    decreases s.len(),
{
    if s.len() > 0 {
        lemma_split_pieces_no_newline(s.drop_last());
        crate::text::lemma_split_newlines_nonempty(s.drop_last());
    }
}

/// The lines of a text hold no newline.
pub proof fn law_lines_have_no_newline(t: Seq<char>)
    ensures
        no_newlines(lines_of(t)),
{
    let p = crate::text::split_newlines(t);
    lemma_split_pieces_no_newline(t);
    crate::text::lemma_split_newlines_nonempty(t);
    let ls = lines_of(t);
    assert forall|i: int, j: int| 0 <= i < ls.len() && 0 <= j < ls[i].len() implies ls[i][j] != '\n' by {
        if i < p.len() - 1 {
            assert(ls[i] == crate::text::strip_cr(p[i]));
            assert(ls[i][j] == p[i][j]);
        } else {
            assert(ls[i] == p.last());
        }
    }
}

/// The text that an external backend supplies is bounded by `--max-lines`:
/// it has at most `max_lines` lines.
pub proof fn law_external_text_bounded(text: Seq<char>, max_lines: int)
    requires
        max_lines >= 1,
    ensures
        lines_of(crate::backend::cap_external_of(text, max_lines).0).len() <= max_lines,
{
    let ls = lines_of(text);
    if ls.len() > max_lines {
        reveal_strlit("--- truncated by span --max-lines ---");
        law_lines_have_no_newline(text);
        let kept = ls.take(max_lines).update(max_lines - 1, crate::backend::truncation_marker());
        assert(no_newlines(kept)) by {
            assert forall|i: int, j: int| 0 <= i < kept.len() && 0 <= j < kept[i].len() implies kept[i][j] != '\n' by {
                if i < max_lines - 1 {
                    assert(kept[i] == ls[i]);
                }
            }
        }
        lemma_join_newlines(kept);
        let out = crate::text::join_lines(kept) + seq!['\n'];
        lemma_count_newlines_concat(crate::text::join_lines(kept), seq!['\n']);
        assert(seq!['\n'].drop_last() =~= Seq::<char>::empty());
        lemma_split_newlines_len(out);
        assert(out.drop_last() =~= crate::text::join_lines(kept));
        assert(crate::text::split_newlines(out).last().len() == 0);
    }
}

/// How many lines a text has: one per newline, and one more for a last line
/// not ended by a newline.
proof fn lemma_lines_len(t: Seq<char>)
    ensures
        lines_of(t).len() == count_newlines(t) + if t.len() > 0 && t.last() != '\n' {
            1int
        } else {
            0int
        },
{
    lemma_split_newlines_len(t);
    crate::text::lemma_split_newlines_nonempty(t);
    if t.len() > 0 {
        crate::text::lemma_split_newlines_nonempty(t.drop_last());
    }
}

/// A prefix of a text has no more lines than the text.
proof fn lemma_lines_prefix(p: Seq<char>, w: Seq<char>)
    ensures
        lines_of(p).len() <= lines_of(p + w).len(),
{
    let x = p + w;
    lemma_lines_len(p);
    lemma_lines_len(x);
    lemma_count_newlines_concat(p, w);
    if w.len() == 0 {
        assert(x =~= p);
    } else {
        assert(x.last() == w.last());
        if w.last() == '\n' {
            assert(count_newlines(w) == count_newlines(w.drop_last()) + 1);
        }
    }
}

/// The text of an external span in JSON is bounded by `--max-lines`: the
/// capped output, with its trailing whitespace trimmed, has at most
/// `max_lines` lines.
pub proof fn law_external_json_text_bounded(
    ls: Seq<Seq<char>>,
    m: SpanModel,
    sel: SelectionModel,
    output: Seq<char>,
    max_lines: int,
)
    requires
        max_lines >= 1,
        sel.external matches Some(e) && e.text == crate::backend::cap_external_of(output, max_lines).0,
    ensures
        lines_of(crate::render::json_text_of(ls, m, sel)).len() <= max_lines,
{
    let x = sel.external.unwrap().text;
    law_external_text_bounded(output, max_lines);
    crate::text::lemma_trailing_ws_bound(x);
    let k = x.len() - crate::text::trailing_ws(x);
    assert(x =~= x.take(k) + x.skip(k));
    lemma_lines_prefix(x.take(k), x.skip(k));
    assert(trim_end(x) == x.take(k));
}

/// Numbers are printed exactly: the decimal representation of `n` is a
/// non-empty run of digits whose value is `n`.
pub proof fn law_decimal_digits(n: nat)
    ensures
        decimal(n).len() > 0,
        all_digits(decimal(n)),
        digits_value(decimal(n)) == n,
    decreases n,
{
    let d = decimal(n);
    if n < 10 {
        assert(d.drop_last() =~= Seq::<char>::empty());
        assert(digits_value(Seq::<char>::empty()) == 0);
        assert(d.last() == digit_char(n as int));
        assert(digit_char(n as int) as int - '0' as int == n);
        assert(digits_value(d) == digits_value(d.drop_last()) * 10 + (d.last() as int - '0' as int) as nat);
    } else {
        law_decimal_digits(n / 10);
        assert(d.drop_last() =~= decimal(n / 10));
        assert(d.last() == digit_char((n % 10) as int));
        assert(digit_char((n % 10) as int) as int - '0' as int == n % 10);
        assert(digits_value(d) == digits_value(d.drop_last()) * 10 + (d.last() as int - '0' as int) as nat);
        assert((n / 10) * 10 + n % 10 == n);
        assert forall|i: int| 0 <= i < d.len() implies '0' <= #[trigger] d[i] && d[i] <= '9' by {
            if i < d.len() - 1 {
                assert(d[i] == decimal(n / 10)[i]);
            }
        }
    }
}

/// A `FILE:LINE` target names the file and line it was made from, whatever
/// the file's text (colons included).
pub proof fn law_parse_target_round_trip(f: Seq<char>, n: usize)
    ensures
        parse_target_of(f + ":"@ + decimal(n as nat)) == Ok::<(Seq<char>, usize), Seq<char>>((f, n)),
{
    reveal_strlit(":");
    let d = decimal(n as nat);
    law_decimal_digits(n as nat);
    let t = f + ":"@ + d;
    let q = f.len() as int;
    assert(t.subrange(q, q + 1) =~= ":"@);
    assert(crate::symbol::occurs_at(t, q, ":"@));
    assert forall|r: int| q < r implies !crate::symbol::occurs_at(t, r, ":"@) by {
        if crate::symbol::occurs_at(t, r, ":"@) {
            assert(t.subrange(r, r + 1)[0] == ':');
            assert(t[r] == d[r - q - 1]);
        }
    }
    reveal(crate::symbol::last_occurrence);
    let w = choose|w: int| crate::symbol::occurs_at(t, w, ":"@) && forall|r: int| w < r ==> !crate::symbol::occurs_at(t, r, ":"@);
    assert(w == q);
    assert(t.skip(q + 1) =~= d);
    assert(t.take(q) =~= f);
    assert(d[0] != '+');
    assert(parse_usize_of(d) == Some(n));
}

/// A modifier (`pub`, `pub(crate)`, `export`, `async`, `const`, `unsafe`, ...)
/// in front of a line does not change the item that the line opens.
pub proof fn law_modifier_prefix_ignored(i: int, t: Seq<char>)
    requires
        0 <= i < n_symbol_prefixes(),
    ensures
        symbol_parts_of(symbol_prefix(i) + t) == symbol_parts_of(t),
{
    reveal(symbol_parts_of);
    reveal_strlit("pub(crate) ");
    reveal_strlit("pub(super) ");
    reveal_strlit("pub(self) ");
    reveal_strlit("pub ");
    reveal_strlit("export ");
    reveal_strlit("async ");
    reveal_strlit("const ");
    reveal_strlit("unsafe ");
    let p = symbol_prefix(i);
    let s = p + t;
    lemma_leading_ws(s, 0);
    assert(s.skip(0) =~= s);
    assert(trim_start(s) == s);
    assert(p.is_prefix_of(s)) by {
        assert(s.subrange(0, p.len() as int) =~= p);
    }
    assert forall|j: int| 0 <= j < i implies !#[trigger] symbol_prefix(j).is_prefix_of(s) by {
        let q = symbol_prefix(j);
        if i == 3 {
            assert(q[3] != s[3]);
        } else if i <= 2 && j == 0 {
            assert(q[4] != s[4]);
        } else if i <= 2 {
            assert(q[5] != s[5]);
        } else {
            assert(q[0] != s[0]);
        }
    }
    assert(matched_prefix_from(s, 0) == Some(i)) by {
        lemma_matched_from_skip(s, 0, i);
    }
    crate::symbol::lemma_symbol_prefix_nonempty(i);
    assert(s.skip(p.len() as int) =~= t);
}

proof fn lemma_matched_from_skip(s: Seq<char>, j: int, i: int)
    requires
        0 <= j <= i < n_symbol_prefixes(),
        symbol_prefix(i).is_prefix_of(s),
        forall|k: int| j <= k < i ==> !#[trigger] symbol_prefix(k).is_prefix_of(s),
    ensures
        matched_prefix_from(s, j) == Some(i),
    decreases i - j,
{
    if j < i {
        lemma_matched_from_skip(s, j + 1, i);
    }
}

/// The text of a span from the built-in extractor is bounded by
/// `--max-lines`: a span of at most `max_lines` lines (as capping makes it)
/// gives a JSON text of at most `max_lines` lines.
pub proof fn law_heuristic_text_bounded(ls: Seq<Seq<char>>, m: SpanModel, sel: SelectionModel, max_lines: int)
    requires
        no_newlines(ls),
        span_within(m, ls.len() as int),
        m.end - m.start + 1 <= max_lines,
        sel.external is None,
    ensures
        lines_of(crate::render::json_text_of(ls, m, sel)).len() <= max_lines,
{
    let sub = ls.subrange(m.start - 1, m.end);
    assert(no_newlines(sub)) by {
        assert forall|i: int, j: int| 0 <= i < sub.len() && 0 <= j < sub[i].len() implies sub[i][j] != '\n' by {
            assert(sub[i] == ls[m.start - 1 + i]);
        }
    }
    let t = crate::text::join_lines(sub);
    lemma_join_newlines(sub);
    lemma_split_newlines_len(t);
    crate::text::lemma_split_newlines_nonempty(t);
}

/// The truncation reported for a chosen backend is that of the text shown:
/// for an external span (explicit, or chosen by `auto` first or after a
/// fallback) it is the span's own flag, which tells whether the program's
/// output had more than `max_lines` lines; for the built-in extractor it is
/// the local span's flag.
pub proof fn law_selection_truncation(
    backend: Backend,
    file: Seq<char>,
    symbol: Seq<char>,
    local_truncated: bool,
    max_lines: int,
    outs: Seq<OutcomeModel>,
)
    requires
        backend_step_of(backend, file, symbol, local_truncated, max_lines, outs) matches BackendStepModel::Done(Ok(_)),
    ensures
        ({
            let sel = backend_step_of(backend, file, symbol, local_truncated, max_lines, outs)->Done_0->Ok_0;
            &&& sel.external matches Some(e) ==> {
                &&& sel.truncated == e.truncated
                &&& exists|i: int| 0 <= i < outs.len() && (#[trigger] outs[i] matches OutcomeModel::Succeeded { stdout }
                    && e.truncated == (lines_of(stdout).len() > max_lines))
            }
            &&& sel.external is None ==> sel.truncated == local_truncated
        }),
{
    let sel = backend_step_of(backend, file, symbol, local_truncated, max_lines, outs)->Done_0->Ok_0;
    if sel.external is Some && runs_programs(backend, symbol) {
        if external_result_of(crate::backend::first_backend(backend), max_lines, outs[0]) is Ok {
            assert(outs[0] is Succeeded);
        } else {
            assert(outs[1] is Succeeded);
        }
    }
}

/// In the JSON doctor report, a backend's `help_ok` field tells whether its
/// `--help` run succeeded, and it comes just before its `help_status`, which
/// is `"ok"` exactly then.
pub proof fn law_probe_json_help_ok(
    name: Seq<char>,
    binary: Seq<char>,
    found: Option<(Seq<char>, crate::backend::HelpModel)>,
)
    ensures
        ({
            let p = crate::backend::probe_of(name, binary, found);
            let ok = found matches Some((_, h)) && h is Succeeded;
            &&& exists|a: Seq<char>| crate::render::probe_json_of(p) == a + ",\"help_ok\":"@ + crate::render::bool_text(ok)
                + ",\"help_status\":\""@ + json_escape_of(p.help_status) + "\"}"@
            &&& p.help_ok == ok
            &&& ok <==> p.help_status == "ok"@
        }),
{
    reveal_strlit("ok");
    reveal_strlit("exit-");
    reveal_strlit("start-error: ");
    reveal_strlit("not-run");
    let p = crate::backend::probe_of(name, binary, found);
    let a = "{\"name\":\""@ + p.name + "\",\"binary\":\""@ + p.binary + "\",\"available\":"@
        + crate::render::bool_text(p.available) + ",\"path\":"@ + crate::render::json_optional_of(p.path);
    assert(crate::render::probe_json_of(p) =~= a + ",\"help_ok\":"@ + crate::render::bool_text(p.help_ok)
        + ",\"help_status\":\""@ + json_escape_of(p.help_status) + "\"}"@);
    if let Some((_, h)) = found {
        if !(h is Succeeded) {
            assert(p.help_status.len() > 0);
            assert(p.help_status[0] != 'o' || p.help_status.len() != 2);
            if p.help_status == "ok"@ {
                assert(p.help_status[0] == 'o');
            }
        }
    } else {
        assert(p.help_status[0] == 'n');
        if p.help_status == "ok"@ {
            assert(p.help_status[0] == 'o');
        }
    }
}

/// A character that ends the name read after an item keyword: `(`, `<`,
/// `:`, `{`, `;` or whitespace.
pub open spec fn ends_item_name(c: char) -> bool {
    c == '(' || c == '<' || c == ':' || c == '{' || c == ';' || crate::text::is_ws(c)
}

proof fn lemma_run_len_bounds(s: Seq<char>, p: spec_fn(char) -> bool)
    ensures
        crate::symbol::run_len(s, p) <= s.len(),
        forall|i: int| 0 <= i < crate::symbol::run_len(s, p) ==> p(#[trigger] s[i]),
        crate::symbol::run_len(s, p) < s.len() ==> !p(s[crate::symbol::run_len(s, p) as int]),
    decreases s.len(),
{
    if s.len() > 0 && p(s[0]) {
        let t = s.drop_first();
        lemma_run_len_bounds(t, p);
        assert forall|i: int| 0 <= i < crate::symbol::run_len(s, p) implies p(#[trigger] s[i]) by {
            if i > 0 {
                assert(s[i] == t[i - 1]);
            }
        }
        if crate::symbol::run_len(s, p) < s.len() {
            assert(s[crate::symbol::run_len(s, p) as int] == t[crate::symbol::run_len(t, p) as int]);
        }
    }
}

/// The name read after an item keyword (`struct Marker;` gives `Marker`) is
/// the longest run of characters at the start of the text, after its
/// leading whitespace, that holds none of `(`, `<`, `:`, `{`, `;` or
/// whitespace; when that run is empty the name is `<unknown>`.
pub proof fn law_item_name_token(text: Seq<char>)
    ensures
        ({
            let t = trim_start(text);
            let r = crate::symbol::first_symbol_token_of(text);
            &&& (t.len() == 0 || ends_item_name(t[0])) ==> r == "<unknown>"@
            &&& !(t.len() == 0 || ends_item_name(t[0])) ==> {
                &&& 0 < r.len() <= t.len()
                &&& r == t.take(r.len() as int)
                &&& forall|i: int| 0 <= i < r.len() ==> !ends_item_name(#[trigger] r[i])
                &&& r.len() == t.len() || ends_item_name(t[r.len() as int])
            }
        }),
{
    reveal(crate::symbol::first_symbol_token_of);
    let t = trim_start(text);
    let p = |c: char| !crate::symbol::is_name_break(c);
    lemma_run_len_bounds(t, p);
    let n = crate::symbol::run_len(t, p);
    if t.len() == 0 || ends_item_name(t[0]) {
        if n > 0 {
            assert(p(t[0]));
        }
    } else {
        assert(p(t[0]));
        let t1 = t.drop_first();
        assert(n == 1 + crate::symbol::run_len(t1, p));
        let r = t.take(n as int);
        assert forall|i: int| 0 <= i < r.len() implies !ends_item_name(#[trigger] r[i]) by {
            assert(r[i] == t[i]);
            assert(p(t[i]));
        }
    }
}

/// Number of occurrences of `c` in `s`.
pub open spec fn occurrences(s: Seq<char>, c: char) -> int
    decreases s.len(),
{
    if s.len() == 0 {
        0
    } else {
        occurrences(s.drop_last(), c) + if s.last() == c {
            1int
        } else {
            0int
        }
    }
}

/// Number of `{` minus number of `}` over lines `s..=e` (one-based).
pub open spec fn open_minus_close(ls: Seq<Seq<char>>, s: int, e: int) -> int
    decreases e - s + 1,
{
    if e < s {
        0
    } else {
        open_minus_close(ls, s, e - 1) + occurrences(ls[e - 1], '{') - occurrences(ls[e - 1], '}')
    }
}

/// Line `e` ends a brace block begun at line `s`: some line among `s..=e`
/// holds a `{`, and by the end of line `e` the `}` have caught up with the `{`.
pub open spec fn balances_at(ls: Seq<Seq<char>>, s: int, e: int) -> bool {
    &&& s <= e <= ls.len()
    &&& exists|i: int| s <= i <= e && #[trigger] ls[i - 1].contains('{')
    &&& open_minus_close(ls, s, e) <= 0
}

proof fn lemma_balance_counts(l: Seq<char>)
    ensures
        crate::span::brace_balance(l) == occurrences(l, '{') - occurrences(l, '}'),
        crate::span::has_open_brace(l) <==> l.contains('{'),
    decreases l.len(),
{
    if l.len() > 0 {
        let d = l.drop_last();
        lemma_balance_counts(d);
        if d.contains('{') {
            let j = choose|j: int| 0 <= j < d.len() && d[j] == '{';
            assert(l[j] == '{');
        }
        if l.contains('{') {
            let j = choose|j: int| 0 <= j < l.len() && l[j] == '{';
            if j < d.len() {
                assert(d[j] == '{');
            }
        }
        if l.last() == '{' {
            assert(l[l.len() - 1] == '{');
        }
    }
}

proof fn lemma_block_counts(ls: Seq<Seq<char>>, s: int, e: int)
    requires
        1 <= s,
        e <= ls.len(),
    ensures
        crate::span::block_depth(ls, s, e) == open_minus_close(ls, s, e),
        crate::span::block_opened(ls, s, e) <==> exists|i: int| s <= i <= e && #[trigger] ls[i - 1].contains('{'),
    decreases e - s + 1,
{
    if e >= s {
        lemma_block_counts(ls, s, e - 1);
        lemma_balance_counts(ls[e - 1]);
        if exists|i: int| s <= i <= e && #[trigger] ls[i - 1].contains('{') {
            let i = choose|i: int| s <= i <= e && #[trigger] ls[i - 1].contains('{');
            if i < e {
                assert(s <= i <= e - 1 && ls[i - 1].contains('{'));
            }
        }
    }
}

/// The brace block begun at line `s` ends at the first line `e >= s` by
/// which some line among `s..=e` has opened a brace and the closing braces
/// have caught up with the opening ones; a `{` on any line of the block
/// counts, not only on its first. With no such line there is no brace end.
pub proof fn law_brace_end_first_balanced(ls: Seq<Seq<char>>, s: int)
    requires
        1 <= s,
    ensures
        crate::span::brace_end(ls, s) matches Some(e) ==> balances_at(ls, s, e) && forall|f: int|
            s <= f < e ==> !balances_at(ls, s, f),
        crate::span::brace_end(ls, s) is None ==> forall|e: int| !balances_at(ls, s, e),
{
    assert forall|e: int| #[trigger] balances_at(ls, s, e) <==> closes_block(ls, s, e) by {
        if s <= e <= ls.len() {
            lemma_block_counts(ls, s, e);
        }
    }
    if exists|e: int| closes_block(ls, s, e) {
        let e0 = choose|e: int| closes_block(ls, s, e);
        lemma_least_close(ls, s, e0);
    }
}

/// Every character of `w` is whitespace.
pub open spec fn blank(w: Seq<char>) -> bool {
    forall|j: int| 0 <= j < w.len() ==> crate::text::is_ws(#[trigger] w[j])
}

proof fn lemma_trim_start_blank(w: Seq<char>, r: Seq<char>)
    requires
        blank(w),
    ensures
        trim_start(w + r) == trim_start(r),
    decreases w.len(),
{
    if w.len() > 0 {
        let w1 = w.drop_first();
        assert((w + r)[0] == w[0]);
        assert((w + r).drop_first() =~= w1 + r);
        assert(blank(w1)) by {
            assert forall|j: int| 0 <= j < w1.len() implies crate::text::is_ws(#[trigger] w1[j]) by {
                assert(w1[j] == w[j + 1]);
            }
        }
        lemma_trim_start_blank(w1, r);
        assert(leading_ws(w + r) == 1 + leading_ws(w1 + r));
        crate::text::lemma_leading_ws_bound(w1 + r);
        let k = leading_ws(w1 + r) as int;
        assert forall|j: int| 0 <= j < (w1 + r).skip(k).len() implies (w + r).skip(k + 1)[j] == (w1 + r).skip(k)[j] by {
            assert((w + r)[k + 1 + j] == (w1 + r)[k + j]);
        }
        assert((w + r).skip(leading_ws(w + r) as int) =~= (w1 + r).skip(leading_ws(w1 + r) as int));
    } else {
        assert(w + r =~= r);
    }
}

/// A line opens or closes a Markdown fence exactly when, after its leading
/// whitespace, it starts with three backquotes.
pub proof fn law_fence_line(w: Seq<char>, r: Seq<char>)
    requires
        blank(w),
        r.len() == 0 || !crate::text::is_ws(r[0]),
    ensures
        crate::span::is_fence_text(w + r) <==> "```"@.is_prefix_of(r),
{
    lemma_trim_start_blank(w, r);
    lemma_trim_start_blank(Seq::empty(), r);
    assert(Seq::<char>::empty() + r =~= r);
    lemma_leading_ws(r, 0);
    assert(r.skip(0) =~= r);
}

proof fn lemma_open_fence_same(ls: Seq<Seq<char>>, ms: Seq<Seq<char>>, n: int)
    requires
        ls.len() == ms.len(),
        0 <= n <= ls.len(),
        forall|i: int| 0 <= i < ls.len() ==> crate::span::is_fence_text(#[trigger] ls[i]) == crate::span::is_fence_text(ms[i]),
    ensures
        crate::span::open_fence_after(ls, n) == crate::span::open_fence_after(ms, n),
    decreases n,
{
    if n > 0 {
        lemma_open_fence_same(ls, ms, n - 1);
        assert(crate::span::is_fence_text(ls[n - 1]) == crate::span::is_fence_text(ms[n - 1]));
    }
}

/// Indenting the lines of a Markdown file (a fence inside a list item, say)
/// does not change the fence reported for any line.
pub proof fn law_fence_indent_invariant(ls: Seq<Seq<char>>, ws: Seq<Seq<char>>, line: int)
    requires
        ws.len() == ls.len(),
        forall|i: int| 0 <= i < ws.len() ==> blank(#[trigger] ws[i]),
    ensures
        fence_span_of(Seq::new(ls.len(), |i: int| ws[i] + ls[i]), line) == fence_span_of(ls, line),
{
    let ms = Seq::new(ls.len(), |i: int| ws[i] + ls[i]);
    assert forall|i: int| 0 <= i < ls.len() implies crate::span::is_fence_text(#[trigger] ls[i]) == crate::span::is_fence_text(ms[i]) by {
        lemma_trim_start_blank(ws[i], ls[i]);
    }
    assert forall|s: int, e: int| #[trigger] fence_contains(ls, line, s, e) <==> fence_contains(ms, line, s, e) by {
        if 1 <= e <= ls.len() {
            lemma_open_fence_same(ls, ms, e - 1);
            assert(crate::span::is_fence_text(ls[e - 1]) == crate::span::is_fence_text(ms[e - 1]));
        }
    }
    if exists|p: (int, int)| fence_contains(ls, line, p.0, p.1) {
        let p = choose|p: (int, int)| fence_contains(ls, line, p.0, p.1);
        assert(fence_contains(ms, line, p.0, p.1));
        let q = choose|q: (int, int)| fence_contains(ms, line, q.0, q.1);
        assert(fence_contains(ls, line, q.0, q.1));
        lemma_fence_unique(ls, line, p.0, p.1, q.0, q.1);
    } else {
        assert forall|q: (int, int)| !fence_contains(ms, line, q.0, q.1) by {
            if fence_contains(ms, line, q.0, q.1) {
                assert(fence_contains(ls, line, q.0, q.1));
            }
        }
    }
}

/// The item keywords with the kind of item each opens.
pub open spec fn item_keyword(i: int) -> (Seq<char>, crate::symbol::SpanKind) {
    if i == 0 {
        ("fn "@, crate::symbol::SpanKind::Function)
    } else if i == 1 {
        ("struct "@, crate::symbol::SpanKind::Struct)
    } else if i == 2 {
        ("enum "@, crate::symbol::SpanKind::Enum)
    } else if i == 3 {
        ("trait "@, crate::symbol::SpanKind::Trait)
    } else if i == 4 {
        ("class "@, crate::symbol::SpanKind::Class)
    } else if i == 5 {
        ("def "@, crate::symbol::SpanKind::Function)
    } else if i == 6 {
        ("func "@, crate::symbol::SpanKind::Function)
    } else {
        ("function "@, crate::symbol::SpanKind::Function)
    }
}

proof fn lemma_not_prefix(a: Seq<char>, b: Seq<char>, k: int)
    requires
        0 <= k < a.len(),
        k < b.len(),
        a[k] != b[k],
    ensures
        !a.is_prefix_of(b),
{
    if a.is_prefix_of(b) {
        assert(b.subrange(0, a.len() as int)[k] == b[k]);
    }
}

proof fn lemma_no_modifier(line: Seq<char>)
    requires
        line.len() >= 2,
        line[0] == 'f' || line[0] == 's' || line[0] == 't' || line[0] == 'd' || (line[0] == 'e' && line[1] == 'n') || (
        line[0] == 'c' && line[1] == 'l'),
    ensures
        matched_prefix_from(line, 0) is None,
        strip_symbol_prefixes_of(line) == line,
{
    reveal_strlit("pub(crate) ");
    reveal_strlit("pub(super) ");
    reveal_strlit("pub(self) ");
    reveal_strlit("pub ");
    reveal_strlit("export ");
    reveal_strlit("async ");
    reveal_strlit("const ");
    reveal_strlit("unsafe ");
    reveal_strlit("extern ");
    lemma_not_prefix("pub(crate) "@, line, 0);
    lemma_not_prefix("pub(super) "@, line, 0);
    lemma_not_prefix("pub(self) "@, line, 0);
    lemma_not_prefix("pub "@, line, 0);
    lemma_not_prefix("export "@, line, if line[0] == 'e' { 1 } else { 0 });
    lemma_not_prefix("async "@, line, 0);
    lemma_not_prefix("const "@, line, if line[0] == 'c' { 1 } else { 0 });
    lemma_not_prefix("unsafe "@, line, 0);
    lemma_not_prefix("extern "@, line, if line[0] == 'e' { 1 } else { 0 });
    reveal_with_fuel(matched_prefix_from, 9);
    assert(matched_prefix_from(line, 0) is None);
    reveal(crate::symbol::strip_extern_prefix_of);
    assert(crate::symbol::strip_extern_prefix_of(line) == line);
}

/// A line that starts with an item keyword (`fn `, `struct `, `enum `,
/// `trait `, `class `, `def `, `func `, `function `) opens an item of that
/// keyword's kind, named by what follows the keyword.
pub proof fn law_keyword_line(i: int, t: Seq<char>)
    requires
        0 <= i < 8,
    ensures
        symbol_parts_of(item_keyword(i).0 + t) == Some(
            (item_keyword(i).1, crate::symbol::first_symbol_token_of(t)),
        ),
{
    reveal_strlit("fn ");
    reveal_strlit("struct ");
    reveal_strlit("enum ");
    reveal_strlit("trait ");
    reveal_strlit("class ");
    reveal_strlit("def ");
    reveal_strlit("func ");
    reveal_strlit("function ");
    let kw = item_keyword(i).0;
    let line = kw + t;
    assert(line[0] == kw[0] && line[1] == kw[1]);
    lemma_leading_ws(line, 0);
    assert(line.skip(0) =~= line);
    lemma_no_modifier(line);
    assert(kw.is_prefix_of(line)) by {
        assert(line.subrange(0, kw.len() as int) =~= kw);
    }
    if i == 6 {
        lemma_not_prefix("fn "@, line, 1);
    } else if i == 7 {
        lemma_not_prefix("fn "@, line, 1);
        lemma_not_prefix("func "@, line, 4);
    }
    reveal_with_fuel(crate::symbol::matched_keyword_from, 9);
    assert(line.skip(kw.len() as int) =~= t);
    reveal(symbol_parts_of);
}

/// A search misses nothing: every line of the file that satisfies the
/// search is reported, with its one-based number.
pub proof fn law_matches_complete(path: Seq<char>, ls: Seq<Seq<char>>, pred: spec_fn(Seq<char>) -> bool, k: int)
    requires
        0 <= k < ls.len(),
        ls.len() <= usize::MAX,
        pred(ls[k]),
    ensures
        line_matches(path, ls, pred).contains((path, (k + 1) as usize)),
    decreases ls.len(),
{
    let rest = line_matches(path, ls.drop_last(), pred);
    if k == ls.len() - 1 {
        assert(line_matches(path, ls, pred)[rest.len() as int] == (path, (k + 1) as usize));
    } else {
        assert(ls.drop_last()[k] == ls[k]);
        law_matches_complete(path, ls.drop_last(), pred, k);
        let j = choose|j: int| 0 <= j < rest.len() && rest[j] == (path, (k + 1) as usize);
        if pred(ls.last()) {
            assert(line_matches(path, ls, pred)[j] == rest[j]);
        }
    }
}

/// The block begun at line `s` by indentation runs to the line before the
/// first later non-blank line indented no deeper than line `s`, or to the
/// last line: every line after `s` up to its end is blank or indented
/// deeper.
pub proof fn law_indented_end(ls: Seq<Seq<char>>, s: int)
    requires
        1 <= s <= ls.len(),
    ensures
        ({
            let e = indented_end(ls, s);
            &&& s <= e <= ls.len()
            &&& forall|j: int| s < j <= e ==> blank(#[trigger] ls[j - 1]) || leading_ws(ls[j - 1]) > leading_ws(ls[s - 1])
            &&& e == ls.len() || (!blank(ls[e]) && leading_ws(ls[e]) <= leading_ws(ls[s - 1]))
        }),
{
    assert forall|l: Seq<char>| #[trigger] blank(l) == crate::text::all_ws(l) by {}
    lemma_indented_end_bounds(ls, s);
    let e = indented_end(ls, s);
    if exists|j: int| ends_indent_block(ls, s, j) {
        let j0 = choose|j: int| ends_indent_block(ls, s, j);
        lemma_least_indent_end(ls, s, j0);
        let j = choose|j: int| ends_indent_block(ls, s, j) && forall|i: int| s < i < j ==> !ends_indent_block(ls, s, i);
        assert(e == j - 1);
        assert(ends_indent_block(ls, s, j));
        assert(ls[e] == ls[j - 1]);
        assert forall|i: int| s < i <= e implies blank(#[trigger] ls[i - 1]) || leading_ws(ls[i - 1]) > leading_ws(ls[s - 1]) by {
            assert(!ends_indent_block(ls, s, i));
        }
    } else {
        assert forall|i: int| s < i <= e implies blank(#[trigger] ls[i - 1]) || leading_ws(ls[i - 1]) > leading_ws(ls[s - 1]) by {
            assert(!ends_indent_block(ls, s, i));
        }
    }
}

proof fn lemma_scan_max_positive(input: Seq<Seq<char>>, i: int, st: crate::cli::ArgState)
    requires
        st.max_lines >= 1,
    ensures
        crate::cli::scan_args(input, i, st) matches Ok(Some(st2)) ==> st2.max_lines >= 1,
    decreases input.len() - i,
{
    if 0 <= i < input.len() {
        let arg = input[i];
        if arg == "--max-lines"@ {
            if i + 1 < input.len() {
                if let Some(v) = parse_usize_of(input[i + 1]) {
                    if v != 0 {
                        lemma_scan_max_positive(input, i + 2, crate::cli::ArgState { max_lines: v, ..st });
                    }
                }
            }
        } else {
            lemma_scan_max_positive(input, i + 1, st);
            if i + 1 < input.len() {
                lemma_scan_max_positive(input, i + 2, st);
                lemma_scan_max_positive(input, i + 2, crate::cli::ArgState { kind: Some(input[i + 1]), ..st });
                lemma_scan_max_positive(input, i + 2, crate::cli::ArgState { contains: Some(input[i + 1]), ..st });
                lemma_scan_max_positive(input, i + 2, crate::cli::ArgState { symbol: Some(input[i + 1]), ..st });
                if let Ok(b) = crate::cli::parse_backend_of(input[i + 1]) {
                    lemma_scan_max_positive(input, i + 2, crate::cli::ArgState { backend: b, ..st });
                }
            }
            lemma_scan_max_positive(input, i + 1, crate::cli::ArgState { json: true, ..st });
            lemma_scan_max_positive(input, i + 1, crate::cli::ArgState { explain: true, ..st });
            lemma_scan_max_positive(input, i + 1, crate::cli::ArgState { root: Some(arg), ..st });
            lemma_scan_max_positive(input, i + 1, crate::cli::ArgState { position: Some(arg), ..st });
        }
    }
}

/// Every accepted span command line asks for at least one line: a line
/// limit of zero is never accepted.
pub proof fn law_max_lines_positive(input: Seq<Seq<char>>)
    ensures
        crate::cli::parse_args_of(input) matches Ok(Some(a)) ==> a.max_lines >= 1,
{
    lemma_scan_max_positive(input, 0, crate::cli::initial_arg_state());
}

proof fn lemma_scan_shift(pre: Seq<Seq<char>>, rest: Seq<Seq<char>>, i: int, st: crate::cli::ArgState)
    requires
        0 <= i,
    ensures
        crate::cli::scan_args(pre + rest, i + pre.len(), st) == crate::cli::scan_args(rest, i, st),
    decreases rest.len() - i,
{
    let all = pre + rest;
    if i < rest.len() {
        assert(all[i + pre.len()] == rest[i]);
        if i + 1 < rest.len() {
            assert(all[i + 1 + pre.len()] == rest[i + 1]);
        }
        lemma_scan_shift(pre, rest, i + 1, st);
        let arg = rest[i];
        if i + 1 < rest.len() {
            lemma_scan_shift(pre, rest, i + 2, st);
            let v = rest[i + 1];
            if let Some(n) = parse_usize_of(v) {
                lemma_scan_shift(pre, rest, i + 2, crate::cli::ArgState { max_lines: n, ..st });
            }
            lemma_scan_shift(pre, rest, i + 2, crate::cli::ArgState { kind: Some(v), ..st });
            lemma_scan_shift(pre, rest, i + 2, crate::cli::ArgState { contains: Some(v), ..st });
            lemma_scan_shift(pre, rest, i + 2, crate::cli::ArgState { symbol: Some(v), ..st });
            if let Ok(b) = crate::cli::parse_backend_of(v) {
                lemma_scan_shift(pre, rest, i + 2, crate::cli::ArgState { backend: b, ..st });
            }
        }
        lemma_scan_shift(pre, rest, i + 1, crate::cli::ArgState { json: true, ..st });
        lemma_scan_shift(pre, rest, i + 1, crate::cli::ArgState { explain: true, ..st });
        lemma_scan_shift(pre, rest, i + 1, crate::cli::ArgState { root: Some(arg), ..st });
        lemma_scan_shift(pre, rest, i + 1, crate::cli::ArgState { position: Some(arg), ..st });
    }
}

/// The state with JSON output asked for.
pub open spec fn json_on(st: crate::cli::ArgState) -> crate::cli::ArgState {
    crate::cli::ArgState { json: true, ..st }
}

proof fn lemma_scan_json(input: Seq<Seq<char>>, i: int, st: crate::cli::ArgState)
    ensures
        crate::cli::scan_args(input, i, json_on(st)) == match crate::cli::scan_args(input, i, st) {
            Ok(Some(s2)) => Ok(Some(json_on(s2))),
            r => r,
        },
    decreases input.len() - i,
{
    if 0 <= i < input.len() {
        let arg = input[i];
        if i + 1 < input.len() {
            let v = input[i + 1];
            if let Some(n) = parse_usize_of(v) {
                lemma_scan_json(input, i + 2, crate::cli::ArgState { max_lines: n, ..st });
                assert(json_on(crate::cli::ArgState { max_lines: n, ..st }) == crate::cli::ArgState { max_lines: n, ..json_on(st) });
            }
            lemma_scan_json(input, i + 2, crate::cli::ArgState { kind: Some(v), ..st });
            assert(json_on(crate::cli::ArgState { kind: Some(v), ..st }) == crate::cli::ArgState { kind: Some(v), ..json_on(st) });
            lemma_scan_json(input, i + 2, crate::cli::ArgState { contains: Some(v), ..st });
            assert(json_on(crate::cli::ArgState { contains: Some(v), ..st }) == crate::cli::ArgState { contains: Some(v), ..json_on(st) });
            lemma_scan_json(input, i + 2, crate::cli::ArgState { symbol: Some(v), ..st });
            assert(json_on(crate::cli::ArgState { symbol: Some(v), ..st }) == crate::cli::ArgState { symbol: Some(v), ..json_on(st) });
            if let Ok(b) = crate::cli::parse_backend_of(v) {
                lemma_scan_json(input, i + 2, crate::cli::ArgState { backend: b, ..st });
                assert(json_on(crate::cli::ArgState { backend: b, ..st }) == crate::cli::ArgState { backend: b, ..json_on(st) });
            }
        }
        lemma_scan_json(input, i + 1, json_on(st));
        assert(json_on(json_on(st)) == json_on(st));
        lemma_scan_json(input, i + 1, crate::cli::ArgState { explain: true, ..st });
        assert(json_on(crate::cli::ArgState { explain: true, ..st }) == crate::cli::ArgState { explain: true, ..json_on(st) });
        lemma_scan_json(input, i + 1, crate::cli::ArgState { root: Some(arg), ..st });
        assert(json_on(crate::cli::ArgState { root: Some(arg), ..st }) == crate::cli::ArgState { root: Some(arg), ..json_on(st) });
        lemma_scan_json(input, i + 1, crate::cli::ArgState { position: Some(arg), ..st });
        assert(json_on(crate::cli::ArgState { position: Some(arg), ..st }) == crate::cli::ArgState { position: Some(arg), ..json_on(st) });
    }
}

/// `--json` in front of a span command line changes nothing but asking for
/// JSON output: the same request, with JSON on, or the same error or help.
pub proof fn law_json_flag(rest: Seq<Seq<char>>)
    ensures
        crate::cli::parse_args_of(seq!["--json"@] + rest) == match crate::cli::parse_args_of(rest) {
            Ok(Some(a)) => Ok(Some(crate::cli::ArgsModel { json: true, ..a })),
            r => r,
        },
{
    reveal_strlit("--json");
    reveal_strlit("--max-lines");
    reveal_strlit("--kind");
    reveal_strlit("--backend");
    reveal_strlit("--contains");
    reveal_strlit("--symbol");
    let input = seq!["--json"@] + rest;
    let st = crate::cli::initial_arg_state();
    assert(input[0] == "--json"@);
    assert("--json"@ != "--max-lines"@);
    assert("--json"@[2] != "--kind"@[2]);
    assert("--json"@ != "--backend"@);
    assert("--json"@ != "--contains"@);
    assert("--json"@ != "--symbol"@);
    assert(crate::cli::scan_args(input, 0, st) == crate::cli::scan_args(input, 1, json_on(st)));
    lemma_scan_shift(seq!["--json"@], rest, 0, json_on(st));
    lemma_scan_json(rest, 0, st);
}

/// A Markdown fence reported for a line runs from a fence line to the next
/// fence line after it, with no fence line in between, and holds the line.
pub proof fn law_fence_shape(ls: Seq<Seq<char>>, line: int)
    requires
        fence_span_of(ls, line) is Some,
    ensures
        ({
            let (s, e) = fence_span_of(ls, line).unwrap();
            &&& 1 <= s < e <= ls.len()
            &&& s <= line <= e
            &&& crate::span::is_fence_text(ls[s - 1])
            &&& crate::span::is_fence_text(ls[e - 1])
            &&& forall|j: int| s < j < e ==> !crate::span::is_fence_text(#[trigger] ls[j - 1])
        }),
{
    let p = fence_span_of(ls, line).unwrap();
    assert(fence_contains(ls, line, p.0, p.1));
    lemma_open_fence_after(ls, p.1 - 1);
}

/// The window of context lines holds the line and reaches twenty lines to
/// each side of it, as far as the file goes.
pub proof fn law_context_window(line: int, len: int)
    requires
        1 <= line <= len,
    ensures
        ({
            let m = context_span(line, len);
            &&& 1 <= m.start <= line <= m.end <= len
            &&& m.start == 1 || line - m.start == 20
            &&& m.end == len || m.end - line == 20
            &&& line - m.start <= 20 && m.end - line <= 20
            &&& m.kind == crate::symbol::SpanKind::Context
        }),
{
}

/// In the human listing exactly the target line is marked with `>`.
pub proof fn law_listing_marks_target(ls: Seq<Seq<char>>, line: int, n: int)
    ensures
        (crate::render::numbered_line(ls, line, n)[0] == '>') <==> n == line,
        crate::render::numbered_line(ls, line, n)[0] == '>' || crate::render::numbered_line(ls, line, n)[0] == ' ',
{
    reveal_strlit(">");
    reveal_strlit(" ");
    let rest = " "@ + crate::render::pad4(decimal(n as nat)) + " | "@ + ls[n - 1] + "\n"@;
    if n == line {
        assert(crate::render::numbered_line(ls, line, n) =~= ">"@ + rest);
    } else {
        assert(crate::render::numbered_line(ls, line, n) =~= " "@ + rest);
    }
}

/// A file is executable when it is a regular file and one of its owner,
/// group or other execute bits is set; where there are no permission bits,
/// every regular file is.
pub proof fn law_executable_bits(is_file: bool, mode: u32)
    ensures
        crate::backend::is_executable_of(is_file, Some(mode)) <==> is_file && ((mode / 64) % 2 == 1 || (mode / 8) % 2
            == 1 || mode % 2 == 1),
        crate::backend::is_executable_of(is_file, None) <==> is_file,
{
    assert((mode & 0o111u32 != 0) <==> ((mode / 64) % 2 == 1 || (mode / 8) % 2 == 1 || mode % 2 == 1)) by (bit_vector);
}

/// Every backend's name, given to `--backend`, names that backend.
pub proof fn law_backend_name_round_trip(b: Backend)
    ensures
        crate::cli::parse_backend_of(crate::cli::backend_text(b)) == Ok::<Backend, Seq<char>>(b),
{
    reveal_strlit("heuristic");
    reveal_strlit("auto");
    reveal_strlit("ast-outline");
    reveal_strlit("ast-bro");
    assert("heuristic"@.len() != "auto"@.len());
    assert("ast-outline"@.len() != "auto"@.len());
    assert("ast-outline"@.len() != "heuristic"@.len());
    assert("ast-bro"@.len() != "auto"@.len());
    assert("ast-bro"@.len() != "heuristic"@.len());
    assert("ast-bro"@.len() != "ast-outline"@.len());
}

/// Different span kinds are reported under different names, so `--kind`
/// tells them apart.
pub proof fn law_kind_names_distinct(a: crate::symbol::SpanKind, b: crate::symbol::SpanKind)
    ensures
        kind_text(a) == kind_text(b) ==> a == b,
{
    reveal_strlit("function");
    reveal_strlit("struct");
    reveal_strlit("enum");
    reveal_strlit("trait");
    reveal_strlit("class");
    reveal_strlit("impl");
    reveal_strlit("block");
    reveal_strlit("markdown-fence");
    reveal_strlit("context");
    if kind_text(a) == kind_text(b) && a != b {
        let x = kind_text(a);
        assert(x.len() == kind_text(b).len());
        assert(x[0] == kind_text(b)[0]);
        assert(x[1] == kind_text(b)[1]);
    }
}

} // verus!
