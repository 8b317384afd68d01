//! The decisions of a span request: which candidate line is shown, and what
//! is printed for it.
use vstd::prelude::*;
use crate::backend::{BackendSelection, SelectionModel};
use crate::cli::backend_text;
use crate::render::{explain_of, external_human_of, human_of, json_of, render_explain, render_external_human, render_human, render_json};
use crate::span::{capped, cap_span, find_span, find_span_of, is_span_truncated, span_fits, span_within, truncates, Span, SpanModel};
use crate::symbol::{kind_name, kind_text};
use crate::text::{decimal, lines_of, push_decimal, push_str, split_lines, str_eq, string_from, texts};

verus! {

/// What became of one candidate line.
#[derive(Debug)]
pub enum Candidate {
    /// The request fails with this message.
    Failed(String),
    /// The span found there is not of the kind asked for; the next candidate is tried.
    KindMismatch,
    /// The span to show, cut to the line limit, with the lines of its file and
    /// whether the limit cut it.
    Found { lines: Vec<String>, span: Span, local_truncated: bool },
}

/// The value of a `Candidate`.
pub enum CandidateModel {
    Failed(Seq<char>),
    KindMismatch,
    Found { lines: Seq<Seq<char>>, span: SpanModel, local_truncated: bool },
}

impl View for Candidate {
    type V = CandidateModel;

    open spec fn view(&self) -> CandidateModel {
        match self {
            Candidate::Failed(m) => CandidateModel::Failed(m@),
            Candidate::KindMismatch => CandidateModel::KindMismatch,
            Candidate::Found { lines, span, local_truncated } => CandidateModel::Found {
                lines: texts(lines@),
                span: span@,
                local_truncated: *local_truncated,
            },
        }
    }
}

/// What becomes of line `line` of `file`, whose contents were read as `text`
/// (or could not be, with that error): an error when it cannot be read or the
/// line is not one of its lines, a mismatch when the span found there is not
/// of the kind asked for, else that span cut to `max_lines` lines.
pub open spec fn candidate_of(
    kind: Option<Seq<char>>,
    max_lines: usize,
    file: Seq<char>,
    line: usize,
    text: Result<Seq<char>, Seq<char>>,
) -> CandidateModel {
    match text {
        Err(e) => CandidateModel::Failed(file + ": "@ + e),
        Ok(t) => {
            let ls = lines_of(t);
            if line == 0 || line > ls.len() {
                CandidateModel::Failed(file + ": line "@ + decimal(line as nat) + " is outside 1.."@ + decimal(ls.len()))
            } else {
                let sp = find_span_of(file, ls, line as int);
                if kind is Some && kind_text(sp.kind) != kind.unwrap() {
                    CandidateModel::KindMismatch
                } else {
                    CandidateModel::Found {
                        lines: ls,
                        span: capped(sp, max_lines as int, ls.len() as int),
                        local_truncated: truncates(sp, max_lines as int),
                    }
                }
            }
        },
    }
}

/// The text of an optional string.
pub open spec fn opt_seq(o: Option<String>) -> Option<Seq<char>> {
    match o {
        Some(s) => Some(s@),
        None => None,
    }
}

/// Decides what becomes of line `line` of `file`, given its contents.
pub fn evaluate_candidate(kind: &Option<String>, max_lines: usize, file: &str, line: usize, text: Result<String, String>) -> (r: Candidate)
    ensures
        r@ == candidate_of(
            opt_seq(*kind),
            max_lines,
            file@,
            line,
            match text {
                Ok(t) => Ok(t@),
                Err(e) => Err(e@),
            },
        ),
        r matches Candidate::Found { lines, span, .. } ==> span_fits(span@, lines@.len() as int),
        max_lines >= 1 ==> (r matches Candidate::Found { lines, span, .. } ==> span_within(span@, lines@.len() as int)),
{
    let text = match text {
        Ok(t) => t,
        Err(e) => {
            let mut m = string_from(file);
            push_str(&mut m, ": ");
            push_str(&mut m, e.as_str());
            return Candidate::Failed(m);
        },
    };
    let lines = split_lines(text.as_str());
    let n = lines.len();
    if line == 0 || line > n {
        let mut m = string_from(file);
        push_str(&mut m, ": line ");
        push_decimal(&mut m, line as u64);
        push_str(&mut m, " is outside 1..");
        push_decimal(&mut m, n as u64);
        proof {
            assert(m@ =~= file@ + ": line "@ + decimal(line as nat) + " is outside 1.."@ + decimal(n as nat));
        }
        return Candidate::Failed(m);
    }
    let span = find_span(file, lines.as_slice(), line);
    if let Some(k) = kind {
        if !str_eq(kind_name(span.kind), k.as_str()) {
            return Candidate::KindMismatch;
        }
    }
    let local_truncated = is_span_truncated(&span, max_lines);
    let span = cap_span(span, max_lines, n);
    Candidate::Found { lines, span, local_truncated }
}

/// The error of a request for which no candidate gave a span.
pub open spec fn no_span_error_of(kind: Option<Seq<char>>, saw_mismatch: bool) -> Seq<char> {
    match kind {
        Some(k) => if saw_mismatch {
            "no matched span had expected kind "@ + k
        } else {
            "no matching span found"@
        },
        None => "no matching span found"@,
    }
}

/// The error of a request for which no candidate gave a span; `saw_mismatch`
/// tells whether some candidate was passed over for its kind.
pub fn no_span_error(kind: &Option<String>, saw_mismatch: bool) -> (r: String)
    ensures
        r@ == no_span_error_of(opt_seq(*kind), saw_mismatch),
{
    match kind {
        Some(k) => {
            if saw_mismatch {
                let mut m = string_from("no matched span had expected kind ");
                push_str(&mut m, k.as_str());
                m
            } else {
                string_from("no matching span found")
            }
        },
        None => string_from("no matching span found"),
    }
}

/// What a span request does after one candidate line.
#[derive(Debug)]
pub enum SearchStep {
    /// Go on to the next candidate; the flag tells whether some candidate so
    /// far was passed over for its kind.
    Next { saw_mismatch: bool },
    /// Stop and show this span.
    Show { lines: Vec<String>, span: Span, local_truncated: bool },
    /// Stop with this error.
    Fail(String),
}

/// The value of a `SearchStep`.
pub enum SearchStepModel {
    Next { saw_mismatch: bool },
    Show { lines: Seq<Seq<char>>, span: SpanModel, local_truncated: bool },
    Fail(Seq<char>),
}

impl View for SearchStep {
    type V = SearchStepModel;

    open spec fn view(&self) -> SearchStepModel {
        match self {
            SearchStep::Next { saw_mismatch } => SearchStepModel::Next { saw_mismatch: *saw_mismatch },
            SearchStep::Show { lines, span, local_truncated } => SearchStepModel::Show {
                lines: texts(lines@),
                span: span@,
                local_truncated: *local_truncated,
            },
            SearchStep::Fail(m) => SearchStepModel::Fail(m@),
        }
    }
}

/// The step after candidate `c`, with `saw_mismatch` telling whether an
/// earlier candidate was passed over for its kind: an error stops the
/// request, a span of the kind asked for is shown, any other is passed over.
pub open spec fn search_step_of(saw_mismatch: bool, c: CandidateModel) -> SearchStepModel {
    match c {
        CandidateModel::Failed(m) => SearchStepModel::Fail(m),
        CandidateModel::KindMismatch => SearchStepModel::Next { saw_mismatch: true },
        CandidateModel::Found { lines, span, local_truncated } => SearchStepModel::Show { lines, span, local_truncated },
    }
}

/// Decides what a span request does after candidate `c`.
pub fn search_step(saw_mismatch: bool, c: Candidate) -> (r: SearchStep)
    ensures
        r@ == search_step_of(saw_mismatch, c@),
{
    match c {
        Candidate::Failed(m) => SearchStep::Fail(m),
        Candidate::KindMismatch => SearchStep::Next { saw_mismatch: true },
        Candidate::Found { lines, span, local_truncated } => SearchStep::Show { lines, span, local_truncated },
    }
}

/// What a span request over the candidates `cs` ends with, by taking the
/// steps in turn: the span shown, or the error; when the candidates run out,
/// the error for no span.
pub open spec fn search_of(kind: Option<Seq<char>>, saw_mismatch: bool, cs: Seq<CandidateModel>) -> Result<
    (Seq<Seq<char>>, SpanModel, bool),
    Seq<char>,
>
    decreases cs.len(),
{
    if cs.len() == 0 {
        Err(no_span_error_of(kind, saw_mismatch))
    } else {
        match search_step_of(saw_mismatch, cs[0]) {
            SearchStepModel::Next { saw_mismatch: s } => search_of(kind, s, cs.skip(1)),
            SearchStepModel::Show { lines, span, local_truncated } => Ok((lines, span, local_truncated)),
            SearchStepModel::Fail(m) => Err(m),
        }
    }
}

/// What a span request prints.
#[derive(Debug)]
pub struct RunOutput {
    pub stdout: String,
    pub stderr: String,
}

/// What is printed for a span: with `--explain` the selection report on
/// standard error; on standard output the JSON line, or the external text, or
/// the numbered lines.
pub open spec fn output_of(
    explain: bool,
    json: bool,
    file: Seq<char>,
    line: int,
    ls: Seq<Seq<char>>,
    m: SpanModel,
    sel: SelectionModel,
) -> (Seq<char>, Seq<char>) {
    let stderr = if explain {
        explain_of(sel)
    } else {
        Seq::empty()
    };
    let stdout = if json {
        json_of(file, line, ls, m, sel)
    } else {
        match sel.external {
            Some(e) => external_human_of(file, m, backend_text(e.backend), e.text),
            None => human_of(file, line, ls, m),
        }
    };
    (stdout, stderr)
}

/// What is printed for a span.
pub fn render_span_output(
    explain: bool,
    json: bool,
    file: &str,
    line: usize,
    lines: &[String],
    span: &Span,
    selection: &BackendSelection,
) -> (r: RunOutput)
    requires
        span_fits(span@, lines@.len() as int),
    ensures
        (r.stdout@, r.stderr@) == output_of(explain, json, file@, line as int, texts(lines@), span@, selection@),
{
    let stderr = if explain {
        render_explain(selection)
    } else {
        String::new()
    };
    let stdout = if json {
        render_json(file, line, lines, span, selection)
    } else {
        match &selection.external {
            Some(e) => render_external_human(file, span, e),
            None => render_human(file, line, lines, span),
        }
    };
    RunOutput { stdout, stderr }
}

} // verus!
