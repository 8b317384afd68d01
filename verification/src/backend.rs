//! Choosing where the text of a span comes from: the built-in extractor or an
//! external `ast-outline` / `ast-bro` program, and reading what those report.
use vstd::prelude::*;
use crate::cli::{backend_name, backend_text, Backend};
use crate::span::{fence_symbol, Span};
use crate::text::{
    chars_of, join_lines, lines_of, push_char, push_joined, push_signed_decimal, push_str,
    signed_decimal, split_lines, str_eq, string_from, string_of, texts, trim, trim_bounds,
};

verus! {

/// How a run of an external program went.
#[derive(Debug)]
pub enum ProcessOutcome {
    /// The program is not on the `PATH`.
    NotFound,
    /// The program could not be started, with the error's text.
    StartFailed(String),
    /// The program exited unsuccessfully, with its exit code and error output.
    Exited { code: Option<i32>, stderr: String },
    /// The program succeeded, with its output.
    Succeeded { stdout: String },
}

/// The value of a `ProcessOutcome`.
pub enum OutcomeModel {
    NotFound,
    StartFailed(Seq<char>),
    Exited { code: Option<i32>, stderr: Seq<char> },
    Succeeded { stdout: Seq<char> },
}

impl View for ProcessOutcome {
    type V = OutcomeModel;

    open spec fn view(&self) -> OutcomeModel {
        match self {
            ProcessOutcome::NotFound => OutcomeModel::NotFound,
            ProcessOutcome::StartFailed(e) => OutcomeModel::StartFailed(e@),
            ProcessOutcome::Exited { code, stderr } => OutcomeModel::Exited { code: *code, stderr: stderr@ },
            ProcessOutcome::Succeeded { stdout } => OutcomeModel::Succeeded { stdout: stdout@ },
        }
    }
}

/// The text an external backend reported for a symbol.
#[derive(Debug)]
pub struct ExternalSpan {
    pub backend: Backend,
    pub text: String,
    pub truncated: bool,
}

/// The value of an `ExternalSpan`.
pub struct ExternalModel {
    pub backend: Backend,
    pub text: Seq<char>,
    pub truncated: bool,
}

impl View for ExternalSpan {
    type V = ExternalModel;

    open spec fn view(&self) -> ExternalModel {
        ExternalModel { backend: self.backend, text: self.text@, truncated: self.truncated }
    }
}

/// The backend chosen for a span, and why.
#[derive(Debug)]
pub struct BackendSelection {
    pub backend: Backend,
    pub reason: String,
    pub fallback_used: bool,
    pub external: Option<ExternalSpan>,
    pub truncated: bool,
}

/// The value of a `BackendSelection`.
pub struct SelectionModel {
    pub backend: Backend,
    pub reason: Seq<char>,
    pub fallback_used: bool,
    pub external: Option<ExternalModel>,
    pub truncated: bool,
}

/// The value of an optional external span.
pub open spec fn opt_external(e: Option<ExternalSpan>) -> Option<ExternalModel> {
    match e {
        Some(x) => Some(x@),
        None => None,
    }
}

impl View for BackendSelection {
    type V = SelectionModel;

    open spec fn view(&self) -> SelectionModel {
        SelectionModel {
            backend: self.backend,
            reason: self.reason@,
            fallback_used: self.fallback_used,
            external: opt_external(self.external),
            truncated: self.truncated,
        }
    }
}

/// The name and program of an external backend.
pub open spec fn external_command_of(backend: Backend) -> Option<(&'static str, &'static str)> {
    match backend {
        Backend::AstOutline => Some(("ast-outline", "ast-outline")),
        Backend::AstBro => Some(("ast-bro", "ast-bro")),
        _ => None,
    }
}

/// The name and program of an external backend; `None` for the others.
pub fn external_backend_command(backend: Backend) -> (r: Option<(&'static str, &'static str)>)
    ensures
        r == external_command_of(backend),
{
    match backend {
        Backend::AstOutline => Some(("ast-outline", "ast-outline")),
        Backend::AstBro => Some(("ast-bro", "ast-bro")),
        Backend::Heuristic | Backend::Auto => None,
    }
}

/// A symbol that an external backend can look up: not empty, not a
/// placeholder such as `<unknown>`, and not a Markdown fence.
pub open spec fn is_external_symbol_of(symbol: Seq<char>) -> bool {
    symbol.len() > 0 && symbol[0] != '<' && symbol != fence_symbol()
}

/// Whether an external backend can look up `symbol`.
pub fn is_external_symbol(symbol: &str) -> (r: bool)
    ensures
        r == is_external_symbol_of(symbol@),
{
    let s = chars_of(symbol);
    s.len() > 0 && s[0] != '<' && !str_eq(symbol, "```")
}

/// The line that replaces the last one kept when output is cut.
pub open spec fn truncation_marker() -> Seq<char> {
    "--- truncated by span --max-lines ---"@
}

/// External output cut to `max_lines` lines: unchanged if it has no more,
/// else its first `max_lines` lines with the last replaced by the marker,
/// joined with newlines and ended by one; the flag tells whether it was cut.
pub open spec fn cap_external_of(text: Seq<char>, max_lines: int) -> (Seq<char>, bool) {
    let ls = lines_of(text);
    if ls.len() <= max_lines {
        (text, false)
    } else {
        let kept = ls.take(max_lines);
        let kept2 = if max_lines > 0 {
            kept.update(max_lines - 1, truncation_marker())
        } else {
            kept
        };
        (join_lines(kept2) + seq!['\n'], true)
    }
}

/// External output cut to `max_lines` lines.
pub fn cap_external_text(text: &str, max_lines: usize) -> (r: (String, bool))
    ensures
        (r.0@, r.1) == cap_external_of(text@, max_lines as int),
{
    let lines = split_lines(text);
    if lines.len() <= max_lines {
        return (text.to_owned(), false);
    }
    let mut kept: Vec<String> = Vec::new();
    let mut i: usize = 0;
    while i + 1 < max_lines
        invariant
            i < max_lines || max_lines == 0,
            i <= max_lines,
            max_lines < lines@.len(),
            texts(kept@) == texts(lines@).take(i as int),
        decreases max_lines - i,
    {
        let ghost before = kept@;
        let line = lines[i].clone();
        kept.push(line);
        proof {
            assert(kept@ == before.push(line));
            assert(texts(kept@) =~= texts(before).push(line@));
            assert(texts(kept@) =~= texts(lines@).take(i + 1));
        }
        i = i + 1;
    }
    if max_lines > 0 {
        let ghost before = kept@;
        kept.push(string_from("--- truncated by span --max-lines ---"));
        proof {
            assert(i == max_lines - 1);
            assert(texts(kept@) =~= texts(lines@).take(max_lines as int).update(max_lines - 1, truncation_marker()));
        }
    } else {
        proof {
            assert(texts(kept@) =~= texts(lines@).take(0));
        }
    }
    let mut out = String::new();
    let n = kept.len();
    push_joined(&mut out, kept.as_slice(), 0, n);
    push_char(&mut out, '\n');
    proof {
        assert(texts(kept@).subrange(0, n as int) =~= texts(kept@));
        assert(Seq::<char>::empty() + join_lines(texts(kept@)) =~= join_lines(texts(kept@)));
    }
    (out, true)
}

/// What the run of an external backend gives: its cut output, or the error to report.
pub open spec fn external_result_of(backend: Backend, max_lines: int, o: OutcomeModel) -> Result<ExternalModel, Seq<char>> {
    let name = backend_text(backend);
    match o {
        OutcomeModel::NotFound => Err("backend "@ + name + " is not available in PATH"@),
        OutcomeModel::StartFailed(e) => Err("backend "@ + name + " failed to start: "@ + e),
        OutcomeModel::Exited { code, stderr } => Err(
            "backend "@ + name + " failed with exit "@ + signed_decimal(
                match code {
                    Some(c) => c as int,
                    None => 1,
                },
            ) + ": "@ + trim(stderr),
        ),
        OutcomeModel::Succeeded { stdout } => {
            let (text, truncated) = cap_external_of(stdout, max_lines);
            Ok(ExternalModel { backend, text, truncated })
        },
    }
}

/// The value of a backend result.
pub open spec fn external_result_view(r: Result<ExternalSpan, String>) -> Result<ExternalModel, Seq<char>> {
    match r {
        Ok(e) => Ok(e@),
        Err(m) => Err(m@),
    }
}

/// Reads the outcome of running the external `backend`.
pub fn external_result(backend: Backend, max_lines: usize, outcome: &ProcessOutcome) -> (r: Result<ExternalSpan, String>)
    ensures
        external_result_view(r) == external_result_of(backend, max_lines as int, outcome@),
{
    let name = backend_name(backend);
    let mut m = string_from("backend ");
    push_str(&mut m, name);
    match outcome {
        ProcessOutcome::NotFound => {
            push_str(&mut m, " is not available in PATH");
            Err(m)
        },
        ProcessOutcome::StartFailed(e) => {
            push_str(&mut m, " failed to start: ");
            push_str(&mut m, e.as_str());
            Err(m)
        },
        ProcessOutcome::Exited { code, stderr } => {
            push_str(&mut m, " failed with exit ");
            let c: i32 = match code {
                Some(c) => *c,
                None => 1,
            };
            push_signed_decimal(&mut m, c as i64);
            push_str(&mut m, ": ");
            let s = chars_of(stderr.as_str());
            let (a, b) = trim_bounds(s.as_slice());
            let t = string_of(s.as_slice(), a, b);
            push_str(&mut m, t.as_str());
            proof {
                let name_t = backend_text(backend);
                let code_t = signed_decimal(c as int);
                assert(m@ =~= "backend "@ + name_t + " failed with exit "@ + code_t + ": "@ + trim(stderr@));
            }
            Err(m)
        },
        ProcessOutcome::Succeeded { stdout } => {
            let (text, truncated) = cap_external_text(stdout.as_str(), max_lines);
            Ok(ExternalSpan { backend, text, truncated })
        },
    }
}

/// A program to start, with its arguments.
#[derive(Debug)]
pub struct Launch {
    pub program: &'static str,
    pub args: Vec<String>,
}

/// The value of a `Launch`.
pub struct LaunchModel {
    pub program: Seq<char>,
    pub args: Seq<Seq<char>>,
}

impl View for Launch {
    type V = LaunchModel;

    open spec fn view(&self) -> LaunchModel {
        LaunchModel { program: self.program@, args: texts(self.args@) }
    }
}

/// The start of `program` that asks it for `symbol` of `file`: `program show FILE SYMBOL`.
pub open spec fn show_launch(program: Seq<char>, file: Seq<char>, symbol: Seq<char>) -> LaunchModel {
    LaunchModel { program, args: seq!["show"@, file, symbol] }
}

fn show_request(program: &'static str, file: &str, symbol: &str) -> (r: Launch)
    ensures
        r@ == show_launch(program@, file@, symbol@),
{
    let mut args: Vec<String> = Vec::new();
    args.push(string_from("show"));
    args.push(string_from(file));
    args.push(string_from(symbol));
    proof {
        assert(texts(args@) =~= seq!["show"@, file@, symbol@]);
    }
    Launch { program, args }
}

/// The next step of running an external backend: start a program, or the result.
#[derive(Debug)]
pub enum ExternalStep {
    Start(Launch),
    Done(Result<Option<ExternalSpan>, String>),
}

/// The value of an `ExternalStep`.
pub enum ExternalStepModel {
    Start(LaunchModel),
    Done(Result<Option<ExternalModel>, Seq<char>>),
}

impl View for ExternalStep {
    type V = ExternalStepModel;

    open spec fn view(&self) -> ExternalStepModel {
        match self {
            ExternalStep::Start(l) => ExternalStepModel::Start(l@),
            ExternalStep::Done(Ok(Some(e))) => ExternalStepModel::Done(Ok(Some(e@))),
            ExternalStep::Done(Ok(None)) => ExternalStepModel::Done(Ok(None)),
            ExternalStep::Done(Err(m)) => ExternalStepModel::Done(Err(m@)),
        }
    }
}

/// The value of an optional outcome.
pub open spec fn outcome_view(o: Option<&ProcessOutcome>) -> Option<OutcomeModel> {
    match o {
        Some(x) => Some(x@),
        None => None,
    }
}

/// Running `backend` on `symbol` of `file`, given how its program's run went
/// (`o`, `None` while it has not run): backends that have no program give
/// `Ok(None)` and start none; else the program is asked to start, once, and
/// its outcome is read.
pub open spec fn external_step_of(
    backend: Backend,
    file: Seq<char>,
    symbol: Seq<char>,
    max_lines: int,
    o: Option<OutcomeModel>,
) -> ExternalStepModel {
    match external_command_of(backend) {
        None => ExternalStepModel::Done(Ok(None)),
        Some((_name, binary)) => match o {
            None => ExternalStepModel::Start(show_launch(binary@, file, symbol)),
            Some(o) => ExternalStepModel::Done(
                match external_result_of(backend, max_lines, o) {
                    Ok(e) => Ok(Some(e)),
                    Err(m) => Err(m),
                },
            ),
        },
    }
}

/// Runs the external `backend` on `symbol` of `file`. Without `outcome` it
/// asks for its program to be started (`ast-outline show FILE SYMBOL` or
/// `ast-bro show FILE SYMBOL`); with the outcome of that run it gives the
/// result. `Heuristic` and `Auto` run no program and give `Ok(None)`.
pub fn run_external_backend(
    backend: Backend,
    file: &str,
    symbol: &str,
    max_lines: usize,
    outcome: Option<&ProcessOutcome>,
) -> (r: ExternalStep)
    ensures
        r@ == external_step_of(backend, file@, symbol@, max_lines as int, outcome_view(outcome)),
{
    match external_backend_command(backend) {
        None => ExternalStep::Done(Ok(None)),
        Some((_name, binary)) => match outcome {
            None => ExternalStep::Start(show_request(binary, file, symbol)),
            Some(o) => match external_result(backend, max_lines, o) {
                Ok(e) => ExternalStep::Done(Ok(Some(e))),
                Err(m) => ExternalStep::Done(Err(m)),
            },
        },
    }
}

/// The selection of the built-in extractor.
pub open spec fn heuristic_selection(reason: Seq<char>, fallback_used: bool, truncated: bool) -> SelectionModel {
    SelectionModel { backend: Backend::Heuristic, reason, fallback_used, external: None, truncated }
}

/// The backend chosen for a span whose symbol is `symbol`: `r1` is what the
/// first external backend tried gave (`ast-outline` for `auto`, else the one
/// asked for) and `r2` what `ast-bro` gave when `auto` tried it second.
pub open spec fn selection_of(
    backend: Backend,
    symbol: Seq<char>,
    local_truncated: bool,
    r1: Result<ExternalModel, Seq<char>>,
    r2: Result<ExternalModel, Seq<char>>,
) -> Result<SelectionModel, Seq<char>> {
    if backend == Backend::Heuristic {
        Ok(heuristic_selection("heuristic backend selected explicitly"@, false, local_truncated))
    } else if !is_external_symbol_of(symbol) {
        if backend == Backend::Auto {
            Ok(
                heuristic_selection(
                    "auto fell back to heuristic because no concrete symbol was inferred ("@ + symbol + ")"@,
                    true,
                    local_truncated,
                ),
            )
        } else {
            Err("backend "@ + backend_text(backend) + " requires a concrete symbol; got "@ + symbol)
        }
    } else if backend == Backend::Auto {
        match r1 {
            Ok(e) => Ok(
                SelectionModel {
                    backend: e.backend,
                    reason: "auto selected "@ + backend_text(e.backend) + " for symbol "@ + symbol,
                    fallback_used: false,
                    external: Some(e),
                    truncated: e.truncated,
                },
            ),
            Err(_) => match r2 {
                Ok(e) => Ok(
                    SelectionModel {
                        backend: e.backend,
                        reason: "auto selected "@ + backend_text(e.backend) + " for symbol "@ + symbol,
                        fallback_used: true,
                        external: Some(e),
                        truncated: e.truncated,
                    },
                ),
                Err(_) => Ok(
                    heuristic_selection(
                        "auto fell back to heuristic because no external backend succeeded"@,
                        true,
                        local_truncated,
                    ),
                ),
            },
        }
    } else {
        match r1 {
            Ok(e) => Ok(
                SelectionModel {
                    backend: e.backend,
                    reason: "explicit backend "@ + backend_text(e.backend) + " selected for symbol "@ + symbol,
                    fallback_used: false,
                    external: Some(e),
                    truncated: e.truncated,
                },
            ),
            Err(m) => Err(m),
        }
    }
}

/// The program that the first external attempt runs.
pub open spec fn first_program(backend: Backend) -> &'static str {
    if backend == Backend::AstBro {
        "ast-bro"
    } else {
        "ast-outline"
    }
}

/// The backend that the first external attempt runs.
pub open spec fn first_backend(backend: Backend) -> Backend {
    if backend == Backend::AstBro {
        Backend::AstBro
    } else {
        Backend::AstOutline
    }
}

/// The backend chosen for a span, given how the first external attempt
/// (`o1`) and, for `auto`, the `ast-bro` attempt (`o2`) went.
pub open spec fn selection_with(
    backend: Backend,
    symbol: Seq<char>,
    local_truncated: bool,
    max_lines: int,
    o1: OutcomeModel,
    o2: OutcomeModel,
) -> Result<SelectionModel, Seq<char>> {
    selection_of(
        backend,
        symbol,
        local_truncated,
        external_result_of(first_backend(backend), max_lines, o1),
        external_result_of(Backend::AstBro, max_lines, o2),
    )
}

fn selection(backend: Backend, reason: String, fallback_used: bool, external: Option<ExternalSpan>, truncated: bool) -> (r: BackendSelection)
    ensures
        r@ == (SelectionModel { backend, reason: reason@, fallback_used, external: opt_external(external), truncated }),
{
    BackendSelection { backend, reason, fallback_used, external, truncated }
}

fn three(a: &str, b: &str, c: &str) -> (r: String)
    ensures
        r@ == a@ + b@ + c@,
{
    let mut m = string_from(a);
    push_str(&mut m, b);
    push_str(&mut m, c);
    m
}

/// The next step of choosing a backend: start a program, or the choice.
#[derive(Debug)]
pub enum BackendStep {
    Start(Launch),
    Done(Result<BackendSelection, String>),
}

/// The value of a `BackendStep`.
pub enum BackendStepModel {
    Start(LaunchModel),
    Done(Result<SelectionModel, Seq<char>>),
}

impl View for BackendStep {
    type V = BackendStepModel;

    open spec fn view(&self) -> BackendStepModel {
        match self {
            BackendStep::Start(l) => BackendStepModel::Start(l@),
            BackendStep::Done(Ok(s)) => BackendStepModel::Done(Ok(s@)),
            BackendStep::Done(Err(m)) => BackendStepModel::Done(Err(m@)),
        }
    }
}

/// Whether choosing `backend` for a span named `symbol` runs external programs at all.
pub open spec fn runs_programs(backend: Backend, symbol: Seq<char>) -> bool {
    backend != Backend::Heuristic && is_external_symbol_of(symbol)
}

/// The next step of choosing the backend for a span named `symbol` of `file`,
/// given the outcomes `outs` of the programs started so far, in order.
/// Without a concrete symbol, or for `heuristic`, no program is started. Else
/// the first program (`ast-outline`, or the one asked for) is started once;
/// `auto` starts `ast-bro` once more only when that failed; then the choice
/// is made from the outcomes.
pub open spec fn backend_step_of(
    backend: Backend,
    file: Seq<char>,
    symbol: Seq<char>,
    local_truncated: bool,
    max_lines: int,
    outs: Seq<OutcomeModel>,
) -> BackendStepModel {
    if !runs_programs(backend, symbol) {
        BackendStepModel::Done(selection_with(backend, symbol, local_truncated, max_lines, OutcomeModel::NotFound, OutcomeModel::NotFound))
    } else if outs.len() == 0 {
        BackendStepModel::Start(show_launch(first_program(backend)@, file, symbol))
    } else if backend == Backend::Auto && external_result_of(Backend::AstOutline, max_lines, outs[0]) is Err && outs.len()
        == 1 {
        BackendStepModel::Start(show_launch("ast-bro"@, file, symbol))
    } else {
        BackendStepModel::Done(
            selection_with(
                backend,
                symbol,
                local_truncated,
                max_lines,
                outs[0],
                if outs.len() >= 2 {
                    outs[1]
                } else {
                    OutcomeModel::NotFound
                },
            ),
        )
    }
}

/// The views of a sequence of outcomes.
pub open spec fn outcomes_view(outs: Seq<ProcessOutcome>) -> Seq<OutcomeModel> {
    outs.map_values(|o: ProcessOutcome| o@)
}

/// Chooses where the text of `span` comes from, one step at a time: given the
/// outcomes of the programs started so far (in order), either asks for the
/// next program to be started or gives the choice.
pub fn select_backend(
    backend: Backend,
    file: &str,
    span: &Span,
    max_lines: usize,
    local_truncated: bool,
    outcomes: &[ProcessOutcome],
) -> (r: BackendStep)
    ensures
        r@ == backend_step_of(backend, file@, span.symbol@, local_truncated, max_lines as int, outcomes_view(outcomes@)),
{
    let ghost none = OutcomeModel::NotFound;
    let ghost outs = outcomes_view(outcomes@);
    if backend == Backend::Heuristic {
        let reason = string_from("heuristic backend selected explicitly");
        return BackendStep::Done(Ok(selection(Backend::Heuristic, reason, false, None, local_truncated)));
    }
    if !is_external_symbol(span.symbol.as_str()) {
        if backend == Backend::Auto {
            let reason = three("auto fell back to heuristic because no concrete symbol was inferred (", span.symbol.as_str(), ")");
            return BackendStep::Done(Ok(selection(Backend::Heuristic, reason, true, None, local_truncated)));
        } else {
            let mut m = three("backend ", backend_name(backend), " requires a concrete symbol; got ");
            push_str(&mut m, span.symbol.as_str());
            return BackendStep::Done(Err(m));
        }
    }
    let first = if backend == Backend::AstBro {
        Backend::AstBro
    } else {
        Backend::AstOutline
    };
    let o1 = if outcomes.len() >= 1 {
        Some(&outcomes[0])
    } else {
        None
    };
    let r1 = match run_external_backend(first, file, span.symbol.as_str(), max_lines, o1) {
        ExternalStep::Start(l) => {
            return BackendStep::Start(l);
        },
        ExternalStep::Done(r) => r,
    };
    proof {
        assert(outs[0] == outcomes@[0]@);
    }
    if backend == Backend::Auto {
        if let Ok(Some(e)) = r1 {
            return BackendStep::Done(Ok(picked(e, "auto selected ", " for symbol ", &span.symbol, false)));
        }
        let o2 = if outcomes.len() >= 2 {
            Some(&outcomes[1])
        } else {
            None
        };
        let r2 = match run_external_backend(Backend::AstBro, file, span.symbol.as_str(), max_lines, o2) {
            ExternalStep::Start(l) => {
                return BackendStep::Start(l);
            },
            ExternalStep::Done(r) => r,
        };
        proof {
            assert(outs[1] == outcomes@[1]@);
        }
        if let Ok(Some(e)) = r2 {
            return BackendStep::Done(Ok(picked(e, "auto selected ", " for symbol ", &span.symbol, true)));
        }
        let reason = string_from("auto fell back to heuristic because no external backend succeeded");
        return BackendStep::Done(Ok(selection(Backend::Heuristic, reason, true, None, local_truncated)));
    }
    match r1 {
        Ok(Some(e)) => BackendStep::Done(Ok(picked(e, "explicit backend ", " selected for symbol ", &span.symbol, false))),
        Ok(None) => {
            proof {
                assert(false);
            }
            BackendStep::Done(Err(String::new()))
        },
        Err(m) => BackendStep::Done(Err(m)),
    }
}

/// The selection of the external span `e` for `symbol`, with the reason
/// `before` + backend name + `after` + symbol.
fn picked(e: ExternalSpan, before: &str, after: &str, symbol: &String, fallback_used: bool) -> (r: BackendSelection)
    ensures
        r@ == (SelectionModel {
            backend: e.backend,
            reason: before@ + backend_text(e.backend) + after@ + symbol@,
            fallback_used,
            external: Some(e@),
            truncated: e.truncated,
        }),
{
    let mut reason = three(before, backend_name(e.backend), after);
    push_str(&mut reason, symbol.as_str());
    let t = e.truncated;
    let b = e.backend;
    selection(b, reason, fallback_used, Some(e), t)
}

/// How running a backend with `--help` went.
#[derive(Debug)]
pub enum HelpOutcome {
    Succeeded,
    /// It exited unsuccessfully, with its exit code if it had one.
    Exited(Option<i32>),
    /// It could not be started, with the error's text.
    StartFailed(String),
}

/// The value of a `HelpOutcome`.
pub enum HelpModel {
    Succeeded,
    Exited(Option<i32>),
    StartFailed(Seq<char>),
}

impl View for HelpOutcome {
    type V = HelpModel;

    open spec fn view(&self) -> HelpModel {
        match self {
            HelpOutcome::Succeeded => HelpModel::Succeeded,
            HelpOutcome::Exited(c) => HelpModel::Exited(*c),
            HelpOutcome::StartFailed(e) => HelpModel::StartFailed(e@),
        }
    }
}

/// What `backend doctor` found out about one external backend.
#[derive(Debug)]
pub struct BackendProbe {
    pub name: &'static str,
    pub binary: &'static str,
    pub available: bool,
    pub path: Option<String>,
    pub help_ok: bool,
    pub help_status: String,
}

/// The value of a `BackendProbe`.
pub struct ProbeModel {
    pub name: Seq<char>,
    pub binary: Seq<char>,
    pub available: bool,
    pub path: Option<Seq<char>>,
    pub help_ok: bool,
    pub help_status: Seq<char>,
}

impl View for BackendProbe {
    type V = ProbeModel;

    open spec fn view(&self) -> ProbeModel {
        ProbeModel {
            name: self.name@,
            binary: self.binary@,
            available: self.available,
            path: crate::cli::opt_text(self.path),
            help_ok: self.help_ok,
            help_status: self.help_status@,
        }
    }
}

/// The report on a backend: `found` holds where its program was found on the
/// `PATH` and how running it with `--help` went.
pub open spec fn probe_of(name: Seq<char>, binary: Seq<char>, found: Option<(Seq<char>, HelpModel)>) -> ProbeModel {
    match found {
        None => ProbeModel {
            name,
            binary,
            available: false,
            path: None,
            help_ok: false,
            help_status: "not-run"@,
        },
        Some((path, help)) => ProbeModel {
            name,
            binary,
            available: true,
            path: Some(path),
            help_ok: help is Succeeded,
            help_status: match help {
                HelpModel::Succeeded => "ok"@,
                HelpModel::Exited(code) => "exit-"@ + signed_decimal(
                    match code {
                        Some(c) => c as int,
                        None => 1,
                    },
                ),
                HelpModel::StartFailed(e) => "start-error: "@ + e,
            },
        },
    }
}

/// The value of what a probe found.
pub open spec fn found_view(found: Option<(String, HelpOutcome)>) -> Option<(Seq<char>, HelpModel)> {
    match found {
        Some((p, h)) => Some((p@, h@)),
        None => None,
    }
}

/// The report on a backend from where its program was found and how `--help` went.
pub fn probe_backend(name: &'static str, binary: &'static str, found: Option<(String, HelpOutcome)>) -> (r: BackendProbe)
    ensures
        r@ == probe_of(name@, binary@, found_view(found)),
        r.name == name,
        r.binary == binary,
{
    match found {
        None => BackendProbe {
            name,
            binary,
            available: false,
            path: None,
            help_ok: false,
            help_status: string_from("not-run"),
        },
        Some((path, help)) => {
            let (help_ok, help_status) = match help {
                HelpOutcome::Succeeded => (true, string_from("ok")),
                HelpOutcome::Exited(code) => {
                    let mut m = string_from("exit-");
                    let c: i32 = match code {
                        Some(c) => c,
                        None => 1,
                    };
                    push_signed_decimal(&mut m, c as i64);
                    (false, m)
                },
                HelpOutcome::StartFailed(e) => {
                    let mut m = string_from("start-error: ");
                    push_str(&mut m, e.as_str());
                    (false, m)
                },
            };
            BackendProbe { name, binary, available: true, path: Some(path), help_ok, help_status }
        },
    }
}

/// The external backends that `backend doctor` probes, as (name, program), in
/// the order `auto` tries them.
pub fn backend_probes() -> (r: Vec<(&'static str, &'static str)>)
    ensures
        r@ == seq![("ast-outline", "ast-outline"), ("ast-bro", "ast-bro")],
{
    let mut r: Vec<(&'static str, &'static str)> = Vec::new();
    let order = [Backend::AstOutline, Backend::AstBro];
    let mut i: usize = 0;
    while i < 2
        invariant
            i <= 2,
            order@ == seq![Backend::AstOutline, Backend::AstBro],
            r@ == seq![("ast-outline", "ast-outline"), ("ast-bro", "ast-bro")].take(i as int),
        decreases 2 - i,
    {
        if let Some(cmd) = external_backend_command(order[i]) {
            r.push(cmd);
        }
        proof {
            assert(r@ =~= seq![("ast-outline", "ast-outline"), ("ast-bro", "ast-bro")].take(i + 1));
        }
        i = i + 1;
    }
    proof {
        assert(seq![("ast-outline", "ast-outline"), ("ast-bro", "ast-bro")].take(2) =~= seq![
            ("ast-outline", "ast-outline"),
            ("ast-bro", "ast-bro"),
        ]);
    }
    r
}

/// An executable file: a regular file some of whose execute permission bits
/// (`0o111`) are set in `mode`; where the platform has no such bits (`mode`
/// is `None`), every regular file.
pub open spec fn is_executable_of(is_file: bool, mode: Option<u32>) -> bool {
    is_file && match mode {
        Some(m) => m & 0o111u32 != 0,
        None => true,
    }
}

/// Whether a path is an executable file, from whether it is a regular file and
/// its permission bits (`None` on platforms without them).
pub fn is_executable_file(is_file: bool, mode: Option<u32>) -> (r: bool)
    ensures
        r == is_executable_of(is_file, mode),
{
    is_file && match mode {
        Some(m) => m & 0o111u32 != 0,
        None => true,
    }
}

} // verus!
