//! The command line: options, targets and the `backend doctor` subcommand.
use vstd::prelude::*;
use vstd::string::StrSliceExecFns;
use crate::symbol::{last_occurrence, last_occurrence_in};
use crate::text::{chars_of, parse_usize, parse_usize_of, push_str, str_eq, string_from, texts};

verus! {

/// Lines shown at most when `--max-lines` is not given.
pub const DEFAULT_MAX_LINES: usize = 80;

/// Where the text of a span comes from.
#[derive(Clone, Copy, Debug, PartialEq, Eq, Structural)]
pub enum Backend {
    Heuristic,
    Auto,
    AstOutline,
    AstBro,
}

/// What to look for.
#[derive(Debug)]
pub enum Target {
    /// `FILE:LINE`.
    Position(String),
    /// The first line that contains `pattern` under `root`.
    Contains { pattern: String, root: String },
    /// The first line that opens an item named `symbol` under `root`.
    Symbol { symbol: String, root: String },
}

/// The options of a span request.
#[derive(Debug)]
pub struct Args {
    pub target: Target,
    pub max_lines: usize,
    pub kind: Option<String>,
    pub backend: Backend,
    pub explain: bool,
    pub json: bool,
}

/// A parsed command line.
#[derive(Debug)]
pub enum Cli {
    /// Find and show a span.
    Span(Args),
    /// Report which external backends are installed.
    BackendDoctor { json: bool },
    /// Print the usage text (of `backend doctor` when `backend` holds) and stop.
    Help { backend: bool },
}

/// The value of a `Target`.
pub enum TargetModel {
    Position(Seq<char>),
    Contains { pattern: Seq<char>, root: Seq<char> },
    Symbol { symbol: Seq<char>, root: Seq<char> },
}

/// The value of an `Args`.
pub struct ArgsModel {
    pub target: TargetModel,
    pub max_lines: usize,
    pub kind: Option<Seq<char>>,
    pub backend: Backend,
    pub explain: bool,
    pub json: bool,
}

/// The value of a `Cli`.
pub enum CliModel {
    Span(ArgsModel),
    BackendDoctor { json: bool },
    Help { backend: bool },
}

/// The text of an optional string.
pub open spec fn opt_text(o: Option<String>) -> Option<Seq<char>> {
    match o {
        Some(s) => Some(s@),
        None => None,
    }
}

impl View for Target {
    type V = TargetModel;

    open spec fn view(&self) -> TargetModel {
        match self {
            Target::Position(p) => TargetModel::Position(p@),
            Target::Contains { pattern, root } => TargetModel::Contains { pattern: pattern@, root: root@ },
            Target::Symbol { symbol, root } => TargetModel::Symbol { symbol: symbol@, root: root@ },
        }
    }
}

impl View for Args {
    type V = ArgsModel;

    open spec fn view(&self) -> ArgsModel {
        ArgsModel {
            target: self.target@,
            max_lines: self.max_lines,
            kind: opt_text(self.kind),
            backend: self.backend,
            explain: self.explain,
            json: self.json,
        }
    }
}

impl View for Cli {
    type V = CliModel;

    open spec fn view(&self) -> CliModel {
        match self {
            Cli::Span(a) => CliModel::Span(a@),
            Cli::BackendDoctor { json } => CliModel::BackendDoctor { json: *json },
            Cli::Help { backend } => CliModel::Help { backend: *backend },
        }
    }
}

/// The text of a result whose error is a message.
pub open spec fn err_text<T>(r: Result<T, String>) -> Result<T, Seq<char>> {
    match r {
        Ok(v) => Ok(v),
        Err(e) => Err(e@),
    }
}

/// The name of a backend on the command line.
pub open spec fn backend_text(b: Backend) -> Seq<char> {
    match b {
        Backend::Heuristic => "heuristic"@,
        Backend::Auto => "auto"@,
        Backend::AstOutline => "ast-outline"@,
        Backend::AstBro => "ast-bro"@,
    }
}

/// The backend that a `--backend` value names.
pub open spec fn parse_backend_of(value: Seq<char>) -> Result<Backend, Seq<char>> {
    if value == "heuristic"@ {
        Ok(Backend::Heuristic)
    } else if value == "auto"@ {
        Ok(Backend::Auto)
    } else if value == "ast-outline"@ {
        Ok(Backend::AstOutline)
    } else if value == "ast-bro"@ {
        Ok(Backend::AstBro)
    } else {
        Err("unknown backend "@ + value + "; expected heuristic, auto, ast-outline, or ast-bro"@)
    }
}

/// The name of a backend on the command line.
pub fn backend_name(backend: Backend) -> (r: &'static str)
    ensures
        r@ == backend_text(backend),
{
    match backend {
        Backend::Heuristic => "heuristic",
        Backend::Auto => "auto",
        Backend::AstOutline => "ast-outline",
        Backend::AstBro => "ast-bro",
    }
}

/// The backend that a `--backend` value names.
pub fn parse_backend(value: &str) -> (r: Result<Backend, String>)
    ensures
        err_text(r) == parse_backend_of(value@),
{
    if str_eq(value, "heuristic") {
        Ok(Backend::Heuristic)
    } else if str_eq(value, "auto") {
        Ok(Backend::Auto)
    } else if str_eq(value, "ast-outline") {
        Ok(Backend::AstOutline)
    } else if str_eq(value, "ast-bro") {
        Ok(Backend::AstBro)
    } else {
        let mut m = string_from("unknown backend ");
        push_str(&mut m, value);
        push_str(&mut m, "; expected heuristic, auto, ast-outline, or ast-bro");
        Err(m)
    }
}

/// What has been read of a span command line so far.
pub struct ArgState {
    pub max_lines: usize,
    pub kind: Option<Seq<char>>,
    pub backend: Backend,
    pub explain: bool,
    pub json: bool,
    pub contains: Option<Seq<char>>,
    pub symbol: Option<Seq<char>>,
    pub position: Option<Seq<char>>,
    pub root: Option<Seq<char>>,
}

/// Nothing read yet.
pub open spec fn initial_arg_state() -> ArgState {
    ArgState {
        max_lines: DEFAULT_MAX_LINES,
        kind: None,
        backend: Backend::Heuristic,
        explain: false,
        json: false,
        contains: None,
        symbol: None,
        position: None,
        root: None,
    }
}

/// Reads the arguments from index `i` on: `Ok(Some(state))` when all are read,
/// `Ok(None)` when help is asked for first, `Err(message)` at the first error.
pub open spec fn scan_args(input: Seq<Seq<char>>, i: int, st: ArgState) -> Result<Option<ArgState>, Seq<char>>
    decreases input.len() - i,
{
    if i < 0 || i >= input.len() {
        Ok(Some(st))
    } else {
        let arg = input[i];
        if arg == "--max-lines"@ {
            if i + 1 >= input.len() {
                Err("--max-lines requires a value"@)
            } else {
                match parse_usize_of(input[i + 1]) {
                    Some(v) => if v == 0 {
                        Err("--max-lines requires a positive integer"@)
                    } else {
                        scan_args(input, i + 2, ArgState { max_lines: v, ..st })
                    },
                    None => Err("--max-lines requires a positive integer"@),
                }
            }
        } else if arg == "--kind"@ {
            if i + 1 >= input.len() {
                Err("--kind requires a value"@)
            } else {
                scan_args(input, i + 2, ArgState { kind: Some(input[i + 1]), ..st })
            }
        } else if arg == "--backend"@ {
            if i + 1 >= input.len() {
                Err("--backend requires a value"@)
            } else {
                match parse_backend_of(input[i + 1]) {
                    Ok(b) => scan_args(input, i + 2, ArgState { backend: b, ..st }),
                    Err(e) => Err(e),
                }
            }
        } else if arg == "--contains"@ {
            if i + 1 >= input.len() {
                Err("--contains requires a pattern"@)
            } else {
                scan_args(input, i + 2, ArgState { contains: Some(input[i + 1]), ..st })
            }
        } else if arg == "--symbol"@ {
            if i + 1 >= input.len() {
                Err("--symbol requires a name"@)
            } else {
                scan_args(input, i + 2, ArgState { symbol: Some(input[i + 1]), ..st })
            }
        } else if arg == "--json"@ {
            scan_args(input, i + 1, ArgState { json: true, ..st })
        } else if arg == "--explain"@ {
            scan_args(input, i + 1, ArgState { explain: true, ..st })
        } else if arg == "-h"@ || arg == "--help"@ {
            Ok(None)
        } else if (st.contains is Some || st.symbol is Some) && st.root is None {
            scan_args(input, i + 1, ArgState { root: Some(arg), ..st })
        } else if st.contains is None && st.symbol is None && st.position is None {
            scan_args(input, i + 1, ArgState { position: Some(arg), ..st })
        } else {
            Err("unexpected argument: "@ + arg)
        }
    }
}

/// The request that a fully read command line makes.
pub open spec fn finish_args(st: ArgState) -> Result<ArgsModel, Seq<char>> {
    if st.contains is Some && st.symbol is Some {
        Err("--contains and --symbol cannot be used together"@)
    } else {
        let root = match st.root {
            Some(r) => r,
            None => "."@,
        };
        let target = if st.contains is Some {
            Some(TargetModel::Contains { pattern: st.contains.unwrap(), root })
        } else if st.symbol is Some {
            Some(TargetModel::Symbol { symbol: st.symbol.unwrap(), root })
        } else {
            match st.position {
                Some(p) => Some(TargetModel::Position(p)),
                None => None,
            }
        };
        match target {
            Some(t) => Ok(
                ArgsModel {
                    target: t,
                    max_lines: st.max_lines,
                    kind: st.kind,
                    backend: st.backend,
                    explain: st.explain,
                    json: st.json,
                },
            ),
            None => Err("missing FILE:LINE target"@),
        }
    }
}

/// A span command line: `Ok(None)` when help is asked for.
pub open spec fn parse_args_of(input: Seq<Seq<char>>) -> Result<Option<ArgsModel>, Seq<char>> {
    match scan_args(input, 0, initial_arg_state()) {
        Ok(Some(st)) => match finish_args(st) {
            Ok(a) => Ok(Some(a)),
            Err(e) => Err(e),
        },
        Ok(None) => Ok(None),
        Err(e) => Err(e),
    }
}

/// The value of a parsed span command line.
pub open spec fn args_result_view(r: Result<Option<Args>, String>) -> Result<Option<ArgsModel>, Seq<char>> {
    match r {
        Ok(Some(a)) => Ok(Some(a@)),
        Ok(None) => Ok(None),
        Err(e) => Err(e@),
    }
}

/// The value of a parsed command line.
pub open spec fn cli_result_view(r: Result<Cli, String>) -> Result<CliModel, Seq<char>> {
    match r {
        Ok(c) => Ok(c@),
        Err(e) => Err(e@),
    }
}

spec fn state_view(
    max_lines: usize,
    kind: Option<String>,
    backend: Backend,
    explain: bool,
    json: bool,
    contains: Option<String>,
    symbol: Option<String>,
    position: Option<String>,
    root: Option<String>,
) -> ArgState {
    ArgState {
        max_lines,
        kind: opt_text(kind),
        backend,
        explain,
        json,
        contains: opt_text(contains),
        symbol: opt_text(symbol),
        position: opt_text(position),
        root: opt_text(root),
    }
}

fn message(prefix: &str, arg: &str) -> (r: String)
    ensures
        r@ == prefix@ + arg@,
{
    let mut m = string_from(prefix);
    push_str(&mut m, arg);
    m
}

/// Parses the arguments of a span request; `Ok(None)` when help is asked for.
pub fn parse_args(input: Vec<String>) -> (r: Result<Option<Args>, String>)
    ensures
        args_result_view(r) == parse_args_of(texts(input@)),
{
    let ghost inp = texts(input@);
    let n = input.len();
    let mut max_lines: usize = DEFAULT_MAX_LINES;
    let mut kind: Option<String> = None;
    let mut backend = Backend::Heuristic;
    let mut explain = false;
    let mut json = false;
    let mut contains: Option<String> = None;
    let mut symbol: Option<String> = None;
    let mut position: Option<String> = None;
    let mut root: Option<String> = None;
    let mut i: usize = 0;
    while i < n
        invariant
            n == input@.len(),
            inp == texts(input@),
            i <= n,
            scan_args(inp, 0, initial_arg_state()) == scan_args(
                inp,
                i as int,
                state_view(max_lines, kind, backend, explain, json, contains, symbol, position, root),
            ),
        decreases n - i,
    {
        let ghost st = state_view(max_lines, kind, backend, explain, json, contains, symbol, position, root);
        let arg = input[i].as_str();
        let has_next = i + 1 < n;
        if str_eq(arg, "--max-lines") {
            if !has_next {
                return Err(string_from("--max-lines requires a value"));
            }
            match parse_usize(input[i + 1].as_str()) {
                Some(v) => {
                    if v == 0 {
                        return Err(string_from("--max-lines requires a positive integer"));
                    }
                    max_lines = v;
                },
                None => {
                    return Err(string_from("--max-lines requires a positive integer"));
                },
            }
            i = i + 2;
        } else if str_eq(arg, "--kind") {
            if !has_next {
                return Err(string_from("--kind requires a value"));
            }
            kind = Some(input[i + 1].clone());
            i = i + 2;
        } else if str_eq(arg, "--backend") {
            if !has_next {
                return Err(string_from("--backend requires a value"));
            }
            match parse_backend(input[i + 1].as_str()) {
                Ok(b) => {
                    backend = b;
                },
                Err(e) => {
                    return Err(e);
                },
            }
            i = i + 2;
        } else if str_eq(arg, "--contains") {
            if !has_next {
                return Err(string_from("--contains requires a pattern"));
            }
            contains = Some(input[i + 1].clone());
            i = i + 2;
        } else if str_eq(arg, "--symbol") {
            if !has_next {
                return Err(string_from("--symbol requires a name"));
            }
            symbol = Some(input[i + 1].clone());
            i = i + 2;
        } else if str_eq(arg, "--json") {
            json = true;
            i = i + 1;
        } else if str_eq(arg, "--explain") {
            explain = true;
            i = i + 1;
        } else if str_eq(arg, "-h") || str_eq(arg, "--help") {
            return Ok(None);
        } else if (contains.is_some() || symbol.is_some()) && root.is_none() {
            root = Some(input[i].clone());
            i = i + 1;
        } else if contains.is_none() && symbol.is_none() && position.is_none() {
            position = Some(input[i].clone());
            i = i + 1;
        } else {
            return Err(message("unexpected argument: ", arg));
        }
    }
    proof {
        let st = state_view(max_lines, kind, backend, explain, json, contains, symbol, position, root);
        assert(scan_args(inp, i as int, st) == Ok::<Option<ArgState>, Seq<char>>(Some(st)));
    }
    if contains.is_some() && symbol.is_some() {
        return Err(string_from("--contains and --symbol cannot be used together"));
    }
    let target = match contains {
        Some(pattern) => Target::Contains {
            pattern,
            root: match root {
                Some(r) => r,
                None => string_from("."),
            },
        },
        None => match symbol {
            Some(symbol) => Target::Symbol {
                symbol,
                root: match root {
                    Some(r) => r,
                    None => string_from("."),
                },
            },
            None => match position {
                Some(p) => Target::Position(p),
                None => {
                    return Err(string_from("missing FILE:LINE target"));
                },
            },
        },
    };
    Ok(Some(Args { target, max_lines, kind, backend, explain, json }))
}

/// The `backend` subcommand with the arguments that follow it.
pub open spec fn parse_backend_command_of(input: Seq<Seq<char>>) -> Result<CliModel, Seq<char>> {
    if input.len() == 0 {
        Err("backend requires a subcommand"@)
    } else if input[0] != "doctor"@ {
        Err("unknown backend subcommand: "@ + input[0])
    } else {
        scan_doctor_args(input, 1, false)
    }
}

/// Reads the options of `backend doctor` from index `i` on.
pub open spec fn scan_doctor_args(input: Seq<Seq<char>>, i: int, json: bool) -> Result<CliModel, Seq<char>>
    decreases input.len() - i,
{
    if i < 0 || i >= input.len() {
        Ok(CliModel::BackendDoctor { json })
    } else if input[i] == "--json"@ {
        scan_doctor_args(input, i + 1, true)
    } else if input[i] == "-h"@ || input[i] == "--help"@ {
        Ok(CliModel::Help { backend: true })
    } else {
        Err("unexpected argument: "@ + input[i])
    }
}

/// Parses the arguments after `backend`.
pub fn parse_backend_command(input: Vec<String>) -> (r: Result<Cli, String>)
    ensures
        cli_result_view(r) == parse_backend_command_of(texts(input@)),
{
    let ghost inp = texts(input@);
    let n = input.len();
    if n == 0 {
        return Err(string_from("backend requires a subcommand"));
    }
    if !str_eq(input[0].as_str(), "doctor") {
        return Err(message("unknown backend subcommand: ", input[0].as_str()));
    }
    let mut json = false;
    let mut i: usize = 1;
    while i < n
        invariant
            n == input@.len(),
            inp == texts(input@),
            1 <= i <= n,
            inp[0] == "doctor"@,
            scan_doctor_args(inp, 1, false) == scan_doctor_args(inp, i as int, json),
        decreases n - i,
    {
        let arg = input[i].as_str();
        if str_eq(arg, "--json") {
            json = true;
        } else if str_eq(arg, "-h") || str_eq(arg, "--help") {
            return Ok(Cli::Help { backend: true });
        } else {
            return Err(message("unexpected argument: ", arg));
        }
        i = i + 1;
    }
    Ok(Cli::BackendDoctor { json })
}

/// A whole command line: `backend ...` or a span request.
pub open spec fn parse_cli_of(input: Seq<Seq<char>>) -> Result<CliModel, Seq<char>> {
    if input.len() > 0 && input[0] == "backend"@ {
        parse_backend_command_of(input.skip(1))
    } else {
        match parse_args_of(input) {
            Ok(Some(a)) => Ok(CliModel::Span(a)),
            Ok(None) => Ok(CliModel::Help { backend: false }),
            Err(e) => Err(e),
        }
    }
}

/// Parses a whole command line (without the program name).
pub fn parse_cli(input: Vec<String>) -> (r: Result<Cli, String>)
    ensures
        cli_result_view(r) == parse_cli_of(texts(input@)),
{
    if input.len() > 0 && str_eq(input[0].as_str(), "backend") {
        let mut rest = input;
        let _ = rest.remove(0);
        proof {
            assert(texts(rest@) =~= texts(input@).skip(1));
        }
        parse_backend_command(rest)
    } else {
        match parse_args(input) {
            Ok(Some(a)) => Ok(Cli::Span(a)),
            Ok(None) => Ok(Cli::Help { backend: false }),
            Err(e) => Err(e),
        }
    }
}

/// What a `FILE:LINE` target names: the text before the last `:` and the line
/// number after it.
pub open spec fn parse_target_of(target: Seq<char>) -> Result<(Seq<char>, usize), Seq<char>> {
    match last_occurrence(target, ":"@) {
        Some(q) => match parse_usize_of(target.skip(q + 1)) {
            Some(line) => Ok((target.take(q), line)),
            None => Err("line must be a positive integer"@),
        },
        None => Err("target must be FILE:LINE"@),
    }
}

/// Splits a `FILE:LINE` target at its last `:`.
pub fn parse_target(target: &str) -> (r: Result<(&str, usize), String>)
    ensures
        match r {
            Ok((file, line)) => parse_target_of(target@) == Ok::<(Seq<char>, usize), Seq<char>>((file@, line)),
            Err(e) => parse_target_of(target@) == Err::<(Seq<char>, usize), Seq<char>>(e@),
        },
{
    let s = chars_of(target);
    let n = s.len();
    let colon = chars_of(":");
    proof {
        reveal_strlit(":");
        assert(s@.skip(0) =~= s@);
    }
    match last_occurrence_in(s.as_slice(), 0, colon.as_slice()) {
        None => Err(string_from("target must be FILE:LINE")),
        Some(q) => {
            let rest = target.substring_char(q + 1, n);
            proof {
                assert(s@.subrange(q + 1, s@.len() as int) =~= s@.skip(q + 1));
            }
            match parse_usize(rest) {
                Some(line) => {
                    let file = target.substring_char(0, q);
                    proof {
                        assert(s@.subrange(0, q as int) =~= s@.take(q as int));
                    }
                    Ok((file, line))
                },
                None => Err(string_from("line must be a positive integer")),
            }
        },
    }
}

} // verus!
