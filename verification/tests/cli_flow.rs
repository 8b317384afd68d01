use span::backend::{
    probe_backend, select_backend, BackendProbe, BackendSelection, BackendStep, HelpOutcome,
    ProcessOutcome,
};
use span::cli::{parse_cli, parse_target, Args, Cli, Target};
use span::render::render_backend_doctor;
use span::run::{evaluate_candidate, no_span_error, render_span_output, search_step, SearchStep};
use span::span::Span;
use span::search::{collect_matches, collect_symbol_matches, find_contains, find_symbol};

/// Runs a span request against in-memory files, in the order a directory walk
/// would visit them, and returns what would be printed (stdout, stderr).
fn run_request<F>(argv: &[&str], files: &[(&str, &str)], launch: F) -> Result<(String, String), String>
where
    F: Fn(&str, &str, &String) -> ProcessOutcome,
{
    let input: Vec<String> = argv.iter().map(|s| s.to_string()).collect();
    let args: Args = match parse_cli(input)? {
        Cli::Span(args) => args,
        other => panic!("not a span request: {other:?}"),
    };
    let candidates: Vec<(String, usize)> = match &args.target {
        Target::Position(target) => {
            let (file, line) = parse_target(target)?;
            vec![(file.to_string(), line)]
        }
        Target::Contains { pattern, .. } => {
            let mut matches = Vec::new();
            for (path, text) in files {
                collect_matches(path, text, pattern, &mut matches);
            }
            find_contains(pattern, matches)?
        }
        Target::Symbol { symbol, .. } => {
            let mut matches = Vec::new();
            for (path, text) in files {
                collect_symbol_matches(path, text, symbol, &mut matches);
            }
            find_symbol(symbol, matches)?
        }
    };
    let mut saw_mismatch = false;
    for (file, line) in candidates {
        let text = files
            .iter()
            .find(|(path, _)| *path == file)
            .map(|(_, text)| text.to_string())
            .ok_or_else(|| "No such file or directory (os error 2)".to_string());
        let candidate = evaluate_candidate(&args.kind, args.max_lines, &file, line, text);
        match search_step(saw_mismatch, candidate) {
            SearchStep::Fail(message) => return Err(message),
            SearchStep::Next { saw_mismatch: saw } => saw_mismatch = saw,
            SearchStep::Show { lines, span, local_truncated } => {
                let selection =
                    drive(args.backend, &file, &span, args.max_lines, local_truncated, &launch)?;
                let out = render_span_output(
                    args.explain,
                    args.json,
                    &file,
                    line,
                    &lines,
                    &span,
                    &selection,
                );
                return Ok((out.stdout, out.stderr));
            }
        }
    }
    Err(no_span_error(&args.kind, saw_mismatch))
}

/// Takes the backend choice step by step; each program it asks for is "run"
/// by `launch` with (program, file, symbol).
fn drive<F>(
    backend: span::cli::Backend,
    file: &str,
    span: &Span,
    max_lines: usize,
    local_truncated: bool,
    launch: &F,
) -> Result<BackendSelection, String>
where
    F: Fn(&str, &str, &String) -> ProcessOutcome,
{
    let mut outcomes: Vec<ProcessOutcome> = Vec::new();
    loop {
        match select_backend(backend, file, span, max_lines, local_truncated, &outcomes) {
            BackendStep::Start(request) => {
                assert_eq!(request.args.len(), 3);
                assert_eq!(request.args[0], "show");
                outcomes.push(launch(request.program, &request.args[1], &request.args[2]));
            }
            BackendStep::Done(result) => return result,
        }
    }
}

fn missing(_: &str, _: &str, _: &String) -> ProcessOutcome {
    ProcessOutcome::NotFound
}

#[test]
fn extracts_containing_rust_function() {
    let text = "fn alpha() {\n    let value = 42;\n    println!(\"{value}\");\n}\n\nfn beta() {}\n";
    let (stdout, _) = run_request(&["/tmp/span-rust/sample.rs:2"], &[("/tmp/span-rust/sample.rs", text)], missing)
        .expect("run span");
    assert!(stdout.contains("range: 1..4"), "{stdout}");
    assert!(stdout.contains("kind: function"), "{stdout}");
    assert!(stdout.contains("symbol: alpha"), "{stdout}");
    assert!(stdout.contains(">    2 |     let value = 42;"), "{stdout}");
}

#[test]
fn json_output_contains_target_text() {
    let text = "def alpha():\n    return 42\n";
    let (stdout, _) = run_request(
        &["--json", "/tmp/span-json/sample.py:2"],
        &[("/tmp/span-json/sample.py", text)],
        missing,
    )
    .expect("run span");
    assert!(stdout.contains("\"tool\":\"span\""), "{stdout}");
    assert!(stdout.contains("\"backend\":\"heuristic\""), "{stdout}");
    assert!(
        stdout.contains("\"backend_reason\":\"heuristic backend selected explicitly\""),
        "{stdout}"
    );
    assert!(stdout.contains("\"fallback_used\":false"), "{stdout}");
    assert!(stdout.contains("\"truncated\":false"), "{stdout}");
    assert!(stdout.contains("\"symbol\":\"alpha\""), "{stdout}");
    assert!(stdout.contains("return 42"), "{stdout}");
}

#[test]
fn contains_finds_first_matching_span() {
    let text = "fn alpha() {\n    println!(\"needle\");\n}\n\nfn beta() {}\n";
    let (stdout, _) = run_request(
        &["--contains", "needle", "/tmp/span-contains"],
        &[("/tmp/span-contains/sample.rs", text)],
        missing,
    )
    .expect("run span");
    assert!(stdout.contains("range: 1..3"), "{stdout}");
    assert!(stdout.contains("symbol: alpha"), "{stdout}");
    assert!(stdout.contains(">    2 |     println!(\"needle\");"), "{stdout}");
}

#[test]
fn symbol_finds_named_span() {
    let text = "fn alpha() {}\n\npub fn beta() {\n    println!(\"selected\");\n}\n";
    let (stdout, _) = run_request(
        &["--symbol", "beta", "/tmp/span-symbol"],
        &[("/tmp/span-symbol/sample.rs", text)],
        missing,
    )
    .expect("run span");
    assert!(stdout.contains("range: 3..5"), "{stdout}");
    assert!(stdout.contains("symbol: beta"), "{stdout}");
    assert!(stdout.contains(">    3 | pub fn beta() {"), "{stdout}");
}

#[test]
fn symbol_name_does_not_remove_keyword_substrings() {
    let text = "fn classify_symbol() {\n    println!(\"selected\");\n}\n";
    let (stdout, _) = run_request(
        &["--symbol", "classify_symbol", "/tmp/span-symbol-substring"],
        &[("/tmp/span-symbol-substring/sample.rs", text)],
        missing,
    )
    .expect("run span");
    assert!(stdout.contains("symbol: classify_symbol"), "{stdout}");
    assert!(stdout.contains(">    1 | fn classify_symbol() {"), "{stdout}");
}

#[test]
fn symbol_finds_rust_structs_enums_and_traits() {
    let text = "pub(crate) struct FileInfo {\n    len: u64,\n}\n\nenum Mode {\n    Fast,\n}\n\npub trait Runnable {\n    fn run(&self);\n}\n";
    for (symbol, kind) in [("FileInfo", "struct"), ("Mode", "enum"), ("Runnable", "trait")] {
        let (stdout, _) = run_request(
            &["--symbol", symbol, "/tmp/span-rust-items"],
            &[("/tmp/span-rust-items/sample.rs", text)],
            missing,
        )
        .expect("run span");
        assert!(stdout.contains(&format!("kind: {kind}")), "{stdout}");
        assert!(stdout.contains(&format!("symbol: {symbol}")), "{stdout}");
    }
}

#[test]
fn symbol_finds_rust_impl_blocks_by_implemented_type() {
    let text = "struct Store<T> {\n    value: T,\n}\n\ntrait Runnable {}\n\nimpl<T: Clone> Store<T> {\n    fn get(&self) {}\n}\n\nimpl Runnable for crate::workers::Worker {\n    fn run(&self) {}\n}\n";
    for symbol in ["Store", "Worker"] {
        let (stdout, _) = run_request(
            &["--kind", "impl", "--symbol", symbol, "/tmp/span-rust-impls"],
            &[("/tmp/span-rust-impls/sample.rs", text)],
            missing,
        )
        .expect("run span");
        assert!(stdout.contains("kind: impl"), "{stdout}");
        assert!(stdout.contains(&format!("symbol: {symbol}")), "{stdout}");
    }
}

#[test]
fn kind_filter_accepts_matching_span_kind() {
    let text = "fn alpha() {\n    println!(\"selected\");\n}\n";
    let (stdout, _) = run_request(
        &["--kind", "function", "--contains", "selected", "/tmp/span-kind"],
        &[("/tmp/span-kind/sample.rs", text)],
        missing,
    )
    .expect("run span");
    assert!(stdout.contains("kind: function"), "{stdout}");
    assert!(stdout.contains("symbol: alpha"), "{stdout}");
}

#[test]
fn kind_filter_continues_past_non_matching_candidates() {
    let (stdout, _) = run_request(
        &["--kind", "function", "--contains", "selected", "/tmp/span-kind-search"],
        &[
            ("/tmp/span-kind-search/a.txt", "selected outside code\n"),
            ("/tmp/span-kind-search/b.rs", "fn beta() {\n    println!(\"selected\");\n}\n"),
        ],
        missing,
    )
    .expect("run span");
    assert!(stdout.contains("kind: function"), "{stdout}");
    assert!(stdout.contains("symbol: beta"), "{stdout}");
}

#[test]
fn markdown_fence_contains_inner_line() {
    let text = "# Notes\n\n```sh\necho selected\n```\n\nplain text\n";
    let (stdout, _) = run_request(
        &["/tmp/span-markdown-fence/sample.md:4"],
        &[("/tmp/span-markdown-fence/sample.md", text)],
        missing,
    )
    .expect("run span");
    assert!(stdout.contains("range: 3..5"), "{stdout}");
    assert!(stdout.contains("kind: markdown-fence"), "{stdout}");
    assert!(stdout.contains(">    4 | echo selected"), "{stdout}");
}

#[test]
fn markdown_text_between_fences_is_not_reported_as_fence() {
    let text = "```sh\necho first\n```\n\nplain text between fences\n\n```sh\necho second\n```\n";
    let (stdout, _) = run_request(
        &["/tmp/span-markdown-between-fences/sample.md:5"],
        &[("/tmp/span-markdown-between-fences/sample.md", text)],
        missing,
    )
    .expect("run span");
    assert!(stdout.contains("kind: context"), "{stdout}");
    assert!(
        !stdout.contains("kind: markdown-fence"),
        "plain text was incorrectly classified as a fence:\n{stdout}"
    );
    assert!(stdout.contains(">    5 | plain text between fences"), "{stdout}");
}

#[test]
fn auto_backend_falls_back_to_heuristic_when_external_tools_are_missing() {
    let text = "fn alpha() {\n    println!(\"selected\");\n}\n";
    let (stdout, _) = run_request(
        &["--backend", "auto", "/tmp/span-backend-auto/sample.rs:2"],
        &[("/tmp/span-backend-auto/sample.rs", text)],
        missing,
    )
    .expect("run span");
    assert!(stdout.contains("kind: function"), "{stdout}");
    assert!(stdout.contains("symbol: alpha"), "{stdout}");
    assert!(stdout.contains(">    2 |     println!(\"selected\");"), "{stdout}");
}

#[test]
fn max_lines_rejects_zero() {
    let input: Vec<String> = ["--max-lines", "0", "src/main.rs:1"].iter().map(|s| s.to_string()).collect();
    let error = parse_cli(input).expect_err("zero is refused");
    assert!(error.contains("--max-lines requires a positive integer"), "{error}");
}

#[test]
fn backend_doctor_json_reports_available_and_missing_backends() {
    let input: Vec<String> = ["backend", "doctor", "--json"].iter().map(|s| s.to_string()).collect();
    let json = match parse_cli(input).expect("parse") {
        Cli::BackendDoctor { json } => json,
        other => panic!("unexpected {other:?}"),
    };
    let probes: Vec<BackendProbe> = vec![
        probe_backend(
            "ast-outline",
            "ast-outline",
            Some(("/tmp/span-backend-doctor/bin/ast-outline".to_string(), HelpOutcome::Succeeded)),
        ),
        probe_backend("ast-bro", "ast-bro", None),
    ];
    let stdout = render_backend_doctor(&probes, json);
    assert!(stdout.contains("\"default_backend\":\"heuristic\""), "{stdout}");
    assert!(
        stdout.contains("\"auto_order\":[\"ast-outline\",\"ast-bro\",\"heuristic\"]"),
        "{stdout}"
    );
    assert!(stdout.contains("\"name\":\"ast-outline\""), "{stdout}");
    assert!(stdout.contains("\"available\":true"), "{stdout}");
    assert!(stdout.contains("\"help_status\":\"ok\""), "{stdout}");
    assert!(stdout.contains("\"name\":\"ast-bro\""), "{stdout}");
    assert!(stdout.contains("\"available\":false"), "{stdout}");
}

#[test]
fn explicit_missing_backend_returns_clear_error() {
    let text = "fn alpha() {\n    println!(\"selected\");\n}\n";
    let error = run_request(
        &["--backend", "ast-outline", "/tmp/span-backend-missing/sample.rs:2"],
        &[("/tmp/span-backend-missing/sample.rs", text)],
        missing,
    )
    .expect_err("missing backend");
    assert!(error.contains("backend ast-outline is not available in PATH"), "{error}");
}

#[test]
fn explicit_backend_requires_concrete_symbol() {
    let error = run_request(
        &["--backend", "ast-outline", "/tmp/span-backend-context/notes.txt:1"],
        &[("/tmp/span-backend-context/notes.txt", "plain text without a symbol\n")],
        missing,
    )
    .expect_err("no symbol");
    assert!(error.contains("backend ast-outline requires a concrete symbol"), "{error}");
}

#[test]
fn auto_explain_reports_selected_external_backend() {
    let text = "fn alpha() {\n    println!(\"selected\");\n}\n";
    let fake = |binary: &str, _file: &str, symbol: &String| {
        if binary == "ast-outline" {
            ProcessOutcome::Succeeded { stdout: format!("external body for {symbol}\n") }
        } else {
            ProcessOutcome::NotFound
        }
    };
    let (stdout, stderr) = run_request(
        &["--backend", "auto", "--explain", "/tmp/span-backend-explain/sample.rs:2"],
        &[("/tmp/span-backend-explain/sample.rs", text)],
        fake,
    )
    .expect("run span");
    assert!(stdout.contains("backend: ast-outline"), "{stdout}");
    assert!(stdout.contains("external body for alpha"), "{stdout}");
    assert!(stderr.contains("backend: ast-outline"), "{stderr}");
    assert!(stderr.contains("backend reason: auto selected ast-outline"), "{stderr}");
    assert!(stderr.contains("fallback used: no"), "{stderr}");
}

#[test]
fn explicit_ast_outline_backend_delegates_known_symbol_body() {
    let text = "fn alpha() {\n    println!(\"selected\");\n}\n";
    let fake = |binary: &str, file: &str, symbol: &String| {
        if binary == "ast-outline" {
            ProcessOutcome::Succeeded {
                stdout: format!(
                    "external backend called: show {file} {symbol}\nline two\nline three\nline four\nline five\n"
                ),
            }
        } else {
            ProcessOutcome::NotFound
        }
    };
    let (stdout, _) = run_request(
        &["--backend", "ast-outline", "--max-lines", "3", "/tmp/span-backend-ast-outline/sample.rs:2"],
        &[("/tmp/span-backend-ast-outline/sample.rs", text)],
        fake,
    )
    .expect("run span");
    assert!(stdout.contains("backend: ast-outline"), "{stdout}");
    assert!(stdout.contains("external backend called: show"), "{stdout}");
    assert!(stdout.contains("alpha"), "{stdout}");
    assert!(stdout.contains("--- truncated by span --max-lines ---"), "{stdout}");
    assert!(!stdout.contains("line five"), "{stdout}");
}
