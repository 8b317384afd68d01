use std::path::Path;

use span::backend::{
    backend_probes, cap_external_text, external_backend_command, external_result,
    is_executable_file, is_external_symbol, probe_backend, run_external_backend, select_backend,
    BackendSelection, BackendStep, ExternalStep, HelpOutcome, ProcessOutcome,
};
use span::cli::{
    backend_name, parse_args, parse_backend, parse_backend_command, parse_cli, parse_target,
    Backend, Cli, Target,
};
use span::render::{
    json_escape, json_optional_string, render_backend_doctor, render_explain,
    render_external_human, render_human, render_json,
};
use span::run::{evaluate_candidate, no_span_error, search_step, Candidate, SearchStep};
use span::search::{
    collect_matches, collect_symbol_matches, find_contains, find_symbol, is_skipped_entry,
    sort_matches,
};
use span::span::{
    brace_span_end, cap_span, find_span, has_markdown_extension, indent, indented_span_end,
    is_span_truncated, markdown_fence_span, syntactic_start_span, Span,
};
use span::symbol::{
    classify_symbol, first_symbol_token, impl_symbol_name, looks_like_symbol, matching_angle_end,
    strip_extern_prefix, strip_symbol_prefixes, symbol_name, symbol_parts, type_symbol_token,
    SpanKind,
};
use span::text::{
    chars_of, decimal_string, is_whitespace, parse_usize, split_lines, str_eq,
};

fn lines(text: &str) -> Vec<String> {
    split_lines(text)
}

/// Takes the backend choice step by step; each program it asks for is "run"
/// by `launch` with (program, file, symbol).
fn drive<F>(
    backend: Backend,
    file: &str,
    span: &Span,
    max_lines: usize,
    local_truncated: bool,
    launch: &F,
) -> Result<BackendSelection, String>
where
    F: Fn(&str, &str, &String) -> ProcessOutcome,
{
    let mut outcomes: Vec<ProcessOutcome> = Vec::new();
    loop {
        match select_backend(backend, file, span, max_lines, local_truncated, &outcomes) {
            BackendStep::Start(request) => {
                assert_eq!(request.args.len(), 3);
                assert_eq!(request.args[0], "show");
                outcomes.push(launch(request.program, &request.args[1], &request.args[2]));
            }
            BackendStep::Done(result) => return result,
        }
    }
}

fn strings(items: &[&str]) -> Vec<String> {
    items.iter().map(|s| s.to_string()).collect()
}

// ------------------------------------------------------------------ text

#[test]
fn whitespace_matches_std_for_every_char() {
    for code in 0u32..=0x10FFFF {
        if let Some(c) = char::from_u32(code) {
            assert_eq!(is_whitespace(c), c.is_whitespace(), "U+{code:04X}");
        }
    }
}

#[test]
fn split_lines_matches_std_lines() {
    for text in [
        "", "a", "a\n", "a\nb", "a\nb\n", "\n", "\n\n", "a\r\nb\r\n", "a\r", "a\r\r\n", "\r\n",
        "x\n\ny", "tab\there\n", "é\nü\r\n",
    ] {
        let ours = split_lines(text);
        let std: Vec<String> = text.lines().map(|l| l.to_string()).collect();
        assert_eq!(ours, std, "{text:?}");
    }
}

#[test]
fn parse_usize_matches_std_parse() {
    for text in [
        "", "+", "-", "0", "7", "+7", "-7", "007", "42", "4 2", " 42", "42 ", "1e3", "١", "18446744073709551615",
        "18446744073709551616", "99999999999999999999", "+18446744073709551615",
    ] {
        assert_eq!(parse_usize(text), text.parse::<usize>().ok(), "{text:?}");
    }
}

#[test]
fn decimal_strings() {
    assert_eq!(decimal_string(0), "0");
    assert_eq!(decimal_string(9), "9");
    assert_eq!(decimal_string(10), "10");
    assert_eq!(decimal_string(1234567), "1234567");
    assert_eq!(decimal_string(usize::MAX), usize::MAX.to_string());
}

#[test]
fn chars_and_equality() {
    assert_eq!(chars_of("héllo"), vec!['h', 'é', 'l', 'l', 'o']);
    assert!(str_eq("abc", "abc"));
    assert!(!str_eq("abc", "abd"));
    assert!(!str_eq("abc", "ab"));
}

// ------------------------------------------------------------------ symbols

#[test]
fn symbol_parts_of_item_lines() {
    let cases: &[(&str, Option<(SpanKind, &str)>)] = &[
        ("fn alpha() {", Some((SpanKind::Function, "alpha"))),
        ("    pub fn beta<T>(x: T)", Some((SpanKind::Function, "beta"))),
        ("pub(crate) struct FileInfo {", Some((SpanKind::Struct, "FileInfo"))),
        ("enum Mode {", Some((SpanKind::Enum, "Mode"))),
        ("pub trait Runnable {", Some((SpanKind::Trait, "Runnable"))),
        ("class Widget(Base):", Some((SpanKind::Class, "Widget"))),
        ("def alpha():", Some((SpanKind::Function, "alpha"))),
        ("func main() {", Some((SpanKind::Function, "main"))),
        ("export async function load(url) {", Some((SpanKind::Function, "load"))),
        ("pub const unsafe fn raw() {}", Some((SpanKind::Function, "raw"))),
        ("extern \"C\" fn callback() {}", Some((SpanKind::Function, "callback"))),
        ("pub unsafe extern \"system\" fn hook() {}", Some((SpanKind::Function, "hook"))),
        ("fn (", Some((SpanKind::Function, "<unknown>"))),
        ("fn ", Some((SpanKind::Function, "<unknown>"))),
        ("impl<T: Clone> Store<T> {", Some((SpanKind::Impl, "Store"))),
        ("impl Runnable for crate::workers::Worker {", Some((SpanKind::Impl, "Worker"))),
        ("impl<'a> From<&'a str> for Name<'a> {", Some((SpanKind::Impl, "Name"))),
        ("impl fmt::Display for Error {", Some((SpanKind::Impl, "Error"))),
        ("impl", None),
        ("let x = 1;", None),
        ("fnord()", None),
        ("    // fn comment", None),
    ];
    for (line, expected) in cases {
        let got = symbol_parts(line);
        match expected {
            Some((kind, name)) => {
                let (k, n) = got.unwrap_or_else(|| panic!("{line:?} opens an item"));
                assert_eq!(k, *kind, "{line:?}");
                assert_eq!(n, *name, "{line:?}");
            }
            None => assert!(got.is_none(), "{line:?} opens no item"),
        }
        assert_eq!(looks_like_symbol(line), expected.is_some());
    }
}

#[test]
fn classify_and_name_of_lines() {
    assert_eq!(classify_symbol("struct S;"), "struct");
    assert_eq!(classify_symbol("plain"), "block");
    assert_eq!(symbol_name("plain"), "<unknown>");
    assert_eq!(symbol_name("  async fn run()"), "run");
    // A keyword without its trailing space opens no item.
    assert_eq!(classify_symbol("fn"), "block");
}

#[test]
fn prefix_stripping() {
    assert_eq!(strip_symbol_prefixes("pub(crate) async fn x"), "fn x");
    assert_eq!(strip_symbol_prefixes("pub   const  X"), "X");
    assert_eq!(strip_symbol_prefixes("export default"), "default");
    assert_eq!(strip_symbol_prefixes("extern \"C\" fn f"), "fn f");
    assert_eq!(strip_extern_prefix("extern crate foo"), "crate foo");
    assert_eq!(strip_extern_prefix("extern \"C fn f"), "\"C fn f");
    assert_eq!(strip_extern_prefix("external"), "external");
}

#[test]
fn tokens() {
    assert_eq!(first_symbol_token("  alpha(x)"), "alpha");
    assert_eq!(first_symbol_token("Beta<T>"), "Beta");
    assert_eq!(first_symbol_token("gamma: u8"), "gamma");
    assert_eq!(first_symbol_token("(x)"), "<unknown>");
    assert_eq!(type_symbol_token("std::collections::HashMap<K, V>"), "HashMap");
    assert_eq!(type_symbol_token("  Plain {"), "Plain");
    assert_eq!(type_symbol_token("{"), "<unknown>");
    assert_eq!(type_symbol_token("a::"), "");
    assert_eq!(impl_symbol_name("impl<T> Trait<T> for Vec<T> {"), "Vec");
    assert_eq!(impl_symbol_name("impl Foo {"), "Foo");
}

#[test]
fn angle_end_is_a_byte_offset() {
    assert_eq!(matching_angle_end("<T> Foo"), Some(2));
    assert_eq!(matching_angle_end("<A<B>> x"), Some(5));
    assert_eq!(matching_angle_end("<é> x"), Some(3));
    assert_eq!(matching_angle_end("<T"), None);
    assert_eq!(matching_angle_end("> <"), None);
}

// ------------------------------------------------------------------ spans

#[test]
fn brace_and_indentation_ends() {
    let ls = lines("fn a() {\n    if x {\n    }\n}\nfn b() {}\n");
    assert_eq!(brace_span_end(&ls, 1), Some(4));
    assert_eq!(brace_span_end(&ls, 5), Some(5));
    let py = lines("def f():\n    x = 1\n\n    return x\nprint(f())\n");
    assert_eq!(brace_span_end(&py, 1), None);
    assert_eq!(indented_span_end(&py, 1), 4);
    let tail = lines("def g():\n    pass\n");
    assert_eq!(indented_span_end(&tail, 1), 2);
    assert_eq!(indent("\t  x"), 3);
    assert_eq!(indent("x"), 0);
}

#[test]
fn context_window_when_nothing_matches() {
    let text: String = (1..=60).map(|i| format!("line {i}\n")).collect();
    let ls = lines(&text);
    let span = find_span("notes.txt", &ls, 30);
    assert_eq!((span.start, span.end, span.kind), (10, 50, SpanKind::Context));
    assert_eq!(span.symbol, "<line-window>");
    let span = find_span("notes.txt", &ls, 3);
    assert_eq!((span.start, span.end), (1, 23));
    let span = find_span("notes.txt", &ls, 55);
    assert_eq!((span.start, span.end), (35, 60));
    let span = find_span("notes.txt", &ls, 21);
    assert_eq!((span.start, span.end), (1, 41));
}

#[test]
fn syntactic_span_before_line() {
    let ls = lines("use x;\nfn a() {}\n\nlet y = 2;\n");
    let span = syntactic_start_span(&ls, 4).expect("item before line 4");
    assert_eq!((span.start, span.end, span.kind), (2, 2, SpanKind::Function));
    assert_eq!(span.symbol, "a");
    assert!(syntactic_start_span(&ls, 1).is_none());
}

#[test]
fn markdown_fences() {
    let ls = lines("```\na\n```\nb\n```rust\nc\n```\n");
    let f = markdown_fence_span(&ls, 2).expect("in the first fence");
    assert_eq!((f.start, f.end), (1, 3));
    assert!(markdown_fence_span(&ls, 4).is_none());
    let f = markdown_fence_span(&ls, 7).expect("closing line");
    assert_eq!((f.start, f.end, f.kind), (5, 7, SpanKind::MarkdownFence));
    let open = lines("```\nunclosed\n");
    assert!(markdown_fence_span(&open, 2).is_none());
    // Only Markdown files are searched for fences.
    let span = find_span("notes.txt", &ls, 2);
    assert_ne!(span.kind, SpanKind::MarkdownFence);
    let span = find_span("README.MD", &ls, 2);
    assert_eq!(span.kind, SpanKind::MarkdownFence);
}

#[test]
fn markdown_extension_matches_path_extension() {
    for p in [
        "a.md", "a.MD", "a.Md", "dir/b.md", "dir/b.md/", "dir/b.md/.", ".md", "dir/.md", "a.mdx", "a.m",
        "md", "a.b.md", "..", "a.md/..", "/", "", ".", "x/./y.md", "a.",
    ] {
        let expected = Path::new(p)
            .extension()
            .and_then(|e| e.to_str())
            .is_some_and(|e| e.eq_ignore_ascii_case("md"));
        assert_eq!(has_markdown_extension(p), expected, "{p:?}");
    }
}

#[test]
fn skipped_entries_match_path_file_name() {
    for p in [
        "repo/.git", "repo/target", "repo/node_modules", "repo/src", "target", "repo/target/", "repo/.git/.",
        "repo/targets", "..", "repo/..", "",
    ] {
        let expected = Path::new(p)
            .file_name()
            .and_then(|n| n.to_str())
            .is_some_and(|n| matches!(n, ".git" | "target" | "node_modules"));
        assert_eq!(is_skipped_entry(p), expected, "{p:?}");
    }
}

#[test]
fn truncation_and_capping() {
    let span = Span { start: 3, end: 12, kind: SpanKind::Function, symbol: "f".to_string() };
    assert!(is_span_truncated(&span, 5));
    assert!(!is_span_truncated(&span, 10));
    let capped = cap_span(span, 5, 100);
    assert_eq!((capped.start, capped.end), (3, 7));
    let span = Span { start: 3, end: 12, kind: SpanKind::Function, symbol: "f".to_string() };
    let capped = cap_span(span, 50, 6);
    assert_eq!((capped.start, capped.end), (3, 12));
    let span = Span { start: 3, end: 12, kind: SpanKind::Function, symbol: "f".to_string() };
    let capped = cap_span(span, 5, 6);
    assert_eq!((capped.start, capped.end), (3, 6));
    let reversed = Span { start: 4, end: 2, kind: SpanKind::Block, symbol: String::new() };
    assert!(!is_span_truncated(&reversed, 1));
    let capped = cap_span(reversed, 1, 10);
    assert_eq!((capped.start, capped.end), (4, 4));
}

#[test]
fn cap_twice_is_cap_once() {
    let span = Span { start: 2, end: 40, kind: SpanKind::Context, symbol: String::new() };
    let once = cap_span(span, 7, 40);
    let again = cap_span(Span { start: once.start, end: once.end, kind: once.kind, symbol: once.symbol.clone() }, 7, 40);
    assert_eq!((once.start, once.end), (again.start, again.end));
    assert!(once.end - once.start < 7);
}

// ------------------------------------------------------------------ command line

#[test]
fn parse_args_reads_options() {
    let a = parse_args(strings(&["--max-lines", "12", "--kind", "impl", "--backend", "ast-bro", "--json", "--explain", "f.rs:3"]))
        .expect("valid")
        .expect("not help");
    assert_eq!(a.max_lines, 12);
    assert_eq!(a.kind.as_deref(), Some("impl"));
    assert_eq!(a.backend, Backend::AstBro);
    assert!(a.json && a.explain);
    assert!(matches!(a.target, Target::Position(ref p) if p == "f.rs:3"));
    let a = parse_args(strings(&["--contains", "x"])).unwrap().unwrap();
    assert!(matches!(a.target, Target::Contains { ref pattern, ref root } if pattern == "x" && root == "."));
    let a = parse_args(strings(&["--symbol", "y", "src"])).unwrap().unwrap();
    assert!(matches!(a.target, Target::Symbol { ref symbol, ref root } if symbol == "y" && root == "src"));
    assert_eq!(a.max_lines, 80);
    assert_eq!(a.backend, Backend::Heuristic);
}

#[test]
fn parse_args_errors() {
    let cases: &[(&[&str], &str)] = &[
        (&["--max-lines"], "--max-lines requires a value"),
        (&["--max-lines", "x", "f:1"], "--max-lines requires a positive integer"),
        (&["--max-lines", "0"], "--max-lines requires a positive integer"),
        (&["--kind"], "--kind requires a value"),
        (&["--backend"], "--backend requires a value"),
        (&["--backend", "fast"], "unknown backend fast; expected heuristic, auto, ast-outline, or ast-bro"),
        (&["--contains"], "--contains requires a pattern"),
        (&["--symbol"], "--symbol requires a name"),
        (&["a", "b"], "unexpected argument: b"),
        (&["--contains", "x", "--symbol", "y"], "--contains and --symbol cannot be used together"),
        (&[], "missing FILE:LINE target"),
        (&["--json"], "missing FILE:LINE target"),
    ];
    for (argv, message) in cases {
        assert_eq!(parse_args(strings(argv)).unwrap_err(), *message, "{argv:?}");
    }
}

#[test]
fn help_stops_parsing() {
    assert!(parse_args(strings(&["-h"])).unwrap().is_none());
    assert!(parse_args(strings(&["f:1", "--help", "extra", "more"])).unwrap().is_none());
    // An error before the help flag wins.
    assert!(parse_args(strings(&["--backend", "x", "--help"])).is_err());
    assert!(matches!(parse_cli(strings(&["--help"])).unwrap(), Cli::Help { backend: false }));
    assert!(matches!(parse_cli(strings(&["backend", "doctor", "-h"])).unwrap(), Cli::Help { backend: true }));
}

#[test]
fn backend_subcommand() {
    assert!(matches!(parse_cli(strings(&["backend", "doctor"])).unwrap(), Cli::BackendDoctor { json: false }));
    assert_eq!(parse_cli(strings(&["backend"])).unwrap_err(), "backend requires a subcommand");
    assert_eq!(parse_cli(strings(&["backend", "check"])).unwrap_err(), "unknown backend subcommand: check");
    assert_eq!(parse_backend_command(strings(&["doctor", "--yaml"])).unwrap_err(), "unexpected argument: --yaml");
    assert!(matches!(parse_backend_command(strings(&["doctor", "--json"])).unwrap(), Cli::BackendDoctor { json: true }));
}

#[test]
fn backend_names() {
    for (name, backend) in [
        ("heuristic", Backend::Heuristic),
        ("auto", Backend::Auto),
        ("ast-outline", Backend::AstOutline),
        ("ast-bro", Backend::AstBro),
    ] {
        assert_eq!(parse_backend(name).unwrap(), backend);
        assert_eq!(backend_name(backend), name);
    }
    assert_eq!(external_backend_command(Backend::Auto), None);
    assert_eq!(external_backend_command(Backend::AstBro), Some(("ast-bro", "ast-bro")));
    assert_eq!(backend_probes(), vec![("ast-outline", "ast-outline"), ("ast-bro", "ast-bro")]);
}

#[test]
fn targets() {
    assert_eq!(parse_target("src/main.rs:42").unwrap(), ("src/main.rs", 42));
    assert_eq!(parse_target("c:/x.rs:7").unwrap(), ("c:/x.rs", 7));
    assert_eq!(parse_target("file.rs:0").unwrap(), ("file.rs", 0));
    assert_eq!(parse_target("file.rs").unwrap_err(), "target must be FILE:LINE");
    assert_eq!(parse_target("file.rs:x").unwrap_err(), "line must be a positive integer");
    assert_eq!(parse_target("file.rs:").unwrap_err(), "line must be a positive integer");
}

// ------------------------------------------------------------------ search

#[test]
fn matches_and_sorting() {
    let mut found = Vec::new();
    collect_matches("b.rs", "x\nneedle\nneedle again\n", "needle", &mut found);
    collect_matches("a-c.rs", "needle\n", "needle", &mut found);
    collect_matches("a/b.rs", "no\nneedle\n", "needle", &mut found);
    let sorted = find_contains("needle", found.clone()).unwrap();
    let mut expected = found.clone();
    expected.sort();
    assert_eq!(sorted, expected);
    assert_eq!(sorted[0], ("a-c.rs".to_string(), 1));
    assert_eq!(sort_matches(expected.clone()), expected);
    assert_eq!(find_contains("zzz", Vec::new()).unwrap_err(), "pattern not found: zzz");
    let mut empty_pattern = Vec::new();
    collect_matches("e.rs", "one\ntwo\n", "", &mut empty_pattern);
    assert_eq!(empty_pattern.len(), 2);
}

#[test]
fn sorting_matches_std_sort_on_unicode_paths() {
    let input = vec![
        ("é.rs".to_string(), 3),
        ("e.rs".to_string(), 9),
        ("e.rs".to_string(), 2),
        ("z/a.rs".to_string(), 1),
        ("zz".to_string(), 1),
        ("".to_string(), 4),
        ("ü".to_string(), 1),
    ];
    let mut expected = input.clone();
    expected.sort();
    assert_eq!(sort_matches(input), expected);
}

#[test]
fn symbol_matches() {
    let mut found = Vec::new();
    collect_symbol_matches("s.rs", "fn alpha() {}\nfn alphabet() {}\n// fn alpha\npub fn alpha() {}\n", "alpha", &mut found);
    assert_eq!(found, vec![("s.rs".to_string(), 1), ("s.rs".to_string(), 4)]);
    assert_eq!(find_symbol("nope", Vec::new()).unwrap_err(), "symbol not found: nope");
}

// ------------------------------------------------------------------ candidates and output

#[test]
fn candidate_errors() {
    match evaluate_candidate(&None, 80, "f.rs", 5, Ok("a\nb\n".to_string())) {
        Candidate::Failed(m) => assert_eq!(m, "f.rs: line 5 is outside 1..2"),
        other => panic!("{other:?}"),
    }
    match evaluate_candidate(&None, 80, "f.rs", 0, Ok("a\n".to_string())) {
        Candidate::Failed(m) => assert_eq!(m, "f.rs: line 0 is outside 1..1"),
        other => panic!("{other:?}"),
    }
    match evaluate_candidate(&None, 80, "gone.rs", 1, Err("No such file or directory (os error 2)".to_string())) {
        Candidate::Failed(m) => assert_eq!(m, "gone.rs: No such file or directory (os error 2)"),
        other => panic!("{other:?}"),
    }
    assert!(matches!(
        evaluate_candidate(&Some("struct".to_string()), 80, "f.rs", 1, Ok("fn a() {}\n".to_string())),
        Candidate::KindMismatch
    ));
    assert_eq!(no_span_error(&Some("struct".to_string()), true), "no matched span had expected kind struct");
    assert_eq!(no_span_error(&Some("struct".to_string()), false), "no matching span found");
    assert_eq!(no_span_error(&None, false), "no matching span found");
}

#[test]
fn candidate_is_capped() {
    let text: String = std::iter::once("fn long() {\n".to_string())
        .chain((0..20).map(|i| format!("    step({i});\n")))
        .chain(std::iter::once("}\n".to_string()))
        .collect();
    match evaluate_candidate(&None, 5, "l.rs", 3, Ok(text)) {
        Candidate::Found { span, local_truncated, .. } => {
            assert!(local_truncated);
            assert_eq!((span.start, span.end), (1, 5));
        }
        other => panic!("{other:?}"),
    }
}

#[test]
fn human_rendering() {
    let ls = lines("fn a() {\n    x();\n}\n");
    let span = find_span("a.rs", &ls, 2);
    let out = render_human("a.rs", 2, &ls, &span);
    assert_eq!(
        out,
        "file: a.rs\nrange: 1..3\nkind: function\nsymbol: a\n\n     1 | fn a() {\n>    2 |     x();\n     3 | }\n"
    );
}

#[test]
fn wide_line_numbers_are_not_cut() {
    let text: String = (1..=10050).map(|i| format!("l{i}\n")).collect();
    let ls = lines(&text);
    let span = Span { start: 10000, end: 10001, kind: SpanKind::Context, symbol: "<line-window>".to_string() };
    let out = render_human("big.txt", 10001, &ls, &span);
    assert!(out.contains("  10000 | l10000\n"), "{out}");
    assert!(out.contains("> 10001 | l10001\n"), "{out}");
}

#[test]
fn json_rendering_and_escaping() {
    assert_eq!(json_escape("a\"b\\c\nd\re\tf"), "a\\\"b\\\\c\\nd\\re\\tf");
    assert_eq!(json_escape("plain"), "plain");
    assert_eq!(json_optional_string(None), "null");
    assert_eq!(json_optional_string(Some("x\"y")), "\"x\\\"y\"");
    let ls = lines("def alpha():\n    return \"42\"\n");
    let span = find_span("s.py", &ls, 2);
    let sel = drive(Backend::Heuristic, "s.py", &span, 80, false, &|_: &str, _: &str, _: &String| ProcessOutcome::NotFound)
        .unwrap();
    let out = render_json("s.py", 2, &ls, &span, &sel);
    assert_eq!(
        out,
        "{\"tool\":\"span\",\"backend\":\"heuristic\",\"backend_reason\":\"heuristic backend selected explicitly\",\"fallback_used\":false,\"truncated\":false,\"file\":\"s.py\",\"line\":2,\"range\":[1,2],\"kind\":\"function\",\"symbol\":\"alpha\",\"text\":\"def alpha():\\n    return \\\"42\\\"\"}\n"
    );
    assert_eq!(render_explain(&sel), "backend: heuristic\nbackend reason: heuristic backend selected explicitly\nfallback used: no\ntruncated: no\n");
}

#[test]
fn json_escape_distributes_over_concatenation() {
    for (a, b) in [("x\"", "\ny"), ("", "\t"), ("\\", "\\")] {
        assert_eq!(json_escape(&format!("{a}{b}")), format!("{}{}", json_escape(a), json_escape(b)));
    }
    assert!(!json_escape("a\nb\r\tc").contains('\n'));
}

// ------------------------------------------------------------------ backends

#[test]
fn external_symbols() {
    assert!(is_external_symbol("alpha"));
    assert!(!is_external_symbol(""));
    assert!(!is_external_symbol("<line-window>"));
    assert!(!is_external_symbol("<unknown>"));
    assert!(!is_external_symbol("```"));
}

#[test]
fn capping_external_text() {
    assert_eq!(cap_external_text("a\nb\n", 2), ("a\nb\n".to_string(), false));
    assert_eq!(
        cap_external_text("a\nb\nc\nd\n", 2),
        ("a\n--- truncated by span --max-lines ---\n".to_string(), true)
    );
    let (out, cut) = cap_external_text("1\n2\n3\n4\n5\n", 3);
    assert!(cut);
    assert!(out.lines().count() <= 3);
}

#[test]
fn external_results() {
    let e = external_result(Backend::AstBro, 80, &ProcessOutcome::NotFound).unwrap_err();
    assert_eq!(e, "backend ast-bro is not available in PATH");
    let e = external_result(Backend::AstOutline, 80, &ProcessOutcome::StartFailed("Permission denied (os error 13)".to_string())).unwrap_err();
    assert_eq!(e, "backend ast-outline failed to start: Permission denied (os error 13)");
    let e = external_result(Backend::AstOutline, 80, &ProcessOutcome::Exited { code: Some(3), stderr: "  boom\n".to_string() }).unwrap_err();
    assert_eq!(e, "backend ast-outline failed with exit 3: boom");
    let e = external_result(Backend::AstOutline, 80, &ProcessOutcome::Exited { code: None, stderr: String::new() }).unwrap_err();
    assert_eq!(e, "backend ast-outline failed with exit 1: ");
    let ok = external_result(Backend::AstOutline, 80, &ProcessOutcome::Succeeded { stdout: "body\n".to_string() }).unwrap();
    assert_eq!((ok.backend, ok.text.as_str(), ok.truncated), (Backend::AstOutline, "body\n", false));
}

#[test]
fn auto_tries_ast_bro_second() {
    let ls = lines("fn alpha() {}\n");
    let span = find_span("a.rs", &ls, 1);
    let launch = |binary: &str, _: &str, _: &String| {
        if binary == "ast-bro" {
            ProcessOutcome::Succeeded { stdout: "from bro\n".to_string() }
        } else {
            ProcessOutcome::Exited { code: Some(2), stderr: String::new() }
        }
    };
    let sel = drive(Backend::Auto, "a.rs", &span, 80, false, &launch).unwrap();
    assert_eq!(sel.backend, Backend::AstBro);
    assert!(sel.fallback_used);
    assert_eq!(sel.reason, "auto selected ast-bro for symbol alpha");
    let out = render_external_human("a.rs", &span, sel.external.as_ref().unwrap());
    assert!(out.ends_with("backend: ast-bro\n\nfrom bro\n"), "{out}");
    let all_fail = |_: &str, _: &str, _: &String| ProcessOutcome::NotFound;
    let sel = drive(Backend::Auto, "a.rs", &span, 80, true, &all_fail).unwrap();
    assert_eq!(sel.backend, Backend::Heuristic);
    assert!(sel.fallback_used && sel.truncated && sel.external.is_none());
    assert_eq!(sel.reason, "auto fell back to heuristic because no external backend succeeded");
}

#[test]
fn heuristic_never_launches() {
    let ls = lines("fn alpha() {}\n");
    let span = find_span("a.rs", &ls, 1);
    let launch = |_: &str, _: &str, _: &String| -> ProcessOutcome { panic!("no program is started") };
    let sel = drive(Backend::Heuristic, "a.rs", &span, 80, false, &launch).unwrap();
    assert_eq!(sel.backend, Backend::Heuristic);
    let ctx = find_span("n.txt", &lines("plain\n"), 1);
    let sel = drive(Backend::Auto, "n.txt", &ctx, 80, false, &launch).unwrap();
    assert_eq!(sel.reason, "auto fell back to heuristic because no concrete symbol was inferred (<line-window>)");
}

#[test]
fn probes_and_doctor_report() {
    let p = probe_backend("ast-outline", "ast-outline", Some(("/bin/ast-outline".to_string(), HelpOutcome::Exited(Some(4)))));
    assert!(p.available && !p.help_ok);
    assert_eq!(p.help_status, "exit-4");
    let q = probe_backend("ast-bro", "ast-bro", Some(("/bin/ast-bro".to_string(), HelpOutcome::StartFailed("bad".to_string()))));
    assert_eq!(q.help_status, "start-error: bad");
    let r = probe_backend("ast-bro", "ast-bro", None);
    assert_eq!(r.help_status, "not-run");
    let human = render_backend_doctor(&[p, r], false);
    assert_eq!(
        human,
        "default backend: heuristic\nauto order: ast-outline -> ast-bro -> heuristic\nast-outline: found\n  path: /bin/ast-outline\n  help: exit-4\nast-bro: missing\n  path: <not found>\n  help: not-run\n"
    );
    assert!(is_executable_file(true, Some(0o755)));
    assert!(!is_executable_file(true, Some(0o644)));
    assert!(!is_executable_file(false, Some(0o755)));
    assert!(is_executable_file(true, None));
}

#[test]
fn zero_line_limit_gives_an_empty_span() {
    let text = "fn a() {\n    b();\n}\n".to_string();
    match evaluate_candidate(&None, 0, "z.rs", 2, Ok(text)) {
        Candidate::Found { lines, span, local_truncated } => {
            assert!(local_truncated);
            assert_eq!((span.start, span.end), (1, 0));
            let out = render_human("z.rs", 2, &lines, &span);
            assert_eq!(out, "file: z.rs\nrange: 1..0\nkind: function\nsymbol: a\n\n");
        }
        other => panic!("{other:?}"),
    }
}

#[test]
fn brace_search_past_the_last_line_finds_nothing() {
    let ls = lines("fn a() {\n}\n");
    assert_eq!(brace_span_end(&ls, 3), None);
}

#[test]
fn line_zero_gets_the_leading_window() {
    let text: String = (1..=30).map(|i| format!("line {i}\n")).collect();
    let ls = lines(&text);
    let span = find_span("notes.txt", &ls, 0);
    assert_eq!((span.start, span.end), (1, 20));
    assert_eq!(span.kind, SpanKind::Context);
}

#[test]
fn control_characters_are_escaped() {
    assert_eq!(json_escape("\u{8}"), "\\u0008");
    assert_eq!(json_escape("a\u{0}b\u{1f}c\u{c}"), "a\\u0000b\\u001fc\\u000c");
    assert_eq!(json_escape("\u{7f}é"), "\u{7f}é");
    let escaped = json_escape("x\u{1}\u{1b}[0m\ty");
    assert!(escaped.chars().all(|c| c >= ' '), "{escaped}");
    assert_eq!(escaped, "x\\u0001\\u001b[0m\\ty");
}

#[test]
fn item_that_ends_above_the_line_gives_a_window() {
    let ls = lines("fn a() {}\nx\n");
    let span = find_span("a.rs", &ls, 2);
    assert_eq!((span.start, span.end), (1, 2));
    assert_eq!(span.kind, SpanKind::Context);
    assert_eq!(span.symbol, "<line-window>");
    let span = find_span("a.rs", &ls, 1);
    assert_eq!((span.start, span.end), (1, 1));
    assert_eq!(span.kind, SpanKind::Function);
}

#[test]
fn backend_steps_start_each_program_once() {
    let ls = lines("fn alpha() {}\n");
    let span = find_span("a.rs", &ls, 1);
    // heuristic and a non-concrete symbol start nothing
    assert!(matches!(select_backend(Backend::Heuristic, "a.rs", &span, 80, false, &[]), BackendStep::Done(Ok(_))));
    let ctx = find_span("n.txt", &lines("plain\n"), 1);
    assert!(matches!(select_backend(Backend::Auto, "n.txt", &ctx, 80, false, &[]), BackendStep::Done(Ok(_))));
    match select_backend(Backend::AstOutline, "n.txt", &ctx, 80, false, &[]) {
        BackendStep::Done(Err(m)) => assert_eq!(m, "backend ast-outline requires a concrete symbol; got <line-window>"),
        other => panic!("{other:?}"),
    }
    // auto starts ast-outline first, with `show FILE SYMBOL`
    match select_backend(Backend::Auto, "a.rs", &span, 80, false, &[]) {
        BackendStep::Start(l) => {
            assert_eq!(l.program, "ast-outline");
            assert_eq!(l.args, vec!["show".to_string(), "a.rs".to_string(), "alpha".to_string()]);
        }
        other => panic!("{other:?}"),
    }
    // after ast-outline succeeds, ast-bro is not started
    let ok = [ProcessOutcome::Succeeded { stdout: "body\n".to_string() }];
    match select_backend(Backend::Auto, "a.rs", &span, 80, false, &ok) {
        BackendStep::Done(Ok(sel)) => {
            assert_eq!(sel.backend, Backend::AstOutline);
            assert!(!sel.fallback_used);
        }
        other => panic!("{other:?}"),
    }
    // after ast-outline fails, ast-bro is started, and then the choice is made
    let failed = [ProcessOutcome::NotFound];
    match select_backend(Backend::Auto, "a.rs", &span, 80, false, &failed) {
        BackendStep::Start(l) => assert_eq!(l.program, "ast-bro"),
        other => panic!("{other:?}"),
    }
    let both = [ProcessOutcome::NotFound, ProcessOutcome::NotFound];
    assert!(matches!(select_backend(Backend::Auto, "a.rs", &span, 80, false, &both), BackendStep::Done(Ok(_))));
    // an explicit backend passes its failure on
    let exited = [ProcessOutcome::Exited { code: Some(2), stderr: "no such symbol\n".to_string() }];
    match select_backend(Backend::AstBro, "a.rs", &span, 80, false, &exited) {
        BackendStep::Done(Err(m)) => assert_eq!(m, "backend ast-bro failed with exit 2: no such symbol"),
        other => panic!("{other:?}"),
    }
    // counted through a driver: auto with both failing starts two programs
    let count = std::cell::Cell::new(0);
    let launch = |_: &str, _: &str, _: &String| {
        count.set(count.get() + 1);
        ProcessOutcome::NotFound
    };
    drive(Backend::Auto, "a.rs", &span, 80, false, &launch).unwrap();
    assert_eq!(count.get(), 2);
    count.set(0);
    assert!(drive(Backend::AstOutline, "a.rs", &span, 80, false, &launch).is_err());
    assert_eq!(count.get(), 1);
}

#[test]
fn running_an_external_backend() {
    match run_external_backend(Backend::AstOutline, "a.rs", "alpha", 80, None) {
        ExternalStep::Start(l) => {
            assert_eq!(l.program, "ast-outline");
            assert_eq!(l.args, vec!["show".to_string(), "a.rs".to_string(), "alpha".to_string()]);
        }
        other => panic!("{other:?}"),
    }
    let out = ProcessOutcome::Succeeded { stdout: "1\n2\n3\n".to_string() };
    match run_external_backend(Backend::AstOutline, "a.rs", "alpha", 2, Some(&out)) {
        ExternalStep::Done(Ok(Some(e))) => {
            assert_eq!(e.text, "1\n--- truncated by span --max-lines ---\n");
            assert!(e.truncated);
        }
        other => panic!("{other:?}"),
    }
    assert!(matches!(run_external_backend(Backend::Heuristic, "a.rs", "alpha", 80, None), ExternalStep::Done(Ok(None))));
    assert!(matches!(run_external_backend(Backend::Auto, "a.rs", "alpha", 80, None), ExternalStep::Done(Ok(None))));
}

#[test]
fn search_steps() {
    assert!(matches!(search_step(false, Candidate::KindMismatch), SearchStep::Next { saw_mismatch: true }));
    match search_step(true, Candidate::Failed("f.rs: line 9 is outside 1..2".to_string())) {
        SearchStep::Fail(m) => assert_eq!(m, "f.rs: line 9 is outside 1..2"),
        other => panic!("{other:?}"),
    }
    let c = evaluate_candidate(&None, 80, "f.rs", 1, Ok("fn a() {}\n".to_string()));
    assert!(matches!(search_step(false, c), SearchStep::Show { .. }));
}

#[test]
fn file_line_targets_round_trip() {
    for (file, line) in [("src/main.rs", 42usize), ("C:/dir/a:b.rs", 0), ("", 7), ("x:", usize::MAX)] {
        let target = format!("{file}:{line}");
        assert_eq!(parse_target(&target), Ok((file, line)));
    }
}

#[test]
fn external_json_text_is_bounded_after_trimming() {
    let (text, cut) = cap_external_text("a\nb\nc\n\n  \n", 3);
    assert!(cut);
    let ls = lines("fn alpha() {}\n");
    let span = find_span("a.rs", &ls, 1);
    let sel = span::backend::BackendSelection {
        backend: Backend::AstOutline,
        reason: "auto selected ast-outline for symbol alpha".to_string(),
        fallback_used: false,
        external: Some(span::backend::ExternalSpan { backend: Backend::AstOutline, text, truncated: true }),
        truncated: true,
    };
    let out = render_json("a.rs", 1, &ls, &span, &sel);
    assert!(out.contains("\"text\":\"a\\nb\\n--- truncated by span --max-lines ---\"}"), "{out}");
}
