//! The text that is printed: spans in human-readable form and as JSON, the
//! `--explain` report, and the `backend doctor` report.
use vstd::prelude::*;
use crate::backend::{BackendProbe, BackendSelection, ExternalSpan, ProbeModel, SelectionModel};
use crate::cli::backend_name;
use crate::cli::backend_text;
use crate::span::{Span, SpanModel};
use crate::symbol::{kind_name, kind_text};
use crate::text::{
    chars_of, decimal, decimal_string, join_lines, push_char, push_decimal, push_joined, push_str,
    string_from, string_of, texts, trim_end, trim_end_pos,
};

verus! {

/// The lower-case hexadecimal digit of `d` (`0 <= d < 16`).
pub open spec fn hex_digit(d: int) -> char {
    if d < 10 {
        ('0' as int + d) as char
    } else {
        ('a' as int + d - 10) as char
    }
}

/// The escape `\u00XX` of a control character below U+0020.
pub open spec fn unicode_escape(c: char) -> Seq<char> {
    seq!['\\', 'u', '0', '0', hex_digit(c as int / 16), hex_digit(c as int % 16)]
}

/// The JSON escape of one character: backslash, quote, newline, carriage
/// return and tab by their short escapes, every other character below U+0020
/// as `\u00XX`, and the rest as they are.
pub open spec fn escape_char(c: char) -> Seq<char> {
    if c == '\\' {
        seq!['\\', '\\']
    } else if c == '"' {
        seq!['\\', '"']
    } else if c == '\n' {
        seq!['\\', 'n']
    } else if c == '\r' {
        seq!['\\', 'r']
    } else if c == '\t' {
        seq!['\\', 't']
    } else if (c as int) < 0x20 {
        unicode_escape(c)
    } else {
        seq![c]
    }
}

/// `s` escaped for the inside of a JSON string: each character by `escape_char`.
pub open spec fn json_escape_of(s: Seq<char>) -> Seq<char>
    decreases s.len(),
{
    if s.len() == 0 {
        Seq::empty()
    } else {
        json_escape_of(s.drop_last()) + escape_char(s.last())
    }
}

/// The hexadecimal digit of `d`.
fn hex_char(d: u32) -> (r: char)
    requires
        d < 16,
    ensures
        r == hex_digit(d as int),
{
    if d == 0 { '0' }
    else if d == 1 { '1' }
    else if d == 2 { '2' }
    else if d == 3 { '3' }
    else if d == 4 { '4' }
    else if d == 5 { '5' }
    else if d == 6 { '6' }
    else if d == 7 { '7' }
    else if d == 8 { '8' }
    else if d == 9 { '9' }
    else if d == 10 { 'a' }
    else if d == 11 { 'b' }
    else if d == 12 { 'c' }
    else if d == 13 { 'd' }
    else if d == 14 { 'e' }
    else { 'f' }
}

/// Whether `c` lies below U+0020.
fn is_control(c: char) -> (r: bool)
    ensures
        r == ((c as int) < 0x20),
{
    '\u{1f}' >= c
}

/// Appends `\u00XX` for a control character.
fn push_unicode_escape(out: &mut String, c: char)
    requires
        (c as int) < 0x20,
    ensures
        final(out)@ == old(out)@ + unicode_escape(c),
{
    let v = c as u32;
    push_char(out, '\\');
    push_char(out, 'u');
    push_char(out, '0');
    push_char(out, '0');
    push_char(out, hex_char(v / 16));
    push_char(out, hex_char(v % 16));
    proof {
        assert(out@ =~= old(out)@ + unicode_escape(c));
    }
}

/// Appends the JSON escape of `s`.
pub fn push_json_escaped(out: &mut String, s: &str)
    ensures
        final(out)@ == old(out)@ + json_escape_of(s@),
{
    let c = chars_of(s);
    let n = c.len();
    let mut i: usize = 0;
    proof {
        assert(c@.take(0) =~= Seq::<char>::empty());
        assert(old(out)@ + Seq::<char>::empty() =~= old(out)@);
    }
    while i < n
        invariant
            n == c@.len(),
            c@ == s@,
            i <= n,
            out@ == old(out)@ + json_escape_of(c@.take(i as int)),
        decreases n - i,
    {
        let ch = c[i];
        if ch == '\\' {
            push_char(out, '\\');
            push_char(out, '\\');
        } else if ch == '"' {
            push_char(out, '\\');
            push_char(out, '"');
        } else if ch == '\n' {
            push_char(out, '\\');
            push_char(out, 'n');
        } else if ch == '\r' {
            push_char(out, '\\');
            push_char(out, 'r');
        } else if ch == '\t' {
            push_char(out, '\\');
            push_char(out, 't');
        } else if is_control(ch) {
            push_unicode_escape(out, ch);
        } else {
            push_char(out, ch);
        }
        proof {
            assert(c@.take(i + 1).drop_last() =~= c@.take(i as int));
            assert(out@ =~= old(out)@ + json_escape_of(c@.take(i + 1)));
        }
        i = i + 1;
    }
    proof {
        assert(c@.take(n as int) =~= c@);
    }
}

/// `value` escaped for the inside of a JSON string: `\`, `"`, newline, carriage
/// return and tab by their short escapes, other characters below U+0020 as
/// `\u00XX`.
pub fn json_escape(value: &str) -> (r: String)
    ensures
        r@ == json_escape_of(value@),
{
    let mut r = String::new();
    push_json_escaped(&mut r, value);
    proof {
        assert(Seq::<char>::empty() + json_escape_of(value@) =~= json_escape_of(value@));
    }
    r
}

/// A JSON string holding `value`, or `null`.
pub open spec fn json_optional_of(value: Option<Seq<char>>) -> Seq<char> {
    match value {
        Some(v) => "\""@ + json_escape_of(v) + "\""@,
        None => "null"@,
    }
}

/// A JSON string holding `value`, or `null`.
pub fn json_optional_string(value: Option<&str>) -> (r: String)
    ensures
        r@ == json_optional_of(
            match value {
                Some(v) => Some(v@),
                None => None,
            },
        ),
{
    match value {
        None => string_from("null"),
        Some(v) => {
            let mut r = string_from("\"");
            push_json_escaped(&mut r, v);
            push_str(&mut r, "\"");
            r
        },
    }
}

/// `true` or `false`.
pub open spec fn bool_text(b: bool) -> Seq<char> {
    if b {
        "true"@
    } else {
        "false"@
    }
}

/// `yes` or `no`.
pub open spec fn yes_no(b: bool) -> Seq<char> {
    if b {
        "yes"@
    } else {
        "no"@
    }
}

fn bool_str(b: bool) -> (r: &'static str)
    ensures
        r@ == bool_text(b),
{
    if b {
        "true"
    } else {
        "false"
    }
}

fn yes_no_str(b: bool) -> (r: &'static str)
    ensures
        r@ == yes_no(b),
{
    if b {
        "yes"
    } else {
        "no"
    }
}

/// The lines that describe a span.
pub open spec fn header_of(file: Seq<char>, m: SpanModel) -> Seq<char> {
    "file: "@ + file + "\n"@ + "range: "@ + decimal(m.start as nat) + ".."@ + decimal(m.end as nat) + "\n"@ + "kind: "@
        + kind_text(m.kind) + "\n"@ + "symbol: "@ + m.symbol + "\n"@
}

/// `d` right-aligned in a field four characters wide.
pub open spec fn pad4(d: Seq<char>) -> Seq<char> {
    if d.len() < 4 {
        Seq::new((4 - d.len()) as nat, |i: int| ' ') + d
    } else {
        d
    }
}

/// Line `n` of the listing: marked with `>` when it is the target line.
pub open spec fn numbered_line(ls: Seq<Seq<char>>, line: int, n: int) -> Seq<char> {
    (if n == line {
        ">"@
    } else {
        " "@
    }) + " "@ + pad4(decimal(n as nat)) + " | "@ + ls[n - 1] + "\n"@
}

/// Lines `start..=end` of the listing.
pub open spec fn numbered_lines(ls: Seq<Seq<char>>, line: int, start: int, end: int) -> Seq<char>
    decreases end - start + 1,
{
    if end < start {
        Seq::empty()
    } else {
        numbered_lines(ls, line, start, end - 1) + numbered_line(ls, line, end)
    }
}

/// A span as the built-in extractor shows it.
pub open spec fn human_of(file: Seq<char>, line: int, ls: Seq<Seq<char>>, m: SpanModel) -> Seq<char> {
    header_of(file, m) + "\n"@ + numbered_lines(ls, line, m.start, m.end)
}

fn push_header(out: &mut String, file: &str, span: &Span)
    ensures
        final(out)@ == old(out)@ + header_of(file@, span@),
{
    push_str(out, "file: ");
    push_str(out, file);
    push_str(out, "\n");
    push_str(out, "range: ");
    push_decimal(out, span.start as u64);
    push_str(out, "..");
    push_decimal(out, span.end as u64);
    push_str(out, "\n");
    push_str(out, "kind: ");
    push_str(out, kind_name(span.kind));
    push_str(out, "\n");
    push_str(out, "symbol: ");
    push_str(out, span.symbol.as_str());
    push_str(out, "\n");
    proof {
        assert(out@ =~= old(out)@ + header_of(file@, span@));
    }
}

fn push_padded(out: &mut String, n: usize)
    ensures
        final(out)@ == old(out)@ + pad4(decimal(n as nat)),
{
    let d = decimal_string(n);
    let k = chars_of(d.as_str()).len();
    let ghost before = out@;
    let mut i = k;
    while i < 4
        invariant
            k <= i <= 4 || (k > 4 && i == k),
            k == decimal(n as nat).len(),
            out@ == before + Seq::new((i - k) as nat, |j: int| ' '),
        decreases 4 - i,
    {
        push_char(out, ' ');
        proof {
            assert(Seq::new((i + 1 - k) as nat, |j: int| ' ') =~= Seq::new((i - k) as nat, |j: int| ' ').push(' '));
        }
        i = i + 1;
    }
    push_str(out, d.as_str());
    proof {
        if k < 4 {
            assert(out@ =~= before + pad4(decimal(n as nat)));
        } else {
            assert(Seq::new((i - k) as nat, |j: int| ' ') =~= Seq::<char>::empty());
            assert(out@ =~= before + pad4(decimal(n as nat)));
        }
    }
}

fn numbered_line_text(line: usize, number: usize, text: &str) -> (r: String)
    ensures
        forall|ls: Seq<Seq<char>>| 1 <= number <= ls.len() && ls[number - 1] == text@ ==> r@ == #[trigger] numbered_line(ls, line as int, number as int),
{
    let mut out = String::new();
    if number == line {
        push_str(&mut out, ">");
    } else {
        push_str(&mut out, " ");
    }
    push_str(&mut out, " ");
    push_padded(&mut out, number);
    push_str(&mut out, " | ");
    push_str(&mut out, text);
    push_str(&mut out, "\n");
    proof {
        assert forall|ls: Seq<Seq<char>>| 1 <= number <= ls.len() && ls[number - 1] == text@ implies out@ == #[trigger] numbered_line(ls, line as int, number as int) by {
            assert(out@ =~= numbered_line(ls, line as int, number as int));
        }
    }
    out
}

/// A span as the built-in extractor shows it: its description, a blank line,
/// and its lines numbered with the target line marked.
pub fn render_human(file: &str, line: usize, lines: &[String], span: &Span) -> (r: String)
    requires
        span.start <= span.end ==> 1 <= span.start && span.end <= lines@.len(),
    ensures
        r@ == human_of(file@, line as int, texts(lines@), span@),
{
    let ghost ls = texts(lines@);
    let mut out = String::new();
    push_header(&mut out, file, span);
    push_str(&mut out, "\n");
    let ghost head = out@;
    if span.end < span.start {
        proof {
            assert(out@ =~= human_of(file@, line as int, ls, span@));
        }
        return out;
    }
    proof {
        assert(head =~= head + numbered_lines(ls, line as int, span.start as int, span.start - 1));
    }
    let count = span.end - span.start + 1;
    let mut k: usize = 0;
    while k < count
        invariant
            1 <= span.start <= span.end <= lines@.len(),
            count == span.end - span.start + 1,
            k <= count,
            ls == texts(lines@),
            out@ == head + numbered_lines(ls, line as int, span.start as int, span.start + k - 1),
        decreases count - k,
    {
        let number = span.start + k;
        let piece = numbered_line_text(line, number, lines[number - 1].as_str());
        proof {
            assert(piece@ == numbered_line(ls, line as int, number as int));
        }
        push_str(&mut out, piece.as_str());
        proof {
            assert(out@ =~= head + numbered_lines(ls, line as int, span.start as int, number as int));
        }
        k = k + 1;
    }
    proof {
        assert(out@ =~= human_of(file@, line as int, ls, span@));
    }
    out
}

/// A span whose text an external backend supplied.
pub open spec fn external_human_of(file: Seq<char>, m: SpanModel, backend_t: Seq<char>, text: Seq<char>) -> Seq<char> {
    header_of(file, m) + "backend: "@ + backend_t + "\n"@ + "\n"@ + text
}

/// A span whose text an external backend supplied: its description, the
/// backend, a blank line and the backend's text.
pub fn render_external_human(file: &str, span: &Span, external: &ExternalSpan) -> (r: String)
    ensures
        r@ == external_human_of(file@, span@, backend_text(external.backend), external.text@),
{
    let mut out = String::new();
    push_header(&mut out, file, span);
    push_str(&mut out, "backend: ");
    push_str(&mut out, backend_name(external.backend));
    push_str(&mut out, "\n");
    push_str(&mut out, "\n");
    push_str(&mut out, external.text.as_str());
    proof {
        assert(out@ =~= external_human_of(file@, span@, backend_text(external.backend), external.text@));
    }
    out
}

/// The text of a span in JSON: the external text without trailing whitespace,
/// or the span's lines joined with newlines.
pub open spec fn json_text_of(ls: Seq<Seq<char>>, m: SpanModel, sel: SelectionModel) -> Seq<char> {
    match sel.external {
        Some(e) => trim_end(e.text),
        None => join_lines(ls.subrange(m.start - 1, m.end)),
    }
}

/// A span as one line of JSON.
pub open spec fn json_of(file: Seq<char>, line: int, ls: Seq<Seq<char>>, m: SpanModel, sel: SelectionModel) -> Seq<char> {
    "{\"tool\":\"span\",\"backend\":\""@ + backend_text(sel.backend) + "\",\"backend_reason\":\""@ + json_escape_of(sel.reason)
        + "\",\"fallback_used\":"@ + bool_text(sel.fallback_used) + ",\"truncated\":"@ + bool_text(sel.truncated)
        + ",\"file\":\""@ + json_escape_of(file) + "\",\"line\":"@ + decimal(line as nat) + ",\"range\":["@ + decimal(
        m.start as nat,
    ) + ","@ + decimal(m.end as nat) + "],\"kind\":\""@ + kind_text(m.kind) + "\",\"symbol\":\""@ + json_escape_of(m.symbol)
        + "\",\"text\":\""@ + json_escape_of(json_text_of(ls, m, sel)) + "\"}\n"@
}

/// A span as one line of JSON.
pub fn render_json(file: &str, line: usize, lines: &[String], span: &Span, selection: &BackendSelection) -> (r: String)
    requires
        selection.external is None ==> 1 <= span.start <= span.end + 1 && span.end <= lines@.len(),
    ensures
        r@ == json_of(file@, line as int, texts(lines@), span@, selection@),
{
    let text = match &selection.external {
        Some(e) => {
            let c = chars_of(e.text.as_str());
            let n = c.len();
            let k = trim_end_pos(c.as_slice(), n);
            let t = string_of(c.as_slice(), 0, k);
            proof {
                assert(c@.take(n as int) =~= c@);
                assert(c@.subrange(0, k as int) =~= trim_end(c@));
            }
            t
        },
        None => {
            let mut t = String::new();
            push_joined(&mut t, lines, span.start - 1, span.end);
            proof {
                assert(Seq::<char>::empty() + join_lines(texts(lines@).subrange(span.start - 1, span.end as int))
                    =~= join_lines(texts(lines@).subrange(span.start - 1, span.end as int)));
            }
            t
        },
    };
    let ghost tv = text@;
    assert(tv == json_text_of(texts(lines@), span@, selection@));
    let mut out = String::new();
    push_str(&mut out, "{\"tool\":\"span\",\"backend\":\"");
    push_str(&mut out, backend_name(selection.backend));
    push_str(&mut out, "\",\"backend_reason\":\"");
    push_json_escaped(&mut out, selection.reason.as_str());
    push_str(&mut out, "\",\"fallback_used\":");
    push_str(&mut out, bool_str(selection.fallback_used));
    push_str(&mut out, ",\"truncated\":");
    push_str(&mut out, bool_str(selection.truncated));
    push_str(&mut out, ",\"file\":\"");
    push_json_escaped(&mut out, file);
    push_str(&mut out, "\",\"line\":");
    push_decimal(&mut out, line as u64);
    push_str(&mut out, ",\"range\":[");
    push_decimal(&mut out, span.start as u64);
    push_str(&mut out, ",");
    push_decimal(&mut out, span.end as u64);
    push_str(&mut out, "],\"kind\":\"");
    push_str(&mut out, kind_name(span.kind));
    push_str(&mut out, "\",\"symbol\":\"");
    push_json_escaped(&mut out, span.symbol.as_str());
    push_str(&mut out, "\",\"text\":\"");
    push_json_escaped(&mut out, text.as_str());
    push_str(&mut out, "\"}\n");
    proof {
        assert(out@ =~= json_of(file@, line as int, texts(lines@), span@, selection@));
    }
    out
}

/// The `--explain` report of a selection.
pub open spec fn explain_of(sel: SelectionModel) -> Seq<char> {
    "backend: "@ + backend_text(sel.backend) + "\n"@ + "backend reason: "@ + sel.reason + "\n"@ + "fallback used: "@
        + yes_no(sel.fallback_used) + "\n"@ + "truncated: "@ + yes_no(sel.truncated) + "\n"@
}

/// The `--explain` report of a selection.
pub fn render_explain(selection: &BackendSelection) -> (r: String)
    ensures
        r@ == explain_of(selection@),
{
    let mut out = String::new();
    push_str(&mut out, "backend: ");
    push_str(&mut out, backend_name(selection.backend));
    push_str(&mut out, "\n");
    push_str(&mut out, "backend reason: ");
    push_str(&mut out, selection.reason.as_str());
    push_str(&mut out, "\n");
    push_str(&mut out, "fallback used: ");
    push_str(&mut out, yes_no_str(selection.fallback_used));
    push_str(&mut out, "\n");
    push_str(&mut out, "truncated: ");
    push_str(&mut out, yes_no_str(selection.truncated));
    push_str(&mut out, "\n");
    proof {
        assert(out@ =~= explain_of(selection@));
    }
    out
}

/// One backend in the JSON doctor report.
pub open spec fn probe_json_of(p: ProbeModel) -> Seq<char> {
    "{\"name\":\""@ + p.name + "\",\"binary\":\""@ + p.binary + "\",\"available\":"@ + bool_text(p.available)
        + ",\"path\":"@ + json_optional_of(p.path) + ",\"help_ok\":"@ + bool_text(p.help_ok) + ",\"help_status\":\""@
        + json_escape_of(p.help_status) + "\"}"@
}

/// The backends in the JSON doctor report, separated by commas.
pub open spec fn probes_json_of(ps: Seq<ProbeModel>) -> Seq<char>
    decreases ps.len(),
{
    if ps.len() == 0 {
        Seq::empty()
    } else if ps.len() == 1 {
        probe_json_of(ps[0])
    } else {
        probes_json_of(ps.drop_last()) + ","@ + probe_json_of(ps.last())
    }
}

/// One backend in the doctor report.
pub open spec fn probe_human_of(p: ProbeModel) -> Seq<char> {
    p.name + ": "@ + (if p.available {
        "found"@
    } else {
        "missing"@
    }) + "\n"@ + "  path: "@ + (match p.path {
        Some(path) => path,
        None => "<not found>"@,
    }) + "\n"@ + "  help: "@ + p.help_status + "\n"@
}

/// The backends in the doctor report.
pub open spec fn probes_human_of(ps: Seq<ProbeModel>) -> Seq<char>
    decreases ps.len(),
{
    if ps.len() == 0 {
        Seq::empty()
    } else {
        probes_human_of(ps.drop_last()) + probe_human_of(ps.last())
    }
}

/// The `backend doctor` report, in JSON or for people.
pub open spec fn doctor_of(ps: Seq<ProbeModel>, json: bool) -> Seq<char> {
    if json {
        "{\"tool\":\"span\",\"command\":\"backend doctor\",\"default_backend\":\"heuristic\",\"auto_order\":[\"ast-outline\",\"ast-bro\",\"heuristic\"],\"backends\":["@
            + probes_json_of(ps) + "]}\n"@
    } else {
        "default backend: heuristic\n"@ + "auto order: ast-outline -> ast-bro -> heuristic\n"@ + probes_human_of(ps)
    }
}

/// The values of a list of probes.
pub open spec fn probe_views(ps: Seq<BackendProbe>) -> Seq<ProbeModel> {
    ps.map_values(|p: BackendProbe| p@)
}

fn push_probe_json(out: &mut String, p: &BackendProbe)
    ensures
        final(out)@ == old(out)@ + probe_json_of(p@),
{
    push_str(out, "{\"name\":\"");
    push_str(out, p.name);
    push_str(out, "\",\"binary\":\"");
    push_str(out, p.binary);
    push_str(out, "\",\"available\":");
    push_str(out, bool_str(p.available));
    push_str(out, ",\"path\":");
    let path = match &p.path {
        Some(s) => json_optional_string(Some(s.as_str())),
        None => json_optional_string(None),
    };
    push_str(out, path.as_str());
    push_str(out, ",\"help_ok\":");
    push_str(out, bool_str(p.help_ok));
    push_str(out, ",\"help_status\":\"");
    push_json_escaped(out, p.help_status.as_str());
    push_str(out, "\"}");
    proof {
        assert(out@ =~= old(out)@ + probe_json_of(p@));
    }
}

fn push_probe_human(out: &mut String, p: &BackendProbe)
    ensures
        final(out)@ == old(out)@ + probe_human_of(p@),
{
    push_str(out, p.name);
    push_str(out, ": ");
    push_str(out, if p.available {
        "found"
    } else {
        "missing"
    });
    push_str(out, "\n");
    push_str(out, "  path: ");
    match &p.path {
        Some(s) => push_str(out, s.as_str()),
        None => push_str(out, "<not found>"),
    }
    push_str(out, "\n");
    push_str(out, "  help: ");
    push_str(out, p.help_status.as_str());
    push_str(out, "\n");
    proof {
        assert(out@ =~= old(out)@ + probe_human_of(p@));
    }
}

/// The `backend doctor` report.
pub fn render_backend_doctor(probes: &[BackendProbe], json: bool) -> (r: String)
    ensures
        r@ == doctor_of(probe_views(probes@), json),
{
    let ghost ps = probe_views(probes@);
    let n = probes.len();
    let mut out = String::new();
    if json {
        push_str(&mut out, "{\"tool\":\"span\",\"command\":\"backend doctor\",\"default_backend\":\"heuristic\",\"auto_order\":[\"ast-outline\",\"ast-bro\",\"heuristic\"],\"backends\":[");
    } else {
        push_str(&mut out, "default backend: heuristic\n");
        push_str(&mut out, "auto order: ast-outline -> ast-bro -> heuristic\n");
    }
    let ghost head = out@;
    let mut i: usize = 0;
    proof {
        assert(ps.take(0) =~= Seq::<ProbeModel>::empty());
        assert(head + Seq::<char>::empty() =~= head);
    }
    while i < n
        invariant
            n == probes@.len(),
            ps == probe_views(probes@),
            i <= n,
            out@ == head + if json {
                probes_json_of(ps.take(i as int))
            } else {
                probes_human_of(ps.take(i as int))
            },
        decreases n - i,
    {
        let ghost before = out@;
        if json {
            if i > 0 {
                push_str(&mut out, ",");
            }
            push_probe_json(&mut out, &probes[i]);
        } else {
            push_probe_human(&mut out, &probes[i]);
        }
        proof {
            let t = ps.take(i + 1);
            assert(t.drop_last() =~= ps.take(i as int));
            assert(t.last() == probes@[i as int]@);
            if i == 0 {
                assert(t.len() == 1);
            }
            assert(out@ =~= head + if json {
                probes_json_of(t)
            } else {
                probes_human_of(t)
            });
        }
        i = i + 1;
    }
    if json {
        push_str(&mut out, "]}\n");
    }
    proof {
        assert(ps.take(n as int) =~= ps);
        assert(out@ =~= doctor_of(ps, json));
    }
    out
}

} // verus!
