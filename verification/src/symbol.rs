//! Recognising the first line of a code item (`fn`, `struct`, `impl`, `def`, ...)
//! and extracting its kind and name.
use vstd::prelude::*;
use vstd::string::StrSliceExecFns;
use crate::text::{
    all_ws, chars_of, first_index_of, is_whitespace, is_ws, lemma_leading_ws_bound, leading_ws, skip_ws,
    starts_with_at, starts_with_str_at, string_from, string_of, trim_start,
};

verus! {

/// The kind of a span.
#[derive(Clone, Copy, Debug, PartialEq, Eq, Structural)]
pub enum SpanKind {
    Function,
    Struct,
    Enum,
    Trait,
    Class,
    Impl,
    Block,
    MarkdownFence,
    Context,
}

/// The name under which a span kind is reported.
pub open spec fn kind_text(k: SpanKind) -> Seq<char> {
    match k {
        SpanKind::Function => "function"@,
        SpanKind::Struct => "struct"@,
        SpanKind::Enum => "enum"@,
        SpanKind::Trait => "trait"@,
        SpanKind::Class => "class"@,
        SpanKind::Impl => "impl"@,
        SpanKind::Block => "block"@,
        SpanKind::MarkdownFence => "markdown-fence"@,
        SpanKind::Context => "context"@,
    }
}

/// The name under which a span kind is reported.
pub fn kind_name(k: SpanKind) -> (r: &'static str)
    ensures
        r@ == kind_text(k),
{
    match k {
        SpanKind::Function => "function",
        SpanKind::Struct => "struct",
        SpanKind::Enum => "enum",
        SpanKind::Trait => "trait",
        SpanKind::Class => "class",
        SpanKind::Impl => "impl",
        SpanKind::Block => "block",
        SpanKind::MarkdownFence => "markdown-fence",
        SpanKind::Context => "context",
    }
}

/// Number of modifier prefixes that may stand before an item keyword.
pub open spec fn n_symbol_prefixes() -> int {
    8
}

/// The modifier prefixes, in the order in which they are tried.
pub open spec fn symbol_prefix(i: int) -> Seq<char> {
    if i == 0 {
        "pub(crate) "@
    } else if i == 1 {
        "pub(super) "@
    } else if i == 2 {
        "pub(self) "@
    } else if i == 3 {
        "pub "@
    } else if i == 4 {
        "export "@
    } else if i == 5 {
        "async "@
    } else if i == 6 {
        "const "@
    } else {
        "unsafe "@
    }
}

fn symbol_prefix_str(i: usize) -> (r: &'static str)
    ensures
        r@ == symbol_prefix(i as int),
{
    if i == 0 {
        "pub(crate) "
    } else if i == 1 {
        "pub(super) "
    } else if i == 2 {
        "pub(self) "
    } else if i == 3 {
        "pub "
    } else if i == 4 {
        "export "
    } else if i == 5 {
        "async "
    } else if i == 6 {
        "const "
    } else {
        "unsafe "
    }
}

/// Every modifier prefix is non-empty.
pub proof fn lemma_symbol_prefix_nonempty(i: int)
    ensures
        symbol_prefix(i).len() > 0,
{
    reveal_strlit("pub(crate) ");
    reveal_strlit("pub(super) ");
    reveal_strlit("pub(self) ");
    reveal_strlit("pub ");
    reveal_strlit("export ");
    reveal_strlit("async ");
    reveal_strlit("const ");
    reveal_strlit("unsafe ");
}

/// The first modifier prefix, from index `i` on, that starts `t`.
pub open spec fn matched_prefix_from(t: Seq<char>, i: int) -> Option<int>
    decreases n_symbol_prefixes() - i,
{
    if i < 0 || i >= n_symbol_prefixes() {
        None
    } else if symbol_prefix(i).is_prefix_of(t) {
        Some(i)
    } else {
        matched_prefix_from(t, i + 1)
    }
}

/// A matched modifier prefix starts the text.
pub proof fn lemma_matched_prefix(t: Seq<char>, j: int)
    ensures
        matched_prefix_from(t, j) matches Some(i) ==> symbol_prefix(i).is_prefix_of(t) && 0 <= i
            < n_symbol_prefixes(),
    decreases n_symbol_prefixes() - j,
{
    if 0 <= j < n_symbol_prefixes() && !symbol_prefix(j).is_prefix_of(t) {
        lemma_matched_prefix(t, j + 1);
    }
}

/// A matched item keyword starts the text.
pub proof fn lemma_matched_keyword(t: Seq<char>, j: int)
    ensures
        matched_keyword_from(t, j) matches Some(i) ==> keyword(i).is_prefix_of(t) && 0 <= i < n_keywords(),
    decreases n_keywords() - j,
{
    if 0 <= j < n_keywords() && !keyword(j).is_prefix_of(t) {
        lemma_matched_keyword(t, j + 1);
    }
}

/// The keywords that open an item, in the order in which they are tried.
pub open spec fn n_keywords() -> int {
    8
}

/// The `i`-th item keyword.
pub open spec fn keyword(i: int) -> Seq<char> {
    if i == 0 {
        "fn "@
    } else if i == 1 {
        "struct "@
    } else if i == 2 {
        "enum "@
    } else if i == 3 {
        "trait "@
    } else if i == 4 {
        "class "@
    } else if i == 5 {
        "def "@
    } else if i == 6 {
        "func "@
    } else {
        "function "@
    }
}

/// The kind reported for the `i`-th item keyword.
pub open spec fn keyword_kind(i: int) -> SpanKind {
    if i == 1 {
        SpanKind::Struct
    } else if i == 2 {
        SpanKind::Enum
    } else if i == 3 {
        SpanKind::Trait
    } else if i == 4 {
        SpanKind::Class
    } else {
        SpanKind::Function
    }
}

fn keyword_str(i: usize) -> (r: (&'static str, SpanKind))
    ensures
        r.0@ == keyword(i as int),
        r.1 == keyword_kind(i as int),
{
    if i == 0 {
        ("fn ", SpanKind::Function)
    } else if i == 1 {
        ("struct ", SpanKind::Struct)
    } else if i == 2 {
        ("enum ", SpanKind::Enum)
    } else if i == 3 {
        ("trait ", SpanKind::Trait)
    } else if i == 4 {
        ("class ", SpanKind::Class)
    } else if i == 5 {
        ("def ", SpanKind::Function)
    } else if i == 6 {
        ("func ", SpanKind::Function)
    } else {
        ("function ", SpanKind::Function)
    }
}

/// The first item keyword, from index `i` on, that starts `t`.
pub open spec fn matched_keyword_from(t: Seq<char>, i: int) -> Option<int>
    decreases n_keywords() - i,
{
    if i < 0 || i >= n_keywords() {
        None
    } else if keyword(i).is_prefix_of(t) {
        Some(i)
    } else {
        matched_keyword_from(t, i + 1)
    }
}

/// Number of leading characters of `s` that satisfy `p`.
pub open spec fn run_len(s: Seq<char>, p: spec_fn(char) -> bool) -> nat
    decreases s.len(),
{
    if s.len() > 0 && p(s[0]) {
        1 + run_len(s.drop_first(), p)
    } else {
        0
    }
}

/// `run_len` is the length of the run of characters that satisfy `p`.
pub proof fn lemma_run_len(s: Seq<char>, p: spec_fn(char) -> bool, k: int)
    requires
        0 <= k <= s.len(),
        forall|i: int| 0 <= i < k ==> p(#[trigger] s[i]),
        k == s.len() || !p(s[k]),
    ensures
        run_len(s, p) == k,
    decreases k,
{
    if k > 0 {
        let t = s.drop_first();
        assert forall|i: int| 0 <= i < k - 1 implies p(#[trigger] t[i]) by {
            assert(t[i] == s[i + 1]);
        }
        if k < s.len() {
            assert(t[k - 1] == s[k]);
        }
        lemma_run_len(t, p, k - 1);
    } else {
        assert(!p(s[0]) || s.len() == 0);
    }
}

/// Characters that end a name after an item keyword.
pub open spec fn is_name_break(c: char) -> bool {
    c == '(' || c == '<' || c == ':' || c == '{' || c == ';' || is_ws(c)
}

/// Characters that end a type name.
pub open spec fn is_type_break(c: char) -> bool {
    c == '<' || c == '{' || c == ';' || c == '(' || is_ws(c)
}

/// The name reported when none can be read.
pub open spec fn unknown_name() -> Seq<char> {
    "<unknown>"@
}

/// The name that follows an item keyword: the leading run of `text` (after
/// whitespace) up to a break character, or `<unknown>` when that run is empty.
#[verifier::opaque]
pub open spec fn first_symbol_token_of(text: Seq<char>) -> Seq<char> {
    let t = trim_start(text);
    let n = run_len(t, |c: char| !is_name_break(c));
    if n == 0 {
        unknown_name()
    } else {
        t.take(n as int)
    }
}

/// `p` occurs in `t` at index `q`.
pub open spec fn occurs_at(t: Seq<char>, q: int, p: Seq<char>) -> bool {
    0 <= q && q + p.len() <= t.len() && t.subrange(q, q + p.len()) == p
}

/// The index of the last occurrence of `p` in `t`.
#[verifier::opaque]
pub open spec fn last_occurrence(t: Seq<char>, p: Seq<char>) -> Option<int> {
    if exists|q: int| occurs_at(t, q, p) {
        Some(choose|q: int| occurs_at(t, q, p) && forall|r: int| q < r ==> !occurs_at(t, r, p))
    } else {
        None
    }
}

/// A type name: the leading run of `text` (after whitespace) up to a break
/// character, or `<unknown>`, with any path before its last `::` removed.
#[verifier::opaque]
pub open spec fn type_symbol_token_of(text: Seq<char>) -> Seq<char> {
    let t = trim_start(text);
    let n = run_len(t, |c: char| !is_type_break(c));
    let token = if n == 0 {
        unknown_name()
    } else {
        t.take(n as int)
    };
    match last_occurrence(token, "::"@) {
        Some(q) => token.skip(q + "::"@.len()),
        None => token,
    }
}

/// Change of nesting depth for one character of a generic parameter list.
pub open spec fn angle_delta(c: char) -> int {
    if c == '<' {
        1
    } else if c == '>' {
        -1
    } else {
        0
    }
}

/// Nesting depth of angle brackets after reading `s`.
pub open spec fn angle_depth(s: Seq<char>) -> int
    decreases s.len(),
{
    if s.len() == 0 {
        0
    } else {
        angle_depth(s.drop_last()) + angle_delta(s.last())
    }
}

/// The `>` at index `i` of `t` brings the nesting depth back to zero.
pub open spec fn closes_angle(t: Seq<char>, i: int) -> bool {
    0 <= i < t.len() && t[i] == '>' && angle_depth(t.take(i + 1)) == 0
}

/// The index of the first `>` at which the angle brackets of `t` balance.
#[verifier::opaque]
pub open spec fn angle_end(t: Seq<char>) -> Option<int> {
    if exists|i: int| closes_angle(t, i) {
        Some(choose|i: int| closes_angle(t, i) && forall|j: int| 0 <= j < i ==> !closes_angle(t, j))
    } else {
        None
    }
}

/// The name of the type that an `impl` line implements: generic parameters are
/// skipped, and for `impl Trait for Type` the type after the last ` for ` counts.
#[verifier::opaque]
pub open spec fn impl_symbol_name_of(text: Seq<char>) -> Seq<char> {
    let r0 = if "impl"@.is_prefix_of(text) {
        text.skip("impl"@.len() as int)
    } else {
        text
    };
    let r1 = trim_start(r0);
    let r2 = if r1.len() > 0 && r1[0] == '<' {
        match angle_end(r1) {
            Some(e) => trim_start(r1.skip(e + 1)),
            None => r1,
        }
    } else {
        r1
    };
    match last_occurrence(r2, " for "@) {
        Some(q) => type_symbol_token_of(r2.skip(q + " for "@.len())),
        None => type_symbol_token_of(r2),
    }
}

/// `text` without an `extern` or `extern "ABI"` prefix.
#[verifier::opaque]
pub open spec fn strip_extern_prefix_of(text: Seq<char>) -> Seq<char> {
    if "extern "@.is_prefix_of(text) {
        let rest = trim_start(text.skip("extern "@.len() as int));
        if rest.len() > 0 && rest[0] == '"' {
            let stripped = rest.skip(1);
            match first_index_of(stripped, '"') {
                Some(q) => trim_start(stripped.skip(q + 1)),
                None => rest,
            }
        } else {
            rest
        }
    } else {
        text
    }
}

/// `text` with all modifier prefixes (`pub`, `async`, `const`, ...) and an
/// `extern` prefix removed.
pub open spec fn strip_symbol_prefixes_of(text: Seq<char>) -> Seq<char>
    decreases text.len(),
{
    match matched_prefix_from(text, 0) {
        Some(i) => {
            proof {
                lemma_matched_prefix(text, 0);
                lemma_symbol_prefix_nonempty(i);
                lemma_leading_ws_bound(text.skip(symbol_prefix(i).len() as int));
            }
            strip_symbol_prefixes_of(trim_start(text.skip(symbol_prefix(i).len() as int)))
        },
        None => strip_extern_prefix_of(text),
    }
}

/// The kind and name of the item that `line` opens, if it opens one.
#[verifier::opaque]
pub open spec fn symbol_parts_of(line: Seq<char>) -> Option<(SpanKind, Seq<char>)> {
    let rest = strip_symbol_prefixes_of(trim_start(line));
    match matched_keyword_from(rest, 0) {
        Some(i) => Some((keyword_kind(i), first_symbol_token_of(rest.skip(keyword(i).len() as int)))),
        None => if "impl "@.is_prefix_of(rest) || "impl<"@.is_prefix_of(rest) {
            Some((SpanKind::Impl, impl_symbol_name_of(rest)))
        } else {
            None
        },
    }
}

/// The kind of the item that `line` opens, `block` if none.
pub open spec fn classify_symbol_of(line: Seq<char>) -> SpanKind {
    match symbol_parts_of(line) {
        Some(parts) => parts.0,
        None => SpanKind::Block,
    }
}

/// The name of the item that `line` opens, `<unknown>` if none.
pub open spec fn symbol_name_of(line: Seq<char>) -> Seq<char> {
    match symbol_parts_of(line) {
        Some(parts) => parts.1,
        None => unknown_name(),
    }
}

proof fn lemma_skip_skip(s: Seq<char>, a: int, b: int)
    requires
        0 <= a,
        0 <= b,
        a + b <= s.len(),
    ensures
        s.skip(a).skip(b) == s.skip(a + b),
{
    assert(s.skip(a).skip(b) =~= s.skip(a + b));
}

/// `trim_start` of a suffix is again a suffix.
proof fn lemma_trim_start_skip(s: Seq<char>, a: int, k: int)
    requires
        0 <= a <= k <= s.len(),
        k == a + leading_ws(s.skip(a)),
    ensures
        trim_start(s.skip(a)) == s.skip(k),
{
    lemma_leading_ws_bound(s.skip(a));
    lemma_skip_skip(s, a, k - a);
}

/// The first matching modifier prefix at `pos`.
fn matched_prefix_at(s: &[char], pos: usize) -> (r: Option<usize>)
    requires
        pos <= s@.len(),
    ensures
        match matched_prefix_from(s@.skip(pos as int), 0) {
            Some(i) => r == Some(i as usize) && 0 <= i < n_symbol_prefixes(),
            None => r is None,
        },
{
    let mut i: usize = 0;
    while i < 8
        invariant
            i <= 8,
            pos <= s@.len(),
            matched_prefix_from(s@.skip(pos as int), 0) == matched_prefix_from(s@.skip(pos as int), i as int),
        decreases 8 - i,
    {
        if starts_with_str_at(s, pos, symbol_prefix_str(i)) {
            return Some(i);
        }
        i = i + 1;
    }
    None
}

/// The first matching item keyword at `pos`.
fn matched_keyword_at(s: &[char], pos: usize) -> (r: Option<usize>)
    requires
        pos <= s@.len(),
    ensures
        match matched_keyword_from(s@.skip(pos as int), 0) {
            Some(i) => r == Some(i as usize) && 0 <= i < n_keywords(),
            None => r is None,
        },
{
    let mut i: usize = 0;
    while i < 8
        invariant
            i <= 8,
            pos <= s@.len(),
            matched_keyword_from(s@.skip(pos as int), 0) == matched_keyword_from(s@.skip(pos as int), i as int),
        decreases 8 - i,
    {
        let (kw, _) = keyword_str(i);
        if starts_with_str_at(s, pos, kw) {
            return Some(i);
        }
        i = i + 1;
    }
    None
}

/// Index of the first `c` at or after `from`.
fn find_char(s: &[char], from: usize, c: char) -> (r: Option<usize>)
    requires
        from <= s@.len(),
    ensures
        match r {
            Some(q) => first_index_of(s@.skip(from as int), c) == Some(q - from),
            None => first_index_of(s@.skip(from as int), c) is None,
        },
        r matches Some(q) ==> from <= q < s@.len() && s@[q as int] == c,
{
    reveal(first_index_of);
    let ghost t = s@.skip(from as int);
    let mut i = from;
    while i < s.len()
        invariant
            from <= i <= s@.len(),
            t == s@.skip(from as int),
            forall|j: int| from <= j < i ==> s@[j] != c,
        decreases s@.len() - i,
    {
        if s[i] == c {
            proof {
                reveal(first_index_of);
                let q = (i - from) as int;
                assert(t[q] == c);
                let w = choose|w: int| 0 <= w < t.len() && t[w] == c && forall|j: int| 0 <= j < w ==> t[j] != c;
                assert(forall|j: int| 0 <= j < q ==> t[j] == s@[from + j]);
                if w < q {
                    assert(t[w] == s@[from + w]);
                }
                if q < w {
                    assert(t[q] != c);
                }
            }
            return Some(i);
        }
        i = i + 1;
    }
    proof {
        assert forall|j: int| 0 <= j < t.len() implies t[j] != c by {
            assert(t[j] == s@[from + j]);
        }
    }
    None
}

/// Position in `s` where `strip_extern_prefix_of(s[from..])` starts.
fn strip_extern_pos(s: &[char], from: usize) -> (k: usize)
    requires
        from <= s@.len(),
    ensures
        from <= k <= s@.len(),
        s@.skip(k as int) == strip_extern_prefix_of(s@.skip(from as int)),
{
    reveal(strip_extern_prefix_of);
    let n = s.len();
    let ghost t = s@.skip(from as int);
    let ext = chars_of("extern ");
    if !starts_with_at(s, from, ext.as_slice()) {
        return from;
    }
    let a = from + ext.len();
    proof {
        lemma_skip_skip(s@, from as int, ext@.len() as int);
        assert("extern "@.is_prefix_of(t));
    }
    let b = skip_ws(s, a);
    proof {
        lemma_trim_start_skip(s@, a as int, b as int);
        assert(trim_start(t.skip("extern "@.len() as int)) == s@.skip(b as int));
    }
    if b < s.len() && s[b] == '"' {
        proof {
            lemma_skip_skip(s@, b as int, 1);
        }
        match find_char(s, b + 1, '"') {
            Some(q) => {
                let c = skip_ws(s, q + 1);
                proof {
                    let rest = trim_start(t.skip("extern "@.len() as int));
                    assert(rest == s@.skip(b as int));
                    let stripped = s@.skip(b + 1);
                    assert(rest.skip(1) == stripped);
                    let qq = (q - (b + 1)) as int;
                    assert(first_index_of(stripped, '"') == Some(qq));
                    lemma_skip_skip(s@, b + 1, qq + 1);
                    assert(stripped.skip(qq + 1) == s@.skip(q + 1));
                    lemma_trim_start_skip(s@, q + 1, c as int);
                    assert(strip_extern_prefix_of(t) == trim_start(stripped.skip(qq + 1)));
                }
                c
            },
            None => {
                proof {
                    let rest = trim_start(t.skip("extern "@.len() as int));
                    assert(rest == s@.skip(b as int));
                    assert(rest.skip(1) == s@.skip(b + 1));
                }
                b
            },
        }
    } else {
        b
    }
}

/// Position in `s` where `strip_symbol_prefixes_of(s[from..])` starts.
fn strip_prefixes_pos(s: &[char], from: usize) -> (k: usize)
    requires
        from <= s@.len(),
    ensures
        from <= k <= s@.len(),
        s@.skip(k as int) == strip_symbol_prefixes_of(s@.skip(from as int)),
{
    let n = s.len();
    let mut k = from;
    loop
        invariant
            from <= k <= s@.len(),
            n == s@.len(),
            strip_symbol_prefixes_of(s@.skip(from as int)) == strip_symbol_prefixes_of(s@.skip(k as int)),
        decreases s@.len() - k,
    {
        match matched_prefix_at(s, k) {
            Some(i) => {
                let p = chars_of(symbol_prefix_str(i));
                proof {
                    lemma_matched_prefix(s@.skip(k as int), 0);
                    lemma_symbol_prefix_nonempty(i as int);
                    lemma_skip_skip(s@, k as int, p@.len() as int);
                }
                let k2 = skip_ws(s, k + p.len());
                proof {
                    lemma_trim_start_skip(s@, k + p@.len(), k2 as int);
                }
                k = k2;
            },
            None => {
                let r = strip_extern_pos(s, k);
                return r;
            },
        }
    }
}

/// End of the run of name characters starting at `from`.
fn name_run_end(s: &[char], from: usize) -> (k: usize)
    requires
        from <= s@.len(),
    ensures
        from <= k <= s@.len(),
        k - from == run_len(s@.skip(from as int), |c: char| !is_name_break(c)),
{
    let mut k = from;
    while k < s.len() && !(s[k] == '(' || s[k] == '<' || s[k] == ':' || s[k] == '{' || s[k] == ';'
        || is_whitespace(s[k]))
        invariant
            from <= k <= s@.len(),
            forall|i: int| from <= i < k ==> !is_name_break(#[trigger] s@[i]),
        decreases s@.len() - k,
    {
        k = k + 1;
    }
    proof {
        let t = s@.skip(from as int);
        let p = |c: char| !is_name_break(c);
        assert forall|i: int| 0 <= i < k - from implies p(#[trigger] t[i]) by {
            assert(t[i] == s@[from + i]);
        }
        if k < s@.len() {
            assert(t[k - from] == s@[k as int]);
        }
        lemma_run_len(t, p, k - from);
    }
    k
}

/// End of the run of type-name characters starting at `from`.
fn type_run_end(s: &[char], from: usize) -> (k: usize)
    requires
        from <= s@.len(),
    ensures
        from <= k <= s@.len(),
        k - from == run_len(s@.skip(from as int), |c: char| !is_type_break(c)),
{
    let mut k = from;
    while k < s.len() && !(s[k] == '<' || s[k] == '{' || s[k] == ';' || s[k] == '(' || is_whitespace(
        s[k],
    ))
        invariant
            from <= k <= s@.len(),
            forall|i: int| from <= i < k ==> !is_type_break(#[trigger] s@[i]),
        decreases s@.len() - k,
    {
        k = k + 1;
    }
    proof {
        let t = s@.skip(from as int);
        let p = |c: char| !is_type_break(c);
        assert forall|i: int| 0 <= i < k - from implies p(#[trigger] t[i]) by {
            assert(t[i] == s@[from + i]);
        }
        if k < s@.len() {
            assert(t[k - from] == s@[k as int]);
        }
        lemma_run_len(t, p, k - from);
    }
    k
}

/// `first_symbol_token_of(s[from..])`.
fn first_symbol_token_at(s: &[char], from: usize) -> (r: String)
    requires
        from <= s@.len(),
    ensures
        r@ == first_symbol_token_of(s@.skip(from as int)),
{
    reveal(first_symbol_token_of);
    let a = skip_ws(s, from);
    proof {
        lemma_trim_start_skip(s@, from as int, a as int);
    }
    let b = name_run_end(s, a);
    if b == a {
        string_from("<unknown>")
    } else {
        let r = string_of(s, a, b);
        proof {
            assert(s@.skip(a as int).take(b - a) =~= s@.subrange(a as int, b as int));
        }
        r
    }
}

/// Index of the last occurrence of `p` in `s[from..to]`, counted from `from`.
pub(crate) fn last_occurrence_in(s: &[char], from: usize, p: &[char]) -> (r: Option<usize>)
    requires
        from <= s@.len(),
        p@.len() > 0,
    ensures
        match r {
            Some(q) => last_occurrence(s@.skip(from as int), p@) == Some(q as int),
            None => last_occurrence(s@.skip(from as int), p@) is None,
        },
        r matches Some(q) ==> occurs_at(s@.skip(from as int), q as int, p@),
{
    reveal(last_occurrence);
    let ghost t = s@.skip(from as int);
    let n = s.len() - from;
    if p.len() > n {
        proof {
            assert forall|q: int| !occurs_at(t, q, p@) by {}
        }
        return None;
    }
    let mut q: usize = n - p.len() + 1;
    while q > 0
        invariant
            t == s@.skip(from as int),
            n == t.len(),
            s@.len() == s.len(),
            from + n == s@.len(),
            p@.len() <= n,
            q <= n - p@.len() + 1,
            forall|r: int| q <= r ==> !occurs_at(t, r, p@),
        decreases q,
    {
        q = q - 1;
        proof {
            lemma_skip_skip(s@, from as int, q as int);
        }
        if starts_with_at(s, from + q, p) {
            proof {
                reveal(last_occurrence);
                assert(t.subrange(q as int, q + p@.len()) =~= s@.skip(from + q).subrange(0, p@.len() as int));
                assert(occurs_at(t, q as int, p@));
                assert(occurs_at(t, q as int, p@) && forall|r: int| q < r ==> !occurs_at(t, r, p@));
                let w = choose|w: int| occurs_at(t, w, p@) && forall|r: int| w < r ==> !occurs_at(t, r, p@);
                assert(w == q);
                assert(last_occurrence(t, p@) == Some(q as int));
            }
            return Some(q);
        }
        proof {
            assert(t.subrange(q as int, q + p@.len()) =~= s@.skip(from + q).subrange(0, p@.len() as int));
        }
    }
    None
}

/// `type_symbol_token_of(s[from..])`.
fn type_symbol_token_at(s: &[char], from: usize) -> (r: String)
    requires
        from <= s@.len(),
    ensures
        r@ == type_symbol_token_of(s@.skip(from as int)),
{
    reveal(type_symbol_token_of);
    let a = skip_ws(s, from);
    proof {
        lemma_trim_start_skip(s@, from as int, a as int);
    }
    let b = type_run_end(s, a);
    let sep = chars_of("::");
    proof {
        reveal_strlit("::");
    }
    let token: Vec<char> = if b == a {
        chars_of("<unknown>")
    } else {
        let mut v: Vec<char> = Vec::new();
        let mut i = a;
        while i < b
            invariant
                a <= i <= b <= s@.len(),
                v@ == s@.subrange(a as int, i as int),
            decreases b - i,
        {
            v.push(s[i]);
            proof {
                assert(s@.subrange(a as int, i + 1) =~= s@.subrange(a as int, i as int).push(s@[i as int]));
            }
            i = i + 1;
        }
        proof {
            assert(s@.skip(a as int).take(b - a) =~= s@.subrange(a as int, b as int));
        }
        v
    };
    let tl = token.len();
    proof {
        assert(token@.skip(0) =~= token@);
    }
    match last_occurrence_in(token.as_slice(), 0, sep.as_slice()) {
        Some(q) => {
            let r = string_of(token.as_slice(), q + sep.len(), token.len());
            proof {
                assert(token@.skip(q + sep@.len()) =~= token@.subrange(q + sep@.len(), token@.len() as int));
            }
            r
        },
        None => {
            let r = string_of(token.as_slice(), 0, token.len());
            proof {
                assert(token@.subrange(0, token@.len() as int) =~= token@);
            }
            r
        },
    }
}

/// Index in `s` of the `>` that closes the angle brackets opened in `s[from..]`.
fn angle_end_at(s: &[char], from: usize) -> (r: Option<usize>)
    requires
        from <= s@.len(),
    ensures
        match r {
            Some(e) => angle_end(s@.skip(from as int)) == Some(e - from),
            None => angle_end(s@.skip(from as int)) is None,
        },
        r matches Some(e) ==> from <= e < s@.len(),
{
    reveal(angle_end);
    let ghost t = s@.skip(from as int);
    let mut depth: i128 = 0;
    let mut i = from;
    let n = s.len();
    while i < n
        invariant
            from <= i <= s@.len(),
            n == s@.len(),
            t == s@.skip(from as int),
            depth == angle_depth(t.take(i - from)),
            -(i - from) <= depth <= i - from,
            forall|j: int| 0 <= j < i - from ==> !closes_angle(t, j),
        decreases s@.len() - i,
    {
        let c = s[i];
        proof {
            assert(t.take(i - from + 1).drop_last() =~= t.take(i - from));
            assert(t.take(i - from + 1).last() == c);
        }
        if c == '<' {
            depth = depth + 1;
        } else if c == '>' {
            depth = depth - 1;
            if depth == 0 {
                proof {
                    reveal(angle_end);
                    let q = (i - from) as int;
                    assert(closes_angle(t, q));
                    assert(closes_angle(t, q) && forall|j: int| 0 <= j < q ==> !closes_angle(t, j));
                    let w = choose|w: int| closes_angle(t, w) && forall|j: int| 0 <= j < w ==> !closes_angle(t, j);
                    assert(w == q);
                }
                return Some(i);
            }
        }
        proof {
            assert(!closes_angle(t, i - from));
        }
        i = i + 1;
    }
    None
}

/// `impl_symbol_name_of(s[from..])`.
fn impl_symbol_name_at(s: &[char], from: usize) -> (r: String)
    requires
        from <= s@.len(),
    ensures
        r@ == impl_symbol_name_of(s@.skip(from as int)),
{
    reveal(impl_symbol_name_of);
    let n = s.len();
    let kw = chars_of("impl");
    let a = if starts_with_at(s, from, kw.as_slice()) {
        proof {
            lemma_skip_skip(s@, from as int, kw@.len() as int);
        }
        from + kw.len()
    } else {
        from
    };
    let b = skip_ws(s, a);
    proof {
        lemma_trim_start_skip(s@, a as int, b as int);
    }
    let c = if b < s.len() && s[b] == '<' {
        match angle_end_at(s, b) {
            Some(e) => {
                let c = skip_ws(s, e + 1);
                proof {
                    lemma_skip_skip(s@, b as int, e + 1 - b);
                    lemma_trim_start_skip(s@, e + 1, c as int);
                }
                c
            },
            None => b,
        }
    } else {
        b
    };
    let sep = chars_of(" for ");
    proof {
        reveal_strlit(" for ");
    }
    match last_occurrence_in(s, c, sep.as_slice()) {
        Some(q) => {
            proof {
                lemma_skip_skip(s@, c as int, q + sep@.len());
            }
            type_symbol_token_at(s, c + q + sep.len())
        },
        None => type_symbol_token_at(s, c),
    }
}

/// The kind and name of the item that the line `s` opens.
fn symbol_parts_chars(s: &[char]) -> (r: Option<(SpanKind, String)>)
    ensures
        r.is_some() == symbol_parts_of(s@).is_some(),
        r.is_some() ==> r.unwrap().0 == symbol_parts_of(s@).unwrap().0 && r.unwrap().1@
            == symbol_parts_of(s@).unwrap().1,
{
    reveal(symbol_parts_of);
    let n = s.len();
    let a = skip_ws(s, 0);
    proof {
        assert(s@.skip(0) =~= s@);
        lemma_trim_start_skip(s@, 0, a as int);
    }
    let b = strip_prefixes_pos(s, a);
    match matched_keyword_at(s, b) {
        Some(i) => {
            let (kw, kind) = keyword_str(i);
            let kc = chars_of(kw);
            proof {
                lemma_matched_keyword(s@.skip(b as int), 0);
                lemma_skip_skip(s@, b as int, kc@.len() as int);
            }
            let name = first_symbol_token_at(s, b + kc.len());
            return Some((kind, name));
        },
        None => {},
    }
    if starts_with_str_at(s, b, "impl ") || starts_with_str_at(s, b, "impl<") {
        let name = impl_symbol_name_at(s, b);
        return Some((SpanKind::Impl, name));
    }
    None
}

/// The kind and name of the item that `line` opens (`fn`, `struct`, `enum`,
/// `trait`, `class`, `def`, `func`, `function` or `impl`), after leading
/// whitespace and modifier prefixes; `None` for any other line.
pub fn symbol_parts(line: &str) -> (r: Option<(SpanKind, String)>)
    ensures
        r.is_some() == symbol_parts_of(line@).is_some(),
        r.is_some() ==> r.unwrap().0 == symbol_parts_of(line@).unwrap().0 && r.unwrap().1@
            == symbol_parts_of(line@).unwrap().1,
{
    let s = chars_of(line);
    symbol_parts_chars(s.as_slice())
}

/// Whether `line` opens an item.
pub fn looks_like_symbol(line: &str) -> (r: bool)
    ensures
        r == symbol_parts_of(line@).is_some(),
{
    symbol_parts(line).is_some()
}

/// The kind of the item that `line` opens, `block` if it opens none.
pub fn classify_symbol(line: &str) -> (r: &'static str)
    ensures
        r@ == kind_text(classify_symbol_of(line@)),
{
    match symbol_parts(line) {
        Some((kind, _)) => kind_name(kind),
        None => kind_name(SpanKind::Block),
    }
}

/// The name of the item that `line` opens, `<unknown>` if it opens none.
pub fn symbol_name(line: &str) -> (r: String)
    ensures
        r@ == symbol_name_of(line@),
{
    match symbol_parts(line) {
        Some((_, name)) => name,
        None => string_from("<unknown>"),
    }
}

/// `text` without modifier prefixes and an `extern` prefix.
pub fn strip_symbol_prefixes(text: &str) -> (r: &str)
    ensures
        r@ == strip_symbol_prefixes_of(text@),
{
    let s = chars_of(text);
    proof {
        assert(s@.skip(0) =~= s@);
    }
    let k = strip_prefixes_pos(s.as_slice(), 0);
    let r = text.substring_char(k, s.len());
    proof {
        assert(s@.subrange(k as int, s@.len() as int) =~= s@.skip(k as int));
    }
    r
}

/// `text` without an `extern` or `extern "ABI"` prefix.
pub fn strip_extern_prefix(text: &str) -> (r: &str)
    ensures
        r@ == strip_extern_prefix_of(text@),
{
    let s = chars_of(text);
    proof {
        assert(s@.skip(0) =~= s@);
    }
    let k = strip_extern_pos(s.as_slice(), 0);
    let r = text.substring_char(k, s.len());
    proof {
        assert(s@.subrange(k as int, s@.len() as int) =~= s@.skip(k as int));
    }
    r
}

/// The name that follows an item keyword.
pub fn first_symbol_token(text: &str) -> (r: String)
    ensures
        r@ == first_symbol_token_of(text@),
{
    let s = chars_of(text);
    proof {
        assert(s@.skip(0) =~= s@);
    }
    first_symbol_token_at(s.as_slice(), 0)
}

/// The type that an `impl` line implements.
pub fn impl_symbol_name(text: &str) -> (r: String)
    ensures
        r@ == impl_symbol_name_of(text@),
{
    let s = chars_of(text);
    proof {
        assert(s@.skip(0) =~= s@);
    }
    impl_symbol_name_at(s.as_slice(), 0)
}

/// The last path segment of the type name at the start of `text`.
pub fn type_symbol_token(text: &str) -> (r: String)
    ensures
        r@ == type_symbol_token_of(text@),
{
    let s = chars_of(text);
    proof {
        assert(s@.skip(0) =~= s@);
    }
    type_symbol_token_at(s.as_slice(), 0)
}

/// The byte offset of the `>` that balances the angle brackets of `text`.
pub fn matching_angle_end(text: &str) -> (r: Option<usize>)
    ensures
        match angle_end(text@) {
            Some(e) => r == Some(vstd::utf8::encode_utf8(text@.take(e)).len() as usize),
            None => r is None,
        },
{
    let s = chars_of(text);
    proof {
        assert(s@.skip(0) =~= s@);
    }
    match angle_end_at(s.as_slice(), 0) {
        Some(e) => {
            let prefix = text.substring_char(0, e);
            proof {
                assert(s@.subrange(0, e as int) =~= s@.take(e as int));
            }
            Some(prefix.len())
        },
        None => None,
    }
}

} // verus!
