use vstd::prelude::*;
use std::collections::HashMap;
use crate::text::{nat_text, push_char, usize_to_string, join_text, strings_view, join, chars_of};
use crate::source_text::{find_from, contains_text, find_text, trim_text, trim, lines_of, lines, occurs_at,
    is_ascii_alnum, is_ascii_alnum_char, string_of, lemma_lines_short};
use crate::module_loader::LoadError;
use crate::type_error::{TypeError, TypeErrorKind};
use crate::types::{type_text, type_to_string};
use crate::staged_forest::MetaProcessError;
use crate::eval_error::EvalError;

verus! {

broadcast use vstd::std_specs::hash::group_hash_axioms;

// ── Diagnostic ───────────────────────────────────────────────────────────────

/// A renderable compiler diagnostic: a title, where it happened, an optional
/// source snippet with an underline, and an optional help line.
#[derive(Debug, Clone)]
pub struct Diagnostic {
    pub title: String,
    pub file: Option<String>,
    pub line: Option<usize>,
    pub col: Option<usize>,
    /// The source line shown in the snippet.
    pub source_line: Option<String>,
    /// Column (1-based) where the underline starts.
    pub underline_col: Option<usize>,
    /// Number of `~` in the underline.
    pub underline_len: usize,
    /// Text shown after the underline.
    pub label: Option<String>,
    pub help: Option<String>,
}

/// A diagnostic with its texts as character sequences.
pub struct DiagView {
    pub title: Seq<char>,
    pub file: Option<Seq<char>>,
    pub line: Option<usize>,
    pub col: Option<usize>,
    pub source_line: Option<Seq<char>>,
    pub underline_col: Option<usize>,
    pub underline_len: usize,
    pub label: Option<Seq<char>>,
    pub help: Option<Seq<char>>,
}

pub open spec fn opt_view(o: Option<String>) -> Option<Seq<char>> {
    match o {
        Some(s) => Some(s@),
        None => None,
    }
}

impl View for Diagnostic {
    type V = DiagView;

    open spec fn view(&self) -> DiagView {
        DiagView {
            title: self.title@,
            file: opt_view(self.file),
            line: self.line,
            col: self.col,
            source_line: opt_view(self.source_line),
            underline_col: self.underline_col,
            underline_len: self.underline_len,
            label: opt_view(self.label),
            help: opt_view(self.help),
        }
    }
}

/// A diagnostic with only a title.
pub open spec fn diag(title: Seq<char>) -> DiagView {
    DiagView {
        title,
        file: None,
        line: None,
        col: None,
        source_line: None,
        underline_col: None,
        underline_len: 1,
        label: None,
        help: None,
    }
}

pub open spec fn with_file(d: DiagView, path: Seq<char>) -> DiagView {
    DiagView { file: Some(path), ..d }
}

pub open spec fn with_location(d: DiagView, line: usize, col: usize) -> DiagView {
    DiagView { line: Some(line), col: Some(col), ..d }
}

pub open spec fn with_source(d: DiagView, src: Seq<char>, ucol: usize, ulen: usize, label: Seq<char>) -> DiagView {
    DiagView {
        source_line: Some(src),
        underline_col: Some(ucol),
        underline_len: if ulen >= 1 { ulen } else { 1 },
        label: Some(label),
        ..d
    }
}

pub open spec fn with_help(d: DiagView, help: Seq<char>) -> DiagView {
    DiagView { help: Some(help), ..d }
}

impl Diagnostic {
    pub fn new(title: &str) -> (d: Self)
        ensures
            d@ == diag(title@),
    {
        Diagnostic {
            title: String::from_str(title),
            file: None,
            line: None,
            col: None,
            source_line: None,
            underline_col: None,
            underline_len: 1,
            label: None,
            help: None,
        }
    }

    pub fn with_file(self, path: String) -> (d: Self)
        ensures
            d@ == with_file(self@, path@),
    {
        let mut d = self;
        d.file = Some(path);
        d
    }

    pub fn with_location(self, line: usize, col: usize) -> (d: Self)
        ensures
            d@ == with_location(self@, line, col),
    {
        let mut d = self;
        d.line = Some(line);
        d.col = Some(col);
        d
    }

    /// Attaches a snippet: the source line, where the underline starts, its
    /// length (at least 1) and the label after it.
    pub fn with_source(self, source_line: String, underline_col: usize, underline_len: usize, label: &str) -> (d: Self)
        ensures
            d@ == with_source(self@, source_line@, underline_col, underline_len, label@),
    {
        let mut d = self;
        d.source_line = Some(source_line);
        d.underline_col = Some(underline_col);
        d.underline_len = if underline_len >= 1 { underline_len } else { 1 };
        d.label = Some(String::from_str(label));
        d
    }

    pub fn with_help(self, help: &str) -> (d: Self)
        ensures
            d@ == with_help(self@, help@),
    {
        let mut d = self;
        d.help = Some(String::from_str(help));
        d
    }
}

// ── Rendering ────────────────────────────────────────────────────────────────

pub open spec fn repeat_char(c: char, n: nat) -> Seq<char> {
    Seq::new(n, |i: int| c)
}

pub open spec fn title_text(d: DiagView, color: bool) -> Seq<char> {
    if color {
        "\x1b[1;31m×\x1b[0m \x1b[1m"@ + d.title + "\x1b[0m\n"@
    } else {
        "× "@ + d.title + "\n"@
    }
}

/// `path`, with `:line:col` when both are known.
pub open spec fn loc_text(path: Seq<char>, line: Option<usize>, col: Option<usize>) -> Seq<char> {
    match (line, col) {
        (Some(l), Some(c)) => path + ":"@ + nat_text(l as nat) + ":"@ + nat_text(c as nat),
        _ => path,
    }
}

pub open spec fn file_text(d: DiagView, color: bool) -> Seq<char> {
    match d.file {
        Some(p) => if color {
            "  \x1b[36m┌─\x1b[0m "@ + loc_text(p, d.line, d.col) + "\n"@
        } else {
            "  ┌─ "@ + loc_text(p, d.line, d.col) + "\n"@
        },
        None => Seq::empty(),
    }
}

pub open spec fn gutter(color: bool) -> Seq<char> {
    if color { "\x1b[36m│\x1b[0m"@ } else { "│"@ }
}

/// The gutter line and the numbered source line.
pub open spec fn snippet_head(prefix: Seq<char>, src: Seq<char>, color: bool) -> Seq<char> {
    "  "@ + gutter(color) + "\n"@ + prefix + " "@ + gutter(color) + " "@ + src + "\n"@
}

/// The underline line: `~` under the columns, then the label.
pub open spec fn underline_text(pad: nat, indent: nat, len: nat, label: Option<Seq<char>>, color: bool) -> Seq<char> {
    repeat_char(' ', pad) + " "@ + gutter(color) + " "@ + repeat_char(' ', indent)
        + (if color { "\x1b[35m"@ } else { Seq::empty() })
        + repeat_char('~', len)
        + (if color { "\x1b[0m"@ } else { Seq::empty() })
        + (match label { Some(l) => " "@ + l, None => Seq::empty() }) + "\n"@
}

/// The closing gutter line.
pub open spec fn snippet_foot(pad: nat, color: bool) -> Seq<char> {
    repeat_char(' ', pad) + " "@ + gutter(color) + "\n"@
}

/// The source snippet: a gutter line, the numbered source line, the
/// underline with its label, and a closing gutter line.
pub open spec fn snippet_text(d: DiagView, color: bool) -> Seq<char> {
    match (d.source_line, d.line, d.underline_col) {
        (Some(src), Some(n), Some(ucol)) => {
            let prefix = nat_text(n as nat);
            let indent: nat = if ucol >= 1 { (ucol - 1) as nat } else { 0 };
            snippet_head(prefix, src, color)
                + underline_text(prefix.len(), indent, d.underline_len as nat, d.label, color)
                + snippet_foot(prefix.len(), color)
        },
        _ => Seq::empty(),
    }
}

pub open spec fn help_text(d: DiagView, color: bool) -> Seq<char> {
    match d.help {
        Some(h) => if color {
            "  \x1b[36m└─ help:\x1b[0m "@ + h + "\n"@
        } else {
            "  └─ help: "@ + h + "\n"@
        },
        None => Seq::empty(),
    }
}

/// The text of a diagnostic, with ANSI colours when `color`.
pub open spec fn render_text(d: DiagView, color: bool) -> Seq<char> {
    title_text(d, color) + file_text(d, color) + snippet_text(d, color) + help_text(d, color)
}

proof fn lemma_assoc3(o: Seq<char>, a: Seq<char>, b: Seq<char>, c: Seq<char>)
    ensures
        o + a + b + c == o + (a + b + c),
{
    assert(o + a + b + c =~= o + (a + b + c));
}

fn push_repeated(out: &mut String, c: char, n: usize)
    ensures
        final(out)@ == old(out)@ + repeat_char(c, n as nat),
{
    let mut i: usize = 0;
    while i < n
        invariant
            i <= n,
            out@ == old(out)@ + repeat_char(c, i as nat),
        decreases n - i,
    {
        push_char(out, c);
        i = i + 1;
        proof { assert(out@ =~= old(out)@ + repeat_char(c, i as nat)); }
    }
}

impl Diagnostic {
    fn write_title(&self, out: &mut String, color: bool)
        ensures
            final(out)@ == old(out)@ + title_text(self@, color),
    {
        if color {
            out.append("\x1b[1;31m×\x1b[0m \x1b[1m");
            out.append(self.title.as_str());
            out.append("\x1b[0m\n");
        } else {
            out.append("× ");
            out.append(self.title.as_str());
            out.append("\n");
        }
        proof { assert(final(out)@ =~= old(out)@ + title_text(self@, color)); }
    }

    fn write_file(&self, out: &mut String, color: bool)
        ensures
            final(out)@ == old(out)@ + file_text(self@, color),
    {
        match &self.file {
            Some(path) => {
                if color {
                    out.append("  \x1b[36m┌─\x1b[0m ");
                } else {
                    out.append("  ┌─ ");
                }
                out.append(path.as_str());
                match (self.line, self.col) {
                    (Some(l), Some(c)) => {
                        out.append(":");
                        let ls = usize_to_string(l);
                        out.append(ls.as_str());
                        out.append(":");
                        let cs = usize_to_string(c);
                        out.append(cs.as_str());
                    },
                    _ => {},
                }
                out.append("\n");
            },
            None => {},
        }
        proof { assert(final(out)@ =~= old(out)@ + file_text(self@, color)); }
    }

    fn write_gutter(out: &mut String, color: bool)
        ensures
            final(out)@ == old(out)@ + gutter(color),
    {
        if color {
            out.append("\x1b[36m│\x1b[0m");
        } else {
            out.append("│");
        }
    }

    fn write_underline(&self, out: &mut String, color: bool, pad: usize, indent: usize)
        ensures
            final(out)@ == old(out)@ + underline_text(pad as nat, indent as nat, self.underline_len as nat,
                opt_view(self.label), color),
    {
        let ghost o0 = out@;
        push_repeated(out, ' ', pad);
        out.append(" ");
        Self::write_gutter(out, color);
        out.append(" ");
        push_repeated(out, ' ', indent);
        let ghost o1 = out@;
        if color {
            out.append("\x1b[35m");
        }
        let ghost o2 = out@;
        push_repeated(out, '~', self.underline_len);
        let ghost o3 = out@;
        if color {
            out.append("\x1b[0m");
        }
        let ghost o4 = out@;
        match &self.label {
            Some(l) => {
                out.append(" ");
                out.append(l.as_str());
            },
            None => {},
        }
        let ghost o5 = out@;
        out.append("\n");
        proof {
            assert(o2 =~= o1 + (if color { "\x1b[35m"@ } else { Seq::empty() }));
            assert(o4 =~= o3 + (if color { "\x1b[0m"@ } else { Seq::empty() }));
            assert(o5 =~= o4 + (match self.label { Some(l) => " "@ + l@, None => Seq::empty() }));
            assert(out@ =~= o0 + underline_text(pad as nat, indent as nat, self.underline_len as nat,
                opt_view(self.label), color));
        }
    }

    fn write_snippet(&self, out: &mut String, color: bool)
        ensures
            final(out)@ == old(out)@ + snippet_text(self@, color),
    {
        let ghost o0 = out@;
        match (&self.source_line, self.line, self.underline_col) {
            (Some(src), Some(n), Some(ucol)) => {
                let prefix = usize_to_string(n);
                let pad = prefix.unicode_len();
                let indent = if ucol >= 1 { ucol - 1 } else { 0 };
                out.append("  ");
                Self::write_gutter(out, color);
                out.append("\n");
                out.append(prefix.as_str());
                out.append(" ");
                Self::write_gutter(out, color);
                out.append(" ");
                out.append(src.as_str());
                out.append("\n");
                let ghost o1 = out@;
                proof { assert(o1 =~= o0 + snippet_head(prefix@, src@, color)); }
                self.write_underline(out, color, pad, indent);
                let ghost o2 = out@;
                push_repeated(out, ' ', pad);
                out.append(" ");
                Self::write_gutter(out, color);
                out.append("\n");
                proof {
                    let h = snippet_head(prefix@, src@, color);
                    let u = underline_text(pad as nat, indent as nat, self.underline_len as nat, opt_view(self.label), color);
                    let f = snippet_foot(pad as nat, color);
                    assert(out@ =~= o2 + f);
                    lemma_assoc3(o0, h, u, f);
                    assert(snippet_text(self@, color) == h + u + f);
                }
            },
            _ => {
                proof { assert(out@ =~= o0 + snippet_text(self@, color)); }
            },
        }
    }

    fn write_help(&self, out: &mut String, color: bool)
        ensures
            final(out)@ == old(out)@ + help_text(self@, color),
    {
        match &self.help {
            Some(h) => {
                if color {
                    out.append("  \x1b[36m└─ help:\x1b[0m ");
                } else {
                    out.append("  └─ help: ");
                }
                out.append(h.as_str());
                out.append("\n");
            },
            None => {},
        }
        proof { assert(final(out)@ =~= old(out)@ + help_text(self@, color)); }
    }

    /// Writes the diagnostic after what `out` holds.
    pub fn write_to(&self, out: &mut String, color: bool)
        ensures
            final(out)@ == old(out)@ + render_text(self@, color),
    {
        self.write_title(out, color);
        self.write_file(out, color);
        self.write_snippet(out, color);
        self.write_help(out, color);
        proof { assert(final(out)@ =~= old(out)@ + render_text(self@, color)); }
    }
}

// ── Error texts ──────────────────────────────────────────────────────────────

/// The position in `s` from `from` on of the first `,` or `}` (or the end).
pub open spec fn sep_end(s: Seq<char>, from: nat) -> nat
    decreases s.len() - from,
{
    if from >= s.len() {
        s.len()
    } else if s[from as int] == ',' || s[from as int] == '}' {
        from
    } else {
        sep_end(s, from + 1)
    }
}

/// The text between the first `key` of `raw` and the next `key` (or the
/// end), cut at its first `,` or `}` and trimmed; `None` when `key` does not
/// occur.
pub open spec fn field_after(raw: Seq<char>, key: Seq<char>) -> Option<Seq<char>> {
    match find_from(raw, key, 0) {
        None => None,
        Some(i) => {
            let start = i + key.len();
            let end = match find_from(raw, key, start) {
                Some(j) => j,
                None => raw.len(),
            };
            let piece = raw.subrange(start as int, end as int);
            Some(trim_text(piece.subrange(0, sep_end(piece, 0) as int)))
        },
    }
}

pub open spec fn or_text(o: Option<Seq<char>>, dflt: Seq<char>) -> Seq<char> {
    match o {
        Some(t) => t,
        None => dflt,
    }
}

/// A parse error's debug text made readable: the token found and the one
/// expected are picked out of it.
pub open spec fn friendly_parse_text(raw: Seq<char>) -> Seq<char> {
    if contains_text(raw, "UnexpectedToken"@) {
        "unexpected token '"@ + or_text(field_after(raw, "found: "@), "unknown token"@)
            + "', expected '"@ + or_text(field_after(raw, "expected: "@), "unknown"@) + "'"@
    } else if contains_text(raw, "UnexpectedEOF"@) {
        "unexpected end of file, expected '"@ + or_text(field_after(raw, "expected: "@), "unknown"@) + "'"@
    } else {
        raw
    }
}

proof fn lemma_find_from_found(s: Seq<char>, pat: Seq<char>, from: nat)
    requires
        find_from(s, pat, from) is Some,
    ensures
        from <= find_from(s, pat, from)->0,
        occurs_at(s, pat, find_from(s, pat, from)->0 as int),
    decreases s.len() + 1 - from,
{
    if !occurs_at(s, pat, from as int) {
        lemma_find_from_found(s, pat, from + 1);
    }
}

proof fn lemma_sep_end_bounds(s: Seq<char>, from: nat)
    requires
        from <= s.len(),
    ensures
        from <= sep_end(s, from) <= s.len(),
    decreases s.len() - from,
{
    if from < s.len() && s[from as int] != ',' && s[from as int] != '}' {
        lemma_sep_end_bounds(s, from + 1);
    }
}

fn field_after_exec(raw: &Vec<char>, key: &Vec<char>) -> (r: Option<String>)
    ensures
        opt_view(r) == field_after(raw@, key@),
{
    match find_text(raw, key, 0) {
        None => None,
        Some(i) => {
            proof {
                lemma_find_from_found(raw@, key@, 0);
                assert(occurs_at(raw@, key@, i as int));
                assert(i + key@.len() <= raw@.len());
            }
            let n = raw.len();
            let start = i + key.len();
            let end = match find_text(raw, key, start) {
                Some(j) => {
                    proof { lemma_find_from_found(raw@, key@, start as nat); }
                    j
                },
                None => n,
            };
            let ghost piece = raw@.subrange(start as int, end as int);
            let mut k = start;
            while k < end && raw[k] != ',' && raw[k] != '}'
                invariant
                    start <= k <= end <= raw@.len(),
                    piece == raw@.subrange(start as int, end as int),
                    sep_end(piece, 0) == sep_end(piece, (k - start) as nat),
                decreases end - k,
            {
                proof { assert(piece[(k - start) as int] == raw@[k as int]); }
                k = k + 1;
            }
            proof { assert(sep_end(piece, (k - start) as nat) == (k - start) as nat); }
            let part: Vec<char> = chars_of(string_of(raw, start, k).as_str());
            proof { assert(part@ =~= piece.subrange(0, sep_end(piece, 0) as int)); }
            Some(trim(&part))
        },
    }
}

/// A parse error's debug text made readable.
pub fn friendly_parse_error(raw: &str) -> (r: String)
    ensures
        r@ == friendly_parse_text(raw@),
{
    let cs = chars_of(raw);
    let unexpected_token = chars_of("UnexpectedToken");
    let unexpected_eof = chars_of("UnexpectedEOF");
    let found_key = chars_of("found: ");
    let expected_key = chars_of("expected: ");
    if find_text(&cs, &unexpected_token, 0).is_some() {
        let found = match field_after_exec(&cs, &found_key) {
            Some(f) => f,
            None => String::from_str("unknown token"),
        };
        let expected = match field_after_exec(&cs, &expected_key) {
            Some(e) => e,
            None => String::from_str("unknown"),
        };
        let mut out = String::from_str("unexpected token '");
        out.append(found.as_str());
        out.append("', expected '");
        out.append(expected.as_str());
        out.append("'");
        out
    } else if find_text(&cs, &unexpected_eof, 0).is_some() {
        let expected = match field_after_exec(&cs, &expected_key) {
            Some(e) => e,
            None => String::from_str("unknown"),
        };
        let mut out = String::from_str("unexpected end of file, expected '");
        out.append(expected.as_str());
        out.append("'");
        out
    } else {
        String::from_str(raw)
    }
}

// ── Source snippets ──────────────────────────────────────────────────────────

/// What `char::is_alphanumeric` returns for `c`.
pub uninterp spec fn alphanumeric(c: char) -> bool;

/// Wraps `char::is_alphanumeric` (Unicode `Alphabetic` or `Numeric`); its
/// result is named, not spelled out, except on ASCII, where the documented
/// answer is exactly the letters `A`-`Z`, `a`-`z` and the digits `0`-`9`.
#[verifier::external_body]
fn is_alphanumeric(c: char) -> (r: bool)
    ensures
        r == alphanumeric(c),
        (c as u32) < 128 ==> (r <==> (('a' <= c && c <= 'z') || ('A' <= c && c <= 'Z') || ('0' <= c && c <= '9'))),
{
    c.is_alphanumeric()
}

/// Where the text from `i` on reaches a `"` (or the end).
pub open spec fn quote_end(cs: Seq<char>, i: nat) -> nat
    decreases cs.len() - i,
{
    if i >= cs.len() || cs[i as int] == '"' { i } else { quote_end(cs, i + 1) }
}

/// Where the run of alphanumeric or `_` characters from `i` on ends.
pub open spec fn word_end(cs: Seq<char>, i: nat) -> nat
    decreases cs.len() - i,
{
    if i < cs.len() && (alphanumeric(cs[i as int]) || cs[i as int] == '_') { word_end(cs, i + 1) } else { i }
}

/// The length of the token at column `col` (1-based) of `line`: a string
/// literal up to its closing quote, or a run of word characters; at least 1.
pub open spec fn token_len(line: Seq<char>, col: usize) -> nat {
    let start: nat = if col >= 1 { (col - 1) as nat } else { 0 };
    if start >= line.len() {
        1
    } else if line[start as int] == '"' {
        (quote_end(line, start + 1) - start + 1) as nat
    } else {
        let l = word_end(line, start) - start;
        if l >= 1 { l as nat } else { 1 }
    }
}

proof fn lemma_quote_end_bounds(cs: Seq<char>, i: nat)
    requires
        i <= cs.len(),
    ensures
        i <= quote_end(cs, i) <= cs.len(),
    decreases cs.len() - i,
{
    if i < cs.len() && cs[i as int] != '"' {
        lemma_quote_end_bounds(cs, i + 1);
    }
}

proof fn lemma_word_end_bounds(cs: Seq<char>, i: nat)
    requires
        i <= cs.len(),
    ensures
        i <= word_end(cs, i) <= cs.len(),
    decreases cs.len() - i,
{
    if i < cs.len() && (alphanumeric(cs[i as int]) || cs[i as int] == '_') {
        lemma_word_end_bounds(cs, i + 1);
    }
}

/// The length of the token at column `col` (1-based) of `line`.
pub fn token_len_at(line: &str, col: usize) -> (r: usize)
    requires
        line@.len() < usize::MAX,
    ensures
        r == token_len(line@, col),
{
    let cs = chars_of(line);
    let start = if col >= 1 { col - 1 } else { 0 };
    if start >= cs.len() {
        return 1;
    }
    if cs[start] == '"' {
        let mut i = start + 1;
        while i < cs.len() && cs[i] != '"'
            invariant
                start < i <= cs@.len(),
                quote_end(cs@, (start + 1) as nat) == quote_end(cs@, i as nat),
            decreases cs@.len() - i,
        {
            i = i + 1;
        }
        return i - start + 1;
    }
    let mut i = start;
    while i < cs.len() && (is_alphanumeric(cs[i]) || cs[i] == '_')
        invariant
            start <= i <= cs@.len(),
            word_end(cs@, start as nat) == word_end(cs@, i as nat),
        decreases cs@.len() - i,
    {
        i = i + 1;
    }
    if i - start >= 1 { i - start } else { 1 }
}

/// Line `line` (1-based; 0 counts as 1) of `source`, or nothing past the end.
pub open spec fn source_line_text(source: Seq<char>, line: usize) -> Seq<char> {
    let k: int = if line >= 1 { line - 1 } else { 0 };
    if k < lines_of(source).len() { lines_of(source)[k] } else { Seq::empty() }
}

/// Line `line` (1-based) of `source`, or an empty string past the end.
pub fn source_line(source: &str, line: usize) -> (r: String)
    ensures
        r@ == source_line_text(source@, line),
{
    let cs = chars_of(source);
    let ls = lines(&cs);
    let k = if line >= 1 { line - 1 } else { 0 };
    if k < ls.len() {
        proof { assert(strings_view(ls@)[k as int] == ls@[k as int]@); }
        ls[k].clone()
    } else {
        String::new()
    }
}

/// The label and underline length of a type error's snippet.
pub open spec fn snippet_of(kind: TypeErrorKind, col: usize, src_line: Seq<char>) -> (Seq<char>, nat) {
    match kind {
        TypeErrorKind::UnboundVar(name) => ("not found in this scope"@, name@.len()),
        TypeErrorKind::TypeMismatch { expected, found } =>
            ("expected "@ + type_text(expected) + ", found "@ + type_text(found), token_len(src_line, col)),
        TypeErrorKind::InvalidReturn => ("not inside a function body"@, 6),
        TypeErrorKind::Unsupported => ("here"@, 1),
        TypeErrorKind::PolymorphicCall(name) => ("multiple concrete types for `"@ + name@ + "`"@, name@.len()),
    }
}

/// The label and underline length of a type error's snippet.
pub fn type_error_snippet(kind: &TypeErrorKind, col: usize, src_line: &str) -> (r: (String, usize))
    requires
        src_line@.len() < usize::MAX,
    ensures
        r.0@ == snippet_of(*kind, col, src_line@).0,
        r.1 == snippet_of(*kind, col, src_line@).1,
{
    match kind {
        TypeErrorKind::UnboundVar(name) => (String::from_str("not found in this scope"), name.unicode_len()),
        TypeErrorKind::TypeMismatch { expected, found } => {
            let len = token_len_at(src_line, col);
            let mut label = String::from_str("expected ");
            let e = type_to_string(expected);
            label.append(e.as_str());
            label.append(", found ");
            let f = type_to_string(found);
            label.append(f.as_str());
            (label, len)
        },
        TypeErrorKind::InvalidReturn => (String::from_str("not inside a function body"), 6),
        TypeErrorKind::Unsupported => (String::from_str("here"), 1),
        TypeErrorKind::PolymorphicCall(name) => {
            let mut label = String::from_str("multiple concrete types for `");
            label.append(name.as_str());
            label.append("`");
            (label, name.unicode_len())
        },
    }
}

/// An identifier character, as the whole-word search sees it.
pub open spec fn is_word_char(c: char) -> bool {
    is_ascii_alnum(c) || c == '_'
}

/// `name` occurs at `p` in `line` as a whole word.
pub open spec fn whole_word_at(line: Seq<char>, name: Seq<char>, p: int) -> bool {
    &&& occurs_at(line, name, p)
    &&& (p == 0 || !is_word_char(line[p - 1]))
    &&& (p + name.len() >= line.len() || !is_word_char(line[p + name.len()]))
}

/// The first whole-word occurrence of `name` in `line` at or after `p`.
pub open spec fn first_whole_word(line: Seq<char>, name: Seq<char>, p: nat) -> Option<nat>
    decreases line.len() + 1 - p,
{
    if p + name.len() > line.len() {
        None
    } else if whole_word_at(line, name, p as int) {
        Some(p)
    } else {
        first_whole_word(line, name, p + 1)
    }
}

/// The first line (from `i` on) with a whole-word `name`, and where in it.
pub open spec fn first_word_line(ls: Seq<Seq<char>>, name: Seq<char>, i: nat) -> Option<(nat, nat)>
    decreases ls.len() - i,
{
    if i >= ls.len() {
        None
    } else {
        match first_whole_word(ls[i as int], name, 0) {
            Some(p) => Some((i, p)),
            None => first_word_line(ls, name, i + 1),
        }
    }
}

/// How many bytes `c` takes in UTF-8.
pub open spec fn utf8_width(c: char) -> nat {
    if (c as u32) < 0x80 { 1 } else if (c as u32) < 0x800 { 2 } else if (c as u32) < 0x10000 { 3 } else { 4 }
}

/// How many bytes `s` takes in UTF-8.
pub open spec fn utf8_len(s: Seq<char>) -> nat
    decreases s.len(),
{
    if s.len() == 0 { 0 } else { utf8_len(s.drop_last()) + utf8_width(s.last()) }
}

proof fn lemma_utf8_len_bound(s: Seq<char>)
    ensures
        utf8_len(s) <= 4 * s.len(),
    decreases s.len(),
{
    if s.len() > 0 {
        lemma_utf8_len_bound(s.drop_last());
    }
}

/// The UTF-8 length of the first `n` characters of `s`.
fn utf8_prefix_len(s: &Vec<char>, n: usize) -> (r: usize)
    requires
        n <= s@.len(),
        4 * s@.len() < usize::MAX,
    ensures
        r == utf8_len(s@.take(n as int)),
{
    let mut k: usize = 0;
    let mut total: usize = 0;
    while k < n
        invariant
            k <= n <= s@.len(),
            4 * s@.len() < usize::MAX,
            total == utf8_len(s@.take(k as int)),
        decreases n - k,
    {
        proof {
            assert(s@.take(k + 1).drop_last() =~= s@.take(k as int));
            assert(s@.take(k + 1).last() == s@[k as int]);
            lemma_utf8_len_bound(s@.take(k + 1));
        }
        let c = s[k];
        let u = c as u32;
        let w: usize = if u < 0x80 { 1 } else if u < 0x800 { 2 } else if u < 0x10000 { 3 } else { 4 };
        total = total + w;
        k = k + 1;
    }
    total
}

/// `diag` pointed at the first whole-word occurrence of `name` in `source`,
/// if there is one; the column and the length of the mark count bytes.
pub open spec fn located_name(d: DiagView, name: Seq<char>, source: Seq<char>) -> DiagView {
    match first_word_line(lines_of(source), name, 0) {
        Some((i, p)) => {
            let line = lines_of(source)[i as int];
            let col = (utf8_len(line.take(p as int)) + 1) as usize;
            with_source(with_location(d, (i + 1) as usize, col), line, col, utf8_len(name) as usize,
                "not found in this scope"@)
        },
        None => d,
    }
}

proof fn lemma_first_whole_word_found(line: Seq<char>, name: Seq<char>, p: nat)
    requires
        first_whole_word(line, name, p) is Some,
    ensures
        first_whole_word(line, name, p)->0 + name.len() <= line.len(),
        p <= first_whole_word(line, name, p)->0,
    decreases line.len() + 1 - p,
{
    if !whole_word_at(line, name, p as int) {
        lemma_first_whole_word_found(line, name, p + 1);
    }
}

fn is_word_char_exec(c: char) -> (r: bool)
    ensures
        r == is_word_char(c),
{
    is_ascii_alnum_char(c) || c == '_'
}

fn first_whole_word_exec(line: &Vec<char>, name: &Vec<char>) -> (r: Option<usize>)
    ensures
        match r {
            Some(p) => first_whole_word(line@, name@, 0) == Some(p as nat),
            None => first_whole_word(line@, name@, 0) is None,
        },
{
    let mut p: usize = 0;
    while p <= line.len() && name.len() <= line.len() - p
        invariant
            first_whole_word(line@, name@, 0) == first_whole_word(line@, name@, p as nat),
        decreases line@.len() + 1 - p,
    {
        let mut k: usize = 0;
        let mut hit = true;
        while k < name.len()
            invariant
                p + name@.len() <= line@.len(),
                line@.len() <= usize::MAX,
                k <= name@.len(),
                hit == (forall|j: int| 0 <= j < k ==> line@[p + j] == name@[j]),
            decreases name@.len() - k,
        {
            proof { assert(p + k < line@.len()); }
            if line[p + k] != name[k] {
                hit = false;
            }
            k = k + 1;
        }
        proof {
            if hit {
                assert(line@.subrange(p as int, p + name@.len()) =~= name@);
            } else {
                let j = choose|j: int| 0 <= j < name@.len() && line@[p + j] != name@[j];
                assert(line@.subrange(p as int, p + name@.len())[j] != name@[j]);
            }
        }
        if hit {
            let before_ok = p == 0 || !is_word_char_exec(line[p - 1]);
            let after = p + name.len();
            let after_ok = after >= line.len() || !is_word_char_exec(line[after]);
            if before_ok && after_ok {
                return Some(p);
            }
        }
        proof {
            assert(!whole_word_at(line@, name@, p as int));
            assert(first_whole_word(line@, name@, p as nat) == first_whole_word(line@, name@, (p + 1) as nat));
        }
        if p == line.len() {
            return None;
        }
        p = p + 1;
    }
    None
}

/// Points `diag` at the first whole-word occurrence of `name` in `source`.
pub fn locate_name_in_source(diag: Diagnostic, name: &str, source: &str) -> (r: Diagnostic)
    requires
        4 * source@.len() < usize::MAX,
    ensures
        r@ == located_name(diag@, name@, source@),
{
    let cs = chars_of(source);
    let ls = lines(&cs);
    proof { lemma_lines_short(source@, 0); }
    let name_cs = chars_of(name);
    let mut i: usize = 0;
    while i < ls.len()
        invariant
            strings_view(ls@) == lines_of(source@),
            4 * source@.len() < usize::MAX,
            forall|k: int| 0 <= k < lines_of(source@).len() ==> #[trigger] lines_of(source@)[k].len() <= source@.len(),
            name_cs@ == name@,
            i <= ls@.len(),
            first_word_line(lines_of(source@), name@, 0) == first_word_line(lines_of(source@), name@, i as nat),
        decreases ls@.len() - i,
    {
        let line_cs = chars_of(ls[i].as_str());
        proof { assert(line_cs@ == lines_of(source@)[i as int]); }
        match first_whole_word_exec(&line_cs, &name_cs) {
            Some(p) => {
                proof {
                    assert(first_word_line(lines_of(source@), name@, i as nat) == Some((i as nat, p as nat)));
                    lemma_first_whole_word_found(line_cs@, name@, 0);
                    assert(p <= line_cs@.len());
                    assert(line_cs@.len() <= source@.len());
                }
                let line_text = ls[i].clone();
                proof {
                    lemma_utf8_len_bound(line_cs@.take(p as int));
                    lemma_utf8_len_bound(name@);
                }
                let col = utf8_prefix_len(&line_cs, p) + 1;
                let width = utf8_prefix_len(&name_cs, name_cs.len());
                proof { assert(name_cs@.take(name_cs@.len() as int) =~= name@); }
                return diag.with_location(i + 1, col)
                    .with_source(line_text, col, width, "not found in this scope");
            },
            None => {},
        }
        i = i + 1;
    }
    diag
}

// ── Compiler errors ──────────────────────────────────────────────────────────

pub open spec fn ice_diag(context: Seq<char>) -> DiagView {
    with_help(diag("internal compiler error: "@ + context),
        "please report this at https://github.com/brendancron/compiler/issues"@)
}

/// A diagnostic for a compiler bug.
pub fn ice(context: &str) -> (d: Diagnostic)
    ensures
        d@ == ice_diag(context@),
{
    let mut t = String::from_str("internal compiler error: ");
    t.append(context);
    Diagnostic::new(t.as_str()).with_help("please report this at https://github.com/brendancron/compiler/issues")
}

/// Every error the pipeline can stop on.
#[derive(Debug)]
pub enum CompilerError {
    Load(LoadError),
    TypeCheck(TypeError),
    Meta(MetaProcessError),
    Eval(EvalError),
    Codegen(String),
    /// A `ctl` operation (or a function that performs one) called where no
    /// `with ctl` handler is active.
    EffectNotHandled { op: String },
}

pub open spec fn load_diag(e: LoadError) -> DiagView {
    match e {
        LoadError::Io { path, error } => with_file(diag("could not read file: "@ + error@), path@),
        LoadError::Parse { path, error, line, col } => {
            let d = with_help(with_file(diag("parse error: "@ + friendly_parse_text(error@)), path@),
                "check for mismatched brackets, missing semicolons, or typos"@);
            match (line, col) {
                (Some(l), Some(c)) => with_location(d, l, c),
                _ => d,
            }
        },
    }
}

pub open spec fn type_diag(e: TypeError) -> DiagView {
    match e.kind {
        TypeErrorKind::UnboundVar(name) => with_help(diag("unbound variable '"@ + name@ + "'"@),
            "check for a typo, or declare '"@ + name@ + "' before this line"@),
        TypeErrorKind::TypeMismatch { expected, found } => with_help(diag("type mismatch"@),
            "expected "@ + type_text(expected) + ", found "@ + type_text(found)),
        TypeErrorKind::InvalidReturn => with_help(diag("return statement outside of a function"@),
            "move this return statement inside a function body"@),
        TypeErrorKind::Unsupported => ice_diag("unsupported type operation"@),
        TypeErrorKind::PolymorphicCall(name) => with_help(
            diag("polymorphic call to `"@ + name@ + "` with multiple distinct concrete argument types"@),
            "monomorphization is not yet implemented — call `{name}` with the same argument types at every call site"@),
    }
}

/// The title for a dependency cycle: the trees joined by arrows.
pub open spec fn cycle_text(chain: Seq<String>) -> Seq<char> {
    if chain.len() == 0 {
        "circular dependency detected between modules"@
    } else if chain.len() == 1 {
        "circular dependency detected: "@ + chain[0]@
    } else {
        "circular dependency detected: "@ + join_text(strings_view(chain), " → "@)
    }
}

pub open spec fn meta_diag(e: MetaProcessError) -> DiagView {
    match e {
        MetaProcessError::UnresolvedSymbol(name) => with_help(diag("unresolved symbol '"@ + name@ + "'"@),
            "check that '"@ + name@ + "' is exported and its module is imported"@),
        MetaProcessError::CircularDependency(chain) => with_help(diag(cycle_text(chain@)),
            "break the cycle by extracting shared code into a separate module"@),
        MetaProcessError::EmbedFailed { path, error } => diag("could not embed '"@ + path@ + "': "@ + error@),
        MetaProcessError::UnknownType(name) => with_help(diag("unknown type '"@ + name@ + "'"@),
            "check spelling or add the type declaration"@),
        MetaProcessError::Unimplemented(f) => ice_diag("unimplemented feature: "@ + f@),
        MetaProcessError::ExprNotFound(id) => ice_diag("expression node not found (id="@ + nat_text(id.0 as nat) + ")"@),
        MetaProcessError::StmtNotFound(id) => ice_diag("statement node not found (id="@ + nat_text(id.0 as nat) + ")"@),
    }
}

pub open spec fn eval_diag(e: EvalError) -> DiagView
    decreases e,
{
    match e {
        EvalError::UndefinedVariable(name) => with_help(diag("undefined variable '"@ + name@ + "'"@),
            "this should have been caught by the type checker — please report"@),
        EvalError::NonFunctionCall => diag("attempted to call a non-function value"@),
        EvalError::ArgumentMismatch => diag("wrong number of arguments in function call"@),
        EvalError::TypeCheckFailed(inner) => type_diag(inner),
        EvalError::TypeError(_) => diag("runtime type error"@),
        EvalError::UnknownStructType(name) => diag("unknown struct type '"@ + name@ + "'"@),
        EvalError::GenOutsideMetaContext => with_help(diag("gen block used outside of a meta context"@),
            "gen blocks can only appear inside meta { } or meta fn bodies"@),
        EvalError::DivisionByZero => diag("division by zero"@),
        EvalError::Internal(msg) => ice_diag("internal error: "@ + msg@),
        EvalError::IoError(msg) => diag("I/O error: "@ + msg@),
        EvalError::RuntimeError(msg) => with_help(diag(msg@),
            "each element must be a tuple matching the destructuring pattern"@),
        EvalError::ExprNotFound(id) => ice_diag("expression node not found (id="@ + nat_text(id.0 as nat) + ")"@),
        EvalError::StmtNotFound(id) => ice_diag("statement node not found (id="@ + nat_text(id.0 as nat) + ")"@),
        EvalError::Unimplemented => ice_diag("hit an unimplemented interpreter path"@),
        EvalError::EffectAborted => ice_diag("effect control-flow signal escaped the interpreter"@),
        EvalError::MultiResumed => ice_diag("effect control-flow signal escaped the interpreter"@),
        EvalError::CtlSuspend { .. } => ice_diag("effect control-flow signal escaped the interpreter"@),
        EvalError::WithLocation { inner, .. } => eval_diag(*inner),
    }
}

pub open spec fn compiler_diag(e: CompilerError) -> DiagView {
    match e {
        CompilerError::Load(l) => load_diag(l),
        CompilerError::TypeCheck(t) => type_diag(t),
        CompilerError::Meta(m) => meta_diag(m),
        CompilerError::Eval(v) => eval_diag(v),
        CompilerError::Codegen(msg) => diag("codegen error: "@ + msg@),
        CompilerError::EffectNotHandled { op } => with_help(
            diag("unhandled effect: '"@ + op@ + "' is called but no handler is active"@),
            "wrap the call in `run { ... } handle <effect> { ctl "@ + op@ + "(...) { ... } }`"@),
    }
}

fn text3(a: &str, b: &str, c: &str) -> (r: String)
    ensures
        r@ == a@ + b@ + c@,
{
    let mut s = String::from_str(a);
    s.append(b);
    s.append(c);
    s
}

fn load_diagnostic(e: &LoadError) -> (d: Diagnostic)
    ensures
        d@ == load_diag(*e),
{
    match e {
        LoadError::Io { path, error } => {
            let t = text3("could not read file: ", error.as_str(), "");
            proof { reveal_strlit(""); assert(t@ =~= "could not read file: "@ + error@); }
            Diagnostic::new(t.as_str()).with_file(path.clone())
        },
        LoadError::Parse { path, error, line, col } => {
            let msg = friendly_parse_error(error.as_str());
            let t = text3("parse error: ", msg.as_str(), "");
            proof { reveal_strlit(""); assert(t@ =~= "parse error: "@ + msg@); }
            let d = Diagnostic::new(t.as_str()).with_file(path.clone())
                .with_help("check for mismatched brackets, missing semicolons, or typos");
            match (line, col) {
                (Some(l), Some(c)) => d.with_location(*l, *c),
                _ => d,
            }
        },
    }
}

fn type_diagnostic(e: &TypeError) -> (d: Diagnostic)
    ensures
        d@ == type_diag(*e),
{
    match &e.kind {
        TypeErrorKind::UnboundVar(name) => {
            let t = text3("unbound variable '", name.as_str(), "'");
            let h = text3("check for a typo, or declare '", name.as_str(), "' before this line");
            Diagnostic::new(t.as_str()).with_help(h.as_str())
        },
        TypeErrorKind::TypeMismatch { expected, found } => {
            let mut h = String::from_str("expected ");
            let es = type_to_string(expected);
            h.append(es.as_str());
            h.append(", found ");
            let fs = type_to_string(found);
            h.append(fs.as_str());
            Diagnostic::new("type mismatch").with_help(h.as_str())
        },
        TypeErrorKind::InvalidReturn => Diagnostic::new("return statement outside of a function")
            .with_help("move this return statement inside a function body"),
        TypeErrorKind::Unsupported => ice("unsupported type operation"),
        TypeErrorKind::PolymorphicCall(name) => {
            let t = text3("polymorphic call to `", name.as_str(), "` with multiple distinct concrete argument types");
            Diagnostic::new(t.as_str())
                .with_help("monomorphization is not yet implemented — call `{name}` with the same argument types at every call site")
        },
    }
}

fn id_text(prefix: &str, id: usize) -> (r: String)
    ensures
        r@ == prefix@ + nat_text(id as nat) + ")"@,
{
    let n = usize_to_string(id);
    text3(prefix, n.as_str(), ")")
}

fn meta_diagnostic(e: &MetaProcessError) -> (d: Diagnostic)
    ensures
        d@ == meta_diag(*e),
{
    match e {
        MetaProcessError::UnresolvedSymbol(name) => {
            let t = text3("unresolved symbol '", name.as_str(), "'");
            let h = text3("check that '", name.as_str(), "' is exported and its module is imported");
            Diagnostic::new(t.as_str()).with_help(h.as_str())
        },
        MetaProcessError::CircularDependency(chain) => {
            let msg = if chain.len() == 0 {
                String::from_str("circular dependency detected between modules")
            } else if chain.len() == 1 {
                let t = text3("circular dependency detected: ", chain[0].as_str(), "");
                proof { reveal_strlit(""); assert(t@ =~= "circular dependency detected: "@ + chain@[0]@); }
                t
            } else {
                let j = join(chain, " → ");
                let t = text3("circular dependency detected: ", j.as_str(), "");
                proof { reveal_strlit(""); assert(t@ =~= "circular dependency detected: "@ + j@); }
                t
            };
            Diagnostic::new(msg.as_str()).with_help("break the cycle by extracting shared code into a separate module")
        },
        MetaProcessError::EmbedFailed { path, error } => {
            let mut t = text3("could not embed '", path.as_str(), "': ");
            t.append(error.as_str());
            Diagnostic::new(t.as_str())
        },
        MetaProcessError::UnknownType(name) => {
            let t = text3("unknown type '", name.as_str(), "'");
            Diagnostic::new(t.as_str()).with_help("check spelling or add the type declaration")
        },
        MetaProcessError::Unimplemented(f) => {
            let t = text3("unimplemented feature: ", f.as_str(), "");
            proof { reveal_strlit(""); assert(t@ =~= "unimplemented feature: "@ + f@); }
            ice(t.as_str())
        },
        MetaProcessError::ExprNotFound(id) => {
            let t = id_text("expression node not found (id=", id.0);
            ice(t.as_str())
        },
        MetaProcessError::StmtNotFound(id) => {
            let t = id_text("statement node not found (id=", id.0);
            ice(t.as_str())
        },
    }
}

fn eval_diagnostic(e: &EvalError) -> (d: Diagnostic)
    ensures
        d@ == eval_diag(*e),
    decreases e,
{
    match e {
        EvalError::UndefinedVariable(name) => {
            let t = text3("undefined variable '", name.as_str(), "'");
            Diagnostic::new(t.as_str()).with_help("this should have been caught by the type checker — please report")
        },
        EvalError::NonFunctionCall => Diagnostic::new("attempted to call a non-function value"),
        EvalError::ArgumentMismatch => Diagnostic::new("wrong number of arguments in function call"),
        EvalError::TypeCheckFailed(inner) => type_diagnostic(inner),
        EvalError::TypeError(_) => Diagnostic::new("runtime type error"),
        EvalError::UnknownStructType(name) => {
            let t = text3("unknown struct type '", name.as_str(), "'");
            Diagnostic::new(t.as_str())
        },
        EvalError::GenOutsideMetaContext => Diagnostic::new("gen block used outside of a meta context")
            .with_help("gen blocks can only appear inside meta { } or meta fn bodies"),
        EvalError::DivisionByZero => Diagnostic::new("division by zero"),
        EvalError::Internal(msg) => {
            let t = text3("internal error: ", msg.as_str(), "");
            proof { reveal_strlit(""); assert(t@ =~= "internal error: "@ + msg@); }
            ice(t.as_str())
        },
        EvalError::IoError(msg) => {
            let t = text3("I/O error: ", msg.as_str(), "");
            proof { reveal_strlit(""); assert(t@ =~= "I/O error: "@ + msg@); }
            Diagnostic::new(t.as_str())
        },
        EvalError::RuntimeError(msg) => Diagnostic::new(msg.as_str())
            .with_help("each element must be a tuple matching the destructuring pattern"),
        EvalError::ExprNotFound(id) => {
            let t = id_text("expression node not found (id=", id.0);
            ice(t.as_str())
        },
        EvalError::StmtNotFound(id) => {
            let t = id_text("statement node not found (id=", id.0);
            ice(t.as_str())
        },
        EvalError::Unimplemented => ice("hit an unimplemented interpreter path"),
        EvalError::EffectAborted => ice("effect control-flow signal escaped the interpreter"),
        EvalError::MultiResumed => ice("effect control-flow signal escaped the interpreter"),
        EvalError::CtlSuspend { .. } => ice("effect control-flow signal escaped the interpreter"),
        EvalError::WithLocation { inner, .. } => eval_diagnostic(inner),
    }
}

impl CompilerError {
    /// The closing line after `n` errors.
    pub fn summary(n: usize) -> (d: Diagnostic)
        ensures
            d@ == diag(nat_text(n as nat) + " errors found. Compilation failed."@),
    {
        let s = usize_to_string(n);
        let t = text3("", s.as_str(), " errors found. Compilation failed.");
        proof { reveal_strlit(""); assert(t@ =~= nat_text(n as nat) + " errors found. Compilation failed."@); }
        Diagnostic::new(t.as_str())
    }

    pub fn to_diagnostic(&self) -> (d: Diagnostic)
        ensures
            d@ == compiler_diag(*self),
    {
        match self {
            CompilerError::Load(e) => load_diagnostic(e),
            CompilerError::TypeCheck(e) => type_diagnostic(e),
            CompilerError::Meta(e) => meta_diagnostic(e),
            CompilerError::Eval(e) => eval_diagnostic(e),
            CompilerError::Codegen(msg) => {
                let t = text3("codegen error: ", msg.as_str(), "");
                proof { reveal_strlit(""); assert(t@ =~= "codegen error: "@ + msg@); }
                Diagnostic::new(t.as_str())
            },
            CompilerError::EffectNotHandled { op } => {
                let t = text3("unhandled effect: '", op.as_str(), "' is called but no handler is active");
                let h = text3("wrap the call in `run { ... } handle <effect> { ctl ", op.as_str(), "(...) { ... } }`");
                Diagnostic::new(t.as_str()).with_help(h.as_str())
            },
        }
    }
}

impl From<LoadError> for CompilerError {
    fn from(e: LoadError) -> (r: Self) {
        CompilerError::Load(e)
    }
}

impl vstd::std_specs::convert::FromSpecImpl<LoadError> for CompilerError {
    open spec fn obeys_from_spec() -> bool {
        true
    }

    open spec fn from_spec(e: LoadError) -> Self {
        CompilerError::Load(e)
    }
}

impl From<TypeError> for CompilerError {
    fn from(e: TypeError) -> (r: Self) {
        CompilerError::TypeCheck(e)
    }
}

impl vstd::std_specs::convert::FromSpecImpl<TypeError> for CompilerError {
    open spec fn obeys_from_spec() -> bool {
        true
    }

    open spec fn from_spec(e: TypeError) -> Self {
        CompilerError::TypeCheck(e)
    }
}

impl From<MetaProcessError> for CompilerError {
    fn from(e: MetaProcessError) -> (r: Self) {
        CompilerError::Meta(e)
    }
}

impl vstd::std_specs::convert::FromSpecImpl<MetaProcessError> for CompilerError {
    open spec fn obeys_from_spec() -> bool {
        true
    }

    open spec fn from_spec(e: MetaProcessError) -> Self {
        CompilerError::Meta(e)
    }
}

impl From<EvalError> for CompilerError {
    fn from(e: EvalError) -> (r: Self) {
        CompilerError::Eval(e)
    }
}

impl vstd::std_specs::convert::FromSpecImpl<EvalError> for CompilerError {
    open spec fn obeys_from_spec() -> bool {
        true
    }

    open spec fn from_spec(e: EvalError) -> Self {
        CompilerError::Eval(e)
    }
}

// ── Source locations ─────────────────────────────────────────────────────────

/// The first line from `i` on that contains `pat`.
pub open spec fn first_line_with(ls: Seq<Seq<char>>, pat: Seq<char>, i: nat) -> Option<nat>
    decreases ls.len() - i,
{
    if i >= ls.len() {
        None
    } else if contains_text(ls[i as int], pat) {
        Some(i)
    } else {
        first_line_with(ls, pat, i + 1)
    }
}

/// `d` with the location and snippet that `error` allows: the span of the
/// node a runtime error names, else for a destructuring error the first
/// `for ((` loop of the source; the first whole-word occurrence of an
/// unbound name found at run time; the span of the node a type error names.
pub open spec fn enriched(d: DiagView, error: CompilerError, source: Seq<char>, spans: Map<usize, (usize, usize)>) -> DiagView {
    match error {
        CompilerError::Eval(EvalError::WithLocation { node_id, inner }) => {
            if spans.contains_key(node_id.0) {
                let (line, col) = spans[node_id.0];
                let src = source_line_text(source, line);
                with_source(with_location(d, line, col), src, col, token_len(src, col) as usize, "here"@)
            } else {
                match *inner {
                    EvalError::RuntimeError(_) => match first_line_with(lines_of(source), "for (("@, 0) {
                        Some(i) => {
                            let lt = lines_of(source)[i as int];
                            let col = (or_zero(find_from(lt, "for"@, 0)) + 1) as usize;
                            with_source(with_location(d, (i + 1) as usize, col), lt, col, 3, "here"@)
                        },
                        None => d,
                    },
                    _ => d,
                }
            }
        },
        CompilerError::Eval(EvalError::TypeCheckFailed(te)) => match te.kind {
            TypeErrorKind::UnboundVar(name) => located_name(d, name@, source),
            _ => d,
        },
        CompilerError::TypeCheck(te) => match te.node_id {
            Some(id) => if spans.contains_key(id.0) {
                let (line, col) = spans[id.0];
                let src = source_line_text(source, line);
                let (label, len) = snippet_of(te.kind, col, src);
                with_source(with_location(d, line, col), src, col, len as usize, label)
            } else {
                d
            },
            None => d,
        },
        _ => d,
    }
}

pub open spec fn or_zero(o: Option<nat>) -> nat {
    match o {
        Some(n) => n,
        None => 0,
    }
}

/// Attaches a location and an inline snippet to `diag` where `error` allows
/// one (see `enriched`).
#[verifier::loop_isolation(false)]
pub fn enrich_diagnostic(diag: Diagnostic, error: &CompilerError, source: &str,
    spans: &HashMap<usize, (usize, usize)>) -> (r: Diagnostic)
    requires
        4 * source@.len() < usize::MAX,
    ensures
        r@ == enriched(diag@, *error, source@, spans@),
{
    proof { lemma_lines_short(source@, 0); }
    match error {
        CompilerError::Eval(EvalError::WithLocation { node_id, inner }) => {
            match spans.get(&node_id.0) {
                Some(loc) => {
                    let (line, col) = *loc;
                    let src_line = source_line(source, line);
                    proof {
                        let k: int = if line >= 1 { line - 1 } else { 0 };
                        if k < lines_of(source@).len() {
                            assert(lines_of(source@)[k].len() <= source@.len());
                        }
                    }
                    let len = token_len_at(src_line.as_str(), col);
                    return diag.with_location(line, col).with_source(src_line, col, len, "here");
                },
                None => {},
            }
            match &**inner {
                EvalError::RuntimeError(_) => {
                    let cs = chars_of(source);
                    let ls = lines(&cs);
                    let pat = chars_of("for ((");
                    let for_kw = chars_of("for");
                    let mut i: usize = 0;
                    while i < ls.len()
                        invariant
                            strings_view(ls@) == lines_of(source@),
                            pat@ == "for (("@,
                            for_kw@ == "for"@,
                            4 * source@.len() < usize::MAX,
                            forall|k: int| 0 <= k < lines_of(source@).len() ==> #[trigger] lines_of(source@)[k].len() <= source@.len(),
                            i <= ls@.len(),
                            first_line_with(lines_of(source@), "for (("@, 0) == first_line_with(lines_of(source@), "for (("@, i as nat),
                        decreases ls@.len() - i,
                    {
                        let line_cs = chars_of(ls[i].as_str());
                        proof { assert(line_cs@ == lines_of(source@)[i as int]); }
                        if find_text(&line_cs, &pat, 0).is_some() {
                            let at = find_text(&line_cs, &for_kw, 0);
                            let pos = match at {
                                Some(p) => {
                                    proof {
                                        lemma_find_from_found(line_cs@, for_kw@, 0);
                                        assert(line_cs@.len() <= source@.len());
                                    }
                                    p
                                },
                                None => 0,
                            };
                            let col = pos + 1;
                            let line_text = ls[i].clone();
                            return diag.with_location(i + 1, col).with_source(line_text, col, 3, "here");
                        }
                        i = i + 1;
                    }
                    diag
                },
                _ => diag,
            }
        },
        CompilerError::Eval(EvalError::TypeCheckFailed(te)) => {
            match &te.kind {
                TypeErrorKind::UnboundVar(name) => locate_name_in_source(diag, name.as_str(), source),
                _ => diag,
            }
        },
        CompilerError::TypeCheck(te) => {
            match te.node_id {
                Some(id) => match spans.get(&id.0) {
                    Some(loc) => {
                        let (line, col) = *loc;
                        let src_line = source_line(source, line);
                        proof {
                            let k: int = if line >= 1 { line - 1 } else { 0 };
                            if k < lines_of(source@).len() {
                                assert(lines_of(source@)[k].len() <= source@.len());
                            }
                        }
                        let (label, len) = type_error_snippet(&te.kind, col, src_line.as_str());
                        diag.with_location(line, col).with_source(src_line, col, len, label.as_str())
                    },
                    None => diag,
                },
                None => diag,
            }
        },
        _ => diag,
    }
}

} // verus!
