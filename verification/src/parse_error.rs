//! Errors raised while reading a pipeline definition: a located parse error
//! with surrounding source context and an optional hint, and a semantic
//! validation error.

use vstd::prelude::*;
use crate::text::{
    chars_of, contains_seq, decimal, decimal_padded, find, find_exec, join, join_strings, lines,
    lines_of, lower_text, pad_left, repeat, slice_chars, spaces, split, split_str, str_contains,
    string_from, to_lowercase, trim_matches, trim_matches_str, usize_to_decimal,
};

verus! {

broadcast use vstd::string::group_string_axioms;

/// The YAML library's error type, carried through opaquely.
#[verifier::external_type_specification]
#[verifier::external_body]
pub struct ExYamlError(serde_yaml::Error);

/// What went wrong while parsing.
#[derive(Debug, Clone, Copy, PartialEq, Eq, Structural)]
pub enum ParseErrorKind {
    /// YAML syntax error
    YamlSyntax,
    /// Invalid schema (wrong types, missing fields)
    InvalidSchema,
    /// Unknown field
    UnknownField,
    /// Invalid value
    InvalidValue,
    /// Template resolution error
    TemplateError,
    /// Expression syntax error
    ExpressionError,
    /// IO error (file not found, etc.)
    IoError,
    /// Validation error (semantic)
    ValidationError,
}

/// Detailed parse error with location and context.
#[derive(Debug, Clone)]
pub struct ParseError {
    /// Error message
    pub message: String,
    /// Line number (1-indexed)
    pub line: usize,
    /// Column number (1-indexed)
    pub column: usize,
    /// Surrounding context (a few lines around the error)
    pub context: String,
    /// Optional suggestion for fixing the error
    pub suggestion: Option<String>,
    /// The kind of error
    pub kind: ParseErrorKind,
}

// ---------------------------------------------------------------------------
// Source context
// ---------------------------------------------------------------------------

/// The context rows for source line `line_num` (1-based) holding `text`: the
/// numbered line, marked with `>` when it is the error line, followed on the
/// error line by a caret under the error column (the line's text starts
/// nine characters into its row, so the caret follows nine characters and
/// `column - 1` spaces).
pub open spec fn context_row(text: Seq<char>, line_num: nat, error_line: nat, column: nat) -> Seq<
    char,
> {
    let marker = if line_num == error_line {
        seq!['>']
    } else {
        seq![' ']
    };
    let row = marker + seq![' '] + pad_left(decimal(line_num), 4) + seq![' ', '|', ' '] + text
        + seq!['\n'];
    if line_num == error_line && column > 0 {
        row + repeat(seq![' '], 7) + seq!['|', ' '] + repeat(seq![' '], (column - 1) as nat) + seq![
            '^',
            '\n',
        ]
    } else {
        row
    }
}

proof fn lemma_spaces(n: nat)
    ensures
        repeat(seq![' '], n).len() == n,
        forall|i: int| 0 <= i < n ==> #[trigger] repeat(seq![' '], n)[i] == ' ',
    decreases n,
{
    if n > 0 {
        lemma_spaces((n - 1) as nat);
        let r = repeat(seq![' '], n);
        assert forall|i: int| 0 <= i < n implies #[trigger] r[i] == ' ' by {
            if i < n - 1 {
                assert(r[i] == repeat(seq![' '], (n - 1) as nat)[i]);
            }
        }
    }
}

/// The width that line numbers are padded to in the context: four, or the
/// number's own length where it is longer.
pub open spec fn number_width(line_num: nat) -> nat {
    if decimal(line_num).len() >= 4 {
        decimal(line_num).len()
    } else {
        4
    }
}

/// In the context of the error line the caret row follows the source row;
/// the source text starts at offset `5 + w` of its row, `w` the width of the
/// line number; the caret row holds spaces and one `|` (at offset 7) up to
/// the caret, which stands at offset `9 + column - 1`.  So the caret stands
/// just under the `column`-th character of the source text exactly where
/// the line number has at most four digits.
pub proof fn lemma_caret_under_column(text: Seq<char>, line_num: nat, column: nat)
    requires
        column >= 1,
    ensures
        ({
            let r = context_row(text, line_num, line_num, column);
            let w = number_width(line_num);
            let caret_start: int = (6 + w + text.len()) as int;
            &&& r.len() == caret_start + 10 + column
            &&& r[0] == '>'
            &&& r.subrange((5 + w) as int, (5 + w + text.len()) as int) == text
            &&& r[caret_start + 9 + column - 1] == '^'
            &&& r[caret_start + 7] == '|'
            &&& forall|i: int| 0 <= i < 9 + column - 1 && i != 7 ==> #[trigger] r[caret_start + i] == ' '
            &&& (9 + column - 1 == 5 + w + column - 1 <==> w == 4)
        }),
{
    let d = decimal(line_num);
    let w = number_width(line_num);
    if d.len() < 4 {
        lemma_spaces((4 - d.len()) as nat);
    }
    lemma_spaces(7);
    lemma_spaces((column - 1) as nat);
    let p = pad_left(d, 4);
    assert(p.len() == w);
    let row = seq!['>'] + seq![' '] + p + seq![' ', '|', ' '] + text + seq!['\n'];
    let sp7 = repeat(seq![' '], 7);
    let spc = repeat(seq![' '], (column - 1) as nat);
    let tail = sp7 + seq!['|', ' '] + spc + seq!['^', '\n'];
    let r = row + tail;
    assert(context_row(text, line_num, line_num, column) == r);
    assert(row.len() == 5 + w + text.len() + 1);
    assert(r.subrange((5 + w) as int, (5 + w + text.len()) as int) =~= text);
    assert(tail[7] == '|');
    assert(tail[9 + column - 1] == '^');
    assert forall|i: int| 0 <= i < 9 + column - 1 && i != 7 implies #[trigger] r[row.len() + i] == ' ' by {
        assert(r[row.len() + i] == tail[i]);
        if i < 7 {
            assert(tail[i] == sp7[i]);
        } else if i == 8 {
        } else {
            assert(tail[i] == spc[i - 9]);
        }
    }
}

/// The context rows for the lines with indices `from .. to` of `ls`.
pub open spec fn context_rows(
    ls: Seq<Seq<char>>,
    error_line: nat,
    column: nat,
    from: int,
    to: int,
) -> Seq<char>
    decreases to - from,
{
    if to <= from {
        Seq::empty()
    } else {
        context_rows(ls, error_line, column, from, to - 1) + context_row(
            ls[to - 1],
            to as nat,
            error_line,
            column,
        )
    }
}

/// The context shown for an error at `line`/`column` of `source`: the lines
/// from `context_lines` before the error line to `context_lines` after it,
/// as far as the source has them.
pub open spec fn source_context(
    source: Seq<char>,
    line: nat,
    column: nat,
    context_lines: nat,
) -> Seq<char> {
    let ls = lines(source);
    let start: int = if line > context_lines {
        line - context_lines - 1
    } else {
        0
    };
    let end: int = if line + context_lines < ls.len() {
        (line + context_lines) as int
    } else {
        ls.len() as int
    };
    context_rows(ls, line, column, start, end)
}

/// Appends the context row of one source line.
fn push_context_row(
    out: &mut String,
    text: &str,
    line_num: usize,
    error_line: usize,
    column: usize,
)
    ensures
        final(out)@ == old(out)@ + context_row(text@, line_num as nat, error_line as nat, column as nat),
{
    if line_num == error_line {
        out.push('>');
    } else {
        out.push(' ');
    }
    out.push(' ');
    let num = decimal_padded(line_num, 4);
    out.append(num.as_str());
    out.push(' ');
    out.push('|');
    out.push(' ');
    out.append(text);
    out.push('\n');
    if line_num == error_line && column > 0 {
        let indent = spaces(7);
        out.append(indent.as_str());
        out.push('|');
        out.push(' ');
        let pad = spaces(column - 1);
        out.append(pad.as_str());
        out.push('^');
        out.push('\n');
    }
}

// ---------------------------------------------------------------------------
// Display
// ---------------------------------------------------------------------------

/// The text that displaying a parse error gives.
pub open spec fn parse_error_text(e: ParseError) -> Seq<char> {
    let head = "error: "@ + e.message@ + seq!['\n'] + "  --> line "@ + decimal(e.line as nat)
        + seq![':'] + decimal(e.column as nat) + seq!['\n'];
    let ctx = if e.context@.len() == 0 {
        Seq::empty()
    } else {
        seq!['\n'] + e.context@
    };
    let help = match e.suggestion {
        Some(s) => seq!['\n'] + "help: "@ + s@ + seq!['\n'],
        None => Seq::empty(),
    };
    head + ctx + help
}

impl ParseError {
    pub fn new(message: &str, line: usize, column: usize) -> (e: Self)
        ensures
            e.message@ == message@,
            e.line == line,
            e.column == column,
            e.context@ == Seq::<char>::empty(),
            e.suggestion is None,
            e.kind == ParseErrorKind::InvalidSchema,
    {
        ParseError {
            message: String::from_str(message),
            line,
            column,
            context: String::new(),
            suggestion: None,
            kind: ParseErrorKind::InvalidSchema,
        }
    }

    pub fn yaml_error(message: &str, line: usize, column: usize) -> (e: Self)
        ensures
            e.message@ == message@,
            e.line == line,
            e.column == column,
            e.context@ == Seq::<char>::empty(),
            e.suggestion is None,
            e.kind == ParseErrorKind::YamlSyntax,
    {
        ParseError {
            message: String::from_str(message),
            line,
            column,
            context: String::new(),
            suggestion: None,
            kind: ParseErrorKind::YamlSyntax,
        }
    }

    pub fn with_context(self, context: &str) -> (e: Self)
        ensures
            e.context@ == context@,
            e.message == self.message,
            e.line == self.line,
            e.column == self.column,
            e.suggestion == self.suggestion,
            e.kind == self.kind,
    {
        let mut e = self;
        e.context = String::from_str(context);
        e
    }

    pub fn with_suggestion(self, suggestion: &str) -> (e: Self)
        ensures
            e.suggestion matches Some(s) && s@ == suggestion@,
            e.message == self.message,
            e.line == self.line,
            e.column == self.column,
            e.context == self.context,
            e.kind == self.kind,
    {
        let mut e = self;
        e.suggestion = Some(String::from_str(suggestion));
        e
    }

    pub fn with_kind(self, kind: ParseErrorKind) -> (e: Self)
        ensures
            e.kind == kind,
            e.message == self.message,
            e.line == self.line,
            e.column == self.column,
            e.context == self.context,
            e.suggestion == self.suggestion,
    {
        let mut e = self;
        e.kind = kind;
        e
    }

    fn with_suggestion_opt(self, suggestion: Option<String>) -> (e: Self)
        ensures
            e.suggestion == suggestion,
            e.message == self.message,
            e.line == self.line,
            e.column == self.column,
            e.context == self.context,
            e.kind == self.kind,
    {
        let mut e = self;
        e.suggestion = suggestion;
        e
    }

    /// Replaces the context with the lines of `source` around the error line,
    /// `context_lines` on each side, the error line marked and its column
    /// pointed at.
    pub fn with_source_context(self, source: &str, context_lines: usize) -> (e: Self)
        ensures
            e.context@ == source_context(
                source@,
                self.line as nat,
                self.column as nat,
                context_lines as nat,
            ),
            e.message == self.message,
            e.line == self.line,
            e.column == self.column,
            e.suggestion == self.suggestion,
            e.kind == self.kind,
    {
        let ls = lines_of(source);
        let ghost lv = ls@.map_values(|l: String| l@);
        let line = self.line;
        let column = self.column;
        let start: usize = if line > context_lines {
            line - context_lines - 1
        } else {
            0
        };
        let end: usize = if context_lines < ls.len() && line < ls.len() - context_lines {
            line + context_lines
        } else {
            ls.len()
        };
        let mut context = String::new();
        let mut i = start;
        if start < end {
            while i < end
                invariant
                    start <= i <= end,
                    end <= ls@.len(),
                    lv == ls@.map_values(|l: String| l@),
                    lv == lines(source@),
                    context@ == context_rows(lv, line as nat, column as nat, start as int, i as int),
                decreases end - i,
            {
                push_context_row(&mut context, ls[i].as_str(), i + 1, line, column);
                proof {
                    assert(lv[i as int] == ls@[i as int]@);
                }
                i = i + 1;
            }
        }
        let mut e = self;
        e.context = context;
        e
    }

    /// Builds the error from what the YAML library reports: the text of its
    /// message and its location, if it has one (line 1, column 1 if not).
    pub fn from_yaml_parts(message: &str, location: Option<(usize, usize)>, source: &str) -> (e:
        Self)
        ensures
            yaml_parts_error(message@, location, source@, e),
    {
        let (line, column) = match location {
            Some(l) => l,
            None => (1usize, 1usize),
        };
        let text = format_yaml_error_message(message);
        let suggestion = suggest_yaml_fix(message, source, line);
        ParseError::yaml_error(text.as_str(), line, column).with_source_context(
            source,
            2,
        ).with_suggestion_opt(suggestion)
    }

    /// Builds the error from an error of the YAML library.
    pub fn from_yaml_error(err: &serde_yaml::Error, source: &str) -> (e: Self)
        ensures
            yaml_parts_error(yaml_error_message(*err), yaml_error_position(*err), source@, e),
    {
        let location = yaml_error_location(err);
        let message = yaml_error_text(err);
        ParseError::from_yaml_parts(message.as_str(), location, source)
    }

    /// The text that displaying this error gives.
    pub fn to_display_string(&self) -> (r: String)
        ensures
            r@ == parse_error_text(*self),
    {
        let mut r = String::new();
        r.append("error: ");
        r.append(self.message.as_str());
        r.push('\n');
        r.append("  --> line ");
        let l = usize_to_decimal(self.line);
        r.append(l.as_str());
        r.push(':');
        let c = usize_to_decimal(self.column);
        r.append(c.as_str());
        r.push('\n');
        if self.context.as_str().unicode_len() > 0 {
            r.push('\n');
            r.append(self.context.as_str());
        }
        match &self.suggestion {
            Some(s) => {
                r.push('\n');
                r.append("help: ");
                r.append(s.as_str());
                r.push('\n');
            },
            None => {},
        }
        r
    }
}

/// `e` is the error built from a YAML library's message and location, for
/// the document `source`: the location (line 1, column 1 where there is
/// none), the readable message, the context around it and a fix hint.
pub open spec fn yaml_parts_error(message: Seq<char>, location: Option<(usize, usize)>, source: Seq<char>, e: ParseError) -> bool {
    let (line, column) = match location {
        Some(l) => l,
        None => (1usize, 1usize),
    };
    &&& e.message@ == yaml_message_text(message)
    &&& e.line == line
    &&& e.column == column
    &&& e.kind == ParseErrorKind::YamlSyntax
    &&& e.context@ == source_context(source, line as nat, column as nat, 2)
    &&& match e.suggestion {
        Some(s) => yaml_fix_hint(message, source, line as nat) == Some(s@),
        None => yaml_fix_hint(message, source, line as nat) is None,
    }
}

/// The line and column that `serde_yaml::Error::location` gives for an
/// error: a function of the error alone.
pub uninterp spec fn yaml_error_position(err: serde_yaml::Error) -> Option<(usize, usize)>;

/// The text that `serde_yaml::Error`'s `Display` writes for an error: a
/// function of the error alone.
pub uninterp spec fn yaml_error_message(err: serde_yaml::Error) -> Seq<char>;

/// `serde_yaml::Error::location`, as its line and column: the position
/// named `yaml_error_position`.
#[verifier::external_body]
fn yaml_error_location(err: &serde_yaml::Error) -> (r: Option<(usize, usize)>)
    ensures
        r == yaml_error_position(*err),
{
    match err.location() {
        Some(loc) => Some((loc.line(), loc.column())),
        None => None,
    }
}

/// The text that `serde_yaml::Error`'s `Display` writes: the text named
/// `yaml_error_message`.
#[verifier::external_body]
fn yaml_error_text(err: &serde_yaml::Error) -> (r: String)
    ensures
        r@ == yaml_error_message(*err),
{
    err.to_string()
}

// ---------------------------------------------------------------------------
// Readable messages
// ---------------------------------------------------------------------------

/// The text between the first `prefix` in `msg` and the first `suffix` after
/// it.
pub open spec fn field_between(msg: Seq<char>, prefix: Seq<char>, suffix: Seq<char>) -> Option<
    Seq<char>,
> {
    match find(msg, prefix) {
        Some(i) => {
            let start = i + prefix.len();
            match find(msg.subrange(start, msg.len() as int), suffix) {
                Some(j) => Some(msg.subrange(start, start + j)),
                None => None,
            }
        },
        None => None,
    }
}

/// The text between the first `prefix` in `msg` and the first `suffix` after
/// it, if both are there.
pub fn extract_field_name(msg: &str, prefix: &str, suffix: &str) -> (r: Option<String>)
    ensures
        match r {
            Some(f) => field_between(msg@, prefix@, suffix@) == Some(f@),
            None => field_between(msg@, prefix@, suffix@) is None,
        },
{
    let v = chars_of(msg);
    let p = chars_of(prefix);
    let s = chars_of(suffix);
    match find_exec(v.as_slice(), p.as_slice()) {
        Some(i) => {
            let n = v.len();
            assert(i + p@.len() <= n);
            let start = i + p.len();
            let rest = slice_chars(v.as_slice(), start, v.len());
            match find_exec(rest.as_slice(), s.as_slice()) {
                Some(j) => {
                    let f = slice_chars(v.as_slice(), start, start + j);
                    Some(string_from(f.as_slice()))
                },
                None => None,
            }
        },
        None => None,
    }
}


/// The names listed after "expected one of " in `msg`, up to " at" or the
/// end, split at ", " and stripped of backticks.
pub open spec fn expected_fields(msg: Seq<char>) -> Option<Seq<Seq<char>>> {
    match find(msg, "expected one of "@) {
        Some(i) => {
            let rest = msg.subrange(i + "expected one of "@.len(), msg.len() as int);
            let end = match find(rest, " at"@) {
                Some(j) => j,
                None => rest.len() as int,
            };
            Some(split(rest.subrange(0, end), ", "@).map_values(|p: Seq<char>| trim_matches(p, '`')))
        },
        None => None,
    }
}

/// The field names that a "expected one of ..." message lists.
pub fn extract_expected_fields(msg: &str) -> (r: Option<Vec<String>>)
    ensures
        match r {
            Some(fs) => expected_fields(msg@) == Some(fs@.map_values(|f: String| f@)),
            None => expected_fields(msg@) is None,
        },
{
    let v = chars_of(msg);
    let key = chars_of("expected one of ");
    let at = chars_of(" at");
    match find_exec(v.as_slice(), key.as_slice()) {
        Some(i) => {
            let n = v.len();
            assert(i + key@.len() <= n);
            let rest = slice_chars(v.as_slice(), i + key.len(), n);
            let end = match find_exec(rest.as_slice(), at.as_slice()) {
                Some(j) => j,
                None => rest.len(),
            };
            let listed = string_from(slice_chars(rest.as_slice(), 0, end).as_slice());
            proof {
                reveal_strlit(", ");
            }
            let pieces = split_str(listed.as_str(), ", ");
            let ghost pv = pieces@.map_values(|p: String| p@);
            let mut fields: Vec<String> = Vec::new();
            let mut k: usize = 0;
            while k < pieces.len()
                invariant
                    k <= pieces@.len(),
                    pv == pieces@.map_values(|p: String| p@),
                    fields@.map_values(|f: String| f@) == pv.subrange(0, k as int).map_values(
                        |p: Seq<char>| trim_matches(p, '`'),
                    ),
                decreases pieces@.len() - k,
            {
                let f = trim_matches_str(pieces[k].as_str(), '`');
                let ghost before = fields@.map_values(|f: String| f@);
                fields.push(f);
                proof {
                    assert(fields@.map_values(|f: String| f@) == before.push(f@));
                    assert(pv.subrange(0, k + 1).map_values(|p: Seq<char>| trim_matches(p, '`'))
                        == pv.subrange(0, k as int).map_values(|p: Seq<char>| trim_matches(p, '`')).push(
                        trim_matches(pv[k as int], '`'),
                    ));
                }
                k = k + 1;
            }
            proof {
                assert(pv.subrange(0, pieces@.len() as int) == pv);
            }
            Some(fields)
        },
        None => None,
    }
}

/// "expected X, but found Y" for a message that says what was expected and
/// what was found; the message itself otherwise.
pub open spec fn invalid_type_text(msg: Seq<char>) -> Seq<char> {
    match (field_between(msg, "expected "@, ","@), field_between(msg, "found "@, " at"@)) {
        (Some(e), Some(f)) => "expected "@ + e + ", but found "@ + f,
        _ => msg,
    }
}

pub fn format_invalid_type_error(msg: &str) -> (r: String)
    ensures
        r@ == invalid_type_text(msg@),
{
    let expected = extract_field_name(msg, "expected ", ",");
    let found = extract_field_name(msg, "found ", " at");
    match (expected, found) {
        (Some(e), Some(f)) => {
            let mut r = String::from_str("expected ");
            r.append(e.as_str());
            r.append(", but found ");
            r.append(f.as_str());
            r
        },
        _ => String::from_str(msg),
    }
}

/// The readable form of a YAML library message: missing and unknown fields
/// and type mismatches are reworded, anything else is kept as it is.
pub open spec fn yaml_message_text(msg: Seq<char>) -> Seq<char> {
    let missing = field_between(msg, "missing field `"@, "`"@);
    let unknown = field_between(msg, "unknown field `"@, "`"@);
    if contains_seq(msg, "missing field"@) && missing is Some {
        "missing required field "@ + seq!['\''] + missing->0 + seq!['\'']
    } else if contains_seq(msg, "unknown field"@) && unknown is Some {
        match expected_fields(msg) {
            Some(list) => "unknown field "@ + seq!['\''] + unknown->0 + seq!['\'']
                + ", expected one of: "@ + join(list, ", "@),
            None => "unknown field "@ + seq!['\''] + unknown->0 + seq!['\''],
        }
    } else if contains_seq(msg, "invalid type"@) {
        invalid_type_text(msg)
    } else {
        msg
    }
}

/// Rewords a YAML library message (see [`yaml_message_text`]).
pub fn format_yaml_error_message(msg: &str) -> (r: String)
    ensures
        r@ == yaml_message_text(msg@),
{
    if str_contains(msg, "missing field") {
        if let Some(field) = extract_field_name(msg, "missing field `", "`") {
            let mut r = String::from_str("missing required field ");
            r.push('\'');
            r.append(field.as_str());
            r.push('\'');
            return r;
        }
    }
    if str_contains(msg, "unknown field") {
        if let Some(field) = extract_field_name(msg, "unknown field `", "`") {
            let mut r = String::from_str("unknown field ");
            r.push('\'');
            r.append(field.as_str());
            r.push('\'');
            if let Some(expected) = extract_expected_fields(msg) {
                r.append(", expected one of: ");
                let listed = join_strings(&expected, ", ");
                r.append(listed.as_str());
            }
            return r;
        }
    }
    if str_contains(msg, "invalid type") {
        return format_invalid_type_error(msg);
    }
    String::from_str(msg)
}

/// The misspelling looked for at index `k` of the typo table.
pub open spec fn typo_word(k: int) -> Seq<char> {
    if k == 0 {
        "dependson"@
    } else if k == 1 {
        "displayname"@
    } else if k == 2 {
        "vmimage"@
    } else if k == 3 {
        "workingdirectory"@
    } else if k == 4 {
        "continueOnError"@
    } else {
        "timeout"@
    }
}

/// The spelling suggested for the misspelling at index `k`.
pub open spec fn typo_fix(k: int) -> Seq<char> {
    if k == 0 {
        "dependsOn"@
    } else if k == 1 {
        "displayName"@
    } else if k == 2 {
        "vmImage"@
    } else if k == 3 {
        "workingDirectory"@
    } else if k == 4 {
        "continueOnError (note: lowercase 'n' in 'on')"@
    } else {
        "timeoutInMinutes"@
    }
}

/// The number of entries in the typo table.
pub open spec fn typo_count() -> int {
    6
}

fn typo_entry(k: usize) -> (r: (&'static str, &'static str))
    requires
        k < 6,
    ensures
        r.0@ == typo_word(k as int),
        r.1@ == typo_fix(k as int),
{
    if k == 0 {
        ("dependson", "dependsOn")
    } else if k == 1 {
        ("displayname", "displayName")
    } else if k == 2 {
        ("vmimage", "vmImage")
    } else if k == 3 {
        ("workingdirectory", "workingDirectory")
    } else if k == 4 {
        ("continueOnError", "continueOnError (note: lowercase 'n' in 'on')")
    } else {
        ("timeout", "timeoutInMinutes")
    }
}

/// The first table entry, from index `k` on, whose misspelling occurs in
/// `lower`.
pub open spec fn first_typo(lower: Seq<char>, k: int) -> Option<int>
    decreases typo_count() - k,
{
    if k < 0 || k >= typo_count() {
        None
    } else if contains_seq(lower, typo_word(k)) {
        Some(k)
    } else {
        first_typo(lower, k + 1)
    }
}

/// The source line with 1-based number `line` (line 0 counts as line 1), or
/// nothing if the source has no such line.
pub open spec fn nth_line(source: Seq<char>, line: nat) -> Seq<char> {
    let ls = lines(source);
    let idx = if line > 0 {
        line - 1
    } else {
        0
    };
    if idx < ls.len() {
        ls[idx]
    } else {
        Seq::empty()
    }
}

/// A hint for a common YAML mistake, judged from the library's message and
/// the source line where the error was found.
pub open spec fn yaml_fix_hint(msg: Seq<char>, source: Seq<char>, line: nat) -> Option<Seq<char>> {
    let error_line = nth_line(source, line);
    if contains_seq(msg, "missing field `steps`"@) {
        Some("jobs must have a 'steps' field. Add steps to define what the job should do."@)
    } else if contains_seq(msg, "missing field `job`"@) && contains_seq(
        msg,
        "missing field `deployment`"@,
    ) {
        Some("each job needs either 'job:' or 'deployment:' to define its identifier"@)
    } else if contains_seq(msg, "unknown field `script`"@) && contains_seq(error_line, "script:"@) {
        Some(
            "'script:' should be at the step level, not nested inside another key. Check your indentation."@,
        )
    } else if contains_seq(msg, "expected"@) && contains_seq(msg, "found"@) && error_line.len() > 0
        && error_line[0] == '\t' {
        Some("YAML prefers spaces over tabs for indentation. Replace tabs with spaces."@)
    } else {
        match first_typo(lower_text(error_line), 0) {
            Some(k) => Some("did you mean "@ + seq!['\''] + typo_fix(k) + seq!['\'', '?']),
            None => None,
        }
    }
}

/// Suggests a fix for a common YAML mistake (see [`yaml_fix_hint`]).
pub fn suggest_yaml_fix(msg: &str, source: &str, line: usize) -> (r: Option<String>)
    ensures
        match r {
            Some(h) => yaml_fix_hint(msg@, source@, line as nat) == Some(h@),
            None => yaml_fix_hint(msg@, source@, line as nat) is None,
        },
{
    let ls = lines_of(source);
    let ghost lv = ls@.map_values(|l: String| l@);
    let idx: usize = if line > 0 {
        line - 1
    } else {
        0
    };
    let error_line: String = if idx < ls.len() {
        proof {
            assert(lv[idx as int] == ls@[idx as int]@);
        }
        ls[idx].clone()
    } else {
        String::new()
    };
    assert(error_line@ == nth_line(source@, line as nat));
    if str_contains(msg, "missing field `steps`") {
        return Some(
            String::from_str(
                "jobs must have a 'steps' field. Add steps to define what the job should do.",
            ),
        );
    }
    if str_contains(msg, "missing field `job`") && str_contains(msg, "missing field `deployment`") {
        return Some(
            String::from_str(
                "each job needs either 'job:' or 'deployment:' to define its identifier",
            ),
        );
    }
    if str_contains(msg, "unknown field `script`") && str_contains(error_line.as_str(), "script:") {
        return Some(
            String::from_str(
                "'script:' should be at the step level, not nested inside another key. Check your indentation.",
            ),
        );
    }
    if str_contains(msg, "expected") && str_contains(msg, "found") {
        let cs = chars_of(error_line.as_str());
        if cs.len() > 0 && cs[0] == '\t' {
            return Some(
                String::from_str(
                    "YAML prefers spaces over tabs for indentation. Replace tabs with spaces.",
                ),
            );
        }
    }
    let lower = to_lowercase(error_line.as_str());
    let ghost hint = yaml_fix_hint(msg@, source@, line as nat);
    assert(hint == match first_typo(lower@, 0) {
        Some(k) => Some("did you mean "@ + seq!['\''] + typo_fix(k) + seq!['\'', '?']),
        None => None,
    });
    let mut k: usize = 0;
    while k < 6
        invariant
            k <= 6,
            lower@ == lower_text(error_line@),
            hint == yaml_fix_hint(msg@, source@, line as nat),
            hint == match first_typo(lower@, 0) {
                Some(k) => Some("did you mean "@ + seq!['\''] + typo_fix(k) + seq!['\'', '?']),
                None => None::<Seq<char>>,
            },
            first_typo(lower@, 0) == first_typo(lower@, k as int),
        decreases 6 - k,
    {
        let (typo, correct) = typo_entry(k);
        if str_contains(lower.as_str(), typo) {
            let mut r = String::from_str("did you mean ");
            r.push('\'');
            r.append(correct);
            r.push('\'');
            r.push('?');
            return Some(r);
        }
        k = k + 1;
    }
    None
}

// ---------------------------------------------------------------------------
// Validation errors
// ---------------------------------------------------------------------------

/// Validation error for semantic checks.
#[derive(Debug, Clone)]
pub struct ValidationError {
    pub message: String,
    pub path: String,
    pub suggestion: Option<String>,
}

/// The text that displaying a validation error gives.
pub open spec fn validation_error_text(e: ValidationError) -> Seq<char> {
    let base = "validation error at "@ + seq!['\''] + e.path@ + seq!['\'', ':', ' '] + e.message@;
    match e.suggestion {
        Some(s) => base + seq![' ', '('] + s@ + seq![')'],
        None => base,
    }
}

impl ValidationError {
    pub fn new(message: &str, path: &str) -> (e: Self)
        ensures
            e.message@ == message@,
            e.path@ == path@,
            e.suggestion is None,
    {
        ValidationError {
            message: String::from_str(message),
            path: String::from_str(path),
            suggestion: None,
        }
    }

    pub fn with_suggestion(self, suggestion: &str) -> (e: Self)
        ensures
            e.suggestion matches Some(s) && s@ == suggestion@,
            e.message == self.message,
            e.path == self.path,
    {
        let mut e = self;
        e.suggestion = Some(String::from_str(suggestion));
        e
    }

    /// The text that displaying this error gives.
    pub fn to_display_string(&self) -> (r: String)
        ensures
            r@ == validation_error_text(*self),
    {
        let mut r = String::from_str("validation error at ");
        r.push('\'');
        r.append(self.path.as_str());
        r.push('\'');
        r.push(':');
        r.push(' ');
        r.append(self.message.as_str());
        match &self.suggestion {
            Some(s) => {
                r.push(' ');
                r.push('(');
                r.append(s.as_str());
                r.push(')');
            },
            None => {},
        }
        r
    }
}

} // verus!
