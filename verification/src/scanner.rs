//! Lexical analysis: source text is turned into a stream of tokens, one
//! token per call. The whole scan is modelled by the spec function
//! [`spec_scan`], a pure function of the source text, the cursor and the
//! line counter; [`Scanner::scan_token`] is proved to follow it exactly,
//! so scanning the same source twice yields identical token sequences.

use vstd::prelude::*;
use vstd::string::StringExecFns;

verus! {

/// The category of a token.
#[derive(Debug, PartialEq, Eq, Structural, Clone, Copy)]
#[allow(non_camel_case_types)]
pub enum TokenType {
    // Single-character tokens.
    TOKEN_LEFT_PAREN,
    TOKEN_RIGHT_PAREN,
    TOKEN_LEFT_BRACE,
    TOKEN_RIGHT_BRACE,
    TOKEN_COMMA,
    TOKEN_DOT,
    TOKEN_MINUS,
    TOKEN_PLUS,
    TOKEN_SEMICOLON,
    TOKEN_SLASH,
    TOKEN_STAR,
    // One or two character tokens.
    TOKEN_BANG,
    TOKEN_BANG_EQUAL,
    TOKEN_EQUAL,
    TOKEN_EQUAL_EQUAL,
    TOKEN_GREATER,
    TOKEN_GREATER_EQUAL,
    TOKEN_LESS,
    TOKEN_LESS_EQUAL,
    // Literals.
    TOKEN_IDENTIFIER,
    TOKEN_STRING,
    TOKEN_NUMBER,
    // Keywords.
    TOKEN_AND,
    TOKEN_CLASS,
    TOKEN_ELSE,
    TOKEN_FALSE,
    TOKEN_FOR,
    TOKEN_FUN,
    TOKEN_IF,
    TOKEN_NIL,
    TOKEN_OR,
    TOKEN_PRINT,
    TOKEN_RETURN,
    TOKEN_SUPER,
    TOKEN_THIS,
    TOKEN_TRUE,
    TOKEN_VAR,
    TOKEN_WHILE,
    TOKEN_ERROR,
    TOKEN_EOF,
}

/// One token: its category, the line it lies on, its span within the
/// source, and, for literals and identifiers, the text of its lexeme
/// (for an error token, the diagnostic message instead).
#[derive(Debug)]
pub struct Token {
    pub token_type: TokenType,
    pub line: usize,
    pub start: usize,
    pub length: usize,
    pub option_string: Option<String>,
}

impl Token {
    /// An exact copy of the token.
    pub fn duplicate(&self) -> (r: Token)
        ensures
            r.token_type == self.token_type,
            r.line == self.line,
            r.start == self.start,
            r.length == self.length,
            r.option_string is Some <==> self.option_string is Some,
            (r.option_string matches Some(s) ==> self.option_string matches Some(t) && s@ == t@),
    {
        Token {
            token_type: self.token_type,
            line: self.line,
            start: self.start,
            length: self.length,
            option_string: match &self.option_string {
                Some(s) => Some(s.clone()),
                None => None,
            },
        }
    }
}

/// Whether the cursor stands at the end of the input: past the last
/// character, or at an embedded NUL, which terminates scanning.
pub open spec fn at_end(src: Seq<char>, i: nat) -> bool {
    i >= src.len() || src[i as int] == '\0'
}

/// An ASCII decimal digit.
pub open spec fn is_digit_char(c: char) -> bool {
    '0' <= c && c <= '9'
}

/// An ASCII letter or underscore: what an identifier may start with.
pub open spec fn is_alpha_char(c: char) -> bool {
    ('a' <= c && c <= 'z') || ('A' <= c && c <= 'Z') || c == '_'
}

/// The cursor and line counter after consuming whitespace and `//`
/// comments. While `in_comment` holds, everything up to the next newline
/// or the end of input is consumed.
pub open spec fn skip_ws(src: Seq<char>, i: nat, line: nat, in_comment: bool) -> (nat, nat)
    decreases src.len() - i, (if in_comment { 1int } else { 0int }),
{
    if i >= src.len() {
        (i, line)
    } else if in_comment {
        if src[i as int] == '\0' {
            (i, line)
        } else if src[i as int] == '\n' {
            skip_ws(src, i, line, false)
        } else {
            skip_ws(src, (i + 1) as nat, line, true)
        }
    } else {
        let c = src[i as int];
        if c == ' ' || c == '\r' || c == '\t' {
            skip_ws(src, (i + 1) as nat, line, false)
        } else if c == '\n' {
            skip_ws(src, (i + 1) as nat, (line + 1) as nat, false)
        } else if c == '/' && i + 1 < src.len() && src[i + 1 as int] == '/' {
            skip_ws(src, (i + 2) as nat, line, true)
        } else {
            (i, line)
        }
    }
}

/// The end of a run of decimal digits starting at `i`.
pub open spec fn digits_end(src: Seq<char>, i: nat) -> nat
    decreases src.len() - i,
{
    if i < src.len() && is_digit_char(src[i as int]) {
        digits_end(src, (i + 1) as nat)
    } else {
        i
    }
}

/// The end of a number lexeme starting at `i`: digits, then optionally a
/// single dot followed by at least one digit, then more digits. No
/// exponent notation and no leading dot.
pub open spec fn number_end(src: Seq<char>, i: nat) -> nat {
    let d = digits_end(src, i);
    if d < src.len() && src[d as int] == '.' && d + 1 < src.len() && is_digit_char(src[d + 1 as int]) {
        digits_end(src, (d + 1) as nat)
    } else {
        d
    }
}

/// The end of a run of identifier characters (letters, digits,
/// underscore) starting at `i`.
pub open spec fn ident_end(src: Seq<char>, i: nat) -> nat
    decreases src.len() - i,
{
    if i < src.len() && (is_alpha_char(src[i as int]) || is_digit_char(src[i as int])) {
        ident_end(src, (i + 1) as nat)
    } else {
        i
    }
}

/// Scans the interior of a string literal whose opening quote stands just
/// before `i`: yields the position after the closing quote, the line
/// counter after the newlines inside the literal, and whether a closing
/// quote was found before the end of input.
pub open spec fn string_scan(src: Seq<char>, i: nat, line: nat) -> (nat, nat, bool)
    decreases src.len() - i,
{
    if at_end(src, i) {
        (i, line, false)
    } else if src[i as int] == '"' {
        ((i + 1) as nat, line, true)
    } else if src[i as int] == '\n' {
        string_scan(src, (i + 1) as nat, (line + 1) as nat)
    } else {
        string_scan(src, (i + 1) as nat, line)
    }
}

/// Whether the characters of `w` stand in `src` at position `i`.
pub open spec fn matches_at(src: Seq<char>, i: nat, w: Seq<char>) -> bool {
    i + w.len() <= src.len() && src.subrange(i as int, i + w.len() as int) == w
}

/// The keyword standing at position `i`, if any, with its length. A
/// keyword is recognized wherever its characters appear, ahead of the
/// general identifier rule.
pub open spec fn keyword_at(src: Seq<char>, i: nat) -> Option<(TokenType, nat)> {
    if matches_at(src, i, seq!['a', 'n', 'd']) {
        Some((TokenType::TOKEN_AND, 3nat))
    } else if matches_at(src, i, seq!['c', 'l', 'a', 's', 's']) {
        Some((TokenType::TOKEN_CLASS, 5nat))
    } else if matches_at(src, i, seq!['e', 'l', 's', 'e']) {
        Some((TokenType::TOKEN_ELSE, 4nat))
    } else if matches_at(src, i, seq!['i', 'f']) {
        Some((TokenType::TOKEN_IF, 2nat))
    } else if matches_at(src, i, seq!['n', 'i', 'l']) {
        Some((TokenType::TOKEN_NIL, 3nat))
    } else if matches_at(src, i, seq!['o', 'r']) {
        Some((TokenType::TOKEN_OR, 2nat))
    } else if matches_at(src, i, seq!['p', 'r', 'i', 'n', 't']) {
        Some((TokenType::TOKEN_PRINT, 5nat))
    } else if matches_at(src, i, seq!['r', 'e', 't', 'u', 'r', 'n']) {
        Some((TokenType::TOKEN_RETURN, 6nat))
    } else if matches_at(src, i, seq!['s', 'u', 'p', 'e', 'r']) {
        Some((TokenType::TOKEN_SUPER, 5nat))
    } else if matches_at(src, i, seq!['v', 'a', 'r']) {
        Some((TokenType::TOKEN_VAR, 3nat))
    } else if matches_at(src, i, seq!['w', 'h', 'i', 'l', 'e']) {
        Some((TokenType::TOKEN_WHILE, 5nat))
    } else if matches_at(src, i, seq!['f', 'a', 'l', 's', 'e']) {
        Some((TokenType::TOKEN_FALSE, 5nat))
    } else if matches_at(src, i, seq!['f', 'o', 'r']) {
        Some((TokenType::TOKEN_FOR, 3nat))
    } else if matches_at(src, i, seq!['f', 'u', 'n']) {
        Some((TokenType::TOKEN_FUN, 3nat))
    } else if matches_at(src, i, seq!['t', 'h', 'i', 's']) {
        Some((TokenType::TOKEN_THIS, 4nat))
    } else if matches_at(src, i, seq!['t', 'r', 'u', 'e']) {
        Some((TokenType::TOKEN_TRUE, 4nat))
    } else {
        None
    }
}

/// The outcome of scanning one token: its category, its span, the line it
/// is reported on, and the scanner's cursor and line counter afterwards.
pub struct ScanOut {
    pub kind: TokenType,
    pub start: nat,
    pub end: nat,
    pub tline: nat,
    pub nline: nat,
}

/// Scanning one token from position `pos` on line `line`: consumes
/// whitespace and comments, then recognizes exactly one token. The end of
/// input yields `TOKEN_EOF` repeatably; an unrecognized character or an
/// unterminated string yields `TOKEN_ERROR` rather than a failure. An
/// unterminated string is reported on the line it started on.
pub open spec fn spec_scan(src: Seq<char>, pos: nat, line: nat) -> ScanOut {
    let (i, l) = skip_ws(src, pos, line, false);
    if at_end(src, i) {
        ScanOut { kind: TokenType::TOKEN_EOF, start: i, end: i, tline: l, nline: l }
    } else if is_alpha_char(src[i as int]) {
        match keyword_at(src, i) {
            Some((t, k)) => ScanOut { kind: t, start: i, end: (i + k) as nat, tline: l, nline: l },
            None => ScanOut {
                kind: TokenType::TOKEN_IDENTIFIER,
                start: i,
                end: ident_end(src, i),
                tline: l,
                nline: l,
            },
        }
    } else if is_digit_char(src[i as int]) {
        ScanOut {
            kind: TokenType::TOKEN_NUMBER,
            start: i,
            end: number_end(src, i),
            tline: l,
            nline: l,
        }
    } else if src[i as int] == '"' {
        let (e, l2, ok) = string_scan(src, (i + 1) as nat, l);
        if ok {
            ScanOut { kind: TokenType::TOKEN_STRING, start: i, end: e, tline: l2, nline: l2 }
        } else {
            ScanOut { kind: TokenType::TOKEN_ERROR, start: i, end: e, tline: l, nline: l2 }
        }
    } else {
        let c = src[i as int];
        let two = i + 1 < src.len() && src[i + 1 as int] == '=';
        if c == '(' {
            one_char(TokenType::TOKEN_LEFT_PAREN, i, l)
        } else if c == ')' {
            one_char(TokenType::TOKEN_RIGHT_PAREN, i, l)
        } else if c == '{' {
            one_char(TokenType::TOKEN_LEFT_BRACE, i, l)
        } else if c == '}' {
            one_char(TokenType::TOKEN_RIGHT_BRACE, i, l)
        } else if c == ';' {
            one_char(TokenType::TOKEN_SEMICOLON, i, l)
        } else if c == ',' {
            one_char(TokenType::TOKEN_COMMA, i, l)
        } else if c == '.' {
            one_char(TokenType::TOKEN_DOT, i, l)
        } else if c == '-' {
            one_char(TokenType::TOKEN_MINUS, i, l)
        } else if c == '+' {
            one_char(TokenType::TOKEN_PLUS, i, l)
        } else if c == '/' {
            one_char(TokenType::TOKEN_SLASH, i, l)
        } else if c == '*' {
            one_char(TokenType::TOKEN_STAR, i, l)
        } else if c == '!' {
            if two {
                two_char(TokenType::TOKEN_BANG_EQUAL, i, l)
            } else {
                one_char(TokenType::TOKEN_BANG, i, l)
            }
        } else if c == '=' {
            if two {
                two_char(TokenType::TOKEN_EQUAL_EQUAL, i, l)
            } else {
                one_char(TokenType::TOKEN_EQUAL, i, l)
            }
        } else if c == '<' {
            if two {
                two_char(TokenType::TOKEN_LESS_EQUAL, i, l)
            } else {
                one_char(TokenType::TOKEN_LESS, i, l)
            }
        } else if c == '>' {
            if two {
                two_char(TokenType::TOKEN_GREATER_EQUAL, i, l)
            } else {
                one_char(TokenType::TOKEN_GREATER, i, l)
            }
        } else {
            ScanOut {
                kind: TokenType::TOKEN_ERROR,
                start: i,
                end: (i + 1) as nat,
                tline: l,
                nline: l,
            }
        }
    }
}

/// A single-character token at position `i` on line `l`.
pub open spec fn one_char(kind: TokenType, i: nat, l: nat) -> ScanOut {
    ScanOut { kind: kind, start: i, end: (i + 1) as nat, tline: l, nline: l }
}

/// A two-character token at position `i` on line `l`.
pub open spec fn two_char(kind: TokenType, i: nat, l: nat) -> ScanOut {
    ScanOut { kind: kind, start: i, end: (i + 2) as nat, tline: l, nline: l }
}

/// A token of category `kind` spanning `start..end`, wholly on line `l`.
pub open spec fn spec_token_at(kind: TokenType, start: nat, end: nat, l: nat) -> ScanOut {
    ScanOut { kind: kind, start: start, end: end, tline: l, nline: l }
}

/// Whether a token of this category carries its lexeme along.
pub open spec fn carries_lexeme(kind: TokenType) -> bool {
    kind == TokenType::TOKEN_STRING || kind == TokenType::TOKEN_NUMBER || kind
        == TokenType::TOKEN_IDENTIFIER
}

/// The diagnostic message of an error token: scanning fails only on an
/// unterminated string (recognizable by its opening quote) or on a
/// character no token starts with.
pub open spec fn scan_err_msg(src: Seq<char>, o: ScanOut) -> Seq<char> {
    if o.start < src.len() && src[o.start as int] == '"' {
        "Unterminated string"@
    } else {
        "Unexpected character."@
    }
}

/// Skipping whitespace moves the cursor forward, never past the end.
pub proof fn lemma_skip_ws_bounds(src: Seq<char>, i: nat, line: nat, in_comment: bool)
    requires
        i <= src.len(),
    ensures
        i <= skip_ws(src, i, line, in_comment).0,
        skip_ws(src, i, line, in_comment).0 <= src.len(),
        line <= skip_ws(src, i, line, in_comment).1,
    decreases src.len() - i, (if in_comment { 1int } else { 0int }),
{
    if i >= src.len() {
    } else if in_comment {
        if src[i as int] == '\0' {
        } else if src[i as int] == '\n' {
            lemma_skip_ws_bounds(src, i, line, false);
        } else {
            lemma_skip_ws_bounds(src, (i + 1) as nat, line, true);
        }
    } else {
        let c = src[i as int];
        if c == ' ' || c == '\r' || c == '\t' {
            lemma_skip_ws_bounds(src, (i + 1) as nat, line, false);
        } else if c == '\n' {
            lemma_skip_ws_bounds(src, (i + 1) as nat, (line + 1) as nat, false);
        } else if c == '/' && i + 1 < src.len() && src[i + 1 as int] == '/' {
            lemma_skip_ws_bounds(src, (i + 2) as nat, line, true);
        } else {
        }
    }
}

/// A run of digits ends between where it starts and the end of input.
pub proof fn lemma_digits_end_bounds(src: Seq<char>, i: nat)
    requires
        i <= src.len(),
    ensures
        i <= digits_end(src, i),
        digits_end(src, i) <= src.len(),
    decreases src.len() - i,
{
    if i < src.len() && is_digit_char(src[i as int]) {
        lemma_digits_end_bounds(src, (i + 1) as nat);
    }
}

/// A run of identifier characters ends between where it starts and the
/// end of input.
pub proof fn lemma_ident_end_bounds(src: Seq<char>, i: nat)
    requires
        i <= src.len(),
    ensures
        i <= ident_end(src, i),
        ident_end(src, i) <= src.len(),
    decreases src.len() - i,
{
    if i < src.len() && (is_alpha_char(src[i as int]) || is_digit_char(src[i as int])) {
        lemma_ident_end_bounds(src, (i + 1) as nat);
    }
}

/// Scanning a string literal's interior moves the cursor forward, never
/// past the end.
pub proof fn lemma_string_scan_bounds(src: Seq<char>, i: nat, line: nat)
    requires
        i <= src.len(),
    ensures
        i <= string_scan(src, i, line).0,
        string_scan(src, i, line).0 <= src.len(),
        line <= string_scan(src, i, line).1,
    decreases src.len() - i,
{
    if at_end(src, i) {
    } else if src[i as int] == '"' {
    } else if src[i as int] == '\n' {
        lemma_string_scan_bounds(src, (i + 1) as nat, (line + 1) as nat);
    } else {
        lemma_string_scan_bounds(src, (i + 1) as nat, line);
    }
}

/// One scan step never moves backward or past the end of input, and every
/// token but EOF spans at least one character.
pub proof fn lemma_scan_bounds(src: Seq<char>, pos: nat, line: nat)
    requires
        pos <= src.len(),
    ensures
        pos <= spec_scan(src, pos, line).start,
        spec_scan(src, pos, line).start <= spec_scan(src, pos, line).end,
        spec_scan(src, pos, line).end <= src.len(),
        spec_scan(src, pos, line).kind != TokenType::TOKEN_EOF ==> spec_scan(src, pos, line).start
            < spec_scan(src, pos, line).end,
        spec_scan(src, pos, line).kind == TokenType::TOKEN_EOF ==> spec_scan(src, pos, line).start
            == spec_scan(src, pos, line).end,
{
    lemma_skip_ws_bounds(src, pos, line, false);
    let (i, l) = skip_ws(src, pos, line, false);
    if at_end(src, i) {
    } else if is_alpha_char(src[i as int]) {
        match keyword_at(src, i) {
            Some((t, k)) => {},
            None => {
                lemma_ident_end_bounds(src, (i + 1) as nat);
            },
        }
    } else if is_digit_char(src[i as int]) {
        lemma_digits_end_bounds(src, (i + 1) as nat);
        let d = digits_end(src, i);
        if d < src.len() && src[d as int] == '.' && d + 1 < src.len() && is_digit_char(
            src[d + 1 as int],
        ) {
            lemma_digits_end_bounds(src, (d + 2) as nat);
        }
    } else if src[i as int] == '"' {
        lemma_string_scan_bounds(src, (i + 1) as nat, l);
    } else {
    }
}

/// Every character in `[from, to)` of `s` is a decimal digit.
pub open spec fn all_digits(s: Seq<char>, from: int, to: int) -> bool {
    forall|j: int| from <= j < to ==> is_digit_char(s[j])
}

/// A number lexeme: one or more digits, optionally followed by a single
/// dot and one or more further digits. Exactly the texts the scanner
/// turns into number tokens.
pub open spec fn is_number_lexeme(s: Seq<char>) -> bool {
    ||| (s.len() > 0 && all_digits(s, 0, s.len() as int))
    ||| (exists|k: int|
        0 < k && k + 1 < s.len() && #[trigger] s[k] == '.' && all_digits(s, 0, k) && all_digits(
            s,
            k + 1,
            s.len() as int,
        ))
}

/// A run of digits is made of digits.
pub proof fn lemma_digits_end_digits(src: Seq<char>, i: nat)
    requires
        i <= src.len(),
    ensures
        all_digits(src, i as int, digits_end(src, i) as int),
    decreases src.len() - i,
{
    if i < src.len() && is_digit_char(src[i as int]) {
        lemma_digits_end_digits(src, (i + 1) as nat);
    }
}

/// The lexeme of every number token the scan model yields is a
/// well-formed number: digits, optionally one dot with digits on both
/// sides.
pub proof fn lemma_number_token_lexeme(src: Seq<char>, pos: nat, line: nat)
    requires
        pos <= src.len(),
        spec_scan(src, pos, line).kind == TokenType::TOKEN_NUMBER,
    ensures
        is_number_lexeme(
            src.subrange(
                spec_scan(src, pos, line).start as int,
                spec_scan(src, pos, line).end as int,
            ),
        ),
{
    lemma_skip_ws_bounds(src, pos, line, false);
    let (i, l) = skip_ws(src, pos, line, false);
    let o = spec_scan(src, pos, line);
    assert(is_digit_char(src[i as int]));
    let d = digits_end(src, i);
    lemma_digits_end_bounds(src, i);
    lemma_digits_end_digits(src, i);
    lemma_digits_end_bounds(src, (i + 1) as nat);
    assert(d >= i + 1);
    let lex = src.subrange(o.start as int, o.end as int);
    if d < src.len() && src[d as int] == '.' && d + 1 < src.len() && is_digit_char(
        src[d + 1 as int],
    ) {
        let d2 = digits_end(src, (d + 1) as nat);
        lemma_digits_end_bounds(src, (d + 1) as nat);
        lemma_digits_end_digits(src, (d + 1) as nat);
        lemma_digits_end_bounds(src, (d + 2) as nat);
        assert(d2 >= d + 2);
        let k = d - i;
        assert(lex[k] == '.');
        assert(all_digits(lex, 0, k)) by {
            assert forall|j: int| 0 <= j < k implies is_digit_char(lex[j]) by {
                assert(lex[j] == src[i + j]);
            }
        }
        assert(all_digits(lex, k + 1, lex.len() as int)) by {
            assert forall|j: int| k + 1 <= j < lex.len() implies is_digit_char(lex[j]) by {
                assert(lex[j] == src[i + j]);
            }
        }
        assert(is_number_lexeme(lex));
    } else {
        assert(o.end == d);
        assert(all_digits(lex, 0, lex.len() as int)) by {
            assert forall|j: int| 0 <= j < lex.len() implies is_digit_char(lex[j]) by {
                assert(lex[j] == src[i + j]);
            }
        }
        assert(is_number_lexeme(lex));
    }
}

/// Scanning is deterministic: the token that comes back, and the state
/// the scanner is left in, are a pure function of the source text, the
/// cursor and the line counter — [`Scanner::scan_token`] ensures exactly
/// that. So two scanners over the same source yield identical token
/// sequences: at every step their states agree, and with them the next
/// token.
pub proof fn lemma_scan_deterministic(a: Scanner, b: Scanner)
    requires
        a.src() == b.src(),
        a.current == b.current,
        a.line == b.line,
    ensures
        spec_scan(a.src(), a.current as nat, a.line as nat) == spec_scan(
            b.src(),
            b.current as nat,
            b.line as nat,
        ),
{
}

/// How an executable token relates to one step of the scan model.
pub open spec fn token_from(src: Seq<char>, o: ScanOut, t: Token) -> bool {
    &&& t.token_type == o.kind
    &&& t.line == o.tline
    &&& t.start == o.start
    &&& t.length == (if o.kind == TokenType::TOKEN_ERROR {
        0nat
    } else {
        (o.end - o.start) as nat
    })
    &&& (carries_lexeme(o.kind) ==> (t.option_string matches Some(s) && s@ == src.subrange(
        o.start as int,
        o.end as int,
    )))
    &&& (o.kind == TokenType::TOKEN_ERROR ==> (t.option_string matches Some(s) && s@
        == scan_err_msg(src, o)))
    &&& (!carries_lexeme(o.kind) && o.kind != TokenType::TOKEN_ERROR ==> t.option_string is None)
}

/// Relies on String's FromIterator over characters: collecting the
/// characters of a slice yields the string holding exactly them, in order.
#[verifier::external_body]
pub(crate) fn string_of_chars(chars: &Vec<char>) -> (r: String)
    ensures
        r@ == chars@,
{
    chars.iter().collect()
}

/// The scanner: the source text as characters, the start of the token
/// being scanned, the cursor, and the current line number.
pub struct Scanner {
    pub source_code: Vec<char>,
    pub start: usize,
    pub current: usize,
    pub line: usize,
}

impl Scanner {
    /// The source text under the scanner.
    pub open spec fn src(self) -> Seq<char> {
        self.source_code@
    }

    /// The scanner's invariant: the cursor is inside the source and the
    /// line counter never exceeds one more than the cursor, so that
    /// counting a further line cannot overflow.
    pub open spec fn wf(self) -> bool {
        &&& self.current <= self.src().len()
        &&& self.src().len() < usize::MAX
        &&& 1 <= self.line
        &&& self.line <= self.current + 1
    }

    /// A fresh scanner over `source_code`, at its first character, line 1.
    pub fn init(source_code: &String) -> (r: Scanner)
        requires
            source_code@.len() < usize::MAX,
        ensures
            r.wf(),
            r.src() == source_code@,
            r.start == 0,
            r.current == 0,
            r.line == 1,
    {
        let mut chars: Vec<char> = Vec::new();
        let n = source_code.as_str().unicode_len();
        let stext = source_code.as_str();
        while chars.len() < n
            invariant
                chars@.len() <= source_code@.len(),
                chars@ == source_code@.subrange(0, chars@.len() as int),
                n == source_code@.len(),
                stext@ == source_code@,
            decreases source_code@.len() - chars@.len(),
        {
            let c = stext.get_char(chars.len());
            chars.push(c);
            proof {
                assert(chars@ =~= source_code@.subrange(0, chars@.len() as int));
            }
        }
        proof {
            assert(chars@ =~= source_code@);
        }
        Scanner { source_code: chars, start: 0, current: 0, line: 1 }
    }

    /// The text of the last `length` characters before the cursor: the
    /// lexeme of the token that was just scanned.
    pub fn token_chars(&self, length: usize) -> (r: String)
        requires
            length <= self.current,
            self.current <= self.src().len(),
        ensures
            r@ == self.src().subrange(self.current - length, self.current as int),
    {
        let mut chars: Vec<char> = Vec::new();
        let mut i = self.current - length;
        while i < self.current
            invariant
                length <= self.current,
                self.current - length <= i <= self.current,
                self.current <= self.src().len(),
                chars@ == self.src().subrange(self.current - length, i as int),
            decreases self.current - i,
        {
            chars.push(self.source_code[i]);
            i += 1;
            proof {
                assert(chars@ =~= self.src().subrange(self.current - length, i as int));
            }
        }
        string_of_chars(&chars)
    }

    /// Whether the cursor stands at the end of the input.
    fn is_at_end(&self) -> (r: bool)
        requires
            self.current <= self.src().len(),
        ensures
            r == at_end(self.src(), self.current as nat),
    {
        if self.current >= self.source_code.len() {
            return true;
        }
        self.source_code[self.current] == '\0'
    }

    /// An error token carrying a diagnostic message and the given line.
    fn error_token(&self, message: &str, line: usize) -> (t: Token)
        ensures
            t.token_type == TokenType::TOKEN_ERROR,
            t.line == line,
            t.start == self.start,
            t.length == 0,
            (t.option_string matches Some(s) && s@ == message@),
    {
        Token {
            token_type: TokenType::TOKEN_ERROR,
            line,
            start: self.start,
            length: 0,
            option_string: Some(String::from_str(message)),
        }
    }

    /// The token spanning `start..current`, carrying its lexeme where the
    /// category calls for one.
    fn make_token(&self, token_type: TokenType) -> (t: Token)
        requires
            self.start <= self.current,
            self.current <= self.src().len(),
            token_type != TokenType::TOKEN_ERROR,
        ensures
            t.token_type == token_type,
            t.line == self.line,
            t.start == self.start,
            t.length == self.current - self.start,
            (carries_lexeme(token_type) ==> (t.option_string matches Some(s) && s@
                == self.src().subrange(self.start as int, self.current as int))),
            (!carries_lexeme(token_type) ==> t.option_string is None),
    {
        let option_string = match token_type {
            TokenType::TOKEN_STRING | TokenType::TOKEN_NUMBER | TokenType::TOKEN_IDENTIFIER => Some(
                self.token_chars(self.current - self.start),
            ),
            _ => None,
        };
        Token {
            token_type,
            line: self.line,
            start: self.start,
            length: self.current - self.start,
            option_string,
        }
    }

    /// Consumes the next character when it equals `expected`.
    fn match_char(&mut self, expected: char) -> (r: bool)
        requires
            old(self).wf(),
        ensures
            final(self).wf(),
            final(self).src() == old(self).src(),
            final(self).start == old(self).start,
            final(self).line == old(self).line,
            r == (!at_end(old(self).src(), old(self).current as nat) && old(self).src()[old(self).current as int] == expected),
            final(self).current == (if r {
                old(self).current + 1
            } else {
                old(self).current as int
            }),
    {
        if self.is_at_end() {
            return false;
        }
        if self.source_code[self.current] != expected {
            return false;
        }
        self.current += 1;
        true
    }

    /// Whether `c` is an ASCII decimal digit.
    fn is_digit(&self, c: char) -> (r: bool)
        ensures
            r == is_digit_char(c),
    {
        c >= '0' && c <= '9'
    }

    /// Whether `c` is an ASCII letter or underscore.
    fn is_alpha(&self, c: char) -> (r: bool)
        ensures
            r == is_alpha_char(c),
    {
        (c >= 'a' && c <= 'z') || (c >= 'A' && c <= 'Z') || c == '_'
    }

    /// The character under the cursor, or NUL at the end of input.
    fn peek(&self) -> (r: char)
        requires
            self.current <= self.src().len(),
        ensures
            r == (if at_end(self.src(), self.current as nat) {
                '\0'
            } else {
                self.src()[self.current as int]
            }),
    {
        if self.is_at_end() {
            return '\0';
        }
        self.source_code[self.current]
    }

    /// The character after the cursor, or NUL when none follows.
    fn peek_next(&self) -> (r: char)
        requires
            self.current <= self.src().len(),
            self.src().len() < usize::MAX,
        ensures
            r == (if self.current + 1 >= self.src().len() {
                '\0'
            } else {
                self.src()[self.current + 1]
            }),
    {
        if self.current + 1 >= self.source_code.len() {
            return '\0';
        }
        self.source_code[self.current + 1]
    }

    /// Consumes and returns the character under the cursor.
    fn advance(&mut self) -> (r: char)
        requires
            old(self).wf(),
            old(self).current < old(self).src().len(),
        ensures
            final(self).wf(),
            final(self).src() == old(self).src(),
            final(self).start == old(self).start,
            final(self).line == old(self).line,
            final(self).current == old(self).current + 1,
            r == old(self).src()[old(self).current as int],
    {
        self.current += 1;
        self.source_code[self.current - 1]
    }

    /// Scans the rest of a number token; the cursor stands on its first
    /// digit, where the token starts.
    fn number(&mut self) -> (t: Token)
        requires
            old(self).wf(),
            old(self).start == old(self).current,
            !at_end(old(self).src(), old(self).current as nat),
            is_digit_char(old(self).src()[old(self).current as int]),
        ensures
            final(self).wf(),
            final(self).src() == old(self).src(),
            final(self).start == old(self).start,
            final(self).line == old(self).line,
            final(self).current == number_end(old(self).src(), old(self).current as nat),
            token_from(
                old(self).src(),
                spec_token_at(
                    TokenType::TOKEN_NUMBER,
                    old(self).current as nat,
                    number_end(old(self).src(), old(self).current as nat),
                    old(self).line as nat,
                ),
                t,
            ),
    {
        let ghost orig = *self;
        while self.is_digit(self.peek())
            invariant
                self.wf(),
                self.src() == orig.src(),
                self.start == orig.start,
                self.line == orig.line,
                orig.current <= self.current,
                digits_end(orig.src(), orig.current as nat) == digits_end(
                    self.src(),
                    self.current as nat,
                ),
            decreases self.src().len() - self.current,
        {
            let _ = self.advance();
        }
        if self.peek() == '.' && self.is_digit(self.peek_next()) {
            let _ = self.advance();
            let ghost mid = self.current as nat;
            while self.is_digit(self.peek())
                invariant
                    self.wf(),
                    self.src() == orig.src(),
                    self.start == orig.start,
                    self.line == orig.line,
                    orig.current <= self.current,
                    digits_end(orig.src(), mid) == digits_end(self.src(), self.current as nat),
                decreases self.src().len() - self.current,
            {
                let _ = self.advance();
            }
        }
        self.make_token(TokenType::TOKEN_NUMBER)
    }

    /// Scans the rest of a string token; the opening quote was just
    /// consumed and the token starts at it. An unterminated string yields
    /// an error token reported on the line the string started on.
    fn string(&mut self) -> (t: Token)
        requires
            old(self).wf(),
            old(self).start + 1 == old(self).current,
            old(self).src()[old(self).start as int] == '"',
        ensures
            final(self).wf(),
            final(self).src() == old(self).src(),
            final(self).start == old(self).start,
            final(self).current == string_scan(
                old(self).src(),
                old(self).current as nat,
                old(self).line as nat,
            ).0,
            final(self).line == string_scan(
                old(self).src(),
                old(self).current as nat,
                old(self).line as nat,
            ).1,
            ({
                let (e, l2, ok) = string_scan(
                    old(self).src(),
                    old(self).current as nat,
                    old(self).line as nat,
                );
                let o = (if ok {
                    ScanOut {
                        kind: TokenType::TOKEN_STRING,
                        start: old(self).start as nat,
                        end: e,
                        tline: l2,
                        nline: l2,
                    }
                } else {
                    ScanOut {
                        kind: TokenType::TOKEN_ERROR,
                        start: old(self).start as nat,
                        end: e,
                        tline: old(self).line as nat,
                        nline: l2,
                    }
                });
                token_from(old(self).src(), o, t)
            }),
    {
        let token_line = self.line;
        let ghost orig = *self;
        while self.peek() != '"' && !self.is_at_end()
            invariant
                self.wf(),
                self.src() == orig.src(),
                self.start == orig.start,
                orig.current <= self.current,
                string_scan(orig.src(), orig.current as nat, orig.line as nat) == string_scan(
                    self.src(),
                    self.current as nat,
                    self.line as nat,
                ),
            decreases self.src().len() - self.current,
        {
            let nl = self.peek() == '\n';
            let _ = self.advance();
            if nl {
                self.line += 1;
            }
        }
        if self.is_at_end() {
            return self.error_token("Unterminated string", token_line);
        }
        let _ = self.advance();
        self.make_token(TokenType::TOKEN_STRING)
    }

    /// Whether the characters of `w` stand in the source at the cursor.
    fn check_word(&self, w: &Vec<char>) -> (r: bool)
        requires
            self.current <= self.src().len(),
        ensures
            r == matches_at(self.src(), self.current as nat, w@),
    {
        let n = self.source_code.len();
        if w.len() > n - self.current {
            return false;
        }
        let mut j: usize = 0;
        while j < w.len()
            invariant
                j <= w.len(),
                n == self.src().len(),
                self.current + w@.len() <= n,
                forall|k: int| 0 <= k < j ==> self.src()[self.current + k] == w@[k],
            decreases w.len() - j,
        {
            if self.source_code[self.current + j] != w[j] {
                proof {
                    assert(self.src().subrange(
                        self.current as int,
                        self.current + w@.len() as int,
                    )[j as int] != w@[j as int]);
                }
                return false;
            }
            j += 1;
        }
        proof {
            assert(self.src().subrange(self.current as int, self.current + w@.len() as int)
                =~= w@);
        }
        true
    }

    /// Scans a keyword or identifier; the cursor stands on its first
    /// character, where the token starts. Keywords are matched ahead of
    /// the general identifier rule.
    fn identifier(&mut self) -> (t: Token)
        requires
            old(self).wf(),
            old(self).start == old(self).current,
            !at_end(old(self).src(), old(self).current as nat),
            is_alpha_char(old(self).src()[old(self).current as int]),
        ensures
            final(self).wf(),
            final(self).src() == old(self).src(),
            final(self).start == old(self).start,
            final(self).line == old(self).line,
            ({
                let o = (match keyword_at(old(self).src(), old(self).current as nat) {
                    Some((kind, k)) => spec_token_at(
                        kind,
                        old(self).current as nat,
                        (old(self).current + k) as nat,
                        old(self).line as nat,
                    ),
                    None => spec_token_at(
                        TokenType::TOKEN_IDENTIFIER,
                        old(self).current as nat,
                        ident_end(old(self).src(), old(self).current as nat),
                        old(self).line as nat,
                    ),
                });
                final(self).current == o.end && token_from(old(self).src(), o, t)
            }),
    {
        let w_and = vec!['a', 'n', 'd'];
        if self.check_word(&w_and) {
            self.current += 3;
            return self.make_token(TokenType::TOKEN_AND);
        }
        let w_class = vec!['c', 'l', 'a', 's', 's'];
        if self.check_word(&w_class) {
            self.current += 5;
            return self.make_token(TokenType::TOKEN_CLASS);
        }
        let w_else = vec!['e', 'l', 's', 'e'];
        if self.check_word(&w_else) {
            self.current += 4;
            return self.make_token(TokenType::TOKEN_ELSE);
        }
        let w_if = vec!['i', 'f'];
        if self.check_word(&w_if) {
            self.current += 2;
            return self.make_token(TokenType::TOKEN_IF);
        }
        let w_nil = vec!['n', 'i', 'l'];
        if self.check_word(&w_nil) {
            self.current += 3;
            return self.make_token(TokenType::TOKEN_NIL);
        }
        let w_or = vec!['o', 'r'];
        if self.check_word(&w_or) {
            self.current += 2;
            return self.make_token(TokenType::TOKEN_OR);
        }
        let w_print = vec!['p', 'r', 'i', 'n', 't'];
        if self.check_word(&w_print) {
            self.current += 5;
            return self.make_token(TokenType::TOKEN_PRINT);
        }
        let w_return = vec!['r', 'e', 't', 'u', 'r', 'n'];
        if self.check_word(&w_return) {
            self.current += 6;
            return self.make_token(TokenType::TOKEN_RETURN);
        }
        let w_super = vec!['s', 'u', 'p', 'e', 'r'];
        if self.check_word(&w_super) {
            self.current += 5;
            return self.make_token(TokenType::TOKEN_SUPER);
        }
        let w_var = vec!['v', 'a', 'r'];
        if self.check_word(&w_var) {
            self.current += 3;
            return self.make_token(TokenType::TOKEN_VAR);
        }
        let w_while = vec!['w', 'h', 'i', 'l', 'e'];
        if self.check_word(&w_while) {
            self.current += 5;
            return self.make_token(TokenType::TOKEN_WHILE);
        }
        let w_false = vec!['f', 'a', 'l', 's', 'e'];
        if self.check_word(&w_false) {
            self.current += 5;
            return self.make_token(TokenType::TOKEN_FALSE);
        }
        let w_for = vec!['f', 'o', 'r'];
        if self.check_word(&w_for) {
            self.current += 3;
            return self.make_token(TokenType::TOKEN_FOR);
        }
        let w_fun = vec!['f', 'u', 'n'];
        if self.check_word(&w_fun) {
            self.current += 3;
            return self.make_token(TokenType::TOKEN_FUN);
        }
        let w_this = vec!['t', 'h', 'i', 's'];
        if self.check_word(&w_this) {
            self.current += 4;
            return self.make_token(TokenType::TOKEN_THIS);
        }
        let w_true = vec!['t', 'r', 'u', 'e'];
        if self.check_word(&w_true) {
            self.current += 4;
            return self.make_token(TokenType::TOKEN_TRUE);
        }
        let ghost orig = *self;
        while self.is_alpha(self.peek()) || self.is_digit(self.peek())
            invariant
                self.wf(),
                self.src() == orig.src(),
                self.start == orig.start,
                self.line == orig.line,
                orig.current <= self.current,
                ident_end(orig.src(), orig.current as nat) == ident_end(
                    self.src(),
                    self.current as nat,
                ),
            decreases self.src().len() - self.current,
        {
            let _ = self.advance();
        }
        self.make_token(TokenType::TOKEN_IDENTIFIER)
    }

    /// Consumes whitespace and `//` comments, counting the newlines.
    fn skip_whitespace(&mut self)
        requires
            old(self).wf(),
        ensures
            final(self).wf(),
            final(self).src() == old(self).src(),
            final(self).start == old(self).start,
            final(self).current == skip_ws(
                old(self).src(),
                old(self).current as nat,
                old(self).line as nat,
                false,
            ).0,
            final(self).line == skip_ws(
                old(self).src(),
                old(self).current as nat,
                old(self).line as nat,
                false,
            ).1,
    {
        let ghost orig = *self;
        loop
            invariant
                orig == *old(self),
                self.wf(),
                self.src() == orig.src(),
                self.start == orig.start,
                orig.current <= self.current,
                skip_ws(orig.src(), orig.current as nat, orig.line as nat, false) == skip_ws(
                    self.src(),
                    self.current as nat,
                    self.line as nat,
                    false,
                ),
            decreases self.src().len() - self.current,
        {
            let c = self.peek();
            if c == ' ' || c == '\r' || c == '\t' {
                let _ = self.advance();
            } else if c == '\n' {
                let _ = self.advance();
                self.line += 1;
            } else if c == '/' {
                if self.peek_next() == '/' {
                    proof {
                        assert(skip_ws(self.src(), self.current as nat, self.line as nat, true)
                            == skip_ws(
                            self.src(),
                            (self.current + 1) as nat,
                            self.line as nat,
                            true,
                        ));
                        assert(skip_ws(
                            self.src(),
                            (self.current + 1) as nat,
                            self.line as nat,
                            true,
                        ) == skip_ws(self.src(), (self.current + 2) as nat, self.line as nat, true));
                    }
                    let ghost before = self.current;
                    while self.peek() != '\n' && !self.is_at_end()
                        invariant
                            orig == *old(self),
                            before <= self.current,
                            before < self.src().len(),
                            self.src()[before as int] == '/',
                            self.wf(),
                            self.src() == orig.src(),
                            self.start == orig.start,
                            orig.current <= self.current,
                            skip_ws(orig.src(), orig.current as nat, orig.line as nat, false)
                                == skip_ws(self.src(), self.current as nat, self.line as nat, true),
                        decreases self.src().len() - self.current,
                    {
                        let _ = self.advance();
                    }
                    proof {
                        assert(self.current > before);
                        assert(skip_ws(self.src(), self.current as nat, self.line as nat, true)
                            == skip_ws(self.src(), self.current as nat, self.line as nat, false));
                    }
                } else {
                    return ;
                }
            } else {
                return ;
            }
        }
    }

    /// Scans exactly one token: consumes leading whitespace and comments,
    /// then recognizes the token starting at the cursor, following
    /// [`spec_scan`] exactly. At the end of input an EOF token comes back,
    /// repeatably; malformed input yields an error token, never a failure.
    pub fn scan_token(&mut self) -> (t: Token)
        requires
            old(self).wf(),
        ensures
            final(self).wf(),
            final(self).src() == old(self).src(),
            final(self).current == spec_scan(
                old(self).src(),
                old(self).current as nat,
                old(self).line as nat,
            ).end,
            final(self).line == spec_scan(
                old(self).src(),
                old(self).current as nat,
                old(self).line as nat,
            ).nline,
            final(self).start == spec_scan(
                old(self).src(),
                old(self).current as nat,
                old(self).line as nat,
            ).start,
            token_from(
                old(self).src(),
                spec_scan(old(self).src(), old(self).current as nat, old(self).line as nat),
                t,
            ),
    {
        self.skip_whitespace();
        self.start = self.current;
        if self.is_at_end() {
            return self.make_token(TokenType::TOKEN_EOF);
        }
        let c = self.peek();
        if self.is_alpha(c) {
            return self.identifier();
        }
        if self.is_digit(c) {
            return self.number();
        }
        let c2 = self.advance();
        match c2 {
            '(' => self.make_token(TokenType::TOKEN_LEFT_PAREN),
            ')' => self.make_token(TokenType::TOKEN_RIGHT_PAREN),
            '{' => self.make_token(TokenType::TOKEN_LEFT_BRACE),
            '}' => self.make_token(TokenType::TOKEN_RIGHT_BRACE),
            ';' => self.make_token(TokenType::TOKEN_SEMICOLON),
            ',' => self.make_token(TokenType::TOKEN_COMMA),
            '.' => self.make_token(TokenType::TOKEN_DOT),
            '-' => self.make_token(TokenType::TOKEN_MINUS),
            '+' => self.make_token(TokenType::TOKEN_PLUS),
            '/' => self.make_token(TokenType::TOKEN_SLASH),
            '*' => self.make_token(TokenType::TOKEN_STAR),
            '"' => self.string(),
            '!' => {
                let two = self.match_char('=');
                if two {
                    self.make_token(TokenType::TOKEN_BANG_EQUAL)
                } else {
                    self.make_token(TokenType::TOKEN_BANG)
                }
            },
            '=' => {
                let two = self.match_char('=');
                if two {
                    self.make_token(TokenType::TOKEN_EQUAL_EQUAL)
                } else {
                    self.make_token(TokenType::TOKEN_EQUAL)
                }
            },
            '<' => {
                let two = self.match_char('=');
                if two {
                    self.make_token(TokenType::TOKEN_LESS_EQUAL)
                } else {
                    self.make_token(TokenType::TOKEN_LESS)
                }
            },
            '>' => {
                let two = self.match_char('=');
                if two {
                    self.make_token(TokenType::TOKEN_GREATER_EQUAL)
                } else {
                    self.make_token(TokenType::TOKEN_GREATER)
                }
            },
            _ => self.error_token("Unexpected character.", self.line),
        }
    }
}

} // verus!

