//! Turns source text into located tokens.
use vstd::prelude::*;
use vstd::string::StrSliceExecFns;
use vstd::string::StringExecFns;

verus! {

/// The kind of a token, with the text that identifiers, keywords and
/// numerals carry.
#[derive(Debug, Clone, PartialEq)]
pub enum TokenType {
    /// Represents an identifier.
    Ident(String),
    /// Represents a float, in canonical dotted form.
    FloatLiteral(String),
    /// Represents the '#' character.
    Comment,
    /// Represents an unknown character.
    Unknown(char),
    /// Represents a newline character.
    Newline,
    /// Represents the '=' character.
    Equals,
    /// Represents the '(' character.
    LeftParen,
    /// Represents the ')' character.
    RightParen,
    /// Represents the '{' character.
    LeftBrace,
    /// Represents the '}' character.
    RightBrace,
    /// Represents the '[' character.
    LeftBracket,
    /// Represents the ']' character.
    RightBracket,
    /// Represents a keyword.
    Keyword(String),
    /// Represents the ',' character.
    Comma,
    /// Represents the '+' character.
    Plus,
    /// Represents the '-' character.
    Minus,
    /// Represents the '*' character.
    Multi,
    /// Represents the '/' character.
    Div,
    /// Represents the '^' character.
    Circumflex,
}

/// The mathematical model of a [`TokenType`]: texts become character sequences.
pub enum TokenKind {
    Ident(Seq<char>),
    FloatLiteral(Seq<char>),
    Comment,
    Unknown(char),
    Newline,
    Equals,
    LeftParen,
    RightParen,
    LeftBrace,
    RightBrace,
    LeftBracket,
    RightBracket,
    Keyword(Seq<char>),
    Comma,
    Plus,
    Minus,
    Multi,
    Div,
    Circumflex,
}

impl View for TokenType {
    type V = TokenKind;

    open spec fn view(&self) -> TokenKind {
        match self {
            TokenType::Ident(s) => TokenKind::Ident(s@),
            TokenType::FloatLiteral(s) => TokenKind::FloatLiteral(s@),
            TokenType::Comment => TokenKind::Comment,
            TokenType::Unknown(c) => TokenKind::Unknown(*c),
            TokenType::Newline => TokenKind::Newline,
            TokenType::Equals => TokenKind::Equals,
            TokenType::LeftParen => TokenKind::LeftParen,
            TokenType::RightParen => TokenKind::RightParen,
            TokenType::LeftBrace => TokenKind::LeftBrace,
            TokenType::RightBrace => TokenKind::RightBrace,
            TokenType::LeftBracket => TokenKind::LeftBracket,
            TokenType::RightBracket => TokenKind::RightBracket,
            TokenType::Keyword(s) => TokenKind::Keyword(s@),
            TokenType::Comma => TokenKind::Comma,
            TokenType::Plus => TokenKind::Plus,
            TokenType::Minus => TokenKind::Minus,
            TokenType::Multi => TokenKind::Multi,
            TokenType::Div => TokenKind::Div,
            TokenType::Circumflex => TokenKind::Circumflex,
        }
    }
}

/// The location of a [`Token`] in form (file name, column, row).
#[derive(Debug, Clone)]
pub struct TokenLocation(pub String, pub u32, pub u32);

/// The model of a [`TokenLocation`].
pub struct Loc {
    pub file: Seq<char>,
    pub col: int,
    pub row: int,
}

impl View for TokenLocation {
    type V = Loc;

    open spec fn view(&self) -> Loc {
        Loc { file: self.0@, col: self.1 as int, row: self.2 as int }
    }
}

#[derive(Debug, Clone)]
pub struct Token(pub TokenType, pub TokenLocation);

/// The model of a [`Token`].
pub struct Tok {
    pub kind: TokenKind,
    pub loc: Loc,
}

impl View for Token {
    type V = Tok;

    open spec fn view(&self) -> Tok {
        Tok { kind: self.0@, loc: self.1@ }
    }
}

/// The models of a sequence of tokens.
pub open spec fn toks_view(ts: Seq<Token>) -> Seq<Tok> {
    ts.map_values(|t: Token| t@)
}

impl Token {
    pub fn exclude_loc(self) -> (r: TokenType)
        ensures
            r == self.0,
    {
        self.0
    }
}

/// What makes a scan fail.
#[derive(Debug, Clone)]
pub enum LexError {
    /// A numeral holds a second decimal point; the location is the numeral's start.
    MultiplePeriods(TokenLocation),
}

/// The model of a [`LexError`].
pub enum LexFault {
    MultiplePeriods(Loc),
}

impl View for LexError {
    type V = LexFault;

    open spec fn view(&self) -> LexFault {
        match self {
            LexError::MultiplePeriods(l) => LexFault::MultiplePeriods(l@),
        }
    }
}

// ---------------------------------------------------------------------------
// Character classes

pub open spec fn is_ascii_alpha(c: char) -> bool {
    ('a' <= c && c <= 'z') || ('A' <= c && c <= 'Z')
}

pub open spec fn is_ascii_digit(c: char) -> bool {
    '0' <= c && c <= '9'
}

/// Characters with the Unicode `White_Space` property.
pub open spec fn is_white_space(c: char) -> bool {
    ('\u{9}' <= c && c <= '\u{d}') || c == ' ' || c == '\u{85}' || c == '\u{a0}'
        || c == '\u{1680}' || ('\u{2000}' <= c && c <= '\u{200a}') || c == '\u{2028}'
        || c == '\u{2029}' || c == '\u{202f}' || c == '\u{205f}' || c == '\u{3000}'
}

pub open spec fn is_word_start(c: char) -> bool {
    is_ascii_alpha(c) || c == '_'
}

pub open spec fn is_word_char(c: char) -> bool {
    is_ascii_alpha(c) || is_ascii_digit(c) || c == '_'
}

pub open spec fn is_numeral_start(c: char) -> bool {
    c == '.' || is_ascii_digit(c)
}

pub open spec fn is_numeral_char(c: char) -> bool {
    is_ascii_digit(c) || c == '.' || c == '_'
}

fn ascii_alpha(c: char) -> (r: bool)
    ensures
        r == is_ascii_alpha(c),
{
    ('a' <= c && c <= 'z') || ('A' <= c && c <= 'Z')
}

fn ascii_digit(c: char) -> (r: bool)
    ensures
        r == is_ascii_digit(c),
{
    '0' <= c && c <= '9'
}

fn white_space(c: char) -> (r: bool)
    ensures
        r == is_white_space(c),
{
    ('\u{9}' <= c && c <= '\u{d}') || c == ' ' || c == '\u{85}' || c == '\u{a0}'
        || c == '\u{1680}' || ('\u{2000}' <= c && c <= '\u{200a}') || c == '\u{2028}'
        || c == '\u{2029}' || c == '\u{202f}' || c == '\u{205f}' || c == '\u{3000}'
}

fn word_char(c: char) -> (r: bool)
    ensures
        r == is_word_char(c),
{
    ascii_alpha(c) || ascii_digit(c) || c == '_'
}

fn numeral_char(c: char) -> (r: bool)
    ensures
        r == is_numeral_char(c),
{
    ascii_digit(c) || c == '.' || c == '_'
}


fn numeral_start(c: char) -> (r: bool)
    ensures
        r == is_numeral_start(c),
{
    c == '.' || ascii_digit(c)
}

// ---------------------------------------------------------------------------
// The scanner, as a function on character sequences

/// The end of the run of identifier characters that starts at `k`.
pub open spec fn word_end(s: Seq<char>, k: int) -> int
    decreases s.len() - k,
{
    if 0 <= k < s.len() && is_word_char(s[k]) {
        word_end(s, k + 1)
    } else {
        k
    }
}

/// The end of the run of numeral characters (digits, `.` and `_`) that starts at `k`.
pub open spec fn numeral_end(s: Seq<char>, k: int) -> int
    decreases s.len() - k,
{
    if 0 <= k < s.len() && is_numeral_char(s[k]) {
        numeral_end(s, k + 1)
    } else {
        k
    }
}

pub open spec fn count_dots(s: Seq<char>) -> nat
    decreases s.len(),
{
    if s.len() == 0 {
        0
    } else {
        count_dots(s.drop_last()) + if s.last() == '.' { 1nat } else { 0nat }
    }
}

/// The characters of `s` without the `_` digit-group separators.
pub open spec fn strip_separators(s: Seq<char>) -> Seq<char>
    decreases s.len(),
{
    if s.len() == 0 {
        Seq::empty()
    } else if s.last() == '_' {
        strip_separators(s.drop_last())
    } else {
        strip_separators(s.drop_last()).push(s.last())
    }
}

/// A numeral without separators, with a leading `.` written `0.`.
pub open spec fn numeral_digits(raw: Seq<char>) -> Seq<char> {
    if raw.len() > 0 && raw[0] == '.' {
        seq!['0'] + strip_separators(raw)
    } else {
        strip_separators(raw)
    }
}

/// The canonical text of a numeral: separators dropped, a leading `.` written
/// `0.`, `.0` appended where there is no decimal point and `0` where the
/// point comes last.
pub open spec fn normalize_numeral(raw: Seq<char>) -> Seq<char> {
    let d = numeral_digits(raw);
    if count_dots(raw) == 0 {
        d + seq!['.', '0']
    } else if d.last() == '.' {
        d.push('0')
    } else {
        d
    }
}

pub open spec fn is_keyword(w: Seq<char>) -> bool {
    w == seq!['f', 'r', 'o', 'm'] || w == seq!['t', 'o'] || w == seq!['a', 's']
        || w == seq!['w', 'i', 't', 'h'] || w == seq!['s', 't', 'e', 'p']
        || w == seq!['f', 'o', 'r'] || w == seq!['i', 'n']
}

pub open spec fn word_kind(w: Seq<char>) -> TokenKind {
    if is_keyword(w) {
        TokenKind::Keyword(w)
    } else {
        TokenKind::Ident(w)
    }
}

/// The kind of a one-character token; `Unknown` for a character of no other rule.
pub open spec fn symbol_kind(c: char) -> TokenKind {
    if c == '=' {
        TokenKind::Equals
    } else if c == '+' {
        TokenKind::Plus
    } else if c == '-' {
        TokenKind::Minus
    } else if c == '*' {
        TokenKind::Multi
    } else if c == ',' {
        TokenKind::Comma
    } else if c == '/' {
        TokenKind::Div
    } else if c == '#' {
        TokenKind::Comment
    } else if c == '(' {
        TokenKind::LeftParen
    } else if c == ')' {
        TokenKind::RightParen
    } else if c == '{' {
        TokenKind::LeftBrace
    } else if c == '}' {
        TokenKind::RightBrace
    } else if c == '[' {
        TokenKind::LeftBracket
    } else if c == ']' {
        TokenKind::RightBracket
    } else if c == '^' {
        TokenKind::Circumflex
    } else {
        TokenKind::Unknown(c)
    }
}

/// `t` in front of the tokens of `r`.
pub open spec fn prepend(t: Tok, r: Result<Seq<Tok>, LexFault>) -> Result<Seq<Tok>, LexFault> {
    match r {
        Ok(ts) => Ok(seq![t] + ts),
        Err(e) => Err(e),
    }
}

/// Scans `s` from index `k`, at column `col` of row `row`.
pub open spec fn lex_from(s: Seq<char>, file: Seq<char>, k: int, col: int, row: int) -> Result<
    Seq<Tok>,
    LexFault,
>
    decreases s.len() - k,
    via lex_from_decreases
{
    if k < 0 || k >= s.len() {
        Ok(Seq::empty())
    } else {
        let c = s[k];
        let here = Loc { file, col, row };
        if c == '\n' {
            prepend(Tok { kind: TokenKind::Newline, loc: here }, lex_from(s, file, k + 1, 0, row + 1))
        } else if is_white_space(c) {
            lex_from(s, file, k + 1, col + 1, row)
        } else if is_word_start(c) {
            let j = word_end(s, k + 1);
            prepend(
                Tok { kind: word_kind(s.subrange(k, j)), loc: here },
                lex_from(s, file, j, col + (j - k), row),
            )
        } else if is_numeral_start(c) {
            let j = numeral_end(s, k + 1);
            let raw = s.subrange(k, j);
            if count_dots(raw) > 1 {
                Err(LexFault::MultiplePeriods(here))
            } else {
                prepend(
                    Tok { kind: TokenKind::FloatLiteral(normalize_numeral(raw)), loc: here },
                    lex_from(s, file, j, col + (j - k), row),
                )
            }
        } else {
            prepend(Tok { kind: symbol_kind(c), loc: here }, lex_from(s, file, k + 1, col + 1, row))
        }
    }
}

#[via_fn]
proof fn lex_from_decreases(s: Seq<char>, file: Seq<char>, k: int, col: int, row: int) {
    if 0 <= k < s.len() {
        lemma_word_end(s, k + 1);
        lemma_numeral_end(s, k + 1);
    }
}

/// The tokens of source text `s` read from `file`: columns and rows count from 1.
pub open spec fn lex(s: Seq<char>, file: Seq<char>) -> Result<Seq<Tok>, LexFault> {
    lex_from(s, file, 0, 1, 1)
}

pub proof fn lemma_word_end(s: Seq<char>, k: int)
    requires
        0 <= k <= s.len(),
    ensures
        k <= word_end(s, k) <= s.len(),
        forall|i: int| k <= i < word_end(s, k) ==> is_word_char(#[trigger] s[i]),
        word_end(s, k) == s.len() || !is_word_char(s[word_end(s, k)]),
    decreases s.len() - k,
{
    if k < s.len() && is_word_char(s[k]) {
        lemma_word_end(s, k + 1);
    }
}

pub proof fn lemma_numeral_end(s: Seq<char>, k: int)
    requires
        0 <= k <= s.len(),
    ensures
        k <= numeral_end(s, k) <= s.len(),
        forall|i: int| k <= i < numeral_end(s, k) ==> is_numeral_char(#[trigger] s[i]),
        numeral_end(s, k) == s.len() || !is_numeral_char(s[numeral_end(s, k)]),
    decreases s.len() - k,
{
    if k < s.len() && is_numeral_char(s[k]) {
        lemma_numeral_end(s, k + 1);
    }
}

/// `p` in front of the tokens of `r`.
pub open spec fn join(p: Seq<Tok>, r: Result<Seq<Tok>, LexFault>) -> Result<Seq<Tok>, LexFault> {
    match r {
        Ok(ts) => Ok(p + ts),
        Err(e) => Err(e),
    }
}

proof fn lemma_join_prepend(p: Seq<Tok>, t: Tok, r: Result<Seq<Tok>, LexFault>)
    ensures
        join(p, prepend(t, r)) == join(p.push(t), r),
{
    if let Ok(ts) = r {
        assert(p + (seq![t] + ts) =~= p.push(t) + ts);
    }
}

proof fn lemma_strip_push(raw: Seq<char>, c: char)
    ensures
        strip_separators(raw.push(c)) == if c == '_' {
            strip_separators(raw)
        } else {
            strip_separators(raw).push(c)
        },
        count_dots(raw.push(c)) == count_dots(raw) + if c == '.' { 1nat } else { 0nat },
{
    assert(raw.push(c).drop_last() =~= raw);
}

proof fn lemma_count_dots_prefix(s: Seq<char>, a: int, b: int, c: int)
    requires
        0 <= a <= b <= c <= s.len(),
    ensures
        count_dots(s.subrange(a, b)) <= count_dots(s.subrange(a, c)),
    decreases c - b,
{
    if b < c {
        lemma_count_dots_prefix(s, a, b, c - 1);
        assert(s.subrange(a, c).drop_last() =~= s.subrange(a, c - 1));
    }
}

/// The models of the outcome of a scan.
pub open spec fn lex_outcome(r: Result<Vec<Token>, LexError>) -> Result<Seq<Tok>, LexFault> {
    match r {
        Ok(ts) => Ok(toks_view(ts@)),
        Err(e) => Err(e@),
    }
}

/// Scans source text into tokens.
pub struct Lexer {
    file_path: String,
    content: String,
}

impl View for Lexer {
    /// The file name and the characters of the source text.
    type V = (Seq<char>, Seq<char>);

    closed spec fn view(&self) -> (Seq<char>, Seq<char>) {
        (self.file_path@, self.content@)
    }
}

fn keyword(w: &String) -> (r: bool)
    ensures
        r == is_keyword(w@),
{
    proof {
        reveal_strlit("from");
        reveal_strlit("to");
        reveal_strlit("as");
        reveal_strlit("with");
        reveal_strlit("step");
        reveal_strlit("for");
        reveal_strlit("in");
        assert("from"@ =~= seq!['f', 'r', 'o', 'm']);
        assert("to"@ =~= seq!['t', 'o']);
        assert("as"@ =~= seq!['a', 's']);
        assert("with"@ =~= seq!['w', 'i', 't', 'h']);
        assert("step"@ =~= seq!['s', 't', 'e', 'p']);
        assert("for"@ =~= seq!['f', 'o', 'r']);
        assert("in"@ =~= seq!['i', 'n']);
    }
    *w == String::from_str("from") || *w == String::from_str("to") || *w == String::from_str("as")
        || *w == String::from_str("with") || *w == String::from_str("step")
        || *w == String::from_str("for") || *w == String::from_str("in")
}

fn symbol_type(c: char) -> (r: TokenType)
    ensures
        r@ == symbol_kind(c),
{
    if c == '=' {
        TokenType::Equals
    } else if c == '+' {
        TokenType::Plus
    } else if c == '-' {
        TokenType::Minus
    } else if c == '*' {
        TokenType::Multi
    } else if c == ',' {
        TokenType::Comma
    } else if c == '/' {
        TokenType::Div
    } else if c == '#' {
        TokenType::Comment
    } else if c == '(' {
        TokenType::LeftParen
    } else if c == ')' {
        TokenType::RightParen
    } else if c == '{' {
        TokenType::LeftBrace
    } else if c == '}' {
        TokenType::RightBrace
    } else if c == '[' {
        TokenType::LeftBracket
    } else if c == ']' {
        TokenType::RightBracket
    } else if c == '^' {
        TokenType::Circumflex
    } else {
        TokenType::Unknown(c)
    }
}

impl Lexer {
    pub fn new(file_path: String, content: String) -> (r: Self)
        ensures
            r@ == (file_path@, content@),
    {
        Self { file_path, content }
    }

    fn location(&self, col: u32, row: u32) -> (r: TokenLocation)
        ensures
            r@ == (Loc { file: self@.0, col: col as int, row: row as int }),
    {
        TokenLocation(self.file_path.clone(), col, row)
    }

    /// Scans the identifier or keyword that starts at `start`; returns it and its end.
    fn parse_text(&self, start: usize) -> (r: (TokenType, usize))
        requires
            start < self@.1.len(),
            self@.1.len() <= usize::MAX,
            is_word_start(self@.1[start as int]),
        ensures
            r.1 == word_end(self@.1, start + 1),
            r.0@ == word_kind(self@.1.subrange(start as int, r.1 as int)),
    {
        let ghost s = self@.1;
        let mut k = start + 1;
        while k < self.content.as_str().unicode_len() && word_char(self.content.as_str().get_char(k))
            invariant
                s == self@.1,
                s.len() <= usize::MAX,
                start < k <= s.len(),
                word_end(s, start + 1) == word_end(s, k as int),
            decreases s.len() - k,
        {
            k = k + 1;
        }
        let text = String::from_str(self.content.as_str().substring_char(start, k));
        if keyword(&text) {
            (TokenType::Keyword(text), k)
        } else {
            (TokenType::Ident(text), k)
        }
    }

    /// Scans the numeral that starts at `start`; returns its canonical text and
    /// its end, or `None` where it holds a second decimal point.
    fn parse_float(&self, start: usize) -> (r: Option<(String, usize)>)
        requires
            start < self@.1.len(),
            self@.1.len() <= usize::MAX,
            is_numeral_start(self@.1[start as int]),
        ensures
            ({
                let j = numeral_end(self@.1, start + 1);
                let raw = self@.1.subrange(start as int, j);
                match r {
                    Some((text, end)) => count_dots(raw) <= 1 && end == j && text@
                        == normalize_numeral(raw),
                    None => count_dots(raw) > 1,
                }
            }),
    {
        let ghost s = self@.1;
        let n = self.content.as_str().unicode_len();
        let first = self.content.as_str().get_char(start);
        let mut period = first == '.';
        proof {
            reveal_strlit("0.");
            reveal_strlit(".0");
            lemma_numeral_end(s, start + 1);
            assert(s.subrange(start as int, start + 1) =~= Seq::<char>::empty().push(first));
            lemma_strip_push(Seq::<char>::empty(), first);
            assert(strip_separators(Seq::<char>::empty()) == Seq::<char>::empty());
            assert(count_dots(Seq::<char>::empty()) == 0);
            assert("0."@ =~= seq!['0', '.']);
            assert(".0"@ =~= seq!['.', '0']);
            reveal_strlit("0");
            assert("0"@ =~= seq!['0']);
        }
        let mut buf = if period {
            String::from_str("0.")
        } else {
            String::from_str(self.content.as_str().substring_char(start, start + 1))
        };
        proof {
            assert(buf@ =~= numeral_digits(s.subrange(start as int, start + 1)));
        }
        let mut k = start + 1;
        let mut ends_with_dot = period;
        while k < n && numeral_char(self.content.as_str().get_char(k))
            invariant
                s == self@.1,
                n == s.len(),
                s.len() <= usize::MAX,
                start < k <= numeral_end(s, start + 1) <= s.len(),
                numeral_end(s, start + 1) == numeral_end(s, k as int),
                s[start as int] == first,
                period == (count_dots(s.subrange(start as int, k as int)) > 0),
                count_dots(s.subrange(start as int, k as int)) <= 1,
                buf@ == numeral_digits(s.subrange(start as int, k as int)),
                buf@.len() > 0,
                ends_with_dot == (buf@.last() == '.'),
            decreases s.len() - k,
        {
            let c = self.content.as_str().get_char(k);
            proof {
                lemma_strip_push(s.subrange(start as int, k as int), c);
                lemma_numeral_end(s, k + 1);
                assert(s.subrange(start as int, k + 1) =~= s.subrange(start as int, k as int).push(c));
            }
            if c == '.' {
                if period {
                    proof {
                        lemma_numeral_end(s, k + 1);
                        lemma_count_dots_prefix(s, start as int, k + 1, numeral_end(s, start + 1));
                    }
                    return None;
                }
                period = true;
            }
            if c != '_' {
                ends_with_dot = c == '.';
                buf.append(self.content.as_str().substring_char(k, k + 1));
                proof {
                    assert(s.subrange(k as int, k + 1) =~= seq![c]);
                    if first == '.' {
                        assert(seq!['0'] + strip_separators(s.subrange(start as int, k as int)).push(c)
                            =~= (seq!['0'] + strip_separators(s.subrange(start as int, k as int))).push(c));
                    }
                }
            }
            k = k + 1;
        }
        proof {
            assert(numeral_end(s, k as int) == k);
        }
        if !period {
            buf.append(".0");
        } else if ends_with_dot {
            buf.append("0");
        }
        Some((buf, k))
    }

    /// Scans the whole source text into tokens, or fails on a numeral with two
    /// decimal points.
    pub fn tokenize(&self) -> (r: Result<Vec<Token>, LexError>)
        requires
            self@.1.len() < u32::MAX,
        ensures
            lex_outcome(r) == lex(self@.1, self@.0),
    {
        let ghost s = self@.1;
        let ghost file = self@.0;
        let n = self.content.as_str().unicode_len();
        let mut tokens: Vec<Token> = Vec::new();
        let mut k: usize = 0;
        let mut col: u32 = 1;
        let mut row: u32 = 1;
        while k < n
            invariant
                s == self@.1,
                file == self@.0,
                n == s.len(),
                s.len() < u32::MAX,
                k <= n,
                col <= k + 1,
                1 <= row <= k + 1,
                lex(s, file) == join(toks_view(tokens@), lex_from(s, file, k as int, col as int, row as int)),
            decreases n - k,
        {
            let c = self.content.as_str().get_char(k);
            let ghost before = tokens@;
            if c == '\n' {
                let t = Token(TokenType::Newline, self.location(col, row));
                tokens.push(t);
                proof {
                    lemma_join_prepend(toks_view(before), t@, lex_from(s, file, k + 1, 0, row + 1));
                    assert(toks_view(tokens@) =~= toks_view(before).push(t@));
                }
                row = row + 1;
                col = 0;
                k = k + 1;
            } else if white_space(c) {
                k = k + 1;
                col = col + 1;
            } else if ascii_alpha(c) || c == '_' {
                let (kind, end) = self.parse_text(k);
                let t = Token(kind, self.location(col, row));
                tokens.push(t);
                proof {
                    lemma_word_end(s, k + 1);
                    lemma_join_prepend(
                        toks_view(before),
                        t@,
                        lex_from(s, file, end as int, col + (end - k), row as int),
                    );
                    assert(toks_view(tokens@) =~= toks_view(before).push(t@));
                }
                col = col + (end - k) as u32;
                k = end;
            } else if numeral_start(c) {
                match self.parse_float(k) {
                    None => {
                        return Err(LexError::MultiplePeriods(self.location(col, row)));
                    },
                    Some((text, end)) => {
                        let t = Token(TokenType::FloatLiteral(text), self.location(col, row));
                        tokens.push(t);
                        proof {
                            lemma_numeral_end(s, k + 1);
                            lemma_join_prepend(
                                toks_view(before),
                                t@,
                                lex_from(s, file, end as int, col + (end - k), row as int),
                            );
                            assert(toks_view(tokens@) =~= toks_view(before).push(t@));
                        }
                        col = col + (end - k) as u32;
                        k = end;
                    },
                }
            } else {
                let t = Token(symbol_type(c), self.location(col, row));
                tokens.push(t);
                proof {
                    lemma_join_prepend(toks_view(before), t@, lex_from(s, file, k + 1, col + 1, row as int));
                    assert(toks_view(tokens@) =~= toks_view(before).push(t@));
                }
                k = k + 1;
                col = col + 1;
            }
        }
        proof {
            assert(toks_view(tokens@) + Seq::<Tok>::empty() =~= toks_view(tokens@));
        }
        Ok(tokens)
    }
}

} // verus!
