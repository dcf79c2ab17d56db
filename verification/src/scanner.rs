use vstd::prelude::*;

use vstd::string::StrSliceExecFns;

verus! {

/// The closed set of token classifications: punctuation, one- and
/// two-character operators, literals, keywords, end-of-input, and the error
/// kind that carries a message in place of a lexeme.
#[derive(Debug, PartialEq, Eq, Structural, Clone, Copy)]
pub enum TokenType {
    LeftParen,
    RightParen,
    LeftBrace,
    RightBrace,
    Comma,
    Dot,
    Minus,
    Plus,
    Semicolon,
    Slash,
    Star,
    Bang,
    BangEqual,
    Equal,
    EqualEqual,
    Greater,
    GreaterEqual,
    Less,
    LessEqual,
    Identifier,
    Str,
    Number,
    And,
    Class,
    Else,
    False,
    Fun,
    For,
    If,
    Nil,
    Or,
    Print,
    Return,
    Super,
    This,
    True,
    Var,
    While,
    Eof,
    Break,
    Error,
    String,
}

/// A decimal digit.
pub open spec fn is_digit(c: char) -> bool {
    48 <= c as u32 <= 57
}

/// Whether a character is a letter. Stated abstractly: the decision is made
/// by the standard library's Unicode tables, on the character alone.
pub uninterp spec fn alpha_char(c: char) -> bool;

/// Relies on char::is_alphabetic: whether a character is a letter, a function
/// of the character alone. A newline is not a letter.
pub assume_specification[ char::is_alphabetic ](c: char) -> (r: bool)
    ensures
        r == alpha_char(c),
        c == '\n' ==> !r,
;

/// A character that may continue an identifier.
pub open spec fn ident_char(c: char) -> bool {
    alpha_char(c) || c == '_' || is_digit(c)
}

fn is_digit_char(c: char) -> (r: bool)
    ensures
        r == is_digit(c),
{
    let u = c as u32;
    48 <= u && u <= 57
}

/// How many newline characters a sequence holds.
pub open spec fn nl_count(s: Seq<char>) -> int
    decreases s.len(),
{
    if s.len() == 0 {
        0
    } else {
        nl_count(s.drop_last()) + if s.last() == '\n' {
            1int
        } else {
            0int
        }
    }
}

pub proof fn lemma_nl_take_step(s: Seq<char>, i: int)
    requires
        0 <= i < s.len(),
    ensures
        nl_count(s.take(i + 1)) == nl_count(s.take(i)) + if s[i] == '\n' {
            1int
        } else {
            0int
        },
{
    assert(s.take(i + 1).drop_last() =~= s.take(i));
    assert(s.take(i + 1).last() == s[i]);
}

/// Where scanning resumes after whitespace, newlines and line comments,
/// starting at position `i`; `in_comment` means a `//` comment is open and
/// runs to the next newline or to end-of-input.
pub open spec fn skip_ws_end(src: Seq<char>, i: int, in_comment: bool) -> int
    decreases src.len() - i,
{
    if !(0 <= i < src.len()) {
        i
    } else if in_comment {
        if src[i] == '\n' {
            skip_ws_end(src, i + 1, false)
        } else {
            skip_ws_end(src, i + 1, true)
        }
    } else {
        let c = src[i];
        if c == ' ' || c == '\t' || c == '\r' || c == '\n' {
            skip_ws_end(src, i + 1, false)
        } else if c == '/' && i + 1 < src.len() && src[i + 1] == '/' {
            skip_ws_end(src, i + 1, true)
        } else {
            i
        }
    }
}

/// Skipping is idempotent: the position it stops at is a stopping point.
pub proof fn lemma_skip_ws_idem(src: Seq<char>, i: int, in_comment: bool)
    requires
        0 <= i <= src.len(),
    ensures
        skip_ws_end(src, skip_ws_end(src, i, in_comment), false) == skip_ws_end(
            src,
            i,
            in_comment,
        ),
    decreases src.len() - i,
{
    if i < src.len() {
        if in_comment {
            lemma_skip_ws_idem(src, i + 1, src[i] != '\n');
        } else {
            let c = src[i];
            if c == ' ' || c == '\t' || c == '\r' || c == '\n' {
                lemma_skip_ws_idem(src, i + 1, false);
            } else if c == '/' && i + 1 < src.len() && src[i + 1] == '/' {
                lemma_skip_ws_idem(src, i + 1, true);
            }
        }
    }
}

pub proof fn lemma_skip_ws_end_bounds(src: Seq<char>, i: int, in_comment: bool)
    requires
        0 <= i <= src.len(),
    ensures
        i <= skip_ws_end(src, i, in_comment) <= src.len(),
    decreases src.len() - i,
{
    if i < src.len() {
        if in_comment {
            lemma_skip_ws_end_bounds(src, i + 1, src[i] != '\n');
        } else {
            let c = src[i];
            if c == ' ' || c == '\t' || c == '\r' || c == '\n' {
                lemma_skip_ws_end_bounds(src, i + 1, false);
            } else if c == '/' && i + 1 < src.len() && src[i + 1] == '/' {
                lemma_skip_ws_end_bounds(src, i + 1, true);
            }
        }
    }
}

/// The end of a maximal digit run beginning at `i`.
pub open spec fn digits_end(src: Seq<char>, i: int) -> int
    decreases src.len() - i,
{
    if 0 <= i < src.len() && is_digit(src[i]) {
        digits_end(src, i + 1)
    } else {
        i
    }
}

pub proof fn lemma_digits_end_bounds(src: Seq<char>, i: int)
    requires
        0 <= i <= src.len(),
    ensures
        i <= digits_end(src, i) <= src.len(),
    decreases src.len() - i,
{
    if i < src.len() && is_digit(src[i]) {
        lemma_digits_end_bounds(src, i + 1);
    }
}

/// The end of a maximal identifier run beginning at `i`.
pub open spec fn ident_end(src: Seq<char>, i: int) -> int
    decreases src.len() - i,
{
    if 0 <= i < src.len() && ident_char(src[i]) {
        ident_end(src, i + 1)
    } else {
        i
    }
}

pub proof fn lemma_ident_end_bounds(src: Seq<char>, i: int)
    requires
        0 <= i <= src.len(),
    ensures
        i <= ident_end(src, i) <= src.len(),
    decreases src.len() - i,
{
    if i < src.len() && ident_char(src[i]) {
        lemma_ident_end_bounds(src, i + 1);
    }
}

/// The position of the first closing quote at or after `i`, or end-of-input
/// when the literal is unterminated.
pub open spec fn string_close(src: Seq<char>, i: int) -> int
    decreases src.len() - i,
{
    if 0 <= i < src.len() {
        if src[i] == '"' {
            i
        } else {
            string_close(src, i + 1)
        }
    } else {
        i
    }
}

pub proof fn lemma_string_close_bounds(src: Seq<char>, i: int)
    requires
        0 <= i <= src.len(),
    ensures
        i <= string_close(src, i) <= src.len(),
        string_close(src, i) < src.len() ==> src[string_close(src, i)] == '"',
        forall|k: int| i <= k < string_close(src, i) ==> src[k] != '"',
    decreases src.len() - i,
{
    if i < src.len() && src[i] != '"' {
        lemma_string_close_bounds(src, i + 1);
    }
}

/// The kind of a single-character punctuation token, if the character opens
/// one.
pub open spec fn punct_kind(c: char) -> Option<TokenType> {
    if c == '(' {
        Some(TokenType::LeftParen)
    } else if c == ')' {
        Some(TokenType::RightParen)
    } else if c == '{' {
        Some(TokenType::LeftBrace)
    } else if c == '}' {
        Some(TokenType::RightBrace)
    } else if c == ';' {
        Some(TokenType::Semicolon)
    } else if c == ',' {
        Some(TokenType::Comma)
    } else if c == '.' {
        Some(TokenType::Dot)
    } else if c == '-' {
        Some(TokenType::Minus)
    } else if c == '+' {
        Some(TokenType::Plus)
    } else if c == '/' {
        Some(TokenType::Slash)
    } else if c == '*' {
        Some(TokenType::Star)
    } else {
        None
    }
}

/// The one- and two-character kinds of the four operators that probe one
/// character ahead for `=`.
pub open spec fn lookahead_kinds(c: char) -> Option<(TokenType, TokenType)> {
    if c == '!' {
        Some((TokenType::Bang, TokenType::BangEqual))
    } else if c == '=' {
        Some((TokenType::Equal, TokenType::EqualEqual))
    } else if c == '<' {
        Some((TokenType::Less, TokenType::LessEqual))
    } else if c == '>' {
        Some((TokenType::Greater, TokenType::GreaterEqual))
    } else {
        None
    }
}

/// The keyword kind of an identifier lexeme: a keyword only on exact,
/// full-length equality with one of the sixteen keywords.
pub open spec fn keyword_kind(lex: Seq<char>) -> TokenType {
    if lex == seq!['a', 'n', 'd'] {
        TokenType::And
    } else if lex == seq!['c', 'l', 'a', 's', 's'] {
        TokenType::Class
    } else if lex == seq!['e', 'l', 's', 'e'] {
        TokenType::Else
    } else if lex == seq!['f', 'a', 'l', 's', 'e'] {
        TokenType::False
    } else if lex == seq!['f', 'o', 'r'] {
        TokenType::For
    } else if lex == seq!['f', 'u', 'n'] {
        TokenType::Fun
    } else if lex == seq!['i', 'f'] {
        TokenType::If
    } else if lex == seq!['n', 'i', 'l'] {
        TokenType::Nil
    } else if lex == seq!['o', 'r'] {
        TokenType::Or
    } else if lex == seq!['p', 'r', 'i', 'n', 't'] {
        TokenType::Print
    } else if lex == seq!['r', 'e', 't', 'u', 'r', 'n'] {
        TokenType::Return
    } else if lex == seq!['s', 'u', 'p', 'e', 'r'] {
        TokenType::Super
    } else if lex == seq!['t', 'h', 'i', 's'] {
        TokenType::This
    } else if lex == seq!['t', 'r', 'u', 'e'] {
        TokenType::True
    } else if lex == seq!['v', 'a', 'r'] {
        TokenType::Var
    } else if lex == seq!['w', 'h', 'i', 'l', 'e'] {
        TokenType::While
    } else {
        TokenType::Identifier
    }
}

/// The end of a numeric literal beginning at the digit at `j`: a maximal
/// digit run, then a dot and a further run only when a digit follows the dot.
pub open spec fn number_end(src: Seq<char>, j: int) -> int {
    let d = digits_end(src, j);
    if d < src.len() && src[d] == '.' && d + 1 < src.len() && is_digit(src[d + 1]) {
        digits_end(src, d + 1)
    } else {
        d
    }
}

/// Where the token that starts at `j` ends. `j` is expected to be the result
/// of `skip_ws_end`, so a slash here never opens a comment.
pub open spec fn token_end_at(src: Seq<char>, j: int) -> int {
    if !(0 <= j < src.len()) {
        j
    } else {
        let c = src[j];
        if punct_kind(c) is Some {
            j + 1
        } else if lookahead_kinds(c) is Some {
            if j + 1 < src.len() && src[j + 1] == '=' {
                j + 2
            } else {
                j + 1
            }
        } else if c == '"' {
            let q = string_close(src, j + 1);
            if q < src.len() {
                q + 1
            } else {
                q
            }
        } else if is_digit(c) {
            number_end(src, j)
        } else if alpha_char(c) || c == '_' {
            ident_end(src, j + 1)
        } else {
            j + 1
        }
    }
}

/// The kind of the token that starts at `j`.
pub open spec fn token_kind_at(src: Seq<char>, j: int) -> TokenType {
    if !(0 <= j < src.len()) {
        TokenType::Eof
    } else {
        let c = src[j];
        if punct_kind(c) is Some {
            punct_kind(c).unwrap()
        } else if lookahead_kinds(c) is Some {
            if j + 1 < src.len() && src[j + 1] == '=' {
                lookahead_kinds(c).unwrap().1
            } else {
                lookahead_kinds(c).unwrap().0
            }
        } else if c == '"' {
            if string_close(src, j + 1) < src.len() {
                TokenType::String
            } else {
                TokenType::Error
            }
        } else if is_digit(c) {
            TokenType::Number
        } else if alpha_char(c) || c == '_' {
            keyword_kind(src.subrange(j, ident_end(src, j + 1)))
        } else {
            TokenType::Error
        }
    }
}

/// Every token begun inside the source spans at least one character and
/// stays within it.
pub proof fn lemma_token_end_bounds(src: Seq<char>, j: int)
    requires
        0 <= j < src.len(),
    ensures
        j < token_end_at(src, j) <= src.len(),
{
    let c = src[j];
    lemma_string_close_bounds(src, j + 1);
    lemma_ident_end_bounds(src, j + 1);
    lemma_digits_end_bounds(src, j);
    if is_digit(c) {
        let d = digits_end(src, j);
        lemma_digits_end_bounds(src, j + 1);
        if d < src.len() && src[d] == '.' && d + 1 < src.len() && is_digit(src[d + 1]) {
            lemma_digits_end_bounds(src, d + 1);
        }
    }
}

/// The lexeme of the token that starts at `j`: the spanned characters, or the
/// diagnostic message for an error token.
pub open spec fn token_lexeme_at(src: Seq<char>, j: int) -> Seq<char> {
    if token_kind_at(src, j) == TokenType::Error {
        if 0 <= j < src.len() && src[j] == '"' {
            "Unterminated string."@
        } else {
            "Unexpected character."@
        }
    } else {
        src.subrange(j, token_end_at(src, j))
    }
}

/// For a source that is one single-character punctuation mark, scanning
/// yields exactly one token, of the matching kind, spanning the whole
/// input; the scan after it yields end-of-input.
pub proof fn lemma_single_punct_scans_whole(c: char)
    requires
        punct_kind(c) is Some,
    ensures
        skip_ws_end(seq![c], 0, false) == 0,
        token_kind_at(seq![c], 0) == punct_kind(c).unwrap(),
        token_end_at(seq![c], 0) == 1,
        token_lexeme_at(seq![c], 0) == seq![c],
        token_kind_at(seq![c], 1) == TokenType::Eof,
{
    let src = seq![c];
    assert(token_lexeme_at(src, 0) =~= src);
}

/// For a two-character operator source (`==`, `!=`, `<=`, `>=`), scanning
/// yields one token of the combined kind spanning both characters, never
/// two single-character tokens; the scan after it yields end-of-input.
pub proof fn lemma_two_char_operator(c: char)
    requires
        lookahead_kinds(c) is Some,
    ensures
        skip_ws_end(seq![c, '='], 0, false) == 0,
        token_kind_at(seq![c, '='], 0) == lookahead_kinds(c).unwrap().1,
        token_end_at(seq![c, '='], 0) == 2,
        token_lexeme_at(seq![c, '='], 0) == seq![c, '='],
        token_kind_at(seq![c, '='], 2) == TokenType::Eof,
{
    let src = seq![c, '='];
    assert(token_lexeme_at(src, 0) =~= src);
}

/// A keyword that is a strict prefix of a longer identifier lexeme does not
/// classify it: keyword recognition demands exact, full-length equality, so
/// such a lexeme stays a plain identifier.
pub proof fn lemma_keyword_strict_prefix(lex: Seq<char>, kw: Seq<char>)
    requires
        keyword_kind(kw) != TokenType::Identifier,
        kw.len() < lex.len(),
        lex.take(kw.len() as int) == kw,
    ensures
        keyword_kind(lex) == TokenType::Identifier,
{
    if keyword_kind(lex) != TokenType::Identifier {
        // both lex and kw are keywords, and every keyword is at least two
        // characters long
        assert(kw.len() >= 2);
        // prefix agreement carries the first two characters over
        assert(lex.take(kw.len() as int)[0] == lex[0]);
        assert(lex.take(kw.len() as int)[1] == lex[1]);
        // distinct keywords always differ within their first two
        // characters, so lex and kw would be the same keyword — yet their
        // lengths differ
        assert(false);
    }
}

/// Every newline consumed moves the line counter with it: a token scanned
/// with the counter in step with the cursor — as a fresh scanner starts —
/// reports the line that counts one plus every newline consumed up to and
/// including the token's end, newlines inside multi-line string literals
/// included.
pub proof fn lemma_line_counts_newlines(src: Seq<char>, cur: int, line: int)
    requires
        0 <= cur <= src.len(),
        line == 1 + nl_count(src.take(cur)),
    ensures
        ({
            let end = token_end_at(src, skip_ws_end(src, cur, false));
            line + nl_count(src.take(end)) - nl_count(src.take(cur)) == 1 + nl_count(
                src.take(end),
            )
        }),
{
}

/// A string literal is lexed to an error token exactly when no closing
/// quote comes before end-of-input: an unterminated literal yields the
/// unterminated-string error, and a well-formed literal never does.
pub proof fn lemma_string_termination(src: Seq<char>, j: int)
    requires
        0 <= j < src.len(),
        src[j] == '"',
    ensures
        token_kind_at(src, j) == TokenType::String <==> exists|k: int|
            j < k < src.len() && #[trigger] src[k] == '"',
        token_kind_at(src, j) == TokenType::Error <==> !(exists|k: int|
            j < k < src.len() && #[trigger] src[k] == '"'),
        token_kind_at(src, j) == TokenType::Error ==> token_lexeme_at(src, j)
            == "Unterminated string."@,
{
    lemma_string_close_bounds(src, j + 1);
    let q = string_close(src, j + 1);
    if q < src.len() {
        assert(j < q < src.len() && src[q] == '"');
    } else {
        assert forall|k: int| j < k < src.len() implies #[trigger] src[k] != '"' by {
            assert(j + 1 <= k < q);
        }
    }
}

/// A classified, positioned fragment of source text. An error token carries
/// its diagnostic message in place of the lexeme.
#[derive(Debug, PartialEq, Eq)]
pub struct Token {
    pub type_: TokenType,
    pub lexeme: String,
    pub line: usize,
}

impl Token {
    pub fn is_err(&self) -> (r: bool)
        ensures
            r == (self.type_ == TokenType::Error),
    {
        self.type_ == TokenType::Error
    }

    pub fn message(&self) -> (r: String)
        ensures
            r@ == self.lexeme@,
    {
        self.lexeme.clone()
    }
}

/// Relies on String::push: appends one character at the end.
#[verifier::external_body]
fn push_char(s: &mut String, c: char)
    ensures
        final(s)@ == old(s)@.push(c),
{
    s.push(c);
}

/// Whether the `length` characters of `s` from `start` on exist and agree
/// with `p`, as far as `p` reaches.
pub open spec fn spec_compare(s: Seq<char>, p: Seq<char>, start: int, length: int) -> bool {
    &&& start + length <= s.len()
    &&& forall|k: int| 0 <= k < length && k < p.len() ==> s[start + k] == p[k]
}

/// Character-wise comparison of a slice of the scanned text against an
/// expected fragment.
pub fn compare(original: &Vec<char>, postfix: &str, start: usize, length: usize) -> (r: bool)
    requires
        start + length <= usize::MAX,
    ensures
        r == spec_compare(original@, postfix@, start as int, length as int),
{
    if start + length > original.len() {
        return false;
    }
    let plen = postfix.unicode_len();
    let mut eq = true;
    let mut i: usize = 0;
    while i < length && i < plen
        invariant
            start + length <= usize::MAX,
            start + length <= original@.len(),
            plen == postfix@.len(),
            0 <= i <= length,
            i <= plen,
            eq == (forall|k: int| 0 <= k < i ==> original@[start + k] == postfix@[k]),
        decreases length - i,
    {
        eq = eq && original[start + i] == postfix.get_char(i);
        i += 1;
    }
    eq
}

/// The scanner: the full source as characters, the bounds of the token under
/// construction, and a 1-based line counter.
pub struct Scanner {
    pub source: Vec<char>,
    pub start: usize,
    pub current: usize,
    pub line: usize,
}

impl Scanner {
    /// The scanner's invariant: offsets stay ordered and in bounds, and the
    /// line counter can absorb one increment per remaining character.
    pub open spec fn wf(self) -> bool {
        &&& self.start <= self.current <= self.source@.len()
        &&& self.source@.len() < usize::MAX
        &&& 1 <= self.line
        &&& self.line + self.source@.len() - self.current <= usize::MAX
    }

    /// Takes the whole source up front. The one demand is the machine's:
    /// a source whose character count fills the address space entirely
    /// would leave the line counter no room.
    pub fn new(source: &str) -> (s: Self)
        requires
            source@.len() < usize::MAX,
        ensures
            s.wf(),
            s.source@ == source@,
            s.start == 0,
            s.current == 0,
            s.line == 1,
    {
        let n = source.unicode_len();
        let mut v: Vec<char> = Vec::new();
        let mut i: usize = 0;
        while i < n
            invariant
                0 <= i <= n,
                n == source@.len(),
                v@ == source@.take(i as int),
            decreases n - i,
        {
            let c = source.get_char(i);
            v.push(c);
            proof {
                assert(source@.take(i + 1) =~= source@.take(i as int).push(source@[i as int]));
            }
            i += 1;
        }
        proof {
            assert(v@ =~= source@);
        }
        Scanner { source: v, start: 0, current: 0, line: 1 }
    }

    /// Consumes and returns the character under the cursor.
    pub fn advance(&mut self) -> (ch: char)
        requires
            old(self).current < old(self).source@.len() <= usize::MAX,
        ensures
            final(self).source@ == old(self).source@,
            final(self).start == old(self).start,
            final(self).line == old(self).line,
            final(self).current == old(self).current + 1,
            ch == old(self).source@[old(self).current as int],
    {
        let ch = self.source[self.current];
        self.current = self.current + 1;
        ch
    }

    fn is_at_end(&self) -> (r: bool)
        ensures
            r == (self.current == self.source@.len()),
    {
        self.current == self.source.len()
    }

    /// Looks at the character under the cursor without consuming it; a NUL
    /// stands in at end-of-input.
    fn peek(&self) -> (c: char)
        requires
            self.current <= self.source@.len(),
        ensures
            c == (if self.current < self.source@.len() {
                self.source@[self.current as int]
            } else {
                '\0'
            }),
    {
        if self.is_at_end() {
            return '\0';
        }
        self.source[self.current]
    }

    /// Looks one character past the cursor, when one exists.
    fn peek_next(&self) -> (r: Option<char>)
        requires
            self.current <= self.source@.len() < usize::MAX,
        ensures
            r == (if self.current + 1 < self.source@.len() {
                Some(self.source@[self.current + 1])
            } else {
                None::<char>
            }),
    {
        if self.current + 1 < self.source.len() {
            Some(self.source[self.current + 1])
        } else {
            None
        }
    }

    /// Consumes the character under the cursor only when it is the expected
    /// one.
    fn match_(&mut self, expected: char) -> (r: bool)
        requires
            old(self).current <= old(self).source@.len() <= usize::MAX,
        ensures
            final(self).source@ == old(self).source@,
            final(self).start == old(self).start,
            final(self).line == old(self).line,
            r == (old(self).current < old(self).source@.len() && old(self).source@[old(
                self,
            ).current as int] == expected),
            final(self).current == if r {
                old(self).current + 1
            } else {
                old(self).current as int
            },
    {
        if self.is_at_end() {
            return false;
        }
        if self.source[self.current] != expected {
            return false;
        }
        self.current = self.current + 1;
        true
    }

    /// Builds a token of the given kind spanning `start..current`.
    fn make_token(&self, type_: TokenType) -> (tok: Token)
        requires
            self.start <= self.current <= self.source@.len(),
        ensures
            tok.type_ == type_,
            tok.lexeme@ == self.source@.subrange(self.start as int, self.current as int),
            tok.line == self.line,
    {
        let mut lexeme = String::new();
        let mut i: usize = self.start;
        while i < self.current
            invariant
                self.start <= i <= self.current <= self.source@.len(),
                lexeme@ == self.source@.subrange(self.start as int, i as int),
            decreases self.current - i,
        {
            let c = self.source[i];
            push_char(&mut lexeme, c);
            proof {
                assert(self.source@.subrange(self.start as int, i + 1) =~= self.source@.subrange(
                    self.start as int,
                    i as int,
                ).push(self.source@[i as int]));
            }
            i += 1;
        }
        Token { type_, lexeme, line: self.line }
    }

    /// Builds an error token that carries a diagnostic message.
    fn make_error(&self, msg: String) -> (tok: Token)
        ensures
            tok.type_ == TokenType::Error,
            tok.lexeme@ == msg@,
            tok.line == self.line,
    {
        Token { type_: TokenType::Error, lexeme: msg, line: self.line }
    }

    /// Advances the cursor past whitespace, newlines and line comments,
    /// counting every newline passed.
    fn skip_whitespace(&mut self)
        requires
            old(self).wf(),
        ensures
            final(self).wf(),
            final(self).source@ == old(self).source@,
            final(self).start == old(self).start,
            old(self).current <= final(self).current,
            old(self).line <= final(self).line,
            final(self).current == skip_ws_end(old(self).source@, old(self).current as int, false),
            final(self).line as int == old(self).line + nl_count(
                old(self).source@.take(final(self).current as int),
            ) - nl_count(old(self).source@.take(old(self).current as int)),
    {
        let ghost src = self.source@;
        let ghost start0 = self.start;
        let ghost cur0 = self.current as int;
        let ghost line0 = self.line as int;
        let ghost target = skip_ws_end(src, cur0, false);
        proof {
            lemma_skip_ws_end_bounds(src, cur0, false);
        }
        loop
            invariant
                src == old(self).source@,
                start0 == old(self).start,
                cur0 == old(self).current as int,
                line0 == old(self).line as int,
                target == skip_ws_end(src, cur0, false),
                0 <= cur0,
                self.wf(),
                self.source@ == src,
                self.start == start0,
                cur0 <= self.current,
                line0 <= self.line,
                skip_ws_end(src, self.current as int, false) == target,
                self.line as int == line0 + nl_count(src.take(self.current as int)) - nl_count(
                    src.take(cur0),
                ),
            decreases src.len() - self.current,
        {
            let ch = self.peek();
            if ch == ' ' || ch == '\t' || ch == '\r' {
                proof {
                    lemma_nl_take_step(src, self.current as int);
                }
                self.advance();
            } else if ch == '\n' {
                proof {
                    lemma_nl_take_step(src, self.current as int);
                }
                self.line = self.line + 1;
                self.advance();
            } else if ch == '/' {
                let next = self.peek_next();
                if let Some(c2) = next {
                    if c2 == '/' {
                        // consume the two slashes, then the comment text up
                        // to (but not including) the terminating newline
                        let ghost iter0 = self.current as int;
                        proof {
                            lemma_nl_take_step(src, self.current as int);
                            lemma_nl_take_step(src, self.current as int + 1);
                            assert(skip_ws_end(src, self.current as int, false) == skip_ws_end(
                                src,
                                self.current as int + 1,
                                true,
                            ));
                            assert(skip_ws_end(src, self.current as int + 1, true) == skip_ws_end(
                                src,
                                self.current as int + 2,
                                true,
                            ));
                        }
                        self.advance();
                        self.advance();
                        loop
                            invariant
                                src == old(self).source@,
                                start0 == old(self).start,
                                cur0 == old(self).current as int,
                                line0 == old(self).line as int,
                                0 <= cur0,
                                self.wf(),
                                self.source@ == src,
                                self.start == start0,
                                cur0 <= self.current,
                                line0 <= self.line,
                                iter0 + 2 <= self.current,
                                skip_ws_end(src, self.current as int, true) == target,
                                self.line as int == line0 + nl_count(
                                    src.take(self.current as int),
                                ) - nl_count(src.take(cur0)),
                            ensures
                                self.current as int == src.len() || (self.current < src.len()
                                    && src[self.current as int] == '\n'),
                            decreases src.len() - self.current,
                        {
                            if self.is_at_end() {
                                break;
                            }
                            let p = self.peek();
                            if p == '\n' {
                                break;
                            }
                            proof {
                                lemma_nl_take_step(src, self.current as int);
                            }
                            self.advance();
                        }
                        proof {
                            if self.current < src.len() {
                                assert(src[self.current as int] == '\n');
                                assert(skip_ws_end(src, self.current as int, false)
                                    == skip_ws_end(src, self.current as int + 1, false));
                                assert(skip_ws_end(src, self.current as int, true)
                                    == skip_ws_end(src, self.current as int + 1, false));
                            }
                            assert(skip_ws_end(src, self.current as int, false) == target);
                        }
                    } else {
                        return ;
                    }
                } else {
                    return ;
                }
            } else {
                return ;
            }
        }
    }
}

/// Exact, full-length keyword recognition: the lexeme under construction has
/// the keyword's length and its tail from `offset` on equals `post`.
pub open spec fn spec_keyword_match(
    src: Seq<char>,
    start: int,
    current: int,
    post: Seq<char>,
    offset: int,
) -> bool {
    &&& current - start == offset + post.len()
    &&& current <= src.len()
    &&& src.subrange(start + offset, current) == post
}

impl Scanner {
    /// Decides between a keyword kind and a plain identifier by exact,
    /// full-length comparison of the lexeme's tail.
    fn check_keyword(
        &self,
        postfix: &str,
        offset: usize,
        length: usize,
        tok_type: TokenType,
    ) -> (r: TokenType)
        requires
            self.start <= self.current <= self.source@.len(),
            offset + length <= usize::MAX,
            postfix@.len() == length,
        ensures
            r == (if spec_keyword_match(
                self.source@,
                self.start as int,
                self.current as int,
                postfix@,
                offset as int,
            ) {
                tok_type
            } else {
                TokenType::Identifier
            }),
    {
        let ghost src = self.source@;
        let ghost s = self.start as int;
        let ghost cur = self.current as int;
        if self.current - self.start == offset + length && compare(
            &self.source,
            postfix,
            self.start + offset,
            length,
        ) {
            proof {
                assert(src.subrange(s + offset, cur) =~= postfix@);
            }
            tok_type
        } else {
            proof {
                if spec_keyword_match(src, s, cur, postfix@, offset as int) {
                    assert(spec_compare(src, postfix@, s + offset, length as int)) by {
                        assert(forall|k: int|
                            0 <= k < length && k < postfix@.len() ==> src[s + offset + k]
                                == #[trigger] postfix@[k]) by {
                            assert(forall|k: int|
                                0 <= k < postfix@.len() ==> #[trigger] postfix@[k]
                                    == src.subrange(s + offset, cur)[k]);
                        }
                    }
                }
            }
            TokenType::Identifier
        }
    }
}

/// A lexeme equal to a keyword has, from `offset` on, exactly the keyword's
/// tail — the shape in which the keyword table checks it.
proof fn lemma_tail_match(src: Seq<char>, s: int, cur: int, kw: Seq<char>, offset: int)
    requires
        0 <= s < cur <= src.len(),
        0 < offset <= kw.len(),
        src.subrange(s, cur) == kw,
    ensures
        spec_keyword_match(src, s, cur, kw.skip(offset), offset),
{
    assert(cur - s == kw.len());
    assert forall|k: int| 0 <= k < kw.len() - offset implies src.subrange(s + offset, cur)[k]
        == kw.skip(offset)[k] by {
        assert(src.subrange(s, cur)[offset + k] == kw[offset + k]);
        assert(src.subrange(s + offset, cur)[k] == src[s + offset + k]);
        assert(kw.skip(offset)[k] == kw[offset + k]);
    }
    assert(src.subrange(s + offset, cur) =~= kw.skip(offset));
}

/// A lexeme whose head matches a keyword's head and whose tail passes the
/// keyword table's check is the keyword, whole.
proof fn lemma_match_lex(src: Seq<char>, s: int, cur: int, kw: Seq<char>, offset: int)
    requires
        0 <= s <= cur <= src.len(),
        0 < offset <= kw.len(),
        src.subrange(s, s + offset) == kw.take(offset),
        spec_keyword_match(src, s, cur, kw.skip(offset), offset),
    ensures
        src.subrange(s, cur) == kw,
{
    assert(kw.skip(offset).len() == kw.len() - offset);
    assert(cur - s == kw.len());
    assert forall|j: int| 0 <= j < kw.len() implies src.subrange(s, cur)[j] == kw[j] by {
        if j < offset {
            assert(src.subrange(s, s + offset)[j] == kw.take(offset)[j]);
            assert(src.subrange(s, s + offset)[j] == src[s + j]);
            assert(kw.take(offset)[j] == kw[j]);
        } else {
            assert(src.subrange(s + offset, cur)[j - offset] == kw.skip(offset)[j - offset]);
            assert(src.subrange(s + offset, cur)[j - offset] == src[s + j]);
            assert(kw.skip(offset)[j - offset] == kw[j]);
        }
    }
    assert(src.subrange(s, cur) =~= kw);
}

impl Scanner {
    /// Consumes a maximal run of decimal digits.
    fn digits(&mut self)
        requires
            old(self).wf(),
        ensures
            final(self).wf(),
            final(self).source@ == old(self).source@,
            final(self).start == old(self).start,
            final(self).line == old(self).line,
            final(self).current == digits_end(old(self).source@, old(self).current as int),
            nl_count(old(self).source@.take(final(self).current as int)) == nl_count(
                old(self).source@.take(old(self).current as int),
            ),
    {
        let ghost src = self.source@;
        let ghost start0 = self.start;
        let ghost cur0 = self.current as int;
        let ghost line0 = self.line;
        loop
            invariant
                src == old(self).source@,
                start0 == old(self).start,
                cur0 == old(self).current as int,
                line0 == old(self).line,
                self.wf(),
                self.source@ == src,
                self.start == start0,
                self.line == line0,
                0 <= cur0 <= self.current,
                digits_end(src, self.current as int) == digits_end(src, cur0),
                nl_count(src.take(self.current as int)) == nl_count(src.take(cur0)),
            ensures
                !(self.current < src.len() && is_digit(src[self.current as int])),
            decreases src.len() - self.current,
        {
            if self.is_at_end() {
                break;
            }
            let p = self.peek();
            if !is_digit_char(p) {
                break;
            }
            proof {
                lemma_nl_take_step(src, self.current as int);
            }
            self.advance();
        }
    }

    /// Scans the rest of a numeric literal whose first digit sits at `start`
    /// and has just been consumed: a maximal digit run, then a decimal point
    /// only when at least one digit follows it.
    fn number(&mut self) -> (tok: Token)
        requires
            old(self).wf(),
            old(self).current == old(self).start + 1,
            old(self).start < old(self).source@.len(),
            is_digit(old(self).source@[old(self).start as int]),
        ensures
            final(self).wf(),
            final(self).source@ == old(self).source@,
            final(self).start == old(self).start,
            final(self).line == old(self).line,
            final(self).current == number_end(old(self).source@, old(self).start as int),
            nl_count(old(self).source@.take(final(self).current as int)) == nl_count(
                old(self).source@.take(old(self).current as int),
            ),
            tok.type_ == TokenType::Number,
            tok.lexeme@ == old(self).source@.subrange(
                old(self).start as int,
                final(self).current as int,
            ),
            tok.line == final(self).line,
    {
        let ghost src = self.source@;
        let ghost s = self.start as int;
        proof {
            assert(digits_end(src, s) == digits_end(src, s + 1));
        }
        self.digits();
        let ghost d = self.current as int;
        let next = self.peek_next();
        if let Some(c2) = next {
            let p = self.peek();
            if p == '.' && is_digit_char(c2) {
                proof {
                    lemma_nl_take_step(src, d);
                }
                self.advance();
                self.digits();
            }
        }
        self.make_token(TokenType::Number)
    }

    /// Scans the rest of a string literal whose opening quote sits at
    /// `start` and has just been consumed; newlines inside the literal count
    /// toward the line counter, and a literal that reaches end-of-input
    /// without its closing quote is an unterminated-string error.
    fn string(&mut self) -> (tok: Token)
        requires
            old(self).wf(),
            old(self).current == old(self).start + 1,
            old(self).start < old(self).source@.len(),
            old(self).source@[old(self).start as int] == '"',
        ensures
            final(self).wf(),
            final(self).source@ == old(self).source@,
            final(self).start == old(self).start,
            old(self).line <= final(self).line,
            final(self).current == (if string_close(old(self).source@, old(self).current as int)
                < old(self).source@.len() {
                string_close(old(self).source@, old(self).current as int) + 1
            } else {
                old(self).source@.len() as int
            }),
            tok.type_ == (if string_close(old(self).source@, old(self).current as int) < old(
                self,
            ).source@.len() {
                TokenType::String
            } else {
                TokenType::Error
            }),
            string_close(old(self).source@, old(self).current as int) < old(self).source@.len()
                ==> tok.lexeme@ == old(self).source@.subrange(
                old(self).start as int,
                final(self).current as int,
            ),
            string_close(old(self).source@, old(self).current as int) >= old(self).source@.len()
                ==> tok.lexeme@ == "Unterminated string."@,
            final(self).line as int == old(self).line + nl_count(
                old(self).source@.take(final(self).current as int),
            ) - nl_count(old(self).source@.take(old(self).current as int)),
            tok.line == final(self).line,
    {
        let ghost src = self.source@;
        let ghost start0 = self.start;
        let ghost cur0 = self.current as int;
        let ghost line0 = self.line as int;
        let ghost q = string_close(src, cur0);
        proof {
            lemma_string_close_bounds(src, cur0);
        }
        loop
            invariant
                src == old(self).source@,
                start0 == old(self).start,
                cur0 == old(self).current as int,
                line0 == old(self).line as int,
                q == string_close(src, cur0),
                self.wf(),
                self.source@ == src,
                self.start == start0,
                0 <= cur0 <= self.current,
                line0 <= self.line,
                string_close(src, self.current as int) == q,
                self.line as int == line0 + nl_count(src.take(self.current as int)) - nl_count(
                    src.take(cur0),
                ),
            ensures
                self.current as int == q,
            decreases src.len() - self.current,
        {
            if self.is_at_end() {
                break;
            }
            let p = self.peek();
            if p == '"' {
                break;
            }
            if p == '\n' {
                self.line = self.line + 1;
            }
            proof {
                lemma_nl_take_step(src, self.current as int);
            }
            self.advance();
        }
        if self.is_at_end() {
            return self.make_error("Unterminated string.".to_owned());
        }
        proof {
            lemma_nl_take_step(src, self.current as int);
        }
        self.advance();
        self.make_token(TokenType::String)
    }

    /// Scans the rest of an identifier whose first character sits at `start`
    /// and has just been consumed, then classifies the lexeme against the
    /// keyword table.
    fn identifier(&mut self) -> (tok: Token)
        requires
            old(self).wf(),
            old(self).current == old(self).start + 1,
            old(self).start < old(self).source@.len(),
        ensures
            final(self).wf(),
            final(self).source@ == old(self).source@,
            final(self).start == old(self).start,
            final(self).line == old(self).line,
            final(self).current == ident_end(old(self).source@, old(self).current as int),
            nl_count(old(self).source@.take(final(self).current as int)) == nl_count(
                old(self).source@.take(old(self).current as int),
            ),
            tok.type_ == keyword_kind(
                old(self).source@.subrange(old(self).start as int, final(self).current as int),
            ),
            tok.lexeme@ == old(self).source@.subrange(
                old(self).start as int,
                final(self).current as int,
            ),
            tok.line == final(self).line,
    {
        let ghost src = self.source@;
        let ghost start0 = self.start;
        let ghost cur0 = self.current as int;
        let ghost line0 = self.line;
        loop
            invariant
                src == old(self).source@,
                start0 == old(self).start,
                cur0 == old(self).current as int,
                line0 == old(self).line,
                self.wf(),
                self.source@ == src,
                self.start == start0,
                self.line == line0,
                0 <= cur0 <= self.current,
                ident_end(src, self.current as int) == ident_end(src, cur0),
                nl_count(src.take(self.current as int)) == nl_count(src.take(cur0)),
            ensures
                self.current as int == ident_end(src, cur0),
            decreases src.len() - self.current,
        {
            if self.is_at_end() {
                break;
            }
            let p = self.peek();
            if p.is_alphabetic() || p == '_' || is_digit_char(p) {
                proof {
                    lemma_nl_take_step(src, self.current as int);
                }
                self.advance();
            } else {
                break;
            }
        }
        let t = self.identifier_type();
        self.make_token(t)
    }

    /// Classifies the lexeme under construction: a keyword kind on exact,
    /// full-length equality with a keyword, a plain identifier otherwise.
    fn identifier_type(&self) -> (r: TokenType)
        requires
            self.start < self.current <= self.source@.len(),
        ensures
            r == keyword_kind(self.source@.subrange(self.start as int, self.current as int)),
    {
        let ghost src = self.source@;
        let ghost s = self.start as int;
        let ghost cur = self.current as int;
        let ghost lex = src.subrange(s, cur);
        proof {
            assert(lex.len() == cur - s);
            assert(lex[0] == src[s]);
        }
        let got_next = self.current - self.start > 1;
        let c0 = self.source[self.start];
        match (c0, got_next) {
            ('a', _) => {
                proof {
                    reveal_strlit("nd");
                }
                let r = self.check_keyword("nd", 1, 2, TokenType::And);
                proof {
                    let kw = seq!['a', 'n', 'd'];
                    assert("nd"@ =~= kw.skip(1));
                    if spec_keyword_match(src, s, cur, "nd"@, 1) {
                        assert(src.subrange(s, s + 1) =~= kw.take(1));
                        lemma_match_lex(src, s, cur, kw, 1);
                    } else if lex == kw {
                        lemma_tail_match(src, s, cur, kw, 1);
                        assert(false);
                    }
                }
                r
            },
            ('c', _) => {
                proof {
                    reveal_strlit("lass");
                }
                let r = self.check_keyword("lass", 1, 4, TokenType::Class);
                proof {
                    let kw = seq!['c', 'l', 'a', 's', 's'];
                    assert("lass"@ =~= kw.skip(1));
                    if spec_keyword_match(src, s, cur, "lass"@, 1) {
                        assert(src.subrange(s, s + 1) =~= kw.take(1));
                        lemma_match_lex(src, s, cur, kw, 1);
                    } else if lex == kw {
                        lemma_tail_match(src, s, cur, kw, 1);
                        assert(false);
                    }
                }
                r
            },
            ('e', _) => {
                proof {
                    reveal_strlit("lse");
                }
                let r = self.check_keyword("lse", 1, 3, TokenType::Else);
                proof {
                    let kw = seq!['e', 'l', 's', 'e'];
                    assert("lse"@ =~= kw.skip(1));
                    if spec_keyword_match(src, s, cur, "lse"@, 1) {
                        assert(src.subrange(s, s + 1) =~= kw.take(1));
                        lemma_match_lex(src, s, cur, kw, 1);
                    } else if lex == kw {
                        lemma_tail_match(src, s, cur, kw, 1);
                        assert(false);
                    }
                }
                r
            },
            ('f', true) => {
                proof {
                    assert(lex[1] == src[s + 1]);
                }
                match self.source[self.start + 1] {
                    'a' => {
                        proof {
                            reveal_strlit("lse");
                        }
                        let r = self.check_keyword("lse", 2, 3, TokenType::False);
                        proof {
                            let kw = seq!['f', 'a', 'l', 's', 'e'];
                            assert("lse"@ =~= kw.skip(2));
                            if spec_keyword_match(src, s, cur, "lse"@, 2) {
                                assert(src.subrange(s, s + 2) =~= kw.take(2));
                                lemma_match_lex(src, s, cur, kw, 2);
                            } else if lex == kw {
                                lemma_tail_match(src, s, cur, kw, 2);
                                assert(false);
                            }
                        }
                        r
                    },
                    'o' => {
                        proof {
                            reveal_strlit("r");
                        }
                        let r = self.check_keyword("r", 2, 1, TokenType::For);
                        proof {
                            let kw = seq!['f', 'o', 'r'];
                            assert("r"@ =~= kw.skip(2));
                            if spec_keyword_match(src, s, cur, "r"@, 2) {
                                assert(src.subrange(s, s + 2) =~= kw.take(2));
                                lemma_match_lex(src, s, cur, kw, 2);
                            } else if lex == kw {
                                lemma_tail_match(src, s, cur, kw, 2);
                                assert(false);
                            }
                        }
                        r
                    },
                    'u' => {
                        proof {
                            reveal_strlit("n");
                        }
                        let r = self.check_keyword("n", 2, 1, TokenType::Fun);
                        proof {
                            let kw = seq!['f', 'u', 'n'];
                            assert("n"@ =~= kw.skip(2));
                            if spec_keyword_match(src, s, cur, "n"@, 2) {
                                assert(src.subrange(s, s + 2) =~= kw.take(2));
                                lemma_match_lex(src, s, cur, kw, 2);
                            } else if lex == kw {
                                lemma_tail_match(src, s, cur, kw, 2);
                                assert(false);
                            }
                        }
                        r
                    },
                    _ => TokenType::Identifier,
                }
            },
            ('i', _) => {
                proof {
                    reveal_strlit("f");
                }
                let r = self.check_keyword("f", 1, 1, TokenType::If);
                proof {
                    let kw = seq!['i', 'f'];
                    assert("f"@ =~= kw.skip(1));
                    if spec_keyword_match(src, s, cur, "f"@, 1) {
                        assert(src.subrange(s, s + 1) =~= kw.take(1));
                        lemma_match_lex(src, s, cur, kw, 1);
                    } else if lex == kw {
                        lemma_tail_match(src, s, cur, kw, 1);
                        assert(false);
                    }
                }
                r
            },
            ('n', _) => {
                proof {
                    reveal_strlit("il");
                }
                let r = self.check_keyword("il", 1, 2, TokenType::Nil);
                proof {
                    let kw = seq!['n', 'i', 'l'];
                    assert("il"@ =~= kw.skip(1));
                    if spec_keyword_match(src, s, cur, "il"@, 1) {
                        assert(src.subrange(s, s + 1) =~= kw.take(1));
                        lemma_match_lex(src, s, cur, kw, 1);
                    } else if lex == kw {
                        lemma_tail_match(src, s, cur, kw, 1);
                        assert(false);
                    }
                }
                r
            },
            ('o', _) => {
                proof {
                    reveal_strlit("r");
                }
                let r = self.check_keyword("r", 1, 1, TokenType::Or);
                proof {
                    let kw = seq!['o', 'r'];
                    assert("r"@ =~= kw.skip(1));
                    if spec_keyword_match(src, s, cur, "r"@, 1) {
                        assert(src.subrange(s, s + 1) =~= kw.take(1));
                        lemma_match_lex(src, s, cur, kw, 1);
                    } else if lex == kw {
                        lemma_tail_match(src, s, cur, kw, 1);
                        assert(false);
                    }
                }
                r
            },
            ('p', _) => {
                proof {
                    reveal_strlit("rint");
                }
                let r = self.check_keyword("rint", 1, 4, TokenType::Print);
                proof {
                    let kw = seq!['p', 'r', 'i', 'n', 't'];
                    assert("rint"@ =~= kw.skip(1));
                    if spec_keyword_match(src, s, cur, "rint"@, 1) {
                        assert(src.subrange(s, s + 1) =~= kw.take(1));
                        lemma_match_lex(src, s, cur, kw, 1);
                    } else if lex == kw {
                        lemma_tail_match(src, s, cur, kw, 1);
                        assert(false);
                    }
                }
                r
            },
            ('r', _) => {
                proof {
                    reveal_strlit("eturn");
                }
                let r = self.check_keyword("eturn", 1, 5, TokenType::Return);
                proof {
                    let kw = seq!['r', 'e', 't', 'u', 'r', 'n'];
                    assert("eturn"@ =~= kw.skip(1));
                    if spec_keyword_match(src, s, cur, "eturn"@, 1) {
                        assert(src.subrange(s, s + 1) =~= kw.take(1));
                        lemma_match_lex(src, s, cur, kw, 1);
                    } else if lex == kw {
                        lemma_tail_match(src, s, cur, kw, 1);
                        assert(false);
                    }
                }
                r
            },
            ('s', _) => {
                proof {
                    reveal_strlit("uper");
                }
                let r = self.check_keyword("uper", 1, 4, TokenType::Super);
                proof {
                    let kw = seq!['s', 'u', 'p', 'e', 'r'];
                    assert("uper"@ =~= kw.skip(1));
                    if spec_keyword_match(src, s, cur, "uper"@, 1) {
                        assert(src.subrange(s, s + 1) =~= kw.take(1));
                        lemma_match_lex(src, s, cur, kw, 1);
                    } else if lex == kw {
                        lemma_tail_match(src, s, cur, kw, 1);
                        assert(false);
                    }
                }
                r
            },
            ('t', true) => {
                proof {
                    assert(lex[1] == src[s + 1]);
                }
                match self.source[self.start + 1] {
                    'h' => {
                        proof {
                            reveal_strlit("is");
                        }
                        let r = self.check_keyword("is", 2, 2, TokenType::This);
                        proof {
                            let kw = seq!['t', 'h', 'i', 's'];
                            assert("is"@ =~= kw.skip(2));
                            if spec_keyword_match(src, s, cur, "is"@, 2) {
                                assert(src.subrange(s, s + 2) =~= kw.take(2));
                                lemma_match_lex(src, s, cur, kw, 2);
                            } else if lex == kw {
                                lemma_tail_match(src, s, cur, kw, 2);
                                assert(false);
                            }
                        }
                        r
                    },
                    'r' => {
                        proof {
                            reveal_strlit("ue");
                        }
                        let r = self.check_keyword("ue", 2, 2, TokenType::True);
                        proof {
                            let kw = seq!['t', 'r', 'u', 'e'];
                            assert("ue"@ =~= kw.skip(2));
                            if spec_keyword_match(src, s, cur, "ue"@, 2) {
                                assert(src.subrange(s, s + 2) =~= kw.take(2));
                                lemma_match_lex(src, s, cur, kw, 2);
                            } else if lex == kw {
                                lemma_tail_match(src, s, cur, kw, 2);
                                assert(false);
                            }
                        }
                        r
                    },
                    _ => TokenType::Identifier,
                }
            },
            ('v', _) => {
                proof {
                    reveal_strlit("ar");
                }
                let r = self.check_keyword("ar", 1, 2, TokenType::Var);
                proof {
                    let kw = seq!['v', 'a', 'r'];
                    assert("ar"@ =~= kw.skip(1));
                    if spec_keyword_match(src, s, cur, "ar"@, 1) {
                        assert(src.subrange(s, s + 1) =~= kw.take(1));
                        lemma_match_lex(src, s, cur, kw, 1);
                    } else if lex == kw {
                        lemma_tail_match(src, s, cur, kw, 1);
                        assert(false);
                    }
                }
                r
            },
            ('w', _) => {
                proof {
                    reveal_strlit("hile");
                }
                let r = self.check_keyword("hile", 1, 4, TokenType::While);
                proof {
                    let kw = seq!['w', 'h', 'i', 'l', 'e'];
                    assert("hile"@ =~= kw.skip(1));
                    if spec_keyword_match(src, s, cur, "hile"@, 1) {
                        assert(src.subrange(s, s + 1) =~= kw.take(1));
                        lemma_match_lex(src, s, cur, kw, 1);
                    } else if lex == kw {
                        lemma_tail_match(src, s, cur, kw, 1);
                        assert(false);
                    }
                }
                r
            },
            _ => TokenType::Identifier,
        }
    }

    /// Produces the next token on demand. Whitespace and comments are
    /// skipped first; the token's kind, span and line are pinned down by the
    /// scanning functions over the source, and a malformed input yields an
    /// error token rather than a fault.
    pub fn scan_token(&mut self) -> (tok: Token)
        requires
            old(self).wf(),
        ensures
            final(self).wf(),
            final(self).source@ == old(self).source@,
            final(self).start as int == skip_ws_end(
                old(self).source@,
                old(self).current as int,
                false,
            ),
            final(self).current as int == token_end_at(old(self).source@, final(self).start as int),
            final(self).line as int == old(self).line + nl_count(
                old(self).source@.take(final(self).current as int),
            ) - nl_count(old(self).source@.take(old(self).current as int)),
            tok.type_ == token_kind_at(old(self).source@, final(self).start as int),
            tok.lexeme@ == token_lexeme_at(old(self).source@, final(self).start as int),
            tok.line == final(self).line,
            old(self).line <= final(self).line,
            old(self).current <= final(self).start <= final(self).current,
    {
        let ghost src = self.source@;
        let ghost cur00 = self.current as int;
        self.skip_whitespace();
        self.start = self.current;
        let ghost j = self.start as int;
        if self.is_at_end() {
            return self.make_token(TokenType::Eof);
        }
        let c = self.advance();
        match c {
            '(' => {
                proof {
                    lemma_nl_take_step(src, j);
                }
                self.make_token(TokenType::LeftParen)
            },
            ')' => {
                proof {
                    lemma_nl_take_step(src, j);
                }
                self.make_token(TokenType::RightParen)
            },
            '{' => {
                proof {
                    lemma_nl_take_step(src, j);
                }
                self.make_token(TokenType::LeftBrace)
            },
            '}' => {
                proof {
                    lemma_nl_take_step(src, j);
                }
                self.make_token(TokenType::RightBrace)
            },
            ';' => {
                proof {
                    lemma_nl_take_step(src, j);
                }
                self.make_token(TokenType::Semicolon)
            },
            ',' => {
                proof {
                    lemma_nl_take_step(src, j);
                }
                self.make_token(TokenType::Comma)
            },
            '.' => {
                proof {
                    lemma_nl_take_step(src, j);
                }
                self.make_token(TokenType::Dot)
            },
            '-' => {
                proof {
                    lemma_nl_take_step(src, j);
                }
                self.make_token(TokenType::Minus)
            },
            '+' => {
                proof {
                    lemma_nl_take_step(src, j);
                }
                self.make_token(TokenType::Plus)
            },
            '/' => {
                proof {
                    lemma_nl_take_step(src, j);
                }
                self.make_token(TokenType::Slash)
            },
            '*' => {
                proof {
                    lemma_nl_take_step(src, j);
                }
                self.make_token(TokenType::Star)
            },
            '!' => {
                proof {
                    lemma_nl_take_step(src, j);
                }
                if self.match_('=') {
                    proof {
                        lemma_nl_take_step(src, j + 1);
                    }
                    self.make_token(TokenType::BangEqual)
                } else {
                    self.make_token(TokenType::Bang)
                }
            },
            '=' => {
                proof {
                    lemma_nl_take_step(src, j);
                }
                if self.match_('=') {
                    proof {
                        lemma_nl_take_step(src, j + 1);
                    }
                    self.make_token(TokenType::EqualEqual)
                } else {
                    self.make_token(TokenType::Equal)
                }
            },
            '<' => {
                proof {
                    lemma_nl_take_step(src, j);
                }
                if self.match_('=') {
                    proof {
                        lemma_nl_take_step(src, j + 1);
                    }
                    self.make_token(TokenType::LessEqual)
                } else {
                    self.make_token(TokenType::Less)
                }
            },
            '>' => {
                proof {
                    lemma_nl_take_step(src, j);
                }
                if self.match_('=') {
                    proof {
                        lemma_nl_take_step(src, j + 1);
                    }
                    self.make_token(TokenType::GreaterEqual)
                } else {
                    self.make_token(TokenType::Greater)
                }
            },
            '"' => {
                proof {
                    lemma_nl_take_step(src, j);
                    lemma_string_close_bounds(src, j + 1);
                }
                self.string()
            },
            _ => {
                if is_digit_char(c) {
                    proof {
                        lemma_nl_take_step(src, j);
                    }
                    return self.number();
                }
                if c.is_alphabetic() || c == '_' {
                    proof {
                        lemma_nl_take_step(src, j);
                    }
                    return self.identifier();
                }
                proof {
                    lemma_skip_ws_idem(src, cur00, false);
                    lemma_skip_ws_end_bounds(src, j + 1, false);
                    assert(src[j] != '\n');
                    lemma_nl_take_step(src, j);
                }
                self.make_error("Unexpected character.".to_owned())
            },
        }
    }
}

} // verus!
