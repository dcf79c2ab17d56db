use vstd::prelude::*;

use crate::scanner::{
    lemma_skip_ws_end_bounds, lemma_token_end_bounds, nl_count, skip_ws_end, token_end_at,
    token_kind_at, token_lexeme_at, Scanner, Token, TokenType,
};

verus! {

/// The position at which the front end's token pull settles: scanning from
/// `pos`, error tokens are passed over one by one, and the result is the
/// cursor position from which the first non-error token is scanned.
pub open spec fn settle_pos(src: Seq<char>, pos: int) -> int
    decreases src.len() - pos
        when 0 <= pos <= src.len()
        via settle_pos_decreases
{
    let j = skip_ws_end(src, pos, false);
    if token_kind_at(src, j) == TokenType::Error {
        settle_pos(src, token_end_at(src, j))
    } else {
        pos
    }
}

#[via_fn]
proof fn settle_pos_decreases(src: Seq<char>, pos: int) {
    let j = skip_ws_end(src, pos, false);
    lemma_skip_ws_end_bounds(src, pos, false);
    if token_kind_at(src, j) == TokenType::Error {
        lemma_token_end_bounds(src, j);
    }
}

/// The front end's token window: the token under consideration, the one
/// before it, and whether a diagnostic has been recorded.
pub struct Parser {
    pub current: Option<Token>,
    pub previous: Option<Token>,
    pub had_error: bool,
    pub panic_mode: bool,
}

impl Parser {
    /// A placeholder query of the stalled front end; it reports no error.
    pub fn is_current_err(&self) -> (r: bool)
        ensures
            !r,
    {
        false
    }
}

/// The front end: a parser window over the token stream of one scanner.
/// Only the token pull is realized; emitting bytecode is left to an
/// external collaborator.
pub struct Compiler {
    pub parser: Parser,
    pub scanner: Scanner,
}

impl Compiler {
    /// Builds a front end over a fresh scanner; the demand on the source's
    /// length is the scanner's own machine limit.
    pub fn new(source: &str) -> (c: Self)
        requires
            source@.len() < usize::MAX,
        ensures
            c.scanner.wf(),
            c.scanner.source@ == source@,
            c.scanner.start == 0,
            c.scanner.current == 0,
            c.scanner.line == 1,
            c.parser.current is None,
            c.parser.previous is None,
            !c.parser.had_error,
            !c.parser.panic_mode,
    {
        Self {
            parser: Parser { current: None, previous: None, had_error: false, panic_mode: false },
            scanner: Scanner::new(source),
        }
    }

    /// Records a diagnostic at the current token: the front end notes the
    /// failure and enters panic mode. Rendering the message is left to the
    /// embedding.
    pub fn error_at_current(&mut self, _message: String)
        ensures
            final(self).parser.had_error,
            final(self).parser.panic_mode,
            final(self).parser.current == old(self).parser.current,
            final(self).parser.previous == old(self).parser.previous,
            final(self).scanner == old(self).scanner,
    {
        self.parser.had_error = true;
        self.parser.panic_mode = true;
    }

    /// Pulls tokens until one that is not an error token, recording a
    /// diagnostic for each error token passed over. The stopping token
    /// becomes the current token; the token it displaces is kept as the
    /// previous one.
    pub fn advance(&mut self)
        requires
            old(self).scanner.wf(),
        ensures
            final(self).scanner.wf(),
            final(self).scanner.source@ == old(self).scanner.source@,
            final(self).parser.previous == old(self).parser.current,
            final(self).scanner.start as int == skip_ws_end(
                old(self).scanner.source@,
                settle_pos(old(self).scanner.source@, old(self).scanner.current as int),
                false,
            ),
            final(self).scanner.current as int == token_end_at(
                old(self).scanner.source@,
                final(self).scanner.start as int,
            ),
            final(self).parser.current is Some,
            ({
                let src = old(self).scanner.source@;
                let j = final(self).scanner.start as int;
                let t = final(self).parser.current.unwrap();
                &&& t.type_ == token_kind_at(src, j)
                &&& t.type_ != TokenType::Error
                &&& t.lexeme@ == token_lexeme_at(src, j)
                &&& t.line == final(self).scanner.line
            }),
            final(self).parser.had_error == (old(self).parser.had_error || settle_pos(
                old(self).scanner.source@,
                old(self).scanner.current as int,
            ) != old(self).scanner.current as int),
            final(self).parser.panic_mode == (old(self).parser.panic_mode || settle_pos(
                old(self).scanner.source@,
                old(self).scanner.current as int,
            ) != old(self).scanner.current as int),
            final(self).scanner.line as int == old(self).scanner.line + nl_count(
                old(self).scanner.source@.take(final(self).scanner.current as int),
            ) - nl_count(old(self).scanner.source@.take(old(self).scanner.current as int)),
    {
        let ghost src = self.scanner.source@;
        let ghost pos0 = self.scanner.current as int;
        let ghost line0 = self.scanner.line as int;
        let ghost had0 = self.parser.had_error;
        let ghost panic0 = self.parser.panic_mode;
        let ghost prev0 = old(self).parser.current;
        self.parser.previous = self.parser.current.take();
        loop
            invariant_except_break
                settle_pos(src, self.scanner.current as int) == settle_pos(src, pos0),
                self.parser.had_error == (had0 || self.scanner.current as int != pos0),
                self.parser.panic_mode == (panic0 || self.scanner.current as int != pos0),
            invariant
                src == old(self).scanner.source@,
                pos0 == old(self).scanner.current as int,
                line0 == old(self).scanner.line as int,
                had0 == old(self).parser.had_error,
                panic0 == old(self).parser.panic_mode,
                prev0 == old(self).parser.current,
                self.scanner.wf(),
                self.scanner.source@ == src,
                self.parser.previous == prev0,
                0 <= pos0 <= self.scanner.current,
                self.scanner.line as int == line0 + nl_count(
                    src.take(self.scanner.current as int),
                ) - nl_count(src.take(pos0)),
            ensures
                self.scanner.wf(),
                self.scanner.source@ == src,
                self.parser.previous == prev0,
                self.scanner.start as int == skip_ws_end(src, settle_pos(src, pos0), false),
                self.scanner.current as int == token_end_at(src, self.scanner.start as int),
                self.parser.current is Some,
                ({
                    let t = self.parser.current.unwrap();
                    &&& t.type_ == token_kind_at(src, self.scanner.start as int)
                    &&& t.type_ != TokenType::Error
                    &&& t.lexeme@ == token_lexeme_at(src, self.scanner.start as int)
                    &&& t.line == self.scanner.line
                }),
                self.parser.had_error == (had0 || settle_pos(src, pos0) != pos0),
                self.parser.panic_mode == (panic0 || settle_pos(src, pos0) != pos0),
                self.scanner.line as int == line0 + nl_count(
                    src.take(self.scanner.current as int),
                ) - nl_count(src.take(pos0)),
            decreases src.len() - self.scanner.current,
        {
            let ghost p = self.scanner.current as int;
            let tok = self.scanner.scan_token();
            let ghost j = self.scanner.start as int;
            proof {
                lemma_skip_ws_end_bounds(src, p, false);
                if token_kind_at(src, j) == TokenType::Error {
                    lemma_token_end_bounds(src, j);
                }
            }
            let is_err = tok.is_err();
            let msg = tok.message();
            self.parser.current = Some(tok);
            if !is_err {
                break;
            }
            self.error_at_current(msg);
        }
    }
}

} // verus!
