use vstd::prelude::*;
use crate::lexer::{scan_errors, scan_tokens, LexError, Lexer};
use crate::token::{views, Token};

verus! {

/// An interactive session that scans each line it is handed.
pub struct Prompt {}

impl Prompt {
    pub fn new() -> (r: Self)
        ensures
            r == (Prompt {}),
    {
        Prompt {}
    }

    /// The tokens and lexical diagnostics of one input line.
    pub fn scan_line(&self, line: String) -> (r: (Vec<Token>, Vec<LexError>))
        requires
            line@.len() + 2 <= usize::MAX,
        ensures
            views(r.0@) == scan_tokens(line@),
            r.1@ == scan_errors(line@),
    {
        Lexer::new(line).lex_tokens()
    }
}

} // verus!
