//! From source text to statements: the lexer and the parser, one after the other.

use vstd::prelude::*;
use crate::error::{ErrorType, ErrorView};
use crate::grammar::program;
use crate::parser::{
    errors_view, lemma_stmt_lines_within, stmt_lines_within, syntax_error, syntax_error_line, Parser,
};
use crate::stmt::{stmts_view, Stmt, StmtView};
use crate::token::tokens_view;
use crate::tokenizer::{law_empty_source, law_token_lines, lex, line_count, tokenize};

verus! {

/// What a source is turned into: the statements that the grammar reads from its
/// tokens; or the diagnostics, which are the error of the lexer alone where the
/// lexer refuses the source, and else those of the parser.
pub open spec fn compiled(source: Seq<char>) -> Result<Seq<StmtView>, Seq<ErrorView>> {
    match lex(source, 0, 1) {
        Err(e) => Err(seq![e]),
        Ok(tokens) => program(tokens, 0, 1, Seq::empty(), Seq::empty()),
    }
}

/// Turns a source into statements, or into the diagnostics of what is wrong with it.
///
/// Every statement, every expression in it and every operator token kept in an
/// expression carries a line of the source: one from 1 up to the number of lines.
/// The diagnostics are never empty: either the one of the lexer, or those of the
/// parser; each that has a line carries a line of the source. An empty source has
/// no statements.
pub fn compile(source: &str) -> (r: Result<Vec<Stmt>, Vec<ErrorType>>)
    ensures
        match compiled(source@) {
            Ok(statements) => r matches Ok(found) && stmts_view(found@) == statements,
            Err(errors) => r matches Err(found) && errors_view(found@) == errors,
        },
        match r {
            Ok(statements) => forall|i: int|
                0 <= i < statements@.len() ==> stmt_lines_within(
                    #[trigger] statements@[i]@,
                    line_count(source@) as int,
                ),
            Err(errors) => {
                &&& errors@.len() > 0
                &&& lex(source@, 0, 1) matches Ok(tokens) ==> forall|i: int|
                    0 <= i < errors@.len() ==> syntax_error(#[trigger] errors@[i]@, tokens) && 1
                        <= syntax_error_line(errors@[i]@) <= line_count(source@)
                &&& lex(source@, 0, 1) is Err ==> errors@.len() == 1 && match errors@[0]@ {
                    ErrorView::UnexpectedCharacter { character, line } => 1 <= line <= line_count(source@),
                    _ => true,
                }
            },
        },
        source@.len() == 0 ==> (r matches Ok(statements) && statements@.len() == 0),
{
    proof {
        law_token_lines(source@);
        if source@.len() == 0 {
            law_empty_source(source@);
        }
    }
    match tokenize(source) {
        Err(e) => {
            let ghost view = e@;
            let mut errors: Vec<ErrorType> = Vec::new();
            errors.push(e);
            assert(errors_view(errors@) =~= seq![view]);
            Err(errors)
        },
        Ok(tokens) => {
            let ghost all = tokens_view(tokens@);
            assert(all.len() > 0 ==> all[0].type_ == tokens@[0].type_);
            let mut parser = Parser::new(tokens);
            let r = parser.parse();
            proof {
                let high = line_count(source@) as int;
                if r is Ok {
                    let statements = r->Ok_0;
                    assert forall|i: int| 0 <= i < statements@.len() implies stmt_lines_within(
                        #[trigger] statements@[i]@,
                        high,
                    ) by {
                        lemma_stmt_lines_within(statements@[i]@, all, high);
                    }
                }
            }
            r
        },
    }
}

} // verus!
