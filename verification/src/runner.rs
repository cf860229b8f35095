//! Running a source text: read its tokens, parse them, and run the program.
use vstd::prelude::*;
use crate::lexer::{lemma_next_token_progress, spec_next_token, Lexer};
use crate::parser::{token_views, Parser};
use crate::parser_spec::spec_program;
use crate::interpreter::Interpreter;
use crate::context::path_parent_of;
use crate::semantics::spec_run;
use crate::handles::machine_wf;
use crate::token::{SpecToken, Token};
use crate::value::{honest_growth, extends, Number, Outcome, RuntimeError};

verus! {

/// The tokens of `s` read from position `i` on, up to and including the
/// first `EOF`.
pub open spec fn spec_tokens(s: Seq<char>, i: int) -> Seq<SpecToken>
    decreases s.len() - i,
{
    let (t, j) = spec_next_token(s, i);
    if !(t is EOF) && i < j <= s.len() {
        seq![t] + spec_tokens(s, j)
    } else {
        seq![t]
    }
}

/// The tokens of a text end with its only `EOF`: reading stops there.
pub proof fn lemma_tokens_end_with_eof(s: Seq<char>, i: int)
    requires
        0 <= i <= s.len(),
    ensures
        spec_tokens(s, i).len() > 0,
        spec_tokens(s, i).last() is EOF,
        forall|k: int| 0 <= k < spec_tokens(s, i).len() - 1 ==> !(#[trigger] spec_tokens(s, i)[k] is EOF),
    decreases s.len() - i,
{
    lemma_next_token_progress(s, i);
    let (t, j) = spec_next_token(s, i);
    if !(t is EOF) && i < j <= s.len() {
        lemma_tokens_end_with_eof(s, j);
        let rest = spec_tokens(s, j);
        assert forall|k: int| 0 <= k < spec_tokens(s, i).len() - 1 implies !(#[trigger] spec_tokens(s, i)[k] is EOF) by {
            if k > 0 {
                assert(spec_tokens(s, i)[k] == rest[k - 1]);
            }
        }
    }
}

/// The tokens of a source text, up to and including the first `EOF`.
pub fn tokenize(source: String) -> (r: Vec<Token>)
    ensures
        token_views(r@) == spec_tokens(source@, 0),
{
    let ghost s = source@;
    let mut lexer = Lexer::new(source);
    let mut tokens: Vec<Token> = Vec::new();
    proof {
        assert(token_views(tokens@) + spec_tokens(s, 0) =~= spec_tokens(s, 0));
    }
    loop
        invariant
            s == source@,
            lexer.valid(),
            lexer.chars() == s,
            token_views(tokens@) + spec_tokens(s, lexer.pos() as int) == spec_tokens(s, 0),
        decreases s.len() - lexer.pos(),
    {
        let ghost before = lexer.pos() as int;
        let ghost seen = token_views(tokens@);
        proof {
            lemma_next_token_progress(s, before);
        }
        let token = lexer.next_token();
        let is_eof = match token {
            Token::EOF => true,
            _ => false,
        };
        let ghost tv = token@;
        tokens.push(token);
        proof {
            assert(token_views(tokens@) =~= seen.push(tv));
        }
        if is_eof {
            proof {
                assert(spec_tokens(s, before) == seq![tv]);
                assert(token_views(tokens@) =~= seen + seq![tv]);
                assert(token_views(tokens@) == spec_tokens(s, 0));
            }
            return tokens;
        }
        proof {
            assert(before < lexer.pos());
            assert(spec_tokens(s, before) == seq![tv] + spec_tokens(s, lexer.pos() as int));
            assert(token_views(tokens@) + spec_tokens(s, lexer.pos() as int) =~= seen + spec_tokens(s, before));
        }
    }
}

/// The program that a source text parses to.
pub open spec fn source_program(source: Seq<char>) -> Seq<crate::ast::SStmt> {
    spec_program(spec_tokens(source, 0), 0, Seq::empty())
}

/// Runs a source text that comes from no file.
pub fn run_source<N: Number>(source: String, interpreter: &mut Interpreter<N>) -> (r: Result<(), RuntimeError>)
    ensures
        final(interpreter).context_view().file == Some(Seq::<char>::empty()),
        final(interpreter).context_view().directory is None,
        final(interpreter).budget() == old(interpreter).budget(),
        extends(final(interpreter).machine_view().heap.log, old(interpreter).machine_view().heap.log),
        honest_growth(old(interpreter).machine_view().heap.log, final(interpreter).machine_view().heap.log),
        forall|orc: Seq<Outcome<N>>|
            extends(orc, final(interpreter).machine_view().heap.log) ==> #[trigger] spec_run(old(interpreter).machine_view(), source_program(source@), old(interpreter).budget(), orc) == (
                final(interpreter).machine_view(),
                r,
            ),
        machine_wf(old(interpreter).machine_view()) ==> machine_wf(final(interpreter).machine_view()) && r != Err::<(), RuntimeError>(RuntimeError::Dangling),
{
    let path = String::new();
    run_source_with_path(source, path, interpreter)
}

/// Runs a source text read from the file at `path`: records the file, reads
/// the tokens, parses them and runs the program.
pub fn run_source_with_path<N: Number>(source: String, path: String, interpreter: &mut Interpreter<N>) -> (r: Result<(), RuntimeError>)
    ensures
        final(interpreter).context_view().file == Some(path@),
        final(interpreter).context_view().directory == path_parent_of(path@),
        path@.len() == 0 ==> final(interpreter).context_view().directory is None,
        final(interpreter).budget() == old(interpreter).budget(),
        extends(final(interpreter).machine_view().heap.log, old(interpreter).machine_view().heap.log),
        honest_growth(old(interpreter).machine_view().heap.log, final(interpreter).machine_view().heap.log),
        forall|orc: Seq<Outcome<N>>|
            extends(orc, final(interpreter).machine_view().heap.log) ==> #[trigger] spec_run(old(interpreter).machine_view(), source_program(source@), old(interpreter).budget(), orc) == (
                final(interpreter).machine_view(),
                r,
            ),
        machine_wf(old(interpreter).machine_view()) ==> machine_wf(final(interpreter).machine_view()) && r != Err::<(), RuntimeError>(RuntimeError::Dangling),
{
    interpreter.set_current_file(path);
    let ghost s = source@;
    let tokens = tokenize(source);
    proof {
        lemma_tokens_end_with_eof(s, 0);
    }
    let mut parser = Parser::new(tokens);
    let program = parser.parse_program();
    interpreter.run(&program)
}

} // verus!
