//! Front end and minimal evaluator for a Clojure-flavored Lisp dialect.
//!
//! Source text passes through three layered stages: a lexer that produces a
//! flat token stream, a recursive-descent parser that builds a lossless
//! concrete syntax tree, and a reader that turns the tree into semantic
//! values. A small tree-walking evaluator with lexically scoped environments
//! interprets those values.

use vstd::prelude::*;

pub mod builtins;
pub mod env;
pub mod eval;
pub mod laws;
pub mod lexer;
pub mod parser;
pub mod printer;
pub mod reader;
pub mod syntax;
pub mod token;
pub mod tree;
pub mod value;

pub use builtins::bound_to;
pub use env::Environment;
pub use env::Frame;
pub use eval::apply_builtin;
pub use eval::builtin_ok;
pub use eval::eval;
pub use lexer::Lexer;
pub use lexer::LexerError;
pub use parser::Parser;
pub use parser::ParserError;
pub use printer::render;
pub use syntax::CitrineLanguage;
pub use syntax::SyntaxKind;
pub use syntax::token_to_syntax_kind;
pub use token::Token;
pub use token::TokenKind;
pub use tree::SyntaxElement;
pub use tree::SyntaxNode;
pub use value::BuiltinOp;
pub use value::EvalError;
pub use value::Function;
pub use value::Macro;
pub use value::Value;
pub use value::ValueMap;
pub use value::ValueSet;
pub use value::value_eq;

verus! {

/// Tokenizes the given input and returns a vector of tokens: a stream that
/// partitions the input exactly, ends in `Eof`, and whose concatenated
/// texts rebuild the input.
#[verifier::rlimit(100)]
#[verifier::spinoff_prover]
pub fn tokenize(input: &str) -> (r: Vec<Token>)
    ensures
        lexer::token_stream_wf(r@, input@),
{
    let mut lx = Lexer::new(input);
    lx.tokenize()
}

/// Parses the given input and returns a lossless syntax tree: a well-formed
/// root node spanning the whole input whose leaf texts concatenate back to
/// the input.
#[verifier::rlimit(100)]
#[verifier::spinoff_prover]
pub fn parse(input: &str) -> (r: SyntaxNode)
    ensures
        tree::node_wf(r),
        r.kind == SyntaxKind::Root,
        r.start == 0,
        r.end == input@.len(),
        tree::node_text(r) == input@,
        lexer::token_stream_wf(tree::node_leaves(r), input@),
        parser::parse_root_rel(tree::node_leaves(r), r),
{
    let p = Parser::new(input);
    let root = p.parse();
    proof {
        assert(tree::node_text(root) == input@);
    }
    root
}

/// Reads the given input and returns a value: the input is parsed into its
/// lossless tree, and the tree is read. The witness tree is tied to the
/// input by the token stream at its leaves, and to the result by the
/// reader's relation.
#[verifier::rlimit(100)]
#[verifier::spinoff_prover]
pub fn read_str(input: &str) -> (r: Result<Value, EvalError>)
    ensures
        exists|t: SyntaxNode|
            {
                &&& #[trigger] lexer::token_stream_wf(tree::node_leaves(t), input@)
                &&& tree::node_wf(t)
                &&& t.kind == SyntaxKind::Root
                &&& tree::node_text(t) == input@
                &&& parser::parse_root_rel(tree::node_leaves(t), t)
                &&& match r {
                    Ok(v) => reader::read_node_rel(t, Ok(Some(v))) || (v is Nil
                        && reader::read_node_rel(t, Ok(None))),
                    Err(e) => reader::read_node_rel(t, Err(e)),
                }
            },
{
    let tree = parse(input);
    let r = reader::read(&tree);
    proof {
        assert(lexer::token_stream_wf(tree::node_leaves(tree), input@));
    }
    r
}

/// Evaluates the given input in the given environment: the input is read
/// exactly as `read_str` reads it, and on success the value is evaluated
/// in the root scope under the evaluator's dispatch relation.
#[verifier::rlimit(100)]
#[verifier::spinoff_prover]
pub fn eval_str(input: &str, env: &mut Environment) -> (r: Result<Value, EvalError>)
    requires
        old(env).wf(),
    ensures
        final(env).wf(),
        final(env).frames().len() >= old(env).frames().len(),
        exists|t: SyntaxNode|
            {
                &&& #[trigger] lexer::token_stream_wf(tree::node_leaves(t), input@)
                &&& tree::node_wf(t)
                &&& t.kind == SyntaxKind::Root
                &&& tree::node_text(t) == input@
                &&& parser::parse_root_rel(tree::node_leaves(t), t)
                &&& ((r is Err && reader::read_node_rel(t, Err(r->Err_0)) && *final(env) == *old(
                    env,
                )) || exists|v: Value|
                    {
                        &&& #[trigger] reader::value_seen(v)
                        &&& (reader::read_node_rel(t, Ok(Some(v))) || (v is Nil
                            && reader::read_node_rel(t, Ok(None))))
                        &&& eval::eval_rel(
                            old(env).frames(),
                            0,
                            v,
                            eval::EVAL_FUEL as int,
                            r,
                            final(env).frames(),
                        )
                    })
            },
{
    let tree = parse(input);
    match reader::read(&tree) {
        Ok(v) => {
            let r = eval(&v, env);
            proof {
                assert(reader::value_seen(v));
                assert(lexer::token_stream_wf(tree::node_leaves(tree), input@));
            }
            r
        },
        Err(e) => {
            proof {
                assert(lexer::token_stream_wf(tree::node_leaves(tree), input@));
            }
            Err(e)
        },
    }
}

/// Creates a new standard environment with built-in functions.
pub fn standard_env() -> (env: Environment)
    ensures
        env.wf(),
        env.frames().len() == 1,
        env.frames()[0].outer is None,
        bound_to(env.frames(), "+"@, BuiltinOp::Add),
        bound_to(env.frames(), "-"@, BuiltinOp::Sub),
        bound_to(env.frames(), "*"@, BuiltinOp::Mul),
        bound_to(env.frames(), "/"@, BuiltinOp::Div),
        bound_to(env.frames(), "="@, BuiltinOp::Equal),
        bound_to(env.frames(), "<"@, BuiltinOp::Less),
        bound_to(env.frames(), ">"@, BuiltinOp::Greater),
        bound_to(env.frames(), "not"@, BuiltinOp::Not),
        bound_to(env.frames(), "list"@, BuiltinOp::ListOf),
        bound_to(env.frames(), "first"@, BuiltinOp::First),
        bound_to(env.frames(), "rest"@, BuiltinOp::Rest),
{
    builtins::standard_env()
}

} // verus!
