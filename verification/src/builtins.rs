//! The standard environment: a fresh root frame seeded with the built-in
//! arithmetic, comparison, logical and list operations.

use vstd::prelude::*;
use vstd::string::StringExecFns;

use crate::env::Environment;
use crate::env::Frame;
use crate::env::frame_find;
use crate::value::BuiltinOp;
use crate::value::Function;
use crate::value::Value;

verus! {

/// The root frame binds `name` to the built-in operation `op`.
pub open spec fn bound_to(fs: Seq<Frame>, name: Seq<char>, op: BuiltinOp) -> bool {
    match frame_find(fs[0].bindings@, name) {
        Some(v) => v matches Value::Function(f) && f.is_builtin && f.builtin_op == Some(op),
        None => false,
    }
}

/// Binds one built-in operation under its name in the root frame.
fn register_builtin(env: &mut Environment, name: &str, op: BuiltinOp)
    requires
        old(env).wf(),
    ensures
        final(env).wf(),
        final(env).frames().len() == old(env).frames().len(),
        forall|i: int|
            1 <= i < old(env).frames().len() ==> final(env).frames()[i] == old(env).frames()[i],
        final(env).frames()[0].outer == old(env).frames()[0].outer,
        frame_find(final(env).frames()[0].bindings@, name@) matches Some(v) && (v matches
            Value::Function(f) && f.is_builtin && f.builtin_op == Some(op)),
        forall|nm: Seq<char>|
            nm != name@ ==> #[trigger] frame_find(final(env).frames()[0].bindings@, nm)
                == frame_find(old(env).frames()[0].bindings@, nm),
{
    env.set(String::from_str(name), Value::Function(Function::builtin(op)));
}

/// Registers the arithmetic operations.
#[verifier::rlimit(100)]
fn register_arithmetic_ops(env: &mut Environment)
    requires
        old(env).wf(),
    ensures
        final(env).wf(),
        final(env).frames().len() == old(env).frames().len(),
        forall|i: int|
            1 <= i < old(env).frames().len() ==> final(env).frames()[i] == old(env).frames()[i],
        final(env).frames()[0].outer == old(env).frames()[0].outer,
        bound_to(final(env).frames(), "+"@, BuiltinOp::Add),
        bound_to(final(env).frames(), "-"@, BuiltinOp::Sub),
        bound_to(final(env).frames(), "*"@, BuiltinOp::Mul),
        bound_to(final(env).frames(), "/"@, BuiltinOp::Div),
        forall|nm: Seq<char>|
            nm != "+"@ && nm != "-"@ && nm != "*"@ && nm != "/"@ ==> #[trigger] frame_find(
                final(env).frames()[0].bindings@,
                nm,
            ) == frame_find(old(env).frames()[0].bindings@, nm),
{
    proof {
        reveal_strlit("+");
        reveal_strlit("-");
        reveal_strlit("*");
        reveal_strlit("/");
        assert("+"@[0] == '+' && "+"@.len() == 1);
        assert("-"@[0] == '-' && "-"@.len() == 1);
        assert("*"@[0] == '*' && "*"@.len() == 1);
        assert("/"@[0] == '/' && "/"@.len() == 1);
        assert("+"@ != "-"@ && "+"@ != "*"@ && "+"@ != "/"@);
        assert("-"@ != "*"@ && "-"@ != "/"@ && "*"@ != "/"@);
    }
    register_builtin(env, "+", BuiltinOp::Add);
    register_builtin(env, "-", BuiltinOp::Sub);
    register_builtin(env, "*", BuiltinOp::Mul);
    register_builtin(env, "/", BuiltinOp::Div);
}

/// Registers the comparison operations.
#[verifier::rlimit(100)]
fn register_comparison_ops(env: &mut Environment)
    requires
        old(env).wf(),
    ensures
        final(env).wf(),
        final(env).frames().len() == old(env).frames().len(),
        forall|i: int|
            1 <= i < old(env).frames().len() ==> final(env).frames()[i] == old(env).frames()[i],
        final(env).frames()[0].outer == old(env).frames()[0].outer,
        bound_to(final(env).frames(), "="@, BuiltinOp::Equal),
        bound_to(final(env).frames(), "<"@, BuiltinOp::Less),
        bound_to(final(env).frames(), ">"@, BuiltinOp::Greater),
        forall|nm: Seq<char>|
            nm != "="@ && nm != "<"@ && nm != ">"@ ==> #[trigger] frame_find(
                final(env).frames()[0].bindings@,
                nm,
            ) == frame_find(old(env).frames()[0].bindings@, nm),
{
    proof {
        reveal_strlit("=");
        reveal_strlit("<");
        reveal_strlit(">");
        assert("="@[0] == '=' && "="@.len() == 1);
        assert("<"@[0] == '<' && "<"@.len() == 1);
        assert(">"@[0] == '>' && ">"@.len() == 1);
        assert("="@ != "<"@ && "="@ != ">"@ && "<"@ != ">"@);
    }
    register_builtin(env, "=", BuiltinOp::Equal);
    register_builtin(env, "<", BuiltinOp::Less);
    register_builtin(env, ">", BuiltinOp::Greater);
}

/// Registers the logical operations.
#[verifier::rlimit(100)]
fn register_logical_ops(env: &mut Environment)
    requires
        old(env).wf(),
    ensures
        final(env).wf(),
        final(env).frames().len() == old(env).frames().len(),
        forall|i: int|
            1 <= i < old(env).frames().len() ==> final(env).frames()[i] == old(env).frames()[i],
        final(env).frames()[0].outer == old(env).frames()[0].outer,
        bound_to(final(env).frames(), "not"@, BuiltinOp::Not),
        forall|nm: Seq<char>|
            nm != "not"@ ==> #[trigger] frame_find(final(env).frames()[0].bindings@, nm)
                == frame_find(old(env).frames()[0].bindings@, nm),
{
    register_builtin(env, "not", BuiltinOp::Not);
}

/// Registers the list operations.
#[verifier::rlimit(100)]
fn register_list_ops(env: &mut Environment)
    requires
        old(env).wf(),
    ensures
        final(env).wf(),
        final(env).frames().len() == old(env).frames().len(),
        forall|i: int|
            1 <= i < old(env).frames().len() ==> final(env).frames()[i] == old(env).frames()[i],
        final(env).frames()[0].outer == old(env).frames()[0].outer,
        bound_to(final(env).frames(), "list"@, BuiltinOp::ListOf),
        bound_to(final(env).frames(), "first"@, BuiltinOp::First),
        bound_to(final(env).frames(), "rest"@, BuiltinOp::Rest),
        forall|nm: Seq<char>|
            nm != "list"@ && nm != "first"@ && nm != "rest"@ ==> #[trigger] frame_find(
                final(env).frames()[0].bindings@,
                nm,
            ) == frame_find(old(env).frames()[0].bindings@, nm),
{
    proof {
        reveal_strlit("list");
        reveal_strlit("first");
        reveal_strlit("rest");
        assert("list"@[0] == 'l' && "list"@.len() == 4);
        assert("first"@[0] == 'f' && "first"@.len() == 5);
        assert("rest"@[0] == 'r' && "rest"@.len() == 4);
        assert("list"@ != "first"@ && "list"@ != "rest"@ && "first"@ != "rest"@);
    }
    register_builtin(env, "list", BuiltinOp::ListOf);
    register_builtin(env, "first", BuiltinOp::First);
    register_builtin(env, "rest", BuiltinOp::Rest);
}

/// Creates a new standard environment: one root frame holding every
/// built-in under its name.
#[verifier::rlimit(100)]
pub fn standard_env() -> (env: Environment)
    ensures
        env.wf(),
        env.frames().len() == 1,
        env.frames()[0].outer is None,
        forall|nm: Seq<char>|
            !(nm == "+"@ || nm == "-"@ || nm == "*"@ || nm == "/"@ || nm == "="@ || nm == "<"@
                || nm == ">"@ || nm == "not"@ || nm == "list"@ || nm == "first"@ || nm
                == "rest"@) ==> #[trigger] frame_find(env.frames()[0].bindings@, nm) is None,
        bound_to(env.frames(), "+"@, BuiltinOp::Add),
        bound_to(env.frames(), "-"@, BuiltinOp::Sub),
        bound_to(env.frames(), "*"@, BuiltinOp::Mul),
        bound_to(env.frames(), "/"@, BuiltinOp::Div),
        bound_to(env.frames(), "="@, BuiltinOp::Equal),
        bound_to(env.frames(), "<"@, BuiltinOp::Less),
        bound_to(env.frames(), ">"@, BuiltinOp::Greater),
        bound_to(env.frames(), "not"@, BuiltinOp::Not),
        bound_to(env.frames(), "list"@, BuiltinOp::ListOf),
        bound_to(env.frames(), "first"@, BuiltinOp::First),
        bound_to(env.frames(), "rest"@, BuiltinOp::Rest),
{
    proof {
        reveal_strlit("+");
        reveal_strlit("-");
        reveal_strlit("*");
        reveal_strlit("/");
        reveal_strlit("=");
        reveal_strlit("<");
        reveal_strlit(">");
        reveal_strlit("not");
        reveal_strlit("list");
        reveal_strlit("first");
        reveal_strlit("rest");
        assert("+"@[0] == '+' && "+"@.len() == 1);
        assert("-"@[0] == '-' && "-"@.len() == 1);
        assert("*"@[0] == '*' && "*"@.len() == 1);
        assert("/"@[0] == '/' && "/"@.len() == 1);
        assert("="@[0] == '=' && "="@.len() == 1);
        assert("<"@[0] == '<' && "<"@.len() == 1);
        assert(">"@[0] == '>' && ">"@.len() == 1);
        assert("not"@[0] == 'n' && "not"@.len() == 3);
        assert("list"@[0] == 'l' && "list"@.len() == 4);
        assert("first"@[0] == 'f' && "first"@.len() == 5);
        assert("rest"@[0] == 'r' && "rest"@.len() == 4);
    }
    let mut env = Environment::new();
    register_arithmetic_ops(&mut env);
    proof {
        assert("+"@ != "="@ && "+"@ != "<"@ && "+"@ != ">"@);
        assert("-"@ != "="@ && "-"@ != "<"@ && "-"@ != ">"@);
        assert("*"@ != "="@ && "*"@ != "<"@ && "*"@ != ">"@);
        assert("/"@ != "="@ && "/"@ != "<"@ && "/"@ != ">"@);
    }
    register_comparison_ops(&mut env);
    proof {
        assert(bound_to(env.frames(), "+"@, BuiltinOp::Add));
        assert(bound_to(env.frames(), "-"@, BuiltinOp::Sub));
        assert(bound_to(env.frames(), "*"@, BuiltinOp::Mul));
        assert(bound_to(env.frames(), "/"@, BuiltinOp::Div));
    }
    register_logical_ops(&mut env);
    proof {
        assert(bound_to(env.frames(), "+"@, BuiltinOp::Add));
        assert(bound_to(env.frames(), "-"@, BuiltinOp::Sub));
        assert(bound_to(env.frames(), "*"@, BuiltinOp::Mul));
        assert(bound_to(env.frames(), "/"@, BuiltinOp::Div));
        assert(bound_to(env.frames(), "="@, BuiltinOp::Equal));
        assert(bound_to(env.frames(), "<"@, BuiltinOp::Less));
        assert(bound_to(env.frames(), ">"@, BuiltinOp::Greater));
    }
    register_list_ops(&mut env);
    proof {
        assert(bound_to(env.frames(), "+"@, BuiltinOp::Add));
        assert(bound_to(env.frames(), "-"@, BuiltinOp::Sub));
        assert(bound_to(env.frames(), "*"@, BuiltinOp::Mul));
        assert(bound_to(env.frames(), "/"@, BuiltinOp::Div));
        assert(bound_to(env.frames(), "="@, BuiltinOp::Equal));
        assert(bound_to(env.frames(), "<"@, BuiltinOp::Less));
        assert(bound_to(env.frames(), ">"@, BuiltinOp::Greater));
        assert(bound_to(env.frames(), "not"@, BuiltinOp::Not));
    }
    env
}

} // verus!
