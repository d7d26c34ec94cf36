//! Properties of the rendered text that hold for every tree.

use vstd::prelude::*;
use crate::ast::{Expr, Function, Module, Sequential, Ty};
use crate::doc::{newline, INDENT};
use crate::num::decimal;
use crate::print::{
    action_lines, body_block, function_text, inputs_block, module_body, module_ok,
    module_text, seq_text, ty_ok, ty_text, expr_text,
};

verus! {

/// A vector of width two or more shows the range from its top bit down to
/// zero; a one-bit vector shows nothing; a zero-width vector is rejected.
pub proof fn lemma_vector_ranges(w: u64)
    ensures
        w >= 2 ==> ty_ok(Ty::Width(w)) && ty_text(Ty::Width(w)) == "["@ + decimal((w - 1) as nat)
            + ":0]"@,
        w == 1 ==> ty_ok(Ty::Width(w)) && ty_text(Ty::Width(w)) == Seq::<char>::empty(),
        w == 0 ==> !ty_ok(Ty::Width(w)),
{
    reveal_strlit(":");
    reveal_strlit("0");
    reveal_strlit("]");
    reveal_strlit(":0]");
    assert(":"@ + "0"@ + "]"@ =~= ":0]"@);
    if w >= 2 {
        assert(ty_text(Ty::Width(w)) =~= "["@ + decimal((w - 1) as nat) + ":0]"@);
    }
}

/// Equal modules are accepted alike and render to the same text.
pub proof fn lemma_rendering_deterministic(m1: Module, m2: Module, ind: nat)
    requires
        m1 == m2,
    ensures
        module_ok(m1) == module_ok(m2),
        module_text(m1, ind) == module_text(m2, ind),
{
}

/// A module without ports renders an empty parameter list; without body
/// statements as well, `endmodule` follows on the next line.
pub proof fn lemma_module_without_ports(m: Module, ind: nat)
    requires
        m.ports@.len() == 0,
    ensures
        module_text(m, ind) == "module "@ + m.name@ + " ();"@ + module_body(m.body@, ind)
            + newline(ind) + "endmodule"@ + newline(ind),
        m.body@.len() == 0 ==> module_text(m, ind) == "module "@ + m.name@ + " ();"@ + newline(ind)
            + "endmodule"@ + newline(ind),
{
    reveal_strlit("module");
    reveal_strlit(" ");
    reveal_strlit("module ");
    reveal_strlit("(");
    reveal_strlit(")");
    reveal_strlit(";");
    reveal_strlit(" ();");
    assert(module_text(m, ind) =~= "module "@ + m.name@ + " ();"@ + module_body(m.body@, ind)
        + newline(ind) + "endmodule"@ + newline(ind));
}

/// The header of a function up to its input block.
pub open spec fn function_header(f: Function) -> Seq<char> {
    "function "@ + ty_text(f.ret) + " "@ + f.name@ + ";"@
}

/// A function without body actions has no `begin` and `end`; with actions,
/// they stand between `begin` and `end`, each on a line one indentation
/// level deeper than the line that closes with `end`.
pub proof fn lemma_function_body(f: Function, ind: nat)
    ensures
        f.body@.len() == 0 ==> function_text(f, ind) == function_header(f) + inputs_block(
            f.inputs@,
            ind,
        ) + newline(ind) + "endfunction"@,
        f.body@.len() > 0 ==> function_text(f, ind) == function_header(f) + inputs_block(
            f.inputs@,
            ind,
        ) + "begin"@ + action_lines(f.body@, f.body@.len(), (ind + INDENT) as nat) + newline(ind)
            + "end"@ + newline(ind) + "endfunction"@,
{
    reveal_strlit("function");
    reveal_strlit(" ");
    reveal_strlit("function ");
    assert("function"@ + " "@ =~= "function "@);
    if f.body@.len() == 0 {
        assert(body_block(f.body@, ind) =~= Seq::<char>::empty());
        assert(function_text(f, ind) =~= function_header(f) + inputs_block(f.inputs@, ind)
            + newline(ind) + "endfunction"@);
    } else {
        assert(function_text(f, ind) =~= function_header(f) + inputs_block(f.inputs@, ind)
            + "begin"@ + action_lines(f.body@, f.body@.len(), (ind + INDENT) as nat) + newline(
            ind,
        ) + "end"@ + newline(ind) + "endfunction"@);
    }
}

/// Each action of a non-empty body stands on a line of its own, at the
/// given indentation and closed by a separator.
pub proof fn lemma_action_line(b: Seq<Sequential>, n: nat, ind: nat)
    requires
        1 <= n <= b.len(),
    ensures
        action_lines(b, n, ind) == action_lines(b, (n - 1) as nat, ind) + newline(ind) + seq_text(
            b[n - 1],
        ) + ";"@,
{
}

/// An assertion shows its condition, and its recovery action after `else`
/// where it has one.
pub proof fn lemma_assertion_text(e: Expr, recovery: Option<Box<Sequential>>)
    ensures
        recovery is None ==> seq_text(Sequential::Assert(e, recovery)) == "assert("@ + expr_text(e)
            + ")"@,
        recovery matches Some(b) ==> seq_text(Sequential::Assert(e, recovery)) == "assert("@
            + expr_text(e) + ") else "@ + seq_text(*b),
{
    reveal_strlit("assert");
    reveal_strlit("(");
    reveal_strlit("assert(");
    reveal_strlit(")");
    reveal_strlit(" ");
    reveal_strlit("else");
    reveal_strlit(") else ");
    assert("assert"@ + "("@ =~= "assert("@);
    match recovery {
        Some(b) => {
            assert(seq_text(Sequential::Assert(e, recovery)) =~= "assert("@ + expr_text(e)
                + ") else "@ + seq_text(*b));
        },
        None => {
            assert(seq_text(Sequential::Assert(e, recovery)) =~= "assert("@ + expr_text(e)
                + ")"@);
        },
    }
}

} // verus!
