//! The built-in function registry: RND and INT.

use vstd::prelude::*;

use crate::errors::BasicError;
use crate::expression::{
    all_rnd_free, call_err, call_to, call_val, eval_expression, eval_to, eval_total, evaluable,
    spec_int_fn, Expression, Number,
};
use crate::fp::{random_unit_bits, trunc_bits, unit_float};
use crate::text::str_eq;
use crate::variables::Variables;

verus! {

broadcast use vstd::std_specs::vec::axiom_vec_index_decreases;

/// Evaluate a function call by name: RND takes no argument and returns a
/// float drawn from [0, 1); INT takes one argument and truncates it to an
/// integer. A wrong argument count or an unknown name is a runtime error.
pub fn eval_function(name: &String, args: &Vec<Expression>, variables: &Variables) -> (r: Result<
    Number,
    BasicError,
>)
    requires
        variables.wf(),
        forall|i: int| 0 <= i < args@.len() ==> evaluable(#[trigger] args@[i]),
    ensures
        r matches Ok(v) ==> call_to(*name, *args, variables@, v),
        r is Err ==> r->Err_0 is RuntimeError,
        name@ != "rnd"@ && all_rnd_free(*args) ==> match call_val(*name, *args, variables@) {
            Some(v) => r == Ok::<Number, BasicError>(v),
            None => r is Err,
        },
        ((name@ == "rnd"@ && args@.len() == 0) || (name@ == "int"@ && args@.len() == 1
            && eval_total(args@[0], variables@))) ==> r is Ok,
        all_rnd_free(*args) ==> match call_err(*name, *args, variables@) {
            Some(m) => r matches Err(e) && e is RuntimeError && e.text() == m,
            None => r is Ok,
        },
        (name@ == "rnd"@ && args@.len() != 0) ==> (r matches Err(e) && e.text()
            == "Incorrect number of arguments to function rnd"@),
        (name@ == "int"@ && args@.len() != 1) ==> (r matches Err(e) && e.text()
            == "Incorrect number of arguments to function int"@),
        (name@ != "rnd"@ && name@ != "int"@) ==> (r matches Err(e) && e.text()
            == "Unknown identifier "@ + name@),
    decreases *args,
{
    if str_eq(name.as_str(), "rnd") {
        proof {
            reveal_strlit("rnd");
            reveal_strlit("int");
            assert("rnd"@[0] != "int"@[0]);
        }
        if args.len() != 0 {
            return Err(
                BasicError::RuntimeError("Incorrect number of arguments to function rnd".to_owned()),
            );
        }
        let v = rnd();
        proof {
            assert(call_to(*name, *args, variables@, v));
        }
        Ok(v)
    } else if str_eq(name.as_str(), "int") {
        proof {
            reveal_strlit("rnd");
            reveal_strlit("int");
        }
        if args.len() != 1 {
            return Err(
                BasicError::RuntimeError("Incorrect number of arguments to function int".to_owned()),
            );
        }
        let a = match eval_expression(&args[0], variables) {
            Ok(a) => a,
            Err(e) => {
                return Err(e);
            },
        };
        let r0 = int_part(a);
        proof {
            assert(name@[0] == 'i' && "rnd"@[0] == 'r');
            assert(name@ != "rnd"@);
            assert(eval_to(args@[0], variables@, a) && r0 == spec_int_fn(a));
        }
        Ok(r0)
    } else {
        proof {
            reveal_strlit("rnd");
            reveal_strlit("int");
        }
        let mut m = "Unknown identifier ".to_owned();
        m.append(name.as_str());
        Err(BasicError::RuntimeError(m))
    }
}

/// The integer part of a value: a float truncated toward zero, an integer
/// unchanged.
pub fn int_part(v: Number) -> (r: Number)
    ensures
        r == spec_int_fn(v),
{
    match v {
        Number::Integer(i) => Number::Integer(i),
        Number::Float(b) => Number::Integer(trunc_bits(b)),
    }
}

/// A float drawn uniformly from [0, 1).
pub fn rnd() -> (r: Number)
    ensures
        r matches Number::Float(b) && unit_float(b),
{
    Number::Float(random_unit_bits())
}

} // verus!
