//! Built-in functions of the scripting layer.

use vstd::prelude::*;
use super::{EvalError, Value};

verus! {

#[derive(Clone, Copy, Debug)]
pub struct ArrayReverse {}

impl ArrayReverse {
    /// Takes exactly one argument, an array, and gives the array with its
    /// elements in reverse order and the same element type. The arguments are
    /// taken over, as the elements move into the result.
    pub fn exec(&self, v: Vec<Value>) -> (r: Result<Value, EvalError>)
        ensures
            v@.len() != 1 ==> (r matches Err(EvalError::InvalidNumArgs(e, a)) && e == 1 && a == v@.len()),
            v@.len() == 1 ==> match v@[0] {
                Value::Array(a, t) => r matches Ok(Value::Array(b, t2)) && b@ == a@.reverse() && t2 == t,
                _ => r matches Err(EvalError::TypeMismatch(m)) && m@ == "Not an array"@,
            },
    {
        if v.len() != 1 {
            return Err(EvalError::InvalidNumArgs(1, v.len()));
        }
        let mut v = v;
        let x = match v.pop() {
            Some(x) => x,
            None => {
                return Err(EvalError::InvalidNumArgs(1, 0));
            },
        };
        match x {
            Value::Array(a, t) => {
                let ghost a0 = a@;
                let mut a = a;
                let mut res: Vec<Value> = Vec::new();
                while a.len() > 0
                    invariant
                        a@.len() <= a0.len(),
                        a@ == a0.subrange(0, a@.len() as int),
                        res@.len() == a0.len() - a@.len(),
                        forall|k: int| 0 <= k < res@.len() ==> #[trigger] res@[k] == a0[a0.len() - 1 - k],
                    decreases a@.len(),
                {
                    let ghost before = a@;
                    let y = a.pop().unwrap();
                    proof {
                        assert(y == a0[before.len() - 1]);
                        assert(a@ =~= a0.subrange(0, a@.len() as int));
                    }
                    res.push(y);
                }
                proof {
                    if a0.len() == 0 {
                        assert(res@ =~= a0.reverse());
                    } else {
                        assert(res@ =~= Seq::new(a0.len(), |i: int| a0[a0.len() - 1 - i]));
                    }
                }
                Ok(Value::Array(res, t))
            },
            _ => {
                let m = "Not an array";
                proof {
                    reveal_strlit("Not an array");
                }
                Err(EvalError::TypeMismatch(m.to_owned()))
            },
        }
    }
}

#[derive(Clone, Copy, Debug)]
pub struct Print {}

#[derive(Clone, Copy, Debug)]
pub struct Generator {}

} // verus!
