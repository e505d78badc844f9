use vstd::prelude::*;

use crate::interpreter::semantics::{spec_arith, spec_bridged};
use crate::ir::{
    deque_view, duplicate_deque, lemma_list_view, lemma_values_map, value_view, values_view, Bridged,
    Value,
};
use crate::parser::fault::Outcome;

verus! {

/// `values_view` of a list with one more value at its end.
pub proof fn lemma_values_push(s: Seq<Value>, v: Value)
    ensures
        values_view(s.push(v)) == values_view(s).push(value_view(v)),
{
    assert(s.push(v).drop_last() =~= s);
}

/// The integer operation of a builtin with index at most 3.
fn arith(id: u16, x: i64, y: i64) -> (r: Option<i64>)
    requires
        id <= 3,
    ensures
        r == spec_arith(id, x, y),
{
    if id == 0 {
        x.checked_add(y)
    } else if id == 1 {
        x.checked_sub(y)
    } else if id == 2 {
        x.checked_mul(y)
    } else {
        x.checked_div(y)
    }
}

/// Runs the builtin with index `index` on `args`; `None` on the arguments where the
/// builtin panics.
pub fn eval_bridged(index: Bridged, args: &Vec<Value>) -> (r: Option<Value>)
    ensures
        match spec_bridged(index.0, values_view(args@)) {
            Outcome::Done(v) => r matches Some(x) && x@ == v,
            _ => r is None,
        },
{
    proof {
        lemma_values_map(args@);
    }
    let id = index.0;
    if id <= 3 {
        if args.len() < 2 {
            return None;
        }
        proof {
            assert(values_view(args@)[0] == value_view(args@[0]));
            assert(values_view(args@)[1] == value_view(args@[1]));
        }
        match (&args[0], &args[1]) {
            (Value::Int(x), Value::Int(y)) => match arith(id, *x, *y) {
                Some(n) => Some(Value::Int(n)),
                None => None,
            },
            _ => None,
        }
    } else if id == 4 || id == 5 {
        if args.len() < 2 {
            return None;
        }
        proof {
            assert(values_view(args@)[1] == value_view(args@[1]));
        }
        match &args[1] {
            Value::List(l) => {
                proof {
                    lemma_list_view(*l);
                }
                let mut nl = duplicate_deque(l);
                let x = args[0].duplicate();
                let ghost before = nl;
                if id == 4 {
                    nl.push_back(x);
                    assert(deque_view(nl) =~= deque_view(before).push(value_view(x)));
                } else {
                    nl.push_front(x);
                    assert(deque_view(nl) =~= seq![value_view(x)] + deque_view(before));
                }
                proof {
                    lemma_list_view(nl);
                }
                Some(Value::List(nl))
            },
            _ => None,
        }
    } else if id == 6 {
        if args.len() < 2 {
            return None;
        }
        proof {
            assert(values_view(args@)[0] == value_view(args@[0]));
            assert(values_view(args@)[1] == value_view(args@[1]));
        }
        match (&args[0], &args[1]) {
            (Value::Int(i), Value::List(l)) => {
                proof {
                    lemma_list_view(*l);
                }
                let k: i64 = *i;
                let n: usize = l.len();
                if k < 0 || (k as u64) >= (n as u64) {
                    assert(!(0 <= k < n)) by (bit_vector)
                        requires
                            k < 0 || (k as u64) >= (n as u64),
                    ;
                    return None;
                }
                assert(0 <= k < n && k as usize == k) by (bit_vector)
                    requires
                        k >= 0 && (k as u64) < (n as u64),
                ;
                Some(l[k as usize].duplicate())
            },
            _ => None,
        }
    } else if id == 7 {
        if args.len() < 1 {
            return None;
        }
        proof {
            assert(values_view(args@)[0] == value_view(args@[0]));
        }
        match &args[0] {
            Value::List(l) => {
                proof {
                    lemma_list_view(*l);
                }
                Some(Value::Int(l.len() as i64))
            },
            _ => None,
        }
    } else {
        None
    }
}

} // verus!
