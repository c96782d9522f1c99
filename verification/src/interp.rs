//! The evaluator: reduction of source values under an environment frame,
//! special-form dispatch, application of closures and primitives, and the
//! installation of the primitive library.
//!
//! The whole evaluation relation is written down twice: once as the spec
//! functions `spec_eval` and company, which are the mathematical semantics of
//! the language over the heap and environment models, and once as executable
//! code whose contracts say that it computes exactly that relation (with the
//! error messages left free and only the error kinds pinned down). Evaluation
//! of user programs need not terminate, so both sides carry a depth budget;
//! exhausting it is an evaluation error.

use vstd::prelude::*;

use crate::env::{
    define_spec, env_parents_wf, env_vals_valid, extend_spec, lookup_chain, set_bang_spec, Env,
    FrameModel,
};
use crate::float::FloatHost;
use crate::heap::{
    all_valid, alloc_list_spec, keyword_from_id, list_elems, valid_value, Closure, Heap, Keyword,
    ObjModel, PrimOp,
};
use crate::numbers::{
    kind_res, num_add, num_cmp, num_div, num_mul, num_neg, num_rem, num_sub, spec_num_add,
    spec_num_cmp, spec_num_div, spec_num_mul, spec_num_neg, spec_num_rem, spec_num_sub,
};
use crate::types::{ErrKind, GcId, Number, SchemeError, Value};

verus! {

/// The whole mutable state of an interpreter: the heap model, the frame
/// arena model, and the pending exit request.
#[verifier::ext_equal]
pub struct SState {
    pub heap: Seq<ObjModel>,
    pub frames: Seq<FrameModel>,
    pub exit: Option<i32>,
}

/// A state is well-formed when the heap points down, environment values point
/// into the heap, parents point down, and closures capture existing frames.
pub open spec fn st_wf(st: SState) -> bool {
    &&& crate::heap::heap_wf(st.heap)
    &&& env_parents_wf(st.frames)
    &&& env_vals_valid(st.frames, st.heap.len() as int)
    &&& st.frames.len() >= 1
    &&& closures_env_ok(st.heap, st.frames.len() as int)
}

/// Every closure in the heap captures a frame below `m`.
pub open spec fn closures_env_ok(h: Seq<ObjModel>, m: int) -> bool {
    forall|i: int|
        0 <= i < h.len() ==> ((#[trigger] h[i]) matches ObjModel::Closure(_p, _b, e) ==> e < m)
}

/// Extending a heap with non-closures keeps `closures_env_ok`.
pub proof fn lemma_closures_env_ok_extend(h0: Seq<ObjModel>, h2: Seq<ObjModel>, m: int)
    requires
        h0.is_prefix_of(h2),
        closures_env_ok(h0, m),
        forall|i: int| h0.len() <= i < h2.len() ==> !((#[trigger] h2[i]) matches ObjModel::Closure(
            _p,
            _b,
            _e,
        )),
    ensures
        closures_env_ok(h2, m),
{
    assert forall|i: int|
        0 <= i < h2.len() implies ((#[trigger] h2[i]) matches ObjModel::Closure(_p, _b, e) ==> e
        < m) by {
        if i < h0.len() {
            assert(h2[i] == h0[i]);
        }
    }
}

/// The numbers carried by the arguments, or `None` at the first non-number.
pub open spec fn nums_of(args: Seq<Value>, i: int, acc: Seq<Number>) -> Option<Seq<Number>>
    decreases args.len() - i,
{
    if i < 0 || i >= args.len() {
        Some(acc)
    } else {
        match args[i] {
            Value::Number(n) => nums_of(args, i + 1, acc.push(n)),
            _ => None,
        }
    }
}

/// Left fold of addition over the numbers from index `i`.
pub open spec fn spec_fold_add<F: FloatHost>(nums: Seq<Number>, i: int, acc: Number) -> Result<
    Number,
    ErrKind,
>
    decreases nums.len() - i,
{
    if i < 0 || i >= nums.len() {
        Ok(acc)
    } else {
        match spec_num_add::<F>(acc, nums[i]) {
            Ok(acc2) => spec_fold_add::<F>(nums, i + 1, acc2),
            Err(k) => Err(k),
        }
    }
}

/// Left fold of multiplication over the numbers from index `i`.
pub open spec fn spec_fold_mul<F: FloatHost>(nums: Seq<Number>, i: int, acc: Number) -> Result<
    Number,
    ErrKind,
>
    decreases nums.len() - i,
{
    if i < 0 || i >= nums.len() {
        Ok(acc)
    } else {
        match spec_num_mul::<F>(acc, nums[i]) {
            Ok(acc2) => spec_fold_mul::<F>(nums, i + 1, acc2),
            Err(k) => Err(k),
        }
    }
}

/// Left fold of subtraction over the numbers from index `i`.
pub open spec fn spec_fold_sub<F: FloatHost>(nums: Seq<Number>, i: int, acc: Number) -> Result<
    Number,
    ErrKind,
>
    decreases nums.len() - i,
{
    if i < 0 || i >= nums.len() {
        Ok(acc)
    } else {
        match spec_num_sub::<F>(acc, nums[i]) {
            Ok(acc2) => spec_fold_sub::<F>(nums, i + 1, acc2),
            Err(k) => Err(k),
        }
    }
}

/// Left fold of division over the numbers from index `i`; always a float.
pub open spec fn spec_fold_div<F: FloatHost>(nums: Seq<Number>, i: int, acc: Number) -> Number
    decreases nums.len() - i,
{
    if i < 0 || i >= nums.len() {
        acc
    } else {
        spec_fold_div::<F>(nums, i + 1, spec_num_div::<F>(acc, nums[i]))
    }
}

/// Left fold of the larger-of-two over the numbers from index `i`.
pub open spec fn spec_fold_max<F: FloatHost>(nums: Seq<Number>, i: int, acc: Number) -> Number
    decreases nums.len() - i,
{
    if i < 0 || i >= nums.len() {
        acc
    } else {
        let next = if spec_num_cmp::<F>(acc, nums[i]) == Some(1i8) {
            acc
        } else {
            nums[i]
        };
        spec_fold_max::<F>(nums, i + 1, next)
    }
}

/// Left fold of the smaller-of-two over the numbers from index `i`.
pub open spec fn spec_fold_min<F: FloatHost>(nums: Seq<Number>, i: int, acc: Number) -> Number
    decreases nums.len() - i,
{
    if i < 0 || i >= nums.len() {
        acc
    } else {
        let next = if spec_num_cmp::<F>(acc, nums[i]) == Some(-1i8) {
            acc
        } else {
            nums[i]
        };
        spec_fold_min::<F>(nums, i + 1, next)
    }
}

/// Whether a comparison primitive accepts the ordering `c`.
pub open spec fn cmp_accepts(op: PrimOp, c: Option<i8>) -> bool {
    match op {
        PrimOp::NumEq => c == Some(0i8),
        PrimOp::NumLt => c == Some(-1i8),
        PrimOp::NumGt => c == Some(1i8),
        PrimOp::NumLe => c == Some(-1i8) || c == Some(0i8),
        PrimOp::NumGe => c == Some(1i8) || c == Some(0i8),
        _ => false,
    }
}

/// Whether `v` heads a cons chain: `Nil` or a reference to a pair.
pub open spec fn spec_is_list(h: Seq<ObjModel>, v: Value) -> bool {
    match v {
        Value::Nil => true,
        Value::Object(id) => id < h.len() && h[id as int] matches ObjModel::Pair(_a, _d),
        _ => false,
    }
}

/// What applying a built-in operator to evaluated arguments does to the
/// state, and what it returns.
pub open spec fn spec_apply_prim<F: FloatHost>(st: SState, op: PrimOp, args: Seq<Value>) -> (
    SState,
    Result<Value, ErrKind>,
) {
    match op {
        PrimOp::Add => match nums_of(args, 0, Seq::empty()) {
            None => (st, Err(ErrKind::Type)),
            Some(nums) => match spec_fold_add::<F>(nums, 0, Number::Int(0)) {
                Ok(n) => (st, Ok(Value::Number(n))),
                Err(k) => (st, Err(k)),
            },
        },
        PrimOp::Mul => match nums_of(args, 0, Seq::empty()) {
            None => (st, Err(ErrKind::Type)),
            Some(nums) => match spec_fold_mul::<F>(nums, 0, Number::Int(1)) {
                Ok(n) => (st, Ok(Value::Number(n))),
                Err(k) => (st, Err(k)),
            },
        },
        PrimOp::Sub => match nums_of(args, 0, Seq::empty()) {
            None => (st, Err(ErrKind::Type)),
            Some(nums) => if nums.len() == 0 {
                (st, Err(ErrKind::ArgCount))
            } else if nums.len() == 1 {
                match spec_num_neg::<F>(nums[0]) {
                    Ok(n) => (st, Ok(Value::Number(n))),
                    Err(k) => (st, Err(k)),
                }
            } else {
                match spec_fold_sub::<F>(nums, 1, nums[0]) {
                    Ok(n) => (st, Ok(Value::Number(n))),
                    Err(k) => (st, Err(k)),
                }
            },
        },
        PrimOp::Div => match nums_of(args, 0, Seq::empty()) {
            None => (st, Err(ErrKind::Type)),
            Some(nums) => if nums.len() == 0 {
                (st, Err(ErrKind::ArgCount))
            } else if nums.len() == 1 {
                (st, Ok(Value::Number(spec_num_div::<F>(Number::Int(1), nums[0]))))
            } else {
                (st, Ok(Value::Number(spec_fold_div::<F>(nums, 1, nums[0]))))
            },
        },
        PrimOp::Rem => if args.len() != 2 {
            (st, Err(ErrKind::ArgCount))
        } else {
            match (args[0], args[1]) {
                (Value::Number(a), Value::Number(b)) => match spec_num_rem::<F>(a, b) {
                    Ok(n) => (st, Ok(Value::Number(n))),
                    Err(k) => (st, Err(k)),
                },
                _ => (st, Err(ErrKind::Type)),
            }
        },
        PrimOp::NumEq | PrimOp::NumLt | PrimOp::NumGt | PrimOp::NumLe | PrimOp::NumGe => if args.len() != 2 {
            (st, Err(ErrKind::ArgCount))
        } else {
            match (args[0], args[1]) {
                (Value::Number(a), Value::Number(b)) => (
                    st,
                    Ok(Value::Boolean(cmp_accepts(op, spec_num_cmp::<F>(a, b)))),
                ),
                _ => (st, Err(ErrKind::Type)),
            }
        },
        PrimOp::NumMax => match nums_of(args, 0, Seq::empty()) {
            None => (st, Err(ErrKind::Type)),
            Some(nums) => if nums.len() == 0 {
                (st, Err(ErrKind::ArgCount))
            } else {
                (st, Ok(Value::Number(spec_fold_max::<F>(nums, 1, nums[0]))))
            },
        },
        PrimOp::NumMin => match nums_of(args, 0, Seq::empty()) {
            None => (st, Err(ErrKind::Type)),
            Some(nums) => if nums.len() == 0 {
                (st, Err(ErrKind::ArgCount))
            } else {
                (st, Ok(Value::Number(spec_fold_min::<F>(nums, 1, nums[0]))))
            },
        },
        PrimOp::IsNumber => if args.len() != 1 {
            (st, Err(ErrKind::ArgCount))
        } else {
            (st, Ok(Value::Boolean(args[0] matches Value::Number(_))))
        },
        PrimOp::IsInteger => if args.len() != 1 {
            (st, Err(ErrKind::ArgCount))
        } else {
            (st, Ok(Value::Boolean(args[0] matches Value::Number(Number::Int(_)))))
        },
        PrimOp::IsFloat => if args.len() != 1 {
            (st, Err(ErrKind::ArgCount))
        } else {
            (st, Ok(Value::Boolean(args[0] matches Value::Number(Number::Float(_)))))
        },
        PrimOp::List => {
            let (h2, v) = alloc_list_spec(st.heap, args);
            (SState { heap: h2, ..st }, Ok(v))
        },
        PrimOp::IsList => if args.len() != 1 {
            (st, Err(ErrKind::ArgCount))
        } else {
            (st, Ok(Value::Boolean(spec_is_list(st.heap, args[0]))))
        },
        PrimOp::IsNull => if args.len() != 1 {
            (st, Err(ErrKind::ArgCount))
        } else {
            (st, Ok(Value::Boolean(args[0] == Value::Nil)))
        },
        PrimOp::Cons => if args.len() != 2 {
            (st, Err(ErrKind::ArgCount))
        } else {
            (
                SState { heap: st.heap.push(ObjModel::Pair(args[0], args[1])), ..st },
                Ok(Value::Object(st.heap.len() as usize)),
            )
        },
        PrimOp::Car => if args.len() != 1 {
            (st, Err(ErrKind::ArgCount))
        } else {
            match args[0] {
                Value::Object(id) => if id < st.heap.len() {
                    match st.heap[id as int] {
                        ObjModel::Pair(car, _cdr) => (st, Ok(car)),
                        _ => (st, Err(ErrKind::Type)),
                    }
                } else {
                    (st, Err(ErrKind::Implementation))
                },
                _ => (st, Err(ErrKind::Type)),
            }
        },
        PrimOp::Cdr => if args.len() != 1 {
            (st, Err(ErrKind::ArgCount))
        } else {
            match args[0] {
                Value::Object(id) => if id < st.heap.len() {
                    match st.heap[id as int] {
                        ObjModel::Pair(_car, cdr) => (st, Ok(cdr)),
                        _ => (st, Err(ErrKind::Type)),
                    }
                } else {
                    (st, Err(ErrKind::Implementation))
                },
                _ => (st, Err(ErrKind::Type)),
            }
        },
        PrimOp::Quit => if args.len() != 1 {
            (st, Err(ErrKind::ArgCount))
        } else {
            match args[0] {
                Value::Number(Number::Int(x)) => if i32::MIN <= x <= i32::MAX {
                    (SState { exit: Some(x as i32), ..st }, Ok(Value::Nil))
                } else {
                    (st, Err(ErrKind::Overflow))
                },
                Value::Number(Number::Float(p)) => match F::to_i32_spec(p) {
                    Some(c) => (SState { exit: Some(c), ..st }, Ok(Value::Nil)),
                    None => (st, Err(ErrKind::Overflow)),
                },
                _ => (st, Err(ErrKind::Type)),
            }
        },
    }
}

/// The parameter identifiers of a lambda's parameter list, or `None` when
/// some element is not a symbol.
pub open spec fn extract_params(h: Seq<ObjModel>, elems: Seq<Value>, i: int, acc: Seq<GcId>) -> Option<
    Seq<GcId>,
>
    decreases elems.len() - i,
{
    if i < 0 || i >= elems.len() {
        Some(acc)
    } else {
        match elems[i] {
            Value::Object(pid) => if pid < h.len() && h[pid as int] matches ObjModel::Symbol(_n) {
                extract_params(h, elems, i + 1, acc.push(pid))
            } else {
                None
            },
            _ => None,
        }
    }
}

/// Binds parameters to arguments positionally in frame `fid`.
pub open spec fn bind_params(
    frames: Seq<FrameModel>,
    fid: usize,
    params: Seq<GcId>,
    args: Seq<Value>,
    i: int,
) -> Seq<FrameModel>
    decreases params.len() - i,
{
    if i < 0 || i >= params.len() || i >= args.len() {
        frames
    } else {
        bind_params(define_spec(frames, fid, params[i], args[i]), fid, params, args, i + 1)
    }
}

/// Evaluates a source value under frame `fid` with `fuel` depth budget left:
/// scalars, strings, primitives and closures evaluate to themselves, symbols
/// to their nearest binding, and a pair dispatches as a special form when its
/// operator is a reserved keyword identifier, else as an application.
pub open spec fn spec_eval<F: FloatHost>(st: SState, v: Value, fid: usize, fuel: u64) -> (
    SState,
    Result<Value, ErrKind>,
)
    decreases fuel, 4int, 0int,
{
    if fuel == 0 {
        (st, Err(ErrKind::Eval))
    } else {
        match v {
            Value::Object(id) => if id < st.heap.len() {
                match st.heap[id as int] {
                    ObjModel::Symbol(_name) => match lookup_chain(st.frames, fid, id) {
                        Some(w) => (st, Ok(w)),
                        None => (st, Err(ErrKind::Unbound)),
                    },
                    ObjModel::Pair(car, cdr) => {
                        let elems = list_elems(st.heap, cdr);
                        match car {
                            Value::Object(kid) => match keyword_from_id(kid) {
                                Some(kw) => spec_eval_special::<F>(st, kw, elems, fid, fuel),
                                None => spec_eval_combination::<F>(st, car, elems, fid, fuel),
                            },
                            _ => spec_eval_combination::<F>(st, car, elems, fid, fuel),
                        }
                    },
                    ObjModel::FreeSlot => (st, Err(ErrKind::Implementation)),
                    _ => (st, Ok(v)),
                }
            } else {
                (st, Err(ErrKind::Implementation))
            },
            _ => (st, Ok(v)),
        }
    }
}

/// Dispatches a reserved keyword in operator position, with the unevaluated
/// argument forms.
pub open spec fn spec_eval_special<F: FloatHost>(
    st: SState,
    kw: Keyword,
    args: Seq<Value>,
    fid: usize,
    fuel: u64,
) -> (SState, Result<Value, ErrKind>)
    decreases fuel, 3int, 1int,
{
    if fuel == 0 {
        (st, Err(ErrKind::Eval))
    } else {
        spec_eval_special_body::<F>(st, kw, args, fid, fuel)
    }
}

/// The special-form cases, assuming a positive budget.
pub open spec fn spec_eval_special_body<F: FloatHost>(
    st: SState,
    kw: Keyword,
    args: Seq<Value>,
    fid: usize,
    fuel: u64,
) -> (SState, Result<Value, ErrKind>)
    recommends
        fuel >= 1,
    decreases fuel, 3int, 0int,
{
    if fuel == 0 {
        (st, Err(ErrKind::Eval))
    } else {
    match kw {
        Keyword::If => if args.len() != 3 {
            (st, Err(ErrKind::Eval))
        } else {
            let (st1, cres) = spec_eval::<F>(st, args[0], fid, (fuel - 1) as u64);
            match cres {
                Err(k) => (st1, Err(k)),
                Ok(c) => if c == Value::Boolean(false) {
                    spec_eval::<F>(st1, args[2], fid, (fuel - 1) as u64)
                } else {
                    spec_eval::<F>(st1, args[1], fid, (fuel - 1) as u64)
                },
            }
        },
        Keyword::Define => if args.len() != 2 {
            (st, Err(ErrKind::Eval))
        } else {
            match args[0] {
                Value::Object(sid) => if sid < st.heap.len() && st.heap[sid as int] matches
                    ObjModel::Symbol(_n) {
                    let (st1, vres) = spec_eval::<F>(st, args[1], fid, (fuel - 1) as u64);
                    match vres {
                        Err(k) => (st1, Err(k)),
                        Ok(w) => (
                            SState { frames: define_spec(st1.frames, fid, sid, w), ..st1 },
                            Ok(w),
                        ),
                    }
                } else {
                    (st, Err(ErrKind::Type))
                },
                _ => (st, Err(ErrKind::Type)),
            }
        },
        Keyword::SetBang => if args.len() != 2 {
            (st, Err(ErrKind::Eval))
        } else {
            match args[0] {
                Value::Object(sid) => if sid < st.heap.len() && st.heap[sid as int] matches
                    ObjModel::Symbol(_n) {
                    let (st1, vres) = spec_eval::<F>(st, args[1], fid, (fuel - 1) as u64);
                    match vres {
                        Err(k) => (st1, Err(k)),
                        Ok(w) => match set_bang_spec(st1.frames, fid, sid, w) {
                            Some(frames2) => (SState { frames: frames2, ..st1 }, Ok(w)),
                            None => (st1, Err(ErrKind::Unbound)),
                        },
                    }
                } else {
                    (st, Err(ErrKind::Type))
                },
                _ => (st, Err(ErrKind::Type)),
            }
        },
        Keyword::Lambda => if args.len() < 2 {
            (st, Err(ErrKind::Eval))
        } else {
            let params_elems = list_elems(st.heap, args[0]);
            match extract_params(st.heap, params_elems, 0, Seq::empty()) {
                None => (st, Err(ErrKind::Type)),
                Some(pids) => (
                    SState {
                        heap: st.heap.push(ObjModel::Closure(pids, args.skip(1), fid)),
                        ..st
                    },
                    Ok(Value::Object(st.heap.len() as usize)),
                ),
            }
        },
        Keyword::Quote => if args.len() != 1 {
            (st, Err(ErrKind::Eval))
        } else {
            (st, Ok(args[0]))
        },
        Keyword::True | Keyword::False => (st, Err(ErrKind::Eval)),
    }
    }
}

/// Evaluates the operator, then each argument left to right, then applies.
pub open spec fn spec_eval_combination<F: FloatHost>(
    st: SState,
    op: Value,
    elems: Seq<Value>,
    fid: usize,
    fuel: u64,
) -> (SState, Result<Value, ErrKind>)
    decreases fuel, 3int, 1int,
{
    if fuel == 0 {
        (st, Err(ErrKind::Eval))
    } else {
        spec_eval_combination_body::<F>(st, op, elems, fid, fuel)
    }
}

/// The application path, assuming a positive budget.
pub open spec fn spec_eval_combination_body<F: FloatHost>(
    st: SState,
    op: Value,
    elems: Seq<Value>,
    fid: usize,
    fuel: u64,
) -> (SState, Result<Value, ErrKind>)
    recommends
        fuel >= 1,
    decreases fuel, 3int, 0int,
{
    if fuel == 0 {
        (st, Err(ErrKind::Eval))
    } else {
    let (st1, fres) = spec_eval::<F>(st, op, fid, (fuel - 1) as u64);
    match fres {
        Err(k) => (st1, Err(k)),
        Ok(f) => {
            let (st2, ares) = spec_eval_args::<F>(st1, elems, 0, Seq::empty(), fid, fuel);
            match ares {
                Err(k) => (st2, Err(k)),
                Ok(args) => spec_apply::<F>(st2, f, args, fuel),
            }
        },
    }
    }
}

/// Evaluates argument forms left to right, threading the state.
pub open spec fn spec_eval_args<F: FloatHost>(
    st: SState,
    elems: Seq<Value>,
    i: int,
    acc: Seq<Value>,
    fid: usize,
    fuel: u64,
) -> (SState, Result<Seq<Value>, ErrKind>)
    decreases fuel, 2int, elems.len() - i,
{
    if i < 0 || i >= elems.len() || fuel == 0 {
        (st, Ok(acc))
    } else {
        let (st1, r) = spec_eval::<F>(st, elems[i], fid, (fuel - 1) as u64);
        match r {
            Err(k) => (st1, Err(k)),
            Ok(w) => spec_eval_args::<F>(st1, elems, i + 1, acc.push(w), fid, fuel),
        }
    }
}

/// Applies a callable to evaluated arguments: a primitive runs its operator;
/// a closure of matching arity extends its captured frame, binds parameters
/// positionally, and evaluates its body forms in order, returning the last
/// (or `Nil` for an empty body); anything else is a type error.
pub open spec fn spec_apply<F: FloatHost>(st: SState, f: Value, args: Seq<Value>, fuel: u64) -> (
    SState,
    Result<Value, ErrKind>,
)
    decreases fuel, 2int, 0int,
{
    match f {
        Value::Object(id) => if id < st.heap.len() {
            match st.heap[id as int] {
                ObjModel::Primitive(op) => spec_apply_prim::<F>(st, op, args),
                ObjModel::Closure(params, body, cenv) => if params.len() != args.len() {
                    (st, Err(ErrKind::Eval))
                } else if cenv >= st.frames.len() {
                    (st, Err(ErrKind::Implementation))
                } else {
                    let nf = st.frames.len() as usize;
                    let frames1 = extend_spec(st.frames, cenv);
                    let frames2 = bind_params(frames1, nf, params, args, 0);
                    spec_eval_body::<F>(
                        SState { frames: frames2, ..st },
                        body,
                        0,
                        Value::Nil,
                        nf,
                        fuel,
                    )
                },
                _ => (st, Err(ErrKind::Type)),
            }
        } else {
            (st, Err(ErrKind::Type))
        },
        _ => (st, Err(ErrKind::Type)),
    }
}

/// Evaluates body forms in order under frame `fid`, returning the last value
/// (`last` seeds the result for an empty body).
pub open spec fn spec_eval_body<F: FloatHost>(
    st: SState,
    body: Seq<Value>,
    i: int,
    last: Value,
    fid: usize,
    fuel: u64,
) -> (SState, Result<Value, ErrKind>)
    decreases fuel, 1int, body.len() - i,
{
    if i < 0 || i >= body.len() || fuel == 0 {
        (st, Ok(last))
    } else {
        let (st1, r) = spec_eval::<F>(st, body[i], fid, (fuel - 1) as u64);
        match r {
            Err(k) => (st1, Err(k)),
            Ok(w) => spec_eval_body::<F>(st1, body, i + 1, w, fid, fuel),
        }
    }
}


/// The interpreter: one heap, one frame arena (frame 0 is the global
/// environment), the host's floating-point services, and the pending exit
/// request set by `quit`/`exit`.
pub struct Interp<F: FloatHost> {
    pub heap: Heap,
    pub env: Env,
    pub fops: F,
    pub exit_status: Option<i32>,
}

/// The numbers carried by the arguments, or `None` at the first non-number.
fn collect_numbers(args: &Vec<Value>) -> (r: Option<Vec<Number>>)
    ensures
        match r {
            Some(v) => nums_of(args@, 0, Seq::empty()) == Some(v@),
            None => nums_of(args@, 0, Seq::empty()) is None,
        },
{
    let mut acc: Vec<Number> = Vec::new();
    let n = args.len();
    let mut i: usize = 0;
    while i < n
        invariant
            n == args@.len(),
            0 <= i <= n,
            nums_of(args@, 0, Seq::empty()) == nums_of(args@, i as int, acc@),
        decreases n - i,
    {
        match args[i] {
            Value::Number(num) => {
                acc.push(num);
            },
            _ => {
                return None;
            },
        }
        i += 1;
    }
    Some(acc)
}

/// Left fold of addition from `start`.
fn fold_add<F: FloatHost>(fops: &F, nums: &Vec<Number>, start: usize, init: Number) -> (r: Result<
    Number,
    SchemeError,
>)
    ensures
        kind_res(r) == spec_fold_add::<F>(nums@, start as int, init),
{
    let mut acc = init;
    let mut i = start;
    let n = nums.len();
    while i < n
        invariant
            n == nums@.len(),
            spec_fold_add::<F>(nums@, start as int, init) == spec_fold_add::<F>(
                nums@,
                i as int,
                acc,
            ),
        decreases n - i,
    {
        match num_add(fops, acc, nums[i]) {
            Ok(a2) => {
                acc = a2;
            },
            Err(e) => {
                return Err(e);
            },
        }
        i += 1;
    }
    Ok(acc)
}

/// Left fold of multiplication from `start`.
fn fold_mul<F: FloatHost>(fops: &F, nums: &Vec<Number>, start: usize, init: Number) -> (r: Result<
    Number,
    SchemeError,
>)
    ensures
        kind_res(r) == spec_fold_mul::<F>(nums@, start as int, init),
{
    let mut acc = init;
    let mut i = start;
    let n = nums.len();
    while i < n
        invariant
            n == nums@.len(),
            spec_fold_mul::<F>(nums@, start as int, init) == spec_fold_mul::<F>(
                nums@,
                i as int,
                acc,
            ),
        decreases n - i,
    {
        match num_mul(fops, acc, nums[i]) {
            Ok(a2) => {
                acc = a2;
            },
            Err(e) => {
                return Err(e);
            },
        }
        i += 1;
    }
    Ok(acc)
}

/// Left fold of subtraction from `start`.
fn fold_sub<F: FloatHost>(fops: &F, nums: &Vec<Number>, start: usize, init: Number) -> (r: Result<
    Number,
    SchemeError,
>)
    ensures
        kind_res(r) == spec_fold_sub::<F>(nums@, start as int, init),
{
    let mut acc = init;
    let mut i = start;
    let n = nums.len();
    while i < n
        invariant
            n == nums@.len(),
            spec_fold_sub::<F>(nums@, start as int, init) == spec_fold_sub::<F>(
                nums@,
                i as int,
                acc,
            ),
        decreases n - i,
    {
        match num_sub(fops, acc, nums[i]) {
            Ok(a2) => {
                acc = a2;
            },
            Err(e) => {
                return Err(e);
            },
        }
        i += 1;
    }
    Ok(acc)
}

/// Left fold of division from `start`; never fails.
fn fold_div<F: FloatHost>(fops: &F, nums: &Vec<Number>, start: usize, init: Number) -> (r: Number)
    ensures
        r == spec_fold_div::<F>(nums@, start as int, init),
{
    let mut acc = init;
    let mut i = start;
    let n = nums.len();
    while i < n
        invariant
            n == nums@.len(),
            spec_fold_div::<F>(nums@, start as int, init) == spec_fold_div::<F>(
                nums@,
                i as int,
                acc,
            ),
        decreases n - i,
    {
        acc = num_div(fops, acc, nums[i]);
        i += 1;
    }
    acc
}

/// Left fold of the larger-of-two from `start`.
fn fold_max<F: FloatHost>(fops: &F, nums: &Vec<Number>, start: usize, init: Number) -> (r: Number)
    ensures
        r == spec_fold_max::<F>(nums@, start as int, init),
{
    let mut acc = init;
    let mut i = start;
    let n = nums.len();
    while i < n
        invariant
            n == nums@.len(),
            spec_fold_max::<F>(nums@, start as int, init) == spec_fold_max::<F>(
                nums@,
                i as int,
                acc,
            ),
        decreases n - i,
    {
        let keep = match num_cmp(fops, acc, nums[i]) {
            Some(c) => c == 1,
            None => false,
        };
        if !keep {
            acc = nums[i];
        }
        i += 1;
    }
    acc
}

/// Left fold of the smaller-of-two from `start`.
fn fold_min<F: FloatHost>(fops: &F, nums: &Vec<Number>, start: usize, init: Number) -> (r: Number)
    ensures
        r == spec_fold_min::<F>(nums@, start as int, init),
{
    let mut acc = init;
    let mut i = start;
    let n = nums.len();
    while i < n
        invariant
            n == nums@.len(),
            spec_fold_min::<F>(nums@, start as int, init) == spec_fold_min::<F>(
                nums@,
                i as int,
                acc,
            ),
        decreases n - i,
    {
        let keep = match num_cmp(fops, acc, nums[i]) {
            Some(c) => c == -1,
            None => false,
        };
        if !keep {
            acc = nums[i];
        }
        i += 1;
    }
    acc
}

impl<F: FloatHost> Interp<F> {
    /// The whole mutable state, as the specification functions see it.
    pub open spec fn st(&self) -> SState {
        SState { heap: self.heap@, frames: self.env@, exit: self.exit_status }
    }

    /// Well-formedness: the heap and arena invariants plus the cross links.
    pub open spec fn wf(&self) -> bool {
        &&& self.heap.inv()
        &&& self.env.inv()
        &&& st_wf(self.st())
    }

    /// Applies a built-in operator to already evaluated arguments.
    #[verifier::loop_isolation(false)]
    pub fn apply_primitive(&mut self, op: PrimOp, args: &Vec<Value>) -> (r: Result<
        Value,
        SchemeError,
    >)
        requires
            old(self).wf(),
            all_valid(args@, old(self).heap@.len() as int),
        ensures
            final(self).wf(),
            old(self).heap@.is_prefix_of(final(self).heap@),
            final(self).env@ == old(self).env@,
            ({
                let (st2, rr) = spec_apply_prim::<F>(old(self).st(), op, args@);
                final(self).st() == st2 && kind_res(r) == rr
            }),
            r matches Ok(w) ==> valid_value(w, final(self).heap@.len() as int),
    {
        match op {
            PrimOp::Add => match collect_numbers(args) {
                None => Err(SchemeError::TypeError(String::from_str("+ expects numbers"))),
                Some(nums) => match fold_add(&self.fops, &nums, 0, Number::Int(0)) {
                    Ok(nr) => Ok(Value::Number(nr)),
                    Err(e) => Err(e),
                },
            },
            PrimOp::Mul => match collect_numbers(args) {
                None => Err(SchemeError::TypeError(String::from_str("* expects numbers"))),
                Some(nums) => match fold_mul(&self.fops, &nums, 0, Number::Int(1)) {
                    Ok(nr) => Ok(Value::Number(nr)),
                    Err(e) => Err(e),
                },
            },
            PrimOp::Sub => match collect_numbers(args) {
                None => Err(SchemeError::TypeError(String::from_str("- expects numbers"))),
                Some(nums) => if nums.len() == 0 {
                    Err(SchemeError::ArgCountError(String::from_str("- expects at least one argument")))
                } else if nums.len() == 1 {
                    match num_neg(&self.fops, nums[0]) {
                        Ok(nr) => Ok(Value::Number(nr)),
                        Err(e) => Err(e),
                    }
                } else {
                    let first = nums[0];
                    match fold_sub(&self.fops, &nums, 1, first) {
                        Ok(nr) => Ok(Value::Number(nr)),
                        Err(e) => Err(e),
                    }
                },
            },
            PrimOp::Div => match collect_numbers(args) {
                None => Err(SchemeError::TypeError(String::from_str("/ expects numbers"))),
                Some(nums) => if nums.len() == 0 {
                    Err(SchemeError::ArgCountError(String::from_str("/ expects at least one argument")))
                } else if nums.len() == 1 {
                    Ok(Value::Number(num_div(&self.fops, Number::Int(1), nums[0])))
                } else {
                    let first = nums[0];
                    Ok(Value::Number(fold_div(&self.fops, &nums, 1, first)))
                },
            },
            PrimOp::Rem => if args.len() != 2 {
                Err(SchemeError::ArgCountError(String::from_str("% expects exactly 2 arguments")))
            } else {
                match (args[0], args[1]) {
                    (Value::Number(a), Value::Number(b)) => match num_rem(&self.fops, a, b) {
                        Ok(nr) => Ok(Value::Number(nr)),
                        Err(e) => Err(e),
                    },
                    _ => Err(SchemeError::TypeError(String::from_str("% expects numbers"))),
                }
            },
            PrimOp::NumEq | PrimOp::NumLt | PrimOp::NumGt | PrimOp::NumLe | PrimOp::NumGe => if args.len() != 2 {
                Err(SchemeError::ArgCountError(String::from_str("comparison expects exactly 2 arguments")))
            } else {
                match (args[0], args[1]) {
                    (Value::Number(a), Value::Number(b)) => {
                        let c = num_cmp(&self.fops, a, b);
                        let accept = match (op, c) {
                            (PrimOp::NumEq, Some(o)) => o == 0,
                            (PrimOp::NumLt, Some(o)) => o == -1,
                            (PrimOp::NumGt, Some(o)) => o == 1,
                            (PrimOp::NumLe, Some(o)) => o == -1 || o == 0,
                            (PrimOp::NumGe, Some(o)) => o == 1 || o == 0,
                            _ => false,
                        };
                        Ok(Value::Boolean(accept))
                    },
                    _ => Err(SchemeError::TypeError(String::from_str("comparison expects numbers"))),
                }
            },
            PrimOp::NumMax => match collect_numbers(args) {
                None => Err(SchemeError::TypeError(String::from_str("max expects numbers"))),
                Some(nums) => if nums.len() == 0 {
                    Err(SchemeError::ArgCountError(String::from_str("max expects at least one argument")))
                } else {
                    let first = nums[0];
                    Ok(Value::Number(fold_max(&self.fops, &nums, 1, first)))
                },
            },
            PrimOp::NumMin => match collect_numbers(args) {
                None => Err(SchemeError::TypeError(String::from_str("min expects numbers"))),
                Some(nums) => if nums.len() == 0 {
                    Err(SchemeError::ArgCountError(String::from_str("min expects at least one argument")))
                } else {
                    let first = nums[0];
                    Ok(Value::Number(fold_min(&self.fops, &nums, 1, first)))
                },
            },
            PrimOp::IsNumber => if args.len() != 1 {
                Err(SchemeError::ArgCountError(String::from_str("number? expects exactly one argument")))
            } else {
                Ok(Value::Boolean(matches!(args[0], Value::Number(_))))
            },
            PrimOp::IsInteger => if args.len() != 1 {
                Err(SchemeError::ArgCountError(String::from_str("integer? expects exactly one argument")))
            } else {
                Ok(Value::Boolean(matches!(args[0], Value::Number(Number::Int(_)))))
            },
            PrimOp::IsFloat => if args.len() != 1 {
                Err(SchemeError::ArgCountError(String::from_str("float? expects exactly one argument")))
            } else {
                Ok(Value::Boolean(matches!(args[0], Value::Number(Number::Float(_)))))
            },
            PrimOp::List => {
                let ghost h0 = self.heap@;
                let items = crate::heap::copy_values(args);
                let v = self.heap.alloc_list(items);
                proof {
                    crate::heap::lemma_alloc_list_spec_shape(h0, args@);
                    lemma_closures_env_ok_extend(h0, self.heap@, self.env@.len() as int);
                    assert(self.st() =~~= spec_apply_prim::<F>(old(self).st(), op, args@).0);
                }
                Ok(v)
            },
            PrimOp::IsList => if args.len() != 1 {
                Err(SchemeError::ArgCountError(String::from_str("list? expects exactly one argument")))
            } else {
                let r = match args[0] {
                    Value::Nil => true,
                    Value::Object(id) => self.heap.pair_at(id).is_some(),
                    _ => false,
                };
                Ok(Value::Boolean(r))
            },
            PrimOp::IsNull => if args.len() != 1 {
                Err(SchemeError::ArgCountError(String::from_str("null? expects exactly one argument")))
            } else {
                Ok(Value::Boolean(matches!(args[0], Value::Nil)))
            },
            PrimOp::Cons => if args.len() != 2 {
                Err(SchemeError::ArgCountError(String::from_str("cons expects exactly 2 arguments")))
            } else {
                let ghost h0 = self.heap@;
                let v = self.heap.alloc_pair(args[0], args[1]);
                proof {
                    lemma_closures_env_ok_extend(h0, self.heap@, self.env@.len() as int);
                    assert(self.st() =~~= spec_apply_prim::<F>(old(self).st(), op, args@).0);
                }
                Ok(v)
            },
            PrimOp::Car => if args.len() != 1 {
                Err(SchemeError::ArgCountError(String::from_str("car expects exactly one argument")))
            } else {
                match args[0] {
                    Value::Object(id) => match self.heap.pair_at(id) {
                        Some((car, _cdr)) => Ok(car),
                        None => Err(SchemeError::TypeError(String::from_str("car expects a pair"))),
                    },
                    _ => Err(SchemeError::TypeError(String::from_str("car expects a pair"))),
                }
            },
            PrimOp::Cdr => if args.len() != 1 {
                Err(SchemeError::ArgCountError(String::from_str("cdr expects exactly one argument")))
            } else {
                match args[0] {
                    Value::Object(id) => match self.heap.pair_at(id) {
                        Some((_car, cdr)) => Ok(cdr),
                        None => Err(SchemeError::TypeError(String::from_str("cdr expects a pair"))),
                    },
                    _ => Err(SchemeError::TypeError(String::from_str("cdr expects a pair"))),
                }
            },
            PrimOp::Quit => if args.len() != 1 {
                Err(SchemeError::ArgCountError(String::from_str("quit expects exactly one argument")))
            } else {
                match args[0] {
                    Value::Number(Number::Int(x)) => if i32::MIN as i64 <= x && x <= i32::MAX as i64 {
                        self.exit_status = Some(x as i32);
                        proof {
                            assert(self.st() =~~= spec_apply_prim::<F>(old(self).st(), op, args@).0);
                        }
                        Ok(Value::Nil)
                    } else {
                        Err(SchemeError::OverflowError(String::from_str("exit status does not fit a 32-bit integer")))
                    },
                    Value::Number(Number::Float(p)) => {
                        let c = self.fops.to_i32(p);
                        match c {
                            Some(code) => {
                                self.exit_status = Some(code);
                                proof {
                                    assert(self.st() =~~= spec_apply_prim::<F>(old(self).st(), op, args@).0);
                                }
                                Ok(Value::Nil)
                            },
                            None => Err(SchemeError::OverflowError(String::from_str("exit status does not fit a 32-bit integer"))),
                        }
                    },
                    _ => Err(SchemeError::TypeError(String::from_str("quit expects an integer"))),
                }
            },
        }
    }

    /// Evaluates a source value under frame `fid` with a depth budget.
    #[verifier::loop_isolation(false)]
    pub fn eval_fuel(&mut self, v: Value, fid: usize, fuel: u64) -> (r: Result<Value, SchemeError>)
        requires
            old(self).wf(),
            valid_value(v, old(self).heap@.len() as int),
            fid < old(self).env@.len(),
        ensures
            final(self).wf(),
            old(self).heap@.is_prefix_of(final(self).heap@),
            old(self).env@.len() <= final(self).env@.len(),
            ({
                let (st2, rr) = spec_eval::<F>(old(self).st(), v, fid, fuel);
                final(self).st() == st2 && kind_res(r) == rr
            }),
            r matches Ok(w) ==> valid_value(w, final(self).heap@.len() as int),
        decreases fuel, 4int, 0int,
    {
        if fuel == 0 {
            return Err(
                SchemeError::EvalError(String::from_str("evaluation depth budget exhausted")),
            );
        }
        match v {
            Value::Object(id) => {
                if self.heap.is_symbol_at(id) {
                    proof {
                        crate::env::lemma_lookup_valid(self.env@, fid, id, self.heap@.len() as int);
                    }
                    match self.env.lookup(fid, id) {
                        Some(w) => Ok(w),
                        None => Err(
                            SchemeError::UnboundVariable(String::from_str("unbound symbol")),
                        ),
                    }
                } else if self.heap.is_free_at(id) {
                    Err(
                        SchemeError::ImplementationError(
                            String::from_str("evaluation of a reclaimed slot"),
                        ),
                    )
                } else {
                    match self.heap.pair_at(id) {
                        None => Ok(v),
                        Some((car, cdr)) => {
                            proof {
                                assert(crate::heap::obj_refs_below(self.heap@[id as int], id as int));
                            }
                            let kw_opt = match car {
                                Value::Object(kid) => Keyword::from_id(kid),
                                _ => None,
                            };
                            let folded = self.heap.fold_list(cdr);
                            let elems = folded.0;
                            match kw_opt {
                                Some(kw) => self.eval_special(kw, &elems, fid, fuel),
                                None => {
                                    let fres = self.eval_fuel(car, fid, fuel - 1);
                                    let f = match fres {
                                        Ok(f) => f,
                                        Err(e) => {
                                            return Err(e);
                                        },
                                    };
                                    let ghost st1 = self.st();
                                    let mut args: Vec<Value> = Vec::new();
                                    let n = elems.len();
                                    let mut i: usize = 0;
                                    while i < n
                                        invariant
                                            self.wf(),
                                            fuel >= 1,
                                            fid < self.env@.len(),
                                            n == elems@.len(),
                                            st1.heap.is_prefix_of(self.heap@),
                                            st1.frames.len() <= self.env@.len(),
                                            valid_value(f, st1.heap.len() as int),
                                            all_valid(elems@, st1.heap.len() as int),
                                            all_valid(args@, self.heap@.len() as int),
                                            spec_eval_args::<F>(
                                                st1,
                                                elems@,
                                                0,
                                                Seq::empty(),
                                                fid,
                                                fuel,
                                            ) == spec_eval_args::<F>(
                                                self.st(),
                                                elems@,
                                                i as int,
                                                args@,
                                                fid,
                                                fuel,
                                            ),
                                        decreases n - i,
                                    {
                                        let w = match self.eval_fuel(elems[i], fid, fuel - 1) {
                                            Ok(w) => w,
                                            Err(e) => {
                                                return Err(e);
                                            },
                                        };
                                        args.push(w);
                                        i += 1;
                                    }
                                    self.apply(f, &args, fuel)
                                },
                            }
                        },
                    }
                }
            },
            _ => Ok(v),
        }
    }

    /// Dispatches a reserved keyword in operator position.
    #[verifier::loop_isolation(false)]
    fn eval_special(&mut self, kw: Keyword, args: &Vec<Value>, fid: usize, fuel: u64) -> (r:
        Result<Value, SchemeError>)
        requires
            old(self).wf(),
            all_valid(args@, old(self).heap@.len() as int),
            fid < old(self).env@.len(),
            fuel >= 1,
        ensures
            final(self).wf(),
            old(self).heap@.is_prefix_of(final(self).heap@),
            old(self).env@.len() <= final(self).env@.len(),
            ({
                let (st2, rr) = spec_eval_special::<F>(old(self).st(), kw, args@, fid, fuel);
                final(self).st() == st2 && kind_res(r) == rr
            }),
            r matches Ok(w) ==> valid_value(w, final(self).heap@.len() as int),
        decreases fuel, 3int, 0int,
    {
        match kw {
            Keyword::If => {
                if args.len() != 3 {
                    return Err(
                        SchemeError::EvalError(String::from_str("if expects exactly 3 arguments")),
                    );
                }
                let c = match self.eval_fuel(args[0], fid, fuel - 1) {
                    Ok(c) => c,
                    Err(e) => {
                        return Err(e);
                    },
                };
                if c.is_false() {
                    self.eval_fuel(args[2], fid, fuel - 1)
                } else {
                    self.eval_fuel(args[1], fid, fuel - 1)
                }
            },
            Keyword::Define => {
                if args.len() != 2 {
                    return Err(
                        SchemeError::EvalError(
                            String::from_str("define expects exactly 2 arguments"),
                        ),
                    );
                }
                let sid = match args[0] {
                    Value::Object(sid) => sid,
                    _ => {
                        return Err(
                            SchemeError::TypeError(
                                String::from_str("define expects a symbol as its first argument"),
                            ),
                        );
                    },
                };
                if !self.heap.is_symbol_at(sid) {
                    return Err(
                        SchemeError::TypeError(
                            String::from_str("define expects a symbol as its first argument"),
                        ),
                    );
                }
                let w = match self.eval_fuel(args[1], fid, fuel - 1) {
                    Ok(w) => w,
                    Err(e) => {
                        return Err(e);
                    },
                };
                let ghost fr_pre = self.env@;
                proof {
                    crate::env::lemma_define_props(fr_pre, fid, sid, w, self.heap@.len() as int);
                }
                self.env.define(fid, sid, w);
                Ok(w)
            },
            Keyword::SetBang => {
                if args.len() != 2 {
                    return Err(
                        SchemeError::EvalError(
                            String::from_str("set! expects exactly 2 arguments"),
                        ),
                    );
                }
                let sid = match args[0] {
                    Value::Object(sid) => sid,
                    _ => {
                        return Err(
                            SchemeError::TypeError(
                                String::from_str("set! expects a symbol as its first argument"),
                            ),
                        );
                    },
                };
                if !self.heap.is_symbol_at(sid) {
                    return Err(
                        SchemeError::TypeError(
                            String::from_str("set! expects a symbol as its first argument"),
                        ),
                    );
                }
                let w = match self.eval_fuel(args[1], fid, fuel - 1) {
                    Ok(w) => w,
                    Err(e) => {
                        return Err(e);
                    },
                };
                let ghost fr_pre = self.env@;
                proof {
                    crate::env::lemma_set_bang_props(fr_pre, fid, sid, w, self.heap@.len() as int);
                }
                match self.env.set_bang(fid, sid, w) {
                    Ok(()) => Ok(w),
                    Err(e) => Err(e),
                }
            },
            Keyword::Lambda => {
                if args.len() < 2 {
                    return Err(
                        SchemeError::EvalError(
                            String::from_str("lambda expects at least 2 arguments"),
                        ),
                    );
                }
                let folded = self.heap.fold_list(args[0]);
                let pelems = folded.0;
                let mut pids: Vec<GcId> = Vec::new();
                let n = pelems.len();
                let mut i: usize = 0;
                while i < n
                    invariant
                        self.wf(),
                        n == pelems@.len(),
                        0 <= i <= n,
                        all_valid(pelems@, self.heap@.len() as int),
                        forall|k: int| 0 <= k < pids@.len() ==> (#[trigger] pids@[k])
                            < self.heap@.len(),
                        extract_params(self.heap@, pelems@, 0, Seq::empty()) == extract_params(
                            self.heap@,
                            pelems@,
                            i as int,
                            pids@,
                        ),
                    decreases n - i,
                {
                    match pelems[i] {
                        Value::Object(pid) => {
                            if self.heap.is_symbol_at(pid) {
                                pids.push(pid);
                            } else {
                                return Err(
                                    SchemeError::TypeError(
                                        String::from_str("lambda parameters must be symbols"),
                                    ),
                                );
                            }
                        },
                        _ => {
                            return Err(
                                SchemeError::TypeError(
                                    String::from_str("lambda parameters must be symbols"),
                                ),
                            );
                        },
                    }
                    i += 1;
                }
                let mut body: Vec<Value> = Vec::new();
                let m = args.len();
                let mut j: usize = 1;
                while j < m
                    invariant
                        m == args@.len(),
                        1 <= j <= m,
                        all_valid(args@, self.heap@.len() as int),
                        self.wf(),
                        body@ == args@.subrange(1, j as int),
                    decreases m - j,
                {
                    body.push(args[j]);
                    proof {
                        assert(body@ =~= args@.subrange(1, j + 1));
                    }
                    j += 1;
                }
                proof {
                    assert(body@ =~= args@.skip(1));
                }
                let c = Closure { params: pids, body, env: fid };
                let ghost h0 = self.heap@;
                let v = self.heap.alloc_closure(c);
                proof {
                    assert forall|ii: int|
                        0 <= ii < self.heap@.len() implies ((#[trigger] self.heap@[ii]) matches
                        ObjModel::Closure(_p, _b, e) ==> e < self.env@.len()) by {
                        if ii < h0.len() {
                            assert(self.heap@[ii] == h0[ii]);
                        }
                    }
                }
                Ok(v)
            },
            Keyword::Quote => {
                if args.len() != 1 {
                    return Err(
                        SchemeError::EvalError(
                            String::from_str("quote expects exactly 1 argument"),
                        ),
                    );
                }
                Ok(args[0])
            },
            Keyword::True | Keyword::False => Err(
                SchemeError::EvalError(String::from_str("not a special form")),
            ),
        }
    }

    /// Applies a callable value to evaluated arguments.
    #[verifier::loop_isolation(false)]
    pub fn apply(&mut self, f: Value, args: &Vec<Value>, fuel: u64) -> (r: Result<
        Value,
        SchemeError,
    >)
        requires
            old(self).wf(),
            valid_value(f, old(self).heap@.len() as int),
            all_valid(args@, old(self).heap@.len() as int),
            fuel >= 1,
        ensures
            final(self).wf(),
            old(self).heap@.is_prefix_of(final(self).heap@),
            old(self).env@.len() <= final(self).env@.len(),
            ({
                let (st2, rr) = spec_apply::<F>(old(self).st(), f, args@, fuel);
                final(self).st() == st2 && kind_res(r) == rr
            }),
            r matches Ok(w) ==> valid_value(w, final(self).heap@.len() as int),
        decreases fuel, 2int, 0int,
    {
        let id = match f {
            Value::Object(id) => id,
            _ => {
                return Err(
                    SchemeError::TypeError(
                        String::from_str("application of a value that is not callable"),
                    ),
                );
            },
        };
        if let Some(op) = self.heap.prim_at(id) {
            return self.apply_primitive(op, args);
        }
        let c = match self.heap.closure_at(id) {
            Some(c) => c,
            None => {
                return Err(
                    SchemeError::TypeError(
                        String::from_str("application of an object that is not callable"),
                    ),
                );
            },
        };
        if c.params.len() != args.len() {
            return Err(
                SchemeError::EvalError(
                    String::from_str("wrong number of arguments in closure application"),
                ),
            );
        }
        proof {
            assert(c.env < self.env@.len());
            assert(crate::heap::obj_refs_below(self.heap@[id as int], id as int));
        }
        let nf = self.env.extend(c.env);
        let ghost frames1 = self.env@;
        let np = c.params.len();
        let mut i: usize = 0;
        while i < np
            invariant
                self.env.inv(),
                self.heap == old(self).heap,
                self.fops == old(self).fops,
                self.exit_status == old(self).exit_status,
                np == c.params@.len(),
                np == args@.len(),
                0 <= i <= np,
                nf < self.env@.len(),
                self.env@.len() == frames1.len(),
                env_parents_wf(self.env@),
                env_vals_valid(self.env@, self.heap@.len() as int),
                forall|k: int| 0 <= k < c.params@.len() ==> (#[trigger] c.params@[k])
                    < self.heap@.len(),
                all_valid(args@, self.heap@.len() as int),
                bind_params(frames1, nf, c.params@, args@, 0) == bind_params(
                    self.env@,
                    nf,
                    c.params@,
                    args@,
                    i as int,
                ),
            decreases np - i,
        {
            self.env.define(nf, c.params[i], args[i]);
            i += 1;
        }
        let ghost stb = self.st();
        let mut result = Value::Nil;
        let nb = c.body.len();
        let mut j: usize = 0;
        while j < nb
            invariant
                self.wf(),
                fuel >= 1,
                nb == c.body@.len(),
                0 <= j <= nb,
                nf < self.env@.len(),
                stb.heap.is_prefix_of(self.heap@),
                stb.frames.len() <= self.env@.len(),
                all_valid(c.body@, stb.heap.len() as int),
                valid_value(result, self.heap@.len() as int),
                spec_eval_body::<F>(stb, c.body@, 0, Value::Nil, nf, fuel) == spec_eval_body::<F>(
                    self.st(),
                    c.body@,
                    j as int,
                    result,
                    nf,
                    fuel,
                ),
            decreases nb - j,
        {
            result = match self.eval_fuel(c.body[j], nf, fuel - 1) {
                Ok(w) => w,
                Err(e) => {
                    return Err(e);
                },
            };
            j += 1;
        }
        Ok(result)
    }
}



/// The name is interned and its symbol is bound to `v` in the global frame.
pub open spec fn global_bound(st: SState, name: Seq<char>, v: Value) -> bool {
    match crate::heap::find_symbol(st.heap, name) {
        Some(sid) => lookup_chain(st.frames, 0, sid as usize) == Some(v),
        None => false,
    }
}

/// The name is globally bound to a heap object carrying the operator `op`.
pub open spec fn prim_bound(st: SState, name: Seq<char>, op: PrimOp) -> bool {
    exists|pid: GcId|
        (#[trigger] global_bound(st, name, Value::Object(pid))) && pid < st.heap.len()
            && st.heap[pid as int] == ObjModel::Primitive(op)
}

/// Index equality under a heap extension.
proof fn lemma_prefix_index(h: Seq<ObjModel>, h2: Seq<ObjModel>, i: int)
    requires
        h.is_prefix_of(h2),
        0 <= i < h.len(),
    ensures
        h2[i] == h[i],
{
    assert(h[i] == h2.subrange(0, h.len() as int)[i]);
}



/// Interning `name` and binding it to `v` in the global frame, as one step of
/// initialization.
pub open spec fn install_value(st: SState, name: Seq<char>, v: Value) -> SState {
    let (h2, sid) = crate::heap::intern_spec(st.heap, name);
    SState { heap: h2, frames: define_spec(st.frames, 0, sid, v), ..st }
}

/// Allocating the operator `op` and binding `name` to it globally, as one
/// step of initialization.
pub open spec fn install_primitive(st: SState, name: Seq<char>, op: PrimOp) -> SState {
    let pv = Value::Object(st.heap.len() as usize);
    let h1 = st.heap.push(ObjModel::Primitive(op));
    let (h2, sid) = crate::heap::intern_spec(h1, name);
    SState { heap: h2, frames: define_spec(st.frames, 0, sid, pv), ..st }
}

/// The state before anything is installed: the keyword-only heap, one empty
/// parentless global frame, no exit request.
pub open spec fn boot_state() -> SState {
    SState {
        heap: crate::heap::keyword_heap(),
        frames: seq![FrameModel { map: Map::empty(), parent: None }],
        exit: None,
    }
}

/// The exact state of a fresh interpreter: the boot state with the boolean
/// constants and the whole primitive library installed, in order, and
/// nothing else. In particular the global frame binds exactly these names.
pub open spec fn initial_state() -> SState {
    let st0 = boot_state();
    let st1 = install_value(st0, "#t"@, Value::Boolean(true));
    let st2 = install_value(st1, "#f"@, Value::Boolean(false));
    let st3 = install_primitive(st2, "number?"@, PrimOp::IsNumber);
    let st4 = install_primitive(st3, "integer?"@, PrimOp::IsInteger);
    let st5 = install_primitive(st4, "float?"@, PrimOp::IsFloat);
    let st6 = install_primitive(st5, "+"@, PrimOp::Add);
    let st7 = install_primitive(st6, "-"@, PrimOp::Sub);
    let st8 = install_primitive(st7, "*"@, PrimOp::Mul);
    let st9 = install_primitive(st8, "/"@, PrimOp::Div);
    let st10 = install_primitive(st9, "%"@, PrimOp::Rem);
    let st11 = install_primitive(st10, "="@, PrimOp::NumEq);
    let st12 = install_primitive(st11, "<"@, PrimOp::NumLt);
    let st13 = install_primitive(st12, ">"@, PrimOp::NumGt);
    let st14 = install_primitive(st13, "<="@, PrimOp::NumLe);
    let st15 = install_primitive(st14, ">="@, PrimOp::NumGe);
    let st16 = install_primitive(st15, "max"@, PrimOp::NumMax);
    let st17 = install_primitive(st16, "min"@, PrimOp::NumMin);
    let st18 = install_primitive(st17, "list"@, PrimOp::List);
    let st19 = install_primitive(st18, "list?"@, PrimOp::IsList);
    let st20 = install_primitive(st19, "null?"@, PrimOp::IsNull);
    let st21 = install_primitive(st20, "cons"@, PrimOp::Cons);
    let st22 = install_primitive(st21, "car"@, PrimOp::Car);
    let st23 = install_primitive(st22, "cdr"@, PrimOp::Cdr);
    let st24 = install_primitive(st23, "quit"@, PrimOp::Quit);
    let st25 = install_primitive(st24, "exit"@, PrimOp::Quit);
    st25
}

/// The lengths and distinguishing characters of the installed names, so that
/// any two different names can be told apart.
proof fn lemma_prim_name_chars()
    ensures
        "#t"@.len() == 2 && "#t"@[0] == '#' && "#t"@[1] == 't',
        "#f"@.len() == 2 && "#f"@[0] == '#' && "#f"@[1] == 'f',
        "number?"@.len() == 7 && "number?"@[0] == 'n',
        "integer?"@.len() == 8,
        "float?"@.len() == 6,
        "+"@.len() == 1 && "+"@[0] == '+',
        "-"@.len() == 1 && "-"@[0] == '-',
        "*"@.len() == 1 && "*"@[0] == '*',
        "/"@.len() == 1 && "/"@[0] == '/',
        "%"@.len() == 1 && "%"@[0] == '%',
        "="@.len() == 1 && "="@[0] == '=',
        "<"@.len() == 1 && "<"@[0] == '<',
        ">"@.len() == 1 && ">"@[0] == '>',
        "<="@.len() == 2 && "<="@[0] == '<',
        ">="@.len() == 2 && ">="@[0] == '>',
        "max"@.len() == 3 && "max"@[0] == 'm' && "max"@[1] == 'a',
        "min"@.len() == 3 && "min"@[0] == 'm' && "min"@[1] == 'i',
        "list"@.len() == 4 && "list"@[0] == 'l',
        "list?"@.len() == 5 && "list?"@[0] == 'l',
        "null?"@.len() == 5 && "null?"@[0] == 'n',
        "cons"@.len() == 4 && "cons"@[0] == 'c',
        "car"@.len() == 3 && "car"@[0] == 'c' && "car"@[1] == 'a',
        "cdr"@.len() == 3 && "cdr"@[0] == 'c' && "cdr"@[1] == 'd',
        "quit"@.len() == 4 && "quit"@[0] == 'q',
        "exit"@.len() == 4 && "exit"@[0] == 'e',
{
    reveal_strlit("#t");
    reveal_strlit("#f");
    reveal_strlit("number?");
    reveal_strlit("integer?");
    reveal_strlit("float?");
    reveal_strlit("+");
    reveal_strlit("-");
    reveal_strlit("*");
    reveal_strlit("/");
    reveal_strlit("%");
    reveal_strlit("=");
    reveal_strlit("<");
    reveal_strlit(">");
    reveal_strlit("<=");
    reveal_strlit(">=");
    reveal_strlit("max");
    reveal_strlit("min");
    reveal_strlit("list");
    reveal_strlit("list?");
    reveal_strlit("null?");
    reveal_strlit("cons");
    reveal_strlit("car");
    reveal_strlit("cdr");
    reveal_strlit("quit");
    reveal_strlit("exit");
}

/// The depth budget given to each top-level evaluation: deeply nested or
/// deeply recursive programs beyond it fail with an evaluation error rather
/// than exhausting the host stack.
pub const EVAL_FUEL: u64 = 4096;

impl<F: FloatHost> Interp<F> {
    /// A fresh interpreter: a keyword-only heap, an empty global frame, and
    /// the primitive library installed.
    pub fn new(fops: F) -> (s: Self)
        ensures
            s.wf(),
            s.exit_status is None,
            s.st() == initial_state(),
            global_bound(s.st(), "#t"@, Value::Boolean(true)),
            global_bound(s.st(), "#f"@, Value::Boolean(false)),
            prim_bound(s.st(), "number?"@, PrimOp::IsNumber),
            prim_bound(s.st(), "integer?"@, PrimOp::IsInteger),
            prim_bound(s.st(), "float?"@, PrimOp::IsFloat),
            prim_bound(s.st(), "+"@, PrimOp::Add),
            prim_bound(s.st(), "-"@, PrimOp::Sub),
            prim_bound(s.st(), "*"@, PrimOp::Mul),
            prim_bound(s.st(), "/"@, PrimOp::Div),
            prim_bound(s.st(), "%"@, PrimOp::Rem),
            prim_bound(s.st(), "="@, PrimOp::NumEq),
            prim_bound(s.st(), "<"@, PrimOp::NumLt),
            prim_bound(s.st(), ">"@, PrimOp::NumGt),
            prim_bound(s.st(), "<="@, PrimOp::NumLe),
            prim_bound(s.st(), ">="@, PrimOp::NumGe),
            prim_bound(s.st(), "max"@, PrimOp::NumMax),
            prim_bound(s.st(), "min"@, PrimOp::NumMin),
            prim_bound(s.st(), "list"@, PrimOp::List),
            prim_bound(s.st(), "list?"@, PrimOp::IsList),
            prim_bound(s.st(), "null?"@, PrimOp::IsNull),
            prim_bound(s.st(), "cons"@, PrimOp::Cons),
            prim_bound(s.st(), "car"@, PrimOp::Car),
            prim_bound(s.st(), "cdr"@, PrimOp::Cdr),
            prim_bound(s.st(), "quit"@, PrimOp::Quit),
            prim_bound(s.st(), "exit"@, PrimOp::Quit),
    {
        let heap = Heap::new();
        let env = Env::new();
        let mut s = Interp { heap, env, fops, exit_status: None };
        proof {
            assert(s.env@[0].map =~= Map::<GcId, Value>::empty());
            assert(s.wf());
            assert(s.st() =~~= boot_state());
        }
        s.init();
        s
    }

    /// Installs the boolean constants and the primitive library into the
    /// global frame.
    #[verifier::rlimit(100)]
    #[verifier::spinoff_prover]
    fn init(&mut self)
        requires
            old(self).wf(),
            old(self).st() == boot_state(),
        ensures
            final(self).wf(),
            old(self).heap@.is_prefix_of(final(self).heap@),
            final(self).env@.len() == old(self).env@.len(),
            final(self).exit_status == old(self).exit_status,
            final(self).st() == initial_state(),
            global_bound(final(self).st(), "#t"@, Value::Boolean(true)),
            global_bound(final(self).st(), "#f"@, Value::Boolean(false)),
            prim_bound(final(self).st(), "number?"@, PrimOp::IsNumber),
            prim_bound(final(self).st(), "integer?"@, PrimOp::IsInteger),
            prim_bound(final(self).st(), "float?"@, PrimOp::IsFloat),
            prim_bound(final(self).st(), "+"@, PrimOp::Add),
            prim_bound(final(self).st(), "-"@, PrimOp::Sub),
            prim_bound(final(self).st(), "*"@, PrimOp::Mul),
            prim_bound(final(self).st(), "/"@, PrimOp::Div),
            prim_bound(final(self).st(), "%"@, PrimOp::Rem),
            prim_bound(final(self).st(), "="@, PrimOp::NumEq),
            prim_bound(final(self).st(), "<"@, PrimOp::NumLt),
            prim_bound(final(self).st(), ">"@, PrimOp::NumGt),
            prim_bound(final(self).st(), "<="@, PrimOp::NumLe),
            prim_bound(final(self).st(), ">="@, PrimOp::NumGe),
            prim_bound(final(self).st(), "max"@, PrimOp::NumMax),
            prim_bound(final(self).st(), "min"@, PrimOp::NumMin),
            prim_bound(final(self).st(), "list"@, PrimOp::List),
            prim_bound(final(self).st(), "list?"@, PrimOp::IsList),
            prim_bound(final(self).st(), "null?"@, PrimOp::IsNull),
            prim_bound(final(self).st(), "cons"@, PrimOp::Cons),
            prim_bound(final(self).st(), "car"@, PrimOp::Car),
            prim_bound(final(self).st(), "cdr"@, PrimOp::Cdr),
            prim_bound(final(self).st(), "quit"@, PrimOp::Quit),
            prim_bound(final(self).st(), "exit"@, PrimOp::Quit),
    {
        proof {
            lemma_prim_name_chars();
        }
        self.define("#t", Value::Boolean(true));
        let ghost g1 = self.st();
        proof {
            assert(g1 =~~= install_value(boot_state(), "#t"@, Value::Boolean(true)));
        }
        self.define("#f", Value::Boolean(false));
        let ghost g2 = self.st();
        proof {
            assert(g2 =~~= install_value(g1, "#f"@, Value::Boolean(false)));
        }
        self.define_primitive("number?", PrimOp::IsNumber);
        let ghost g3 = self.st();
        proof {
            assert(g3 =~~= install_primitive(g2, "number?"@, PrimOp::IsNumber));
            assert(global_bound(g3, "#t"@, Value::Boolean(true)));
            assert(global_bound(g3, "#f"@, Value::Boolean(false)));
        }
        self.define_primitive("integer?", PrimOp::IsInteger);
        let ghost g4 = self.st();
        proof {
            assert(g4 =~~= install_primitive(g3, "integer?"@, PrimOp::IsInteger));
            assert(global_bound(g4, "#t"@, Value::Boolean(true)));
            assert(global_bound(g4, "#f"@, Value::Boolean(false)));
        }
        self.define_primitive("float?", PrimOp::IsFloat);
        let ghost g5 = self.st();
        proof {
            assert(g5 =~~= install_primitive(g4, "float?"@, PrimOp::IsFloat));
            assert(global_bound(g5, "#t"@, Value::Boolean(true)));
            assert(global_bound(g5, "#f"@, Value::Boolean(false)));
        }
        self.define_primitive("+", PrimOp::Add);
        let ghost g6 = self.st();
        proof {
            assert(g6 =~~= install_primitive(g5, "+"@, PrimOp::Add));
            assert(global_bound(g6, "#t"@, Value::Boolean(true)));
            assert(global_bound(g6, "#f"@, Value::Boolean(false)));
        }
        self.define_primitive("-", PrimOp::Sub);
        let ghost g7 = self.st();
        proof {
            assert(g7 =~~= install_primitive(g6, "-"@, PrimOp::Sub));
            assert(global_bound(g7, "#t"@, Value::Boolean(true)));
            assert(global_bound(g7, "#f"@, Value::Boolean(false)));
        }
        self.define_primitive("*", PrimOp::Mul);
        let ghost g8 = self.st();
        proof {
            assert(g8 =~~= install_primitive(g7, "*"@, PrimOp::Mul));
            assert(global_bound(g8, "#t"@, Value::Boolean(true)));
            assert(global_bound(g8, "#f"@, Value::Boolean(false)));
        }
        self.define_primitive("/", PrimOp::Div);
        let ghost g9 = self.st();
        proof {
            assert(g9 =~~= install_primitive(g8, "/"@, PrimOp::Div));
            assert(global_bound(g9, "#t"@, Value::Boolean(true)));
            assert(global_bound(g9, "#f"@, Value::Boolean(false)));
        }
        self.define_primitive("%", PrimOp::Rem);
        let ghost g10 = self.st();
        proof {
            assert(g10 =~~= install_primitive(g9, "%"@, PrimOp::Rem));
            assert(global_bound(g10, "#t"@, Value::Boolean(true)));
            assert(global_bound(g10, "#f"@, Value::Boolean(false)));
        }
        self.define_primitive("=", PrimOp::NumEq);
        let ghost g11 = self.st();
        proof {
            assert(g11 =~~= install_primitive(g10, "="@, PrimOp::NumEq));
            assert(global_bound(g11, "#t"@, Value::Boolean(true)));
            assert(global_bound(g11, "#f"@, Value::Boolean(false)));
        }
        self.define_primitive("<", PrimOp::NumLt);
        let ghost g12 = self.st();
        proof {
            assert(g12 =~~= install_primitive(g11, "<"@, PrimOp::NumLt));
            assert(global_bound(g12, "#t"@, Value::Boolean(true)));
            assert(global_bound(g12, "#f"@, Value::Boolean(false)));
        }
        self.define_primitive(">", PrimOp::NumGt);
        let ghost g13 = self.st();
        proof {
            assert(g13 =~~= install_primitive(g12, ">"@, PrimOp::NumGt));
            assert(global_bound(g13, "#t"@, Value::Boolean(true)));
            assert(global_bound(g13, "#f"@, Value::Boolean(false)));
        }
        self.define_primitive("<=", PrimOp::NumLe);
        let ghost g14 = self.st();
        proof {
            assert(g14 =~~= install_primitive(g13, "<="@, PrimOp::NumLe));
            assert(global_bound(g14, "#t"@, Value::Boolean(true)));
            assert(global_bound(g14, "#f"@, Value::Boolean(false)));
        }
        self.define_primitive(">=", PrimOp::NumGe);
        let ghost g15 = self.st();
        proof {
            assert(g15 =~~= install_primitive(g14, ">="@, PrimOp::NumGe));
            assert(global_bound(g15, "#t"@, Value::Boolean(true)));
            assert(global_bound(g15, "#f"@, Value::Boolean(false)));
        }
        self.define_primitive("max", PrimOp::NumMax);
        let ghost g16 = self.st();
        proof {
            assert(g16 =~~= install_primitive(g15, "max"@, PrimOp::NumMax));
            assert(global_bound(g16, "#t"@, Value::Boolean(true)));
            assert(global_bound(g16, "#f"@, Value::Boolean(false)));
        }
        self.define_primitive("min", PrimOp::NumMin);
        let ghost g17 = self.st();
        proof {
            assert(g17 =~~= install_primitive(g16, "min"@, PrimOp::NumMin));
            assert(global_bound(g17, "#t"@, Value::Boolean(true)));
            assert(global_bound(g17, "#f"@, Value::Boolean(false)));
        }
        self.define_primitive("list", PrimOp::List);
        let ghost g18 = self.st();
        proof {
            assert(g18 =~~= install_primitive(g17, "list"@, PrimOp::List));
            assert(global_bound(g18, "#t"@, Value::Boolean(true)));
            assert(global_bound(g18, "#f"@, Value::Boolean(false)));
        }
        self.define_primitive("list?", PrimOp::IsList);
        let ghost g19 = self.st();
        proof {
            assert(g19 =~~= install_primitive(g18, "list?"@, PrimOp::IsList));
            assert(global_bound(g19, "#t"@, Value::Boolean(true)));
            assert(global_bound(g19, "#f"@, Value::Boolean(false)));
        }
        self.define_primitive("null?", PrimOp::IsNull);
        let ghost g20 = self.st();
        proof {
            assert(g20 =~~= install_primitive(g19, "null?"@, PrimOp::IsNull));
            assert(global_bound(g20, "#t"@, Value::Boolean(true)));
            assert(global_bound(g20, "#f"@, Value::Boolean(false)));
        }
        self.define_primitive("cons", PrimOp::Cons);
        let ghost g21 = self.st();
        proof {
            assert(g21 =~~= install_primitive(g20, "cons"@, PrimOp::Cons));
            assert(global_bound(g21, "#t"@, Value::Boolean(true)));
            assert(global_bound(g21, "#f"@, Value::Boolean(false)));
        }
        self.define_primitive("car", PrimOp::Car);
        let ghost g22 = self.st();
        proof {
            assert(g22 =~~= install_primitive(g21, "car"@, PrimOp::Car));
            assert(global_bound(g22, "#t"@, Value::Boolean(true)));
            assert(global_bound(g22, "#f"@, Value::Boolean(false)));
        }
        self.define_primitive("cdr", PrimOp::Cdr);
        let ghost g23 = self.st();
        proof {
            assert(g23 =~~= install_primitive(g22, "cdr"@, PrimOp::Cdr));
            assert(global_bound(g23, "#t"@, Value::Boolean(true)));
            assert(global_bound(g23, "#f"@, Value::Boolean(false)));
        }
        self.define_primitive("quit", PrimOp::Quit);
        let ghost g24 = self.st();
        proof {
            assert(g24 =~~= install_primitive(g23, "quit"@, PrimOp::Quit));
            assert(global_bound(g24, "#t"@, Value::Boolean(true)));
            assert(global_bound(g24, "#f"@, Value::Boolean(false)));
        }
        self.define_primitive("exit", PrimOp::Quit);
        let ghost g25 = self.st();
        proof {
            assert(g25 =~~= install_primitive(g24, "exit"@, PrimOp::Quit));
            assert(global_bound(g25, "#t"@, Value::Boolean(true)));
            assert(global_bound(g25, "#f"@, Value::Boolean(false)));
        }
        proof {
            assert(self.st() =~~= initial_state());
        }
    }

    /// Interns `name` and binds it to `value` in the global frame; every
    /// other global binding survives.
    pub fn define(&mut self, name: &str, value: Value)
        requires
            old(self).wf(),
            valid_value(value, old(self).heap@.len() as int),
        ensures
            final(self).wf(),
            old(self).heap@.is_prefix_of(final(self).heap@),
            final(self).env@.len() == old(self).env@.len(),
            final(self).exit_status == old(self).exit_status,
            final(self).st() == install_value(old(self).st(), name@, value),
            global_bound(final(self).st(), name@, value),
            forall|n2: Seq<char>, v2: Value|
                #![trigger global_bound(final(self).st(), n2, v2)]
                (n2 != name@ && global_bound(old(self).st(), n2, v2)) ==> global_bound(
                    final(self).st(),
                    n2,
                    v2,
                ),
            forall|n2: Seq<char>, op2: PrimOp|
                #![trigger prim_bound(final(self).st(), n2, op2)]
                (n2 != name@ && prim_bound(old(self).st(), n2, op2)) ==> prim_bound(
                    final(self).st(),
                    n2,
                    op2,
                ),
    {
        let hl0 = self.heap.len();
        proof {
            assert(self.heap@.len() == hl0);
        }
        let ghost h0 = self.heap@;
        let sym = self.heap.intern_symbol(name);
        let sid = match sym {
            Value::Object(sid) => sid,
            _ => {
                proof {
                    assert(false);
                }
                0
            },
        };
        proof {
            lemma_closures_env_ok_extend(h0, self.heap@, self.env@.len() as int);
            crate::env::lemma_define_props(self.env@, 0, sid, value, self.heap@.len() as int);
        }
        self.env.define(0, sid, value);
        proof {
            assert(self.st() =~~= install_value(old(self).st(), name@, value));
            let stf = self.st();
            let h2 = stf.heap;
            crate::heap::lemma_find_symbol_from(h0, name@, 0);
            match crate::heap::find_symbol(h0, name@) {
                Some(_j) => {},
                None => {
                    crate::heap::lemma_find_symbol_push(h0, name@, 0);
                },
            }
            assert(crate::heap::find_symbol(h2, name@) == Some(sid as int));
            assert(stf.frames[0].map.contains_key(sid) && stf.frames[0].map[sid] == value);
            assert(global_bound(stf, name@, value));
            assert forall|n2: Seq<char>, v2: Value|
                (n2 != name@ && global_bound(old(self).st(), n2, v2)) implies global_bound(
                stf,
                n2,
                v2,
            ) by {
                match crate::heap::find_symbol(h0, n2) {
                    Some(j2) => {
                        crate::heap::lemma_find_symbol_from(h0, n2, 0);
                        crate::heap::lemma_find_symbol_stable(h0, h2, n2, 0);
                        lemma_prefix_index(h0, h2, j2);
                        assert(h2[j2] == ObjModel::Symbol(n2));
                        assert(h2[sid as int] == ObjModel::Symbol(name@));
                        assert(j2 != sid as int);
                        assert(stf.frames[0].map.contains_key(j2 as usize) && stf.frames[0].map[j2
                            as usize] == v2);
                    },
                    None => {
                        assert(false);
                    },
                }
            }
            assert forall|n2: Seq<char>, op2: PrimOp|
                (n2 != name@ && prim_bound(old(self).st(), n2, op2)) implies prim_bound(
                stf,
                n2,
                op2,
            ) by {
                let pid = choose|pid: GcId|
                    (#[trigger] global_bound(old(self).st(), n2, Value::Object(pid))) && pid
                        < h0.len() && h0[pid as int] == ObjModel::Primitive(op2);
                lemma_prefix_index(h0, h2, pid as int);
                assert(global_bound(stf, n2, Value::Object(pid)));
            }
        }
    }

    /// Allocates a primitive object and binds `name` to it globally; every
    /// other global binding survives.
    pub fn define_primitive(&mut self, name: &str, op: PrimOp)
        requires
            old(self).wf(),
        ensures
            final(self).wf(),
            old(self).heap@.is_prefix_of(final(self).heap@),
            final(self).env@.len() == old(self).env@.len(),
            final(self).exit_status == old(self).exit_status,
            final(self).st() == install_primitive(old(self).st(), name@, op),
            prim_bound(final(self).st(), name@, op),
            forall|n2: Seq<char>, v2: Value|
                #![trigger global_bound(final(self).st(), n2, v2)]
                (n2 != name@ && global_bound(old(self).st(), n2, v2)) ==> global_bound(
                    final(self).st(),
                    n2,
                    v2,
                ),
            forall|n2: Seq<char>, op2: PrimOp|
                #![trigger prim_bound(final(self).st(), n2, op2)]
                (n2 != name@ && prim_bound(old(self).st(), n2, op2)) ==> prim_bound(
                    final(self).st(),
                    n2,
                    op2,
                ),
    {
        let hl0 = self.heap.len();
        proof {
            assert(self.heap@.len() == hl0);
        }
        let ghost h0 = self.heap@;
        let ghost st0 = self.st();
        let prim = self.heap.alloc_primitive(op);
        proof {
            lemma_closures_env_ok_extend(h0, self.heap@, self.env@.len() as int);
        }
        let ghost stm = self.st();
        let ghost pid = h0.len() as usize;
        proof {
            assert(h0.is_prefix_of(stm.heap)) by {
                assert(h0 =~= stm.heap.subrange(0, h0.len() as int));
            }
            assert forall|n2: Seq<char>, v2: Value|
                global_bound(st0, n2, v2) implies #[trigger] global_bound(stm, n2, v2) by {
                match crate::heap::find_symbol(h0, n2) {
                    Some(j2) => {
                        crate::heap::lemma_find_symbol_stable(h0, stm.heap, n2, 0);
                    },
                    None => {
                        assert(false);
                    },
                }
            }
            assert forall|n2: Seq<char>, op2: PrimOp|
                prim_bound(st0, n2, op2) implies #[trigger] prim_bound(stm, n2, op2) by {
                let q = choose|q: GcId|
                    (#[trigger] global_bound(st0, n2, Value::Object(q))) && q < h0.len() && h0[q
                        as int] == ObjModel::Primitive(op2);
                lemma_prefix_index(h0, stm.heap, q as int);
                assert(global_bound(stm, n2, Value::Object(q)));
            }
        }
        self.define(name, prim);
        proof {
            assert(self.st() =~~= install_primitive(old(self).st(), name@, op));
            let stf = self.st();
            assert(stm.heap.is_prefix_of(stf.heap));
            lemma_prefix_index(stm.heap, stf.heap, pid as int);
            assert(stf.heap[pid as int] == ObjModel::Primitive(op));
            assert(global_bound(stf, name@, Value::Object(pid)));
            assert(prim_bound(stf, name@, op));
            assert(old(self).heap@.is_prefix_of(stf.heap)) by {
                crate::laws::lemma_prefix_trans(old(self).heap@, stm.heap, stf.heap);
            }
        }
    }

    /// Interns `name` and returns its unique symbol value.
    pub fn lookup(&mut self, name: &str) -> (v: Value)
        requires
            old(self).wf(),
        ensures
            final(self).wf(),
            old(self).heap@.is_prefix_of(final(self).heap@),
            final(self).env@ == old(self).env@,
            final(self).exit_status == old(self).exit_status,
            ({
                let (h2, sid) = crate::heap::intern_spec(old(self).heap@, name@);
                final(self).heap@ == h2 && v == Value::Object(sid)
            }),
            valid_value(v, final(self).heap@.len() as int),
    {
        let v = self.heap.intern_symbol(name);
        proof {
            lemma_closures_env_ok_extend(old(self).heap@, self.heap@, self.env@.len() as int);
        }
        v
    }

    /// Evaluates a source value in the global environment with the standard
    /// depth budget.
    pub fn eval(&mut self, obj: Value) -> (r: Result<Value, SchemeError>)
        requires
            old(self).wf(),
            valid_value(obj, old(self).heap@.len() as int),
        ensures
            final(self).wf(),
            old(self).heap@.is_prefix_of(final(self).heap@),
            ({
                let (st2, rr) = spec_eval::<F>(old(self).st(), obj, 0, EVAL_FUEL);
                final(self).st() == st2 && kind_res(r) == rr
            }),
            r matches Ok(w) ==> valid_value(w, final(self).heap@.len() as int),
    {
        self.eval_fuel(obj, 0, EVAL_FUEL)
    }

    /// Whether the value is the empty list.
    pub fn is_nil(&self, value: Value) -> (r: bool)
        ensures
            r == (value == Value::Nil),
    {
        matches!(value, Value::Nil)
    }

    /// Whether the value heads a cons chain: `Nil` or a pair reference.
    pub fn is_list(&self, value: Value) -> (r: bool)
        requires
            valid_value(value, self.heap@.len() as int),
        ensures
            r == spec_is_list(self.heap@, value),
    {
        match value {
            Value::Nil => true,
            Value::Object(id) => self.heap.pair_at(id).is_some(),
            _ => false,
        }
    }

    /// Whether the value is the empty list (`null?`).
    pub fn is_null(&self, value: Value) -> (r: bool)
        ensures
            r == (value == Value::Nil),
    {
        matches!(value, Value::Nil)
    }

    /// The number carried, when the value is an integer.
    pub fn is_integer(&self, value: Value) -> (r: Option<Number>)
        ensures
            match r {
                Some(n) => value == Value::Number(n) && n matches Number::Int(_x),
                None => !(value matches Value::Number(Number::Int(_x))),
            },
    {
        match value {
            Value::Number(Number::Int(x)) => Some(Number::Int(x)),
            _ => None,
        }
    }

    /// The number carried, when the value is a float.
    pub fn is_float(&self, value: Value) -> (r: Option<Number>)
        ensures
            match r {
                Some(n) => value == Value::Number(n) && n matches Number::Float(_p),
                None => !(value matches Value::Number(Number::Float(_p))),
            },
    {
        match value {
            Value::Number(Number::Float(p)) => Some(Number::Float(p)),
            _ => None,
        }
    }

    /// The heap identifier carried, when the value is a reference.
    pub fn is_object(&self, value: Value) -> (r: Option<GcId>)
        ensures
            match r {
                Some(id) => value == Value::Object(id),
                None => !(value matches Value::Object(_id)),
            },
    {
        match value {
            Value::Object(id) => Some(id),
            _ => None,
        }
    }

    /// The heap identifier carried, or a type error.
    pub fn to_object(&self, value: Value) -> (r: Result<GcId, SchemeError>)
        ensures
            match r {
                Ok(id) => value == Value::Object(id),
                Err(e) => !(value matches Value::Object(_id)) && e.kind() == ErrKind::Type,
            },
    {
        match value {
            Value::Object(id) => Ok(id),
            _ => Err(SchemeError::TypeError(String::from_str("expected a heap reference"))),
        }
    }

    /// The car and cdr, when the value references a pair.
    pub fn is_pair(&self, value: Value) -> (r: Option<(Value, Value)>)
        requires
            valid_value(value, self.heap@.len() as int),
        ensures
            match r {
                Some(p) => value matches Value::Object(id) && self.heap@[id as int]
                    == ObjModel::Pair(p.0, p.1),
                None => !(value matches Value::Object(id)
                    && self.heap@[id as int] matches ObjModel::Pair(_a, _d)),
            },
    {
        match value {
            Value::Object(id) => self.heap.pair_at(id),
            _ => None,
        }
    }

    /// The car and cdr, or a type error.
    pub fn to_pair(&self, value: Value) -> (r: Result<(Value, Value), SchemeError>)
        requires
            valid_value(value, self.heap@.len() as int),
        ensures
            match r {
                Ok(p) => value matches Value::Object(id) && self.heap@[id as int]
                    == ObjModel::Pair(p.0, p.1),
                Err(e) => !(value matches Value::Object(id)
                    && self.heap@[id as int] matches ObjModel::Pair(_a, _d)) && e.kind()
                    == ErrKind::Type,
            },
    {
        match value {
            Value::Object(id) => match self.heap.pair_at(id) {
                Some(p) => Ok(p),
                None => Err(SchemeError::TypeError(String::from_str("expected a pair"))),
            },
            _ => Err(SchemeError::TypeError(String::from_str("expected a pair"))),
        }
    }

    /// The symbol identifier carried, or a type error.
    pub fn to_symbol(&self, value: Value) -> (r: Result<GcId, SchemeError>)
        requires
            valid_value(value, self.heap@.len() as int),
        ensures
            match r {
                Ok(id) => value == Value::Object(id) && self.heap@[id as int] matches
                    ObjModel::Symbol(_n),
                Err(e) => !(value matches Value::Object(id)
                    && self.heap@[id as int] matches ObjModel::Symbol(_n)) && e.kind()
                    == ErrKind::Type,
            },
    {
        match value {
            Value::Object(id) => if self.heap.is_symbol_at(id) {
                Ok(id)
            } else {
                Err(SchemeError::TypeError(String::from_str("expected a symbol")))
            },
            _ => Err(SchemeError::TypeError(String::from_str("expected a symbol"))),
        }
    }
}

} // verus!
