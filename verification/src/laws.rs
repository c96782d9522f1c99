//! The laws of the interpreter, stated and proved over the specification
//! functions that the executable code is pinned to: interning is bijective,
//! self-evaluating values are fixed points, `define` makes the defined symbol
//! evaluate to the defined value, `set!` of an unbound variable fails, a
//! lambda captures the frame it is evaluated in, arguments are evaluated
//! left to right, a fresh interpreter binds exactly the installed names, and
//! reading a printed form back yields the value again for integers, booleans,
//! the empty list, readable characters, symbols and strings. (The round trip
//! is not stated for composite lists — re-reading re-allocates, so it needs a
//! structural-equality relation — nor for floats, whose printed and parsed
//! forms belong to the host.)

use vstd::prelude::*;

use crate::env::{define_spec, lookup_chain, set_bang_spec, FrameModel};
use crate::float::FloatHost;
use crate::heap::{
    find_symbol, intern_spec, keyword_from_id, lemma_find_symbol_from, list_elems, symbols_unique,
    Keyword, ObjModel,
};
use crate::interp::{
    bind_params, boot_state, extract_params, initial_state, install_primitive, install_value,
    spec_apply, spec_apply_prim, spec_eval, spec_eval_args, spec_eval_body, spec_eval_combination,
    spec_eval_special, SState,
};
use crate::display::{digit_char, int_chars, nat_chars};
use crate::parser::{digit_val, digits_int, parse_i64_spec};
use crate::types::{ErrKind, GcId, Value};

verus! {

/// Prefixes compose.
pub proof fn lemma_prefix_trans<A>(a: Seq<A>, b: Seq<A>, c: Seq<A>)
    requires
        a.is_prefix_of(b),
        b.is_prefix_of(c),
    ensures
        a.is_prefix_of(c),
{
    assert(a =~= c.subrange(0, a.len() as int));
}

/// Evaluation only ever appends to the heap and adds frames: nothing already
/// allocated moves, and no frame disappears.
pub proof fn lemma_eval_extends<F: FloatHost>(st: SState, v: Value, fid: usize, fuel: u64)
    requires
        fid < st.frames.len(),
    ensures
        ({
            let (st2, _r) = spec_eval::<F>(st, v, fid, fuel);
            st.heap.is_prefix_of(st2.heap) && st.frames.len() <= st2.frames.len()
        }),
    decreases fuel, 4int, 0int,
{
    assert(st.heap.is_prefix_of(st.heap)) by {
        assert(st.heap =~= st.heap.subrange(0, st.heap.len() as int));
    }
    if fuel != 0 {
        match v {
            Value::Object(id) => {
                if id < st.heap.len() {
                    match st.heap[id as int] {
                        ObjModel::Pair(car, cdr) => {
                            let elems = list_elems(st.heap, cdr);
                            match car {
                                Value::Object(kid) => match keyword_from_id(kid) {
                                    Some(kw) => {
                                        lemma_eval_special_extends::<F>(st, kw, elems, fid, fuel);
                                    },
                                    None => {
                                        lemma_eval_combination_extends::<F>(
                                            st,
                                            car,
                                            elems,
                                            fid,
                                            fuel,
                                        );
                                    },
                                },
                                _ => {
                                    lemma_eval_combination_extends::<F>(st, car, elems, fid, fuel);
                                },
                            }
                        },
                        _ => {},
                    }
                }
            },
            _ => {},
        }
    }
}

/// Special forms only ever append to the heap and add frames.
pub proof fn lemma_eval_special_extends<F: FloatHost>(
    st: SState,
    kw: Keyword,
    args: Seq<Value>,
    fid: usize,
    fuel: u64,
)
    requires
        fid < st.frames.len(),
    ensures
        ({
            let (st2, _r) = spec_eval_special::<F>(st, kw, args, fid, fuel);
            st.heap.is_prefix_of(st2.heap) && st.frames.len() <= st2.frames.len()
        }),
    decreases fuel, 3int, 1int,
{
    assert(st.heap.is_prefix_of(st.heap)) by {
        assert(st.heap =~= st.heap.subrange(0, st.heap.len() as int));
    }
    if fuel != 0 {
        let sub = (fuel - 1) as u64;
        match kw {
            Keyword::If => {
                if args.len() == 3 {
                    let (st1, cres) = spec_eval::<F>(st, args[0], fid, sub);
                    lemma_eval_extends::<F>(st, args[0], fid, sub);
                    match cres {
                        Ok(c) => {
                            if c == Value::Boolean(false) {
                                lemma_eval_extends::<F>(st1, args[2], fid, sub);
                                lemma_prefix_trans(
                                    st.heap,
                                    st1.heap,
                                    spec_eval::<F>(st1, args[2], fid, sub).0.heap,
                                );
                            } else {
                                lemma_eval_extends::<F>(st1, args[1], fid, sub);
                                lemma_prefix_trans(
                                    st.heap,
                                    st1.heap,
                                    spec_eval::<F>(st1, args[1], fid, sub).0.heap,
                                );
                            }
                        },
                        Err(_k) => {},
                    }
                }
            },
            Keyword::Define | Keyword::SetBang => {
                if args.len() == 2 {
                    match args[0] {
                        Value::Object(sid) => {
                            lemma_eval_extends::<F>(st, args[1], fid, sub);
                            let (st1, _vres) = spec_eval::<F>(st, args[1], fid, sub);
                            lemma_set_bang_len(st1.frames, fid, sid, Value::Nil);
                            match spec_eval::<F>(st, args[1], fid, sub).1 {
                                Ok(w) => {
                                    lemma_set_bang_len(st1.frames, fid, sid, w);
                                },
                                Err(_k) => {},
                            }
                        },
                        _ => {},
                    }
                }
            },
            Keyword::Lambda => {
                if args.len() >= 2 {
                    match extract_params(st.heap, list_elems(st.heap, args[0]), 0, Seq::empty()) {
                        Some(pids) => {
                            let h2 = st.heap.push(ObjModel::Closure(pids, args.skip(1), fid));
                            assert(st.heap =~= h2.subrange(0, st.heap.len() as int));
                        },
                        None => {},
                    }
                }
            },
            _ => {},
        }
    }
}

/// Applications only ever append to the heap and add frames.
pub proof fn lemma_eval_combination_extends<F: FloatHost>(
    st: SState,
    op: Value,
    elems: Seq<Value>,
    fid: usize,
    fuel: u64,
)
    requires
        fid < st.frames.len(),
    ensures
        ({
            let (st2, _r) = spec_eval_combination::<F>(st, op, elems, fid, fuel);
            st.heap.is_prefix_of(st2.heap) && st.frames.len() <= st2.frames.len()
        }),
    decreases fuel, 3int, 1int,
{
    assert(st.heap.is_prefix_of(st.heap)) by {
        assert(st.heap =~= st.heap.subrange(0, st.heap.len() as int));
    }
    if fuel != 0 {
        let sub = (fuel - 1) as u64;
        let (st1, fres) = spec_eval::<F>(st, op, fid, sub);
        lemma_eval_extends::<F>(st, op, fid, sub);
        match fres {
            Ok(f) => {
                let (st2, ares) = spec_eval_args::<F>(st1, elems, 0, Seq::empty(), fid, fuel);
                lemma_eval_args_extends::<F>(st1, elems, 0, Seq::empty(), fid, fuel);
                lemma_prefix_trans(st.heap, st1.heap, st2.heap);
                match ares {
                    Ok(argv) => {
                        lemma_apply_extends::<F>(st2, f, argv, fuel);
                        lemma_prefix_trans(st.heap, st2.heap, spec_apply::<F>(st2, f, argv, fuel).0.heap);
                    },
                    Err(_k) => {},
                }
            },
            Err(_k) => {},
        }
    }
}

/// Argument evaluation only ever appends to the heap and adds frames.
pub proof fn lemma_eval_args_extends<F: FloatHost>(
    st: SState,
    elems: Seq<Value>,
    i: int,
    acc: Seq<Value>,
    fid: usize,
    fuel: u64,
)
    requires
        fid < st.frames.len(),
    ensures
        ({
            let (st2, _r) = spec_eval_args::<F>(st, elems, i, acc, fid, fuel);
            st.heap.is_prefix_of(st2.heap) && st.frames.len() <= st2.frames.len()
        }),
    decreases fuel, 2int, elems.len() - i,
{
    assert(st.heap.is_prefix_of(st.heap)) by {
        assert(st.heap =~= st.heap.subrange(0, st.heap.len() as int));
    }
    if !(i < 0 || i >= elems.len() || fuel == 0) {
        let (st1, r) = spec_eval::<F>(st, elems[i], fid, (fuel - 1) as u64);
        lemma_eval_extends::<F>(st, elems[i], fid, (fuel - 1) as u64);
        match r {
            Ok(w) => {
                lemma_eval_args_extends::<F>(st1, elems, i + 1, acc.push(w), fid, fuel);
                lemma_prefix_trans(
                    st.heap,
                    st1.heap,
                    spec_eval_args::<F>(st1, elems, i + 1, acc.push(w), fid, fuel).0.heap,
                );
            },
            Err(_k) => {},
        }
    }
}

/// Application only ever appends to the heap and adds frames.
pub proof fn lemma_apply_extends<F: FloatHost>(st: SState, f: Value, args: Seq<Value>, fuel: u64)
    ensures
        ({
            let (st2, _r) = spec_apply::<F>(st, f, args, fuel);
            st.heap.is_prefix_of(st2.heap) && st.frames.len() <= st2.frames.len()
        }),
    decreases fuel, 2int, 1int,
{
    assert(st.heap.is_prefix_of(st.heap)) by {
        assert(st.heap =~= st.heap.subrange(0, st.heap.len() as int));
    }
    match f {
        Value::Object(id) => {
            if id < st.heap.len() {
                match st.heap[id as int] {
                    ObjModel::Primitive(op) => {
                        lemma_apply_prim_extends::<F>(st, op, args);
                    },
                    ObjModel::Closure(params, body, cenv) => {
                        if params.len() == args.len() && cenv < st.frames.len() {
                            let nf = st.frames.len() as usize;
                            let frames1 = crate::env::extend_spec(st.frames, cenv);
                            let frames2 = bind_params(frames1, nf, params, args, 0);
                            lemma_bind_params_len(frames1, nf, params, args, 0);
                            lemma_eval_body_extends::<F>(
                                SState { frames: frames2, ..st },
                                body,
                                0,
                                Value::Nil,
                                nf,
                                fuel,
                            );
                        }
                    },
                    _ => {},
                }
            }
        },
        _ => {},
    }
}

/// Binding parameters does not change the number of frames.
pub proof fn lemma_bind_params_len(
    frames: Seq<FrameModel>,
    fid: usize,
    params: Seq<GcId>,
    args: Seq<Value>,
    i: int,
)
    requires
        fid < frames.len(),
    ensures
        bind_params(frames, fid, params, args, i).len() == frames.len(),
    decreases params.len() - i,
{
    if !(i < 0 || i >= params.len() || i >= args.len()) {
        let frames1 = define_spec(frames, fid, params[i], args[i]);
        assert(frames1.len() == frames.len());
        lemma_bind_params_len(frames1, fid, params, args, i + 1);
    }
}

/// Body evaluation only ever appends to the heap and adds frames.
pub proof fn lemma_eval_body_extends<F: FloatHost>(
    st: SState,
    body: Seq<Value>,
    i: int,
    last: Value,
    fid: usize,
    fuel: u64,
)
    requires
        fid < st.frames.len(),
    ensures
        ({
            let (st2, _r) = spec_eval_body::<F>(st, body, i, last, fid, fuel);
            st.heap.is_prefix_of(st2.heap) && st.frames.len() <= st2.frames.len()
        }),
    decreases fuel, 1int, body.len() - i,
{
    assert(st.heap.is_prefix_of(st.heap)) by {
        assert(st.heap =~= st.heap.subrange(0, st.heap.len() as int));
    }
    if !(i < 0 || i >= body.len() || fuel == 0) {
        let (st1, r) = spec_eval::<F>(st, body[i], fid, (fuel - 1) as u64);
        lemma_eval_extends::<F>(st, body[i], fid, (fuel - 1) as u64);
        match r {
            Ok(w) => {
                lemma_eval_body_extends::<F>(st1, body, i + 1, w, fid, fuel);
                lemma_prefix_trans(
                    st.heap,
                    st1.heap,
                    spec_eval_body::<F>(st1, body, i + 1, w, fid, fuel).0.heap,
                );
            },
            Err(_k) => {},
        }
    }
}

/// Primitives only ever append to the heap; they never touch frames.
pub proof fn lemma_apply_prim_extends<F: FloatHost>(st: SState, op: crate::heap::PrimOp, args: Seq<Value>)
    ensures
        ({
            let (st2, _r) = spec_apply_prim::<F>(st, op, args);
            st.heap.is_prefix_of(st2.heap) && st2.frames == st.frames
        }),
{
    assert(st.heap.is_prefix_of(st.heap)) by {
        assert(st.heap =~= st.heap.subrange(0, st.heap.len() as int));
    }
    match op {
        crate::heap::PrimOp::List => {
            crate::heap::lemma_alloc_list_spec_shape(st.heap, args);
        },
        crate::heap::PrimOp::Cons => {
            if args.len() == 2 {
                let h2 = st.heap.push(ObjModel::Pair(args[0], args[1]));
                assert(st.heap =~= h2.subrange(0, st.heap.len() as int));
            }
        },
        _ => {},
    }
}


/// `set!` never changes the number of frames.
pub proof fn lemma_set_bang_len(frames: Seq<FrameModel>, fid: usize, key: GcId, value: Value)
    ensures
        match set_bang_spec(frames, fid, key, value) {
            Some(fr2) => fr2.len() == frames.len(),
            None => true,
        },
    decreases fid,
{
    if fid < frames.len() {
        let fr = frames[fid as int];
        if !fr.map.contains_key(key) {
            match fr.parent {
                Some(p) => {
                    if p < fid {
                        lemma_set_bang_len(frames, p, key, value);
                    }
                },
                None => {},
            }
        }
    }
}

/// Symbol interning is bijective: interning the same name twice yields the
/// same identifier and leaves the heap alone the second time, and two
/// interned names share their identifier exactly when the names are equal.
pub proof fn lemma_intern_bijective(h: Seq<ObjModel>, n1: Seq<char>, n2: Seq<char>)
    requires
        symbols_unique(h),
        h.len() + 2 <= usize::MAX,
    ensures
        ({
            let (h1, id1) = intern_spec(h, n1);
            let (h1b, id1r) = intern_spec(h1, n1);
            h1b == h1 && id1r == id1
        }),
        ({
            let (h1, id1) = intern_spec(h, n1);
            let (h2, id2) = intern_spec(h1, n2);
            (id1 == id2) <==> (n1 == n2)
        }),
{
    let (h1, id1) = intern_spec(h, n1);
    lemma_find_symbol_from(h, n1, 0);
    lemma_intern_unique(h, n1);
    assert(h1[id1 as int] == ObjModel::Symbol(n1));
    lemma_find_symbol_from(h1, n1, 0);
    lemma_find_symbol_from(h1, n2, 0);
    match find_symbol(h1, n1) {
        Some(j) => {
            assert(j == id1);
        },
        None => {
            assert(false);
        },
    }
    let (h2, id2) = intern_spec(h1, n2);
    if n1 == n2 {
        assert(id2 == id1);
    } else {
        match find_symbol(h1, n2) {
            Some(j2) => {
                assert(h1[j2] == ObjModel::Symbol(n2));
                assert(id2 == j2 && id1 != j2);
            },
            None => {
                assert(id2 == h1.len());
            },
        }
    }
}

/// Interning preserves the uniqueness of symbols.
pub proof fn lemma_intern_unique(h: Seq<ObjModel>, name: Seq<char>)
    requires
        symbols_unique(h),
        h.len() < usize::MAX,
    ensures
        ({
            let (h2, id) = intern_spec(h, name);
            &&& symbols_unique(h2)
            &&& id < h2.len()
            &&& h2[id as int] == ObjModel::Symbol(name)
            &&& h.is_prefix_of(h2)
        }),
{
    lemma_find_symbol_from(h, name, 0);
    match find_symbol(h, name) {
        Some(_j) => {
            assert(h.is_prefix_of(h)) by {
                assert(h =~= h.subrange(0, h.len() as int));
            }
        },
        None => {
            let h2 = h.push(ObjModel::Symbol(name));
            assert(h.is_prefix_of(h2)) by {
                assert(h =~= h2.subrange(0, h.len() as int));
            }
            assert forall|i: int, j: int|
                (0 <= i < h2.len() && 0 <= j < h2.len() && ((#[trigger] h2[i]) matches
                    ObjModel::Symbol(m1) && (#[trigger] h2[j]) matches ObjModel::Symbol(m2) && m1
                    == m2)) implies i == j by {
                if i < h.len() && j < h.len() {
                    assert(h2[i] == h[i] && h2[j] == h[j]);
                } else if i < h.len() && j == h.len() {
                    assert(h2[i] == h[i]);
                } else if j < h.len() && i == h.len() {
                    assert(h2[j] == h[j]);
                }
            }
        },
    }
}

/// Self-evaluation: scalars (integers, floats, booleans, characters, the
/// empty list) and references to strings, primitives and closures evaluate
/// to themselves and leave the whole state untouched.
pub proof fn lemma_self_evaluation<F: FloatHost>(st: SState, v: Value, fid: usize, fuel: u64)
    requires
        fuel >= 1,
        match v {
            Value::Object(id) => id < st.heap.len() && match st.heap[id as int] {
                ObjModel::Str(_c) => true,
                ObjModel::Primitive(_o) => true,
                ObjModel::Closure(_p, _b, _e) => true,
                _ => false,
            },
            _ => true,
        },
    ensures
        spec_eval::<F>(st, v, fid, fuel) == (st, Ok::<Value, ErrKind>(v)),
{
}

/// Define then look up: after `(define x v)` evaluates successfully to a
/// value, evaluating the symbol `x` in the same frame yields exactly that
/// value, and changes nothing.
pub proof fn lemma_define_then_lookup<F: FloatHost>(
    st: SState,
    sid: GcId,
    vform: Value,
    fid: usize,
    fuel: u64,
    fuel2: u64,
)
    requires
        fuel >= 1,
        fuel2 >= 1,
        fid < st.frames.len(),
        sid < st.heap.len(),
        st.heap[sid as int] matches ObjModel::Symbol(_n),
    ensures
        ({
            let (st1, r) = spec_eval_special::<F>(
                st,
                Keyword::Define,
                seq![Value::Object(sid), vform],
                fid,
                fuel,
            );
            r matches Ok(w) ==> spec_eval::<F>(st1, Value::Object(sid), fid, fuel2) == (
                st1,
                Ok::<Value, ErrKind>(w),
            )
        }),
{
    let args: Seq<Value> = seq![Value::Object(sid), vform];
    let sub = (fuel - 1) as u64;
    let (stv, vres) = spec_eval::<F>(st, vform, fid, sub);
    lemma_eval_extends::<F>(st, vform, fid, sub);
    match vres {
        Ok(w) => {
            let frames2 = define_spec(stv.frames, fid, sid, w);
            assert(stv.heap[sid as int] == st.heap[sid as int]) by {
                assert(stv.heap[sid as int] == stv.heap.subrange(0, st.heap.len() as int)[sid as int]);
            }
            assert(frames2[fid as int].map.contains_key(sid));
            assert(lookup_chain(frames2, fid, sid) == Some(w));
        },
        Err(_k) => {},
    }
}

/// `set!` requires a prior binding: rebinding a symbol that is bound nowhere
/// along the frame chain yields an unbound-variable error, and the state is
/// exactly what evaluating the value expression left behind.
pub proof fn lemma_set_bang_unbound<F: FloatHost>(
    st: SState,
    sid: GcId,
    w: Value,
    fid: usize,
    fuel: u64,
)
    requires
        fuel >= 2,
        fid < st.frames.len(),
        sid < st.heap.len(),
        st.heap[sid as int] matches ObjModel::Symbol(_n),
        w.is_scalar(),
        crate::env::env_parents_wf(st.frames),
        lookup_chain(st.frames, fid, sid) is None,
    ensures
        spec_eval_special::<F>(st, Keyword::SetBang, seq![Value::Object(sid), w], fid, fuel) == (
            st,
            Err::<Value, ErrKind>(ErrKind::Unbound),
        ),
{
    lemma_lookup_none_set_bang_none(st.frames, fid, sid, w);
}

/// Where lookup finds nothing, `set!` finds nothing to rewrite.
pub proof fn lemma_lookup_none_set_bang_none(
    frames: Seq<FrameModel>,
    fid: usize,
    key: GcId,
    value: Value,
)
    requires
        lookup_chain(frames, fid, key) is None,
    ensures
        set_bang_spec(frames, fid, key, value) is None,
    decreases fid,
{
    if fid < frames.len() {
        let fr = frames[fid as int];
        if !fr.map.contains_key(key) {
            match fr.parent {
                Some(p) => {
                    if p < fid {
                        lemma_lookup_none_set_bang_none(frames, p, key, value);
                    }
                },
                None => {},
            }
        }
    }
}

/// Closure capture: a lambda evaluates to a fresh closure that records the
/// frame it was evaluated in, and applying a closure runs its body in a new
/// frame chained to that captured frame — not to the frame current at the
/// application — with the parameters bound positionally.
pub proof fn lemma_closure_capture<F: FloatHost>(
    st: SState,
    args: Seq<Value>,
    fid: usize,
    fuel: u64,
    st2: SState,
    cid: GcId,
    argv: Seq<Value>,
    fuel2: u64,
)
    requires
        fuel >= 1,
        args.len() >= 2,
        extract_params(st.heap, list_elems(st.heap, args[0]), 0, Seq::empty()) is Some,
    ensures
        spec_eval_special::<F>(st, Keyword::Lambda, args, fid, fuel) == (
            SState {
                heap: st.heap.push(
                    ObjModel::Closure(
                        extract_params(st.heap, list_elems(st.heap, args[0]), 0, Seq::empty()).unwrap(),
                        args.skip(1),
                        fid,
                    ),
                ),
                ..st
            },
            Ok::<Value, ErrKind>(Value::Object(st.heap.len() as usize)),
        ),
        (cid < st2.heap.len() && (st2.heap[cid as int] matches ObjModel::Closure(params, body, cenv)
            && params.len() == argv.len() && cenv < st2.frames.len())) ==> spec_apply::<F>(
            st2,
            Value::Object(cid),
            argv,
            fuel2,
        ) == ({
            let params = st2.heap[cid as int]->Closure_0;
            let body = st2.heap[cid as int]->Closure_1;
            let cenv = st2.heap[cid as int]->Closure_2;
            let nf = st2.frames.len() as usize;
            spec_eval_body::<F>(
                SState {
                    frames: bind_params(
                        crate::env::extend_spec(st2.frames, cenv),
                        nf,
                        params,
                        argv,
                        0,
                    ),
                    ..st2
                },
                body,
                0,
                Value::Nil,
                nf,
                fuel2,
            )
        }),
{
}

/// Left-to-right argument order: the next unevaluated argument is evaluated
/// in the state at hand, and the rest in the state that evaluation produces;
/// the results are collected in the same order.
pub proof fn lemma_args_left_to_right<F: FloatHost>(
    st: SState,
    elems: Seq<Value>,
    i: int,
    acc: Seq<Value>,
    fid: usize,
    fuel: u64,
)
    requires
        fuel >= 1,
        0 <= i < elems.len(),
    ensures
        ({
            let (st1, r1) = spec_eval::<F>(st, elems[i], fid, (fuel - 1) as u64);
            spec_eval_args::<F>(st, elems, i, acc, fid, fuel) == match r1 {
                Ok(w) => spec_eval_args::<F>(st1, elems, i + 1, acc.push(w), fid, fuel),
                Err(k) => (st1, Err::<Seq<Value>, ErrKind>(k)),
            }
        }),
{
}


/// The bytes a printed (ASCII) character sequence occupies.
pub open spec fn ascii_bytes(cs: Seq<char>) -> Seq<u8> {
    cs.map_values(|c: char| (c as u32) as u8)
}

/// Appending one digit multiplies the accumulated value by the radix.
proof fn lemma_digits_int_push(t: Seq<u8>, b: u8, i: int, acc: int, radix: u8)
    requires
        0 <= i <= t.len(),
        radix >= 2,
    ensures
        digits_int(t.push(b), i, acc, radix) == match digits_int(t, i, acc, radix) {
            Some(m) => match digit_val(b, radix) {
                Some(d) => Some(m * radix + d),
                None => None::<int>,
            },
            None => None::<int>,
        },
    decreases t.len() - i,
{
    let t2 = t.push(b);
    if i < t.len() {
        assert(t2[i] == t[i]);
        match digit_val(t[i], radix) {
            Some(d) => {
                lemma_digits_int_push(t, b, i + 1, acc * radix + d, radix);
                assert(digits_int(t2, i, acc, radix) == digits_int(
                    t2,
                    i + 1,
                    acc * radix + d,
                    radix,
                ));
                assert(digits_int(t, i, acc, radix) == digits_int(
                    t,
                    i + 1,
                    acc * radix + d,
                    radix,
                ));
            },
            None => {
                assert(digits_int(t2, i, acc, radix) is None);
                assert(digits_int(t, i, acc, radix) is None);
            },
        }
    } else {
        assert(t2[i] == b);
        assert(digits_int(t, i, acc, radix) == Some(acc));
        match digit_val(b, radix) {
            Some(d) => {
                assert(digits_int(t2, i, acc, radix) == digits_int(
                    t2,
                    i + 1,
                    acc * radix + d,
                    radix,
                ));
                assert(i + 1 >= t2.len());
                assert(digits_int(t2, i + 1, acc * radix + d, radix) == Some(acc * radix + d));
            },
            None => {
                assert(digits_int(t2, i, acc, radix) is None);
            },
        }
    }
}

/// The printed numeral of a non-negative integer is all digits and parses
/// back to the integer.
proof fn lemma_nat_chars_parse(n: int)
    requires
        n >= 0,
    ensures
        ({
            let bs = ascii_bytes(nat_chars(n));
            &&& bs.len() >= 1
            &&& forall|k: int| 0 <= k < bs.len() ==> 48 <= #[trigger] bs[k] <= 57
            &&& digits_int(bs, 0, 0, 10) == Some(n)
        }),
    decreases n,
{
    let bs = ascii_bytes(nat_chars(n));
    if n < 10 {
        assert(nat_chars(n) =~= seq![digit_char(n)]);
        assert(bs =~= seq![(48 + n) as u8]);
        assert(digit_val((48 + n) as u8, 10) == Some(n as u8));
        assert(digits_int(bs, 1, n, 10) == Some(n));
    } else {
        lemma_nat_chars_parse(n / 10);
        let bsq = ascii_bytes(nat_chars(n / 10));
        let d = n % 10;
        assert(bs =~= bsq.push((48 + d) as u8));
        lemma_digits_int_push(bsq, (48 + d) as u8, 0, 0, 10);
        assert(digit_val((48 + d) as u8, 10) == Some(d as u8));
        assert((n / 10) * 10 + d == n) by (nonlinear_arith)
            requires
                n >= 0,
                d == n % 10,
        ;
        assert(bs[0] == bsq[0]);
    }
}

/// Reader/printer round trip on integers: reading back the decimal numeral
/// the printer produces for any 64-bit integer yields that integer again.
pub proof fn lemma_int_print_parse_round_trip(x: i64)
    ensures
        parse_i64_spec(ascii_bytes(int_chars(x as int))) == Some(x),
{
    let t = ascii_bytes(int_chars(x as int));
    if x < 0 {
        lemma_nat_chars_parse(-(x as int));
        assert(int_chars(x as int) == seq!['-'] + nat_chars(-(x as int)));
        assert(t[0] == 45);
        assert(t.skip(1) =~= ascii_bytes(nat_chars(-(x as int))));
        assert(t.len() > 1);
    } else {
        lemma_nat_chars_parse(x as int);
        assert(t[0] != 45 && t[0] != 43);
    }
}


/// A scan over nothing but digits consumes the whole input and stays an
/// integer token.
proof fn lemma_scan_all_digits(s: Seq<u8>, i: int, t: Seq<u8>)
    requires
        0 <= i <= s.len(),
        forall|k: int| i <= k < s.len() ==> crate::parser::is_digit(#[trigger] s[k]),
    ensures
        crate::parser::scan_digits(s, i, t, false, false) == (s.len() as int, t + s.skip(i)),
        crate::parser::scan_is_float(s, i, false, false) == false,
    decreases s.len() - i,
{
    if i < s.len() {
        lemma_scan_all_digits(s, i + 1, t.push(s[i]));
        assert(t.push(s[i]) + s.skip(i + 1) =~= t + s.skip(i));
    } else {
        assert(t + s.skip(i) =~= t);
    }
}

/// Reader/printer round trip through the whole reader, for integers: reading
/// the printed numeral of any 64-bit integer consumes it entirely, allocates
/// nothing, and yields the integer back.
pub proof fn lemma_int_read_round_trip<F: FloatHost>(h: Seq<ObjModel>, x: i64)
    ensures
        ({
            let s = ascii_bytes(crate::display::spec_display::<F>(h, Value::Number(
                crate::types::Number::Int(x),
            )));
            crate::parser::spec_read::<F>(h, s, 0) == (
                h,
                s.len() as int,
                Ok::<Value, ErrKind>(Value::Number(crate::types::Number::Int(x))),
            )
        }),
{
    let s = ascii_bytes(int_chars(x as int));
    lemma_int_print_parse_round_trip(x);
    if x >= 0 {
        lemma_nat_chars_parse(x as int);
        assert(s == ascii_bytes(nat_chars(x as int)));
        assert(forall|k: int| 0 <= k < s.len() ==> crate::parser::is_digit(#[trigger] s[k]));
        lemma_scan_all_digits(s, 0, Seq::empty());
        assert(Seq::<u8>::empty() + s.skip(0) =~= s);
        assert(crate::parser::skip_ws_spec(s, 0, false) == 0);
        assert(crate::parser::spec_parse_number::<F>(s, 0, None) == (
            s.len() as int,
            Ok::<Value, ErrKind>(Value::Number(crate::types::Number::Int(x))),
        ));
    } else {
        lemma_nat_chars_parse(-(x as int));
        let bs = ascii_bytes(nat_chars(-(x as int)));
        assert(s =~= seq![45u8] + bs);
        assert(s[0] == 45);
        assert(forall|k: int| 1 <= k < s.len() ==> crate::parser::is_digit(#[trigger] s[k])) by {
            assert(forall|k: int| 1 <= k < s.len() ==> s[k] == bs[k - 1]);
        }
        lemma_scan_all_digits(s, 1, seq![45u8]);
        assert(seq![45u8] + s.skip(1) =~= s);
        assert(crate::parser::skip_ws_spec(s, 0, false) == 0);
        assert(s.len() >= 2 && crate::parser::is_digit(s[1]));
        assert(crate::parser::spec_parse_number::<F>(s, 1, Some(45u8)) == (
            s.len() as int,
            Ok::<Value, ErrKind>(Value::Number(crate::types::Number::Int(x))),
        ));
    }
}

/// Reader/printer round trip for the booleans and the empty list: reading
/// their printed forms allocates nothing and yields them back.
pub proof fn lemma_scalar_read_round_trip<F: FloatHost>(h: Seq<ObjModel>, b: bool)
    ensures
        ({
            let s = ascii_bytes(crate::display::spec_display::<F>(h, Value::Boolean(b)));
            crate::parser::spec_read::<F>(h, s, 0) == (
                h,
                s.len() as int,
                Ok::<Value, ErrKind>(Value::Boolean(b)),
            )
        }),
        ({
            let s = ascii_bytes(crate::display::spec_display::<F>(h, Value::Nil));
            crate::parser::spec_read::<F>(h, s, 0) == (
                h,
                s.len() as int,
                Ok::<Value, ErrKind>(Value::Nil),
            )
        }),
{
    let sb = ascii_bytes(crate::display::spec_display::<F>(h, Value::Boolean(b)));
    if b {
        assert(sb =~= seq![35u8, 116u8]);
    } else {
        assert(sb =~= seq![35u8, 102u8]);
    }
    assert(crate::parser::skip_ws_spec(sb, 0, false) == 0);
    let sn = ascii_bytes(crate::display::spec_display::<F>(h, Value::Nil));
    assert(sn =~= seq![40u8, 41u8]);
    assert(crate::parser::skip_ws_spec(sn, 0, false) == 0);
    assert(crate::parser::skip_ws_spec(sn, 1, false) == 1);
    assert(crate::heap::alloc_list_spec(h, Seq::empty()) == (h, Value::Nil));
    assert(crate::parser::spec_parse_items::<F>(h, sn, 1, Seq::empty()) == (
        h,
        2int,
        Ok::<Value, ErrKind>(Value::Nil),
    ));
}


/// The names the initial environment binds: the boolean constants and the
/// primitive library.
pub open spec fn installed_names() -> Set<Seq<char>> {
    set![
        "#t"@,
        "#f"@,
        "number?"@,
        "integer?"@,
        "float?"@,
        "+"@,
        "-"@,
        "*"@,
        "/"@,
        "%"@,
        "="@,
        "<"@,
        ">"@,
        "<="@,
        ">="@,
        "max"@,
        "min"@,
        "list"@,
        "list?"@,
        "null?"@,
        "cons"@,
        "car"@,
        "cdr"@,
        "quit"@,
        "exit"@,
    ]
}

/// Every key of the global frame is the identifier of a symbol whose name
/// the set allows, and the frame has no parent.
pub open spec fn frame0_domain_ok(st: SState, allowed: Set<Seq<char>>) -> bool {
    &&& st.frames.len() == 1
    &&& st.frames[0].parent is None
    &&& forall|k: GcId|
        #[trigger] st.frames[0].map.contains_key(k) ==> (k < st.heap.len() && (st.heap[k as int]
            matches ObjModel::Symbol(n) && allowed.contains(n)))
}

/// Pushing a non-symbol object keeps symbols uniquely interned.
proof fn lemma_push_nonsymbol_unique(h: Seq<ObjModel>, o: ObjModel)
    requires
        symbols_unique(h),
        !(o matches ObjModel::Symbol(_n)),
    ensures
        symbols_unique(h.push(o)),
{
    let h2 = h.push(o);
    assert forall|i: int, j: int|
        (0 <= i < h2.len() && 0 <= j < h2.len() && ((#[trigger] h2[i]) matches ObjModel::Symbol(m1)
            && (#[trigger] h2[j]) matches ObjModel::Symbol(m2) && m1 == m2)) implies i == j by {
        if i < h.len() && j < h.len() {
            assert(h2[i] == h[i] && h2[j] == h[j]);
        } else if i < h.len() {
            assert(h2[i] == h[i]);
        } else if j < h.len() {
            assert(h2[j] == h[j]);
        }
    }
}

/// One value installation keeps the global frame's domain within the allowed
/// names and the heap's symbols unique.
proof fn lemma_install_value_domain(st: SState, name: Seq<char>, v: Value, allowed: Set<Seq<char>>)
    requires
        frame0_domain_ok(st, allowed),
        allowed.contains(name),
        symbols_unique(st.heap),
        st.heap.len() + 1 <= usize::MAX,
    ensures
        ({
            let st2 = install_value(st, name, v);
            &&& frame0_domain_ok(st2, allowed)
            &&& symbols_unique(st2.heap)
            &&& st2.heap.len() <= st.heap.len() + 1
        }),
{
    let st2 = install_value(st, name, v);
    lemma_intern_unique(st.heap, name);
    let (h2, sid) = intern_spec(st.heap, name);
    assert forall|k: GcId| #[trigger] st2.frames[0].map.contains_key(k) implies (k < st2.heap.len()
        && (st2.heap[k as int] matches ObjModel::Symbol(n) && allowed.contains(n))) by {
        if k != sid {
            assert(st.frames[0].map.contains_key(k));
            assert(h2[k as int] == st.heap[k as int]) by {
                assert(st.heap[k as int] == h2.subrange(0, st.heap.len() as int)[k as int]);
            }
        }
    }
}

/// One primitive installation keeps the global frame's domain within the
/// allowed names and the heap's symbols unique.
proof fn lemma_install_primitive_domain(
    st: SState,
    name: Seq<char>,
    op: crate::heap::PrimOp,
    allowed: Set<Seq<char>>,
)
    requires
        frame0_domain_ok(st, allowed),
        allowed.contains(name),
        symbols_unique(st.heap),
        st.heap.len() + 2 <= usize::MAX,
    ensures
        ({
            let st2 = install_primitive(st, name, op);
            &&& frame0_domain_ok(st2, allowed)
            &&& symbols_unique(st2.heap)
            &&& st2.heap.len() <= st.heap.len() + 2
        }),
{
    let st2 = install_primitive(st, name, op);
    let h1 = st.heap.push(ObjModel::Primitive(op));
    lemma_push_nonsymbol_unique(st.heap, ObjModel::Primitive(op));
    lemma_intern_unique(h1, name);
    let (h2, sid) = intern_spec(h1, name);
    assert forall|k: GcId| #[trigger] st2.frames[0].map.contains_key(k) implies (k < st2.heap.len()
        && (st2.heap[k as int] matches ObjModel::Symbol(n) && allowed.contains(n))) by {
        if k != sid {
            assert(st.frames[0].map.contains_key(k));
            assert(h1[k as int] == st.heap[k as int]);
            assert(h2[k as int] == h1[k as int]) by {
                assert(h1[k as int] == h2.subrange(0, h1.len() as int)[k as int]);
            }
        }
    }
}

/// The boot heap interns its symbols uniquely.
proof fn lemma_boot_unique()
    ensures
        symbols_unique(boot_state().heap),
        boot_state().heap.len() == 7,
{
    reveal_strlit("if");
    reveal_strlit("define");
    reveal_strlit("lambda");
    reveal_strlit("quote");
    reveal_strlit("#t");
    reveal_strlit("#f");
    reveal_strlit("set!");
    assert("if"@.len() == 2 && "define"@.len() == 6 && "lambda"@.len() == 6 && "quote"@.len() == 5
        && "#t"@.len() == 2 && "#f"@.len() == 2 && "set!"@.len() == 4);
    assert("if"@[0] == 'i' && "#t"@[0] == '#' && "#f"@[0] == '#');
    assert("#t"@[1] == 't' && "#f"@[1] == 'f');
    assert("define"@[0] == 'd' && "lambda"@[0] == 'l');
    assert(forall|i: int, j: int|
        (0 <= i < 7 && 0 <= j < 7 && crate::heap::keyword_name(i) == crate::heap::keyword_name(j))
            ==> i == j);
}

/// The exact domain of a fresh interpreter's global environment: every bound
/// key is a symbol carrying one of the installed names, the global frame is
/// the only frame, and it has no parent. A symbol with any other name is
/// therefore unbound.
#[verifier::rlimit(100)]
#[verifier::spinoff_prover]
pub proof fn lemma_initial_frame_domain()
    ensures
        frame0_domain_ok(initial_state(), installed_names()),
        symbols_unique(initial_state().heap),
{
    lemma_boot_unique();
    let g0 = boot_state();
    assert(frame0_domain_ok(g0, installed_names()));
    let g1 = install_value(g0, "#t"@, Value::Boolean(true));
    lemma_install_value_domain(g0, "#t"@, Value::Boolean(true), installed_names());
    let g2 = install_value(g1, "#f"@, Value::Boolean(false));
    lemma_install_value_domain(g1, "#f"@, Value::Boolean(false), installed_names());
    let g3 = install_primitive(g2, "number?"@, crate::heap::PrimOp::IsNumber);
    lemma_install_primitive_domain(g2, "number?"@, crate::heap::PrimOp::IsNumber, installed_names());
    let g4 = install_primitive(g3, "integer?"@, crate::heap::PrimOp::IsInteger);
    lemma_install_primitive_domain(g3, "integer?"@, crate::heap::PrimOp::IsInteger, installed_names());
    let g5 = install_primitive(g4, "float?"@, crate::heap::PrimOp::IsFloat);
    lemma_install_primitive_domain(g4, "float?"@, crate::heap::PrimOp::IsFloat, installed_names());
    let g6 = install_primitive(g5, "+"@, crate::heap::PrimOp::Add);
    lemma_install_primitive_domain(g5, "+"@, crate::heap::PrimOp::Add, installed_names());
    let g7 = install_primitive(g6, "-"@, crate::heap::PrimOp::Sub);
    lemma_install_primitive_domain(g6, "-"@, crate::heap::PrimOp::Sub, installed_names());
    let g8 = install_primitive(g7, "*"@, crate::heap::PrimOp::Mul);
    lemma_install_primitive_domain(g7, "*"@, crate::heap::PrimOp::Mul, installed_names());
    let g9 = install_primitive(g8, "/"@, crate::heap::PrimOp::Div);
    lemma_install_primitive_domain(g8, "/"@, crate::heap::PrimOp::Div, installed_names());
    let g10 = install_primitive(g9, "%"@, crate::heap::PrimOp::Rem);
    lemma_install_primitive_domain(g9, "%"@, crate::heap::PrimOp::Rem, installed_names());
    let g11 = install_primitive(g10, "="@, crate::heap::PrimOp::NumEq);
    lemma_install_primitive_domain(g10, "="@, crate::heap::PrimOp::NumEq, installed_names());
    let g12 = install_primitive(g11, "<"@, crate::heap::PrimOp::NumLt);
    lemma_install_primitive_domain(g11, "<"@, crate::heap::PrimOp::NumLt, installed_names());
    let g13 = install_primitive(g12, ">"@, crate::heap::PrimOp::NumGt);
    lemma_install_primitive_domain(g12, ">"@, crate::heap::PrimOp::NumGt, installed_names());
    let g14 = install_primitive(g13, "<="@, crate::heap::PrimOp::NumLe);
    lemma_install_primitive_domain(g13, "<="@, crate::heap::PrimOp::NumLe, installed_names());
    let g15 = install_primitive(g14, ">="@, crate::heap::PrimOp::NumGe);
    lemma_install_primitive_domain(g14, ">="@, crate::heap::PrimOp::NumGe, installed_names());
    let g16 = install_primitive(g15, "max"@, crate::heap::PrimOp::NumMax);
    lemma_install_primitive_domain(g15, "max"@, crate::heap::PrimOp::NumMax, installed_names());
    let g17 = install_primitive(g16, "min"@, crate::heap::PrimOp::NumMin);
    lemma_install_primitive_domain(g16, "min"@, crate::heap::PrimOp::NumMin, installed_names());
    let g18 = install_primitive(g17, "list"@, crate::heap::PrimOp::List);
    lemma_install_primitive_domain(g17, "list"@, crate::heap::PrimOp::List, installed_names());
    let g19 = install_primitive(g18, "list?"@, crate::heap::PrimOp::IsList);
    lemma_install_primitive_domain(g18, "list?"@, crate::heap::PrimOp::IsList, installed_names());
    let g20 = install_primitive(g19, "null?"@, crate::heap::PrimOp::IsNull);
    lemma_install_primitive_domain(g19, "null?"@, crate::heap::PrimOp::IsNull, installed_names());
    let g21 = install_primitive(g20, "cons"@, crate::heap::PrimOp::Cons);
    lemma_install_primitive_domain(g20, "cons"@, crate::heap::PrimOp::Cons, installed_names());
    let g22 = install_primitive(g21, "car"@, crate::heap::PrimOp::Car);
    lemma_install_primitive_domain(g21, "car"@, crate::heap::PrimOp::Car, installed_names());
    let g23 = install_primitive(g22, "cdr"@, crate::heap::PrimOp::Cdr);
    lemma_install_primitive_domain(g22, "cdr"@, crate::heap::PrimOp::Cdr, installed_names());
    let g24 = install_primitive(g23, "quit"@, crate::heap::PrimOp::Quit);
    lemma_install_primitive_domain(g23, "quit"@, crate::heap::PrimOp::Quit, installed_names());
    let g25 = install_primitive(g24, "exit"@, crate::heap::PrimOp::Quit);
    lemma_install_primitive_domain(g24, "exit"@, crate::heap::PrimOp::Quit, installed_names());
    assert(initial_state() == g25);
}

/// A fresh interpreter gives an unbound-variable error for a symbol whose
/// name is none of the installed ones.
pub proof fn lemma_fresh_symbol_unbound<F: FloatHost>(sid: GcId, fuel: u64)
    requires
        fuel >= 1,
        sid < initial_state().heap.len(),
        (initial_state().heap[sid as int] matches ObjModel::Symbol(n) && !installed_names().contains(
            n,
        )),
    ensures
        spec_eval::<F>(initial_state(), Value::Object(sid), 0, fuel) == (
            initial_state(),
            Err::<Value, ErrKind>(ErrKind::Unbound),
        ),
{
    lemma_initial_frame_domain();
    let st = initial_state();
    assert(!st.frames[0].map.contains_key(sid));
    assert(lookup_chain(st.frames, 0, sid) is None);
}


/// Scanning an all-alphabetic suffix consumes it whole.
proof fn lemma_scan_alpha_all(s: Seq<u8>, i: int, t: Seq<u8>)
    requires
        0 <= i <= s.len(),
        forall|k: int| i <= k < s.len() ==> crate::parser::is_alpha(#[trigger] s[k]),
    ensures
        crate::parser::scan_alpha(s, i, t) == (s.len() as int, t + s.skip(i)),
    decreases s.len() - i,
{
    if i < s.len() {
        lemma_scan_alpha_all(s, i + 1, t.push(s[i]));
        assert(t.push(s[i]) + s.skip(i + 1) =~= t + s.skip(i));
    } else {
        assert(t + s.skip(i) =~= t);
    }
}

/// Reader/printer round trip for character literals whose printed form the
/// reader's `#\` grammar accepts: the named control characters and the
/// alphabetic characters. (Other characters print as themselves after `#\`,
/// a form this reader, like its grammar, does not read back.)
pub proof fn lemma_char_read_round_trip<F: FloatHost>(h: Seq<ObjModel>, c: u8)
    requires
        (65 <= c <= 90) || (97 <= c <= 122) || c == 32 || c == 8 || c == 9 || c == 10 || c == 13,
    ensures
        ({
            let s = ascii_bytes(crate::display::spec_display::<F>(h, Value::Char(c)));
            crate::parser::spec_read::<F>(h, s, 0) == (
                h,
                s.len() as int,
                Ok::<Value, ErrKind>(Value::Char(c)),
            )
        }),
{
    let s = ascii_bytes(crate::display::spec_display::<F>(h, Value::Char(c)));
    assert(crate::display::spec_display::<F>(h, Value::Char(c)) == crate::display::char_chars(c));
    if c == 32 {
        assert(s =~= seq![35u8, 92u8, 115u8, 112u8, 97u8, 99u8, 101u8]);
    } else if c == 8 {
        assert(s =~= seq![35u8, 92u8, 98u8, 97u8, 99u8, 107u8, 115u8, 112u8, 97u8, 99u8, 101u8]);
    } else if c == 9 {
        assert(s =~= seq![35u8, 92u8, 116u8, 97u8, 98u8]);
    } else if c == 10 {
        assert(s =~= seq![35u8, 92u8, 110u8, 101u8, 119u8, 108u8, 105u8, 110u8, 101u8]);
    } else if c == 13 {
        assert(s =~= seq![35u8, 92u8, 114u8, 101u8, 116u8, 117u8, 114u8, 110u8]);
    } else {
        assert(s =~= seq![35u8, 92u8, c]);
    }
    assert(crate::parser::skip_ws_spec(s, 0, false) == 0);
    assert(forall|k: int| 2 <= k < s.len() ==> crate::parser::is_alpha(#[trigger] s[k]));
    lemma_scan_alpha_all(s, 2, Seq::empty());
    let tok = s.skip(2);
    assert(Seq::<u8>::empty() + s.skip(2) =~= tok);
    if tok.len() != 1 {
        assert(crate::parser::lower_bytes(tok) =~= tok) by {
            assert(forall|k: int| 0 <= k < tok.len() ==> !(65 <= #[trigger] tok[k] <= 90));
        }
    }
    if c == 32 {
        assert(tok =~= seq![115u8, 112u8, 97u8, 99u8, 101u8]);
        assert(crate::parser::char_name_val(tok) == Some(32u8));
    } else if c == 8 {
        assert(tok =~= seq![98u8, 97u8, 99u8, 107u8, 115u8, 112u8, 97u8, 99u8, 101u8]);
        assert(crate::parser::char_name_val(tok) == Some(8u8));
    } else if c == 9 {
        assert(tok =~= seq![116u8, 97u8, 98u8]);
        assert(crate::parser::char_name_val(tok) == Some(9u8));
    } else if c == 10 {
        assert(tok =~= seq![110u8, 101u8, 119u8, 108u8, 105u8, 110u8, 101u8]);
        assert(crate::parser::char_name_val(tok) == Some(10u8));
    } else if c == 13 {
        assert(tok =~= seq![114u8, 101u8, 116u8, 117u8, 114u8, 110u8]);
        assert(crate::parser::char_name_val(tok) == Some(13u8));
    } else {
        assert(tok =~= seq![c]);
        assert(crate::parser::char_name_val(tok) == Some(c));
    }
}


/// Scanning an all-continuation suffix of a symbol consumes it whole.
proof fn lemma_symbol_scan_all(s: Seq<u8>, i: int, t: Seq<u8>)
    requires
        0 <= i <= s.len(),
        forall|k: int| i <= k < s.len() ==> crate::parser::is_symbol_rest(#[trigger] s[k]),
    ensures
        crate::parser::symbol_scan(s, i, t) == (s.len() as int, t + s.skip(i)),
    decreases s.len() - i,
{
    if i < s.len() {
        lemma_symbol_scan_all(s, i + 1, t.push(s[i]));
        assert(t.push(s[i]) + s.skip(i + 1) =~= t + s.skip(i));
    } else {
        assert(t + s.skip(i) =~= t);
    }
}

/// A symbol name the reader's grammar accepts: ASCII, a lead character
/// first, continuation characters throughout, and — when it starts with a
/// sign — not a form the reader takes for a signed number.
pub open spec fn symbol_token_ok(name: Seq<char>) -> bool {
    &&& name.len() >= 1
    &&& forall|k: int| 0 <= k < name.len() ==> ((#[trigger] name[k]) as u32) < 128
    &&& crate::parser::is_symbol_lead((name[0] as u32) as u8)
    &&& forall|k: int|
        0 <= k < name.len() ==> crate::parser::is_symbol_rest(((#[trigger] name[k]) as u32) as u8)
    &&& ((name[0] == '+' || name[0] == '-') ==> (name.len() == 1 || !crate::parser::is_digit(
        (name[1] as u32) as u8,
    )))
}

/// Reader/printer round trip for symbols: a symbol prints as its name, and
/// reading the name back yields the very same heap reference, because
/// interning is bijective. Holds for every name the reader's token grammar
/// can produce.
pub proof fn lemma_symbol_read_round_trip<F: FloatHost>(h: Seq<ObjModel>, sid: GcId)
    requires
        symbols_unique(h),
        h.len() <= usize::MAX,
        sid < h.len(),
        (h[sid as int] matches ObjModel::Symbol(name) && symbol_token_ok(name)),
    ensures
        ({
            let s = ascii_bytes(crate::display::spec_display::<F>(h, Value::Object(sid)));
            crate::parser::spec_read::<F>(h, s, 0) == (
                h,
                s.len() as int,
                Ok::<Value, ErrKind>(Value::Object(sid)),
            )
        }),
{
    let name = h[sid as int]->Symbol_0;
    assert(crate::display::spec_display::<F>(h, Value::Object(sid)) == name);
    let s = ascii_bytes(name);
    assert(s.len() == name.len());
    assert(forall|k: int| 0 <= k < s.len() ==> #[trigger] s[k] == (name[k] as u32) as u8);
    assert(forall|k: int| 0 <= k < s.len() ==> crate::parser::is_symbol_rest(#[trigger] s[k]));
    assert(crate::parser::is_symbol_lead(s[0]));
    assert(!crate::parser::is_ws(s[0]) && s[0] != 59);
    assert(crate::parser::skip_ws_spec(s, 0, false) == 0);
    assert forall|k: int|
        0 <= k < name.len() implies ((((#[trigger] name[k]) as u32) as u8) as char) == name[k] by {
        vstd::utf8::char_u32_cast(name[k], name[k] as u32);
    }
    assert(crate::parser::chars_of(s) =~= name);
    lemma_find_symbol_from(h, name, 0);
    match find_symbol(h, name) {
        Some(j) => {
            assert(h[j] == ObjModel::Symbol(name));
            assert(j == sid as int);
        },
        None => {
            assert(false);
        },
    }
    assert(intern_spec(h, name) == (h, sid));
    if s[0] == 43 || s[0] == 45 {
        assert(name.len() == 1 || !crate::parser::is_digit(s[1]));
        lemma_symbol_scan_all(s, 1, seq![s[0]]);
        assert(seq![s[0]] + s.skip(1) =~= s);
    } else {
        assert(!crate::parser::is_digit(s[0]) && s[0] != 40 && s[0] != 35 && s[0] != 34 && s[0]
            != 39);
        lemma_symbol_scan_all(s, 0, Seq::empty());
        assert(Seq::<u8>::empty() + s.skip(0) =~= s);
    }
}


/// Scanning the escaped image of the rest of a string collects exactly those
/// characters and stops after the closing quote.
proof fn lemma_string_scan_escape(content: Seq<char>, i: int, s: Seq<u8>, pos: int, acc: Seq<char>)
    requires
        0 <= i <= content.len(),
        forall|k: int| 0 <= k < content.len() ==> ((#[trigger] content[k]) as u32) < 256,
        0 <= pos <= s.len(),
        s.skip(pos) =~= ascii_bytes(crate::display::escape_chars(content, i)) + seq![34u8],
    ensures
        crate::parser::string_scan(s, pos, acc) == Some((acc + content.skip(i), s.len() as int)),
    decreases content.len() - i,
{
    let rest = ascii_bytes(crate::display::escape_chars(content, i)) + seq![34u8];
    assert(s.len() - pos == rest.len());
    assert(s.skip(pos)[0] == s[pos]);
    if i >= content.len() {
        assert(crate::display::escape_chars(content, i) =~= Seq::<char>::empty());
        assert(rest =~= seq![34u8]);
        assert(s[pos] == rest[0]);
        assert(s[pos] == 34);
        assert(pos + 1 == s.len());
        assert(acc + content.skip(i) =~= acc);
    } else {
        let c = content[i];
        vstd::utf8::char_u32_cast(c, c as u32);
        if c == '"' || c == '\\' {
            assert(crate::display::escape_chars(content, i) =~= seq!['\\', c]
                + crate::display::escape_chars(content, i + 1));
            assert(s.skip(pos)[1] == s[pos + 1]);
            assert(rest[0] == 92 && rest[1] == (c as u32) as u8);
            assert(s[pos] == 92 && s[pos + 1] == (c as u32) as u8);
            assert(((s[pos + 1] as u32) as char) == c);
            assert(forall|j: int| 0 <= j < rest.len() ==> #[trigger] rest[j] == s[pos + j]) by {
                assert(forall|j: int|
                    0 <= j < rest.len() ==> #[trigger] rest[j] == s.skip(pos)[j]);
            }
            let tail = ascii_bytes(crate::display::escape_chars(content, i + 1)) + seq![34u8];
            assert(ascii_bytes(seq!['\\', c]).len() == 2);
            assert(rest =~= ascii_bytes(seq!['\\', c]) + tail);
            assert(s.skip(pos + 2) =~= tail) by {
                assert(forall|j: int| 0 <= j < tail.len() ==> #[trigger] tail[j] == rest[2 + j]);
                assert(forall|j: int|
                    0 <= j < tail.len() ==> #[trigger] rest[2 + j] == s[pos + 2 + j]);
                assert(forall|j: int|
                    0 <= j < s.len() - pos - 2 ==> #[trigger] s.skip(pos + 2)[j] == s[pos + 2
                        + j]);
            }
            lemma_string_scan_escape(content, i + 1, s, pos + 2, acc.push(c));
            assert(acc.push(c) + content.skip(i + 1) =~= acc + content.skip(i));
        } else {
            assert(crate::display::escape_chars(content, i) =~= seq![c]
                + crate::display::escape_chars(content, i + 1));
            assert(rest[0] == (c as u32) as u8);
            assert(s[pos] == (c as u32) as u8);
            assert(s[pos] != 34 && s[pos] != 92) by {
                if s[pos] == 34 {
                    vstd::utf8::char_u32_cast(c, 34u32);
                }
                if s[pos] == 92 {
                    vstd::utf8::char_u32_cast(c, 92u32);
                }
            }
            assert(((s[pos] as u32) as char) == c);
            assert(forall|j: int| 0 <= j < rest.len() ==> #[trigger] rest[j] == s[pos + j]) by {
                assert(forall|j: int|
                    0 <= j < rest.len() ==> #[trigger] rest[j] == s.skip(pos)[j]);
            }
            let tail = ascii_bytes(crate::display::escape_chars(content, i + 1)) + seq![34u8];
            assert(ascii_bytes(seq![c]).len() == 1);
            assert(rest =~= ascii_bytes(seq![c]) + tail);
            assert(s.skip(pos + 1) =~= tail) by {
                assert(forall|j: int| 0 <= j < tail.len() ==> #[trigger] tail[j] == rest[1 + j]);
                assert(forall|j: int|
                    0 <= j < tail.len() ==> #[trigger] rest[1 + j] == s[pos + 1 + j]);
                assert(forall|j: int|
                    0 <= j < s.len() - pos - 1 ==> #[trigger] s.skip(pos + 1)[j] == s[pos + 1
                        + j]);
            }
            lemma_string_scan_escape(content, i + 1, s, pos + 1, acc.push(c));
            assert(acc.push(c) + content.skip(i + 1) =~= acc + content.skip(i));
        }
    }
}

/// Reader/printer round trip for strings: a string prints double-quoted with
/// `"` and `\` escaped, and reading that form back allocates a fresh string
/// object carrying exactly the same characters (strings are never interned,
/// so the reference is new but the content is identical).
pub proof fn lemma_string_read_round_trip<F: FloatHost>(h: Seq<ObjModel>, sid: GcId)
    requires
        sid < h.len(),
        h.len() < usize::MAX,
        (h[sid as int] matches ObjModel::Str(content) && (forall|k: int|
            0 <= k < content.len() ==> ((#[trigger] content[k]) as u32) < 256)),
    ensures
        ({
            let content = h[sid as int]->Str_0;
            let s = ascii_bytes(crate::display::spec_display::<F>(h, Value::Object(sid)));
            crate::parser::spec_read::<F>(h, s, 0) == (
                h.push(ObjModel::Str(content)),
                s.len() as int,
                Ok::<Value, ErrKind>(Value::Object(h.len() as usize)),
            )
        }),
{
    let content = h[sid as int]->Str_0;
    assert(crate::display::spec_display::<F>(h, Value::Object(sid)) == seq!['"']
        + crate::display::escape_chars(content, 0) + seq!['"']);
    let s = ascii_bytes(crate::display::spec_display::<F>(h, Value::Object(sid)));
    assert(s[0] == 34);
    assert(crate::parser::skip_ws_spec(s, 0, false) == 0);
    assert(s.skip(1) =~= ascii_bytes(crate::display::escape_chars(content, 0)) + seq![34u8]);
    lemma_string_scan_escape(content, 0, s, 1, Seq::empty());
    assert(Seq::<char>::empty() + content.skip(0) =~= content);
}

} // verus!
