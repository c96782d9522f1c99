//! The heap: a monotonically growing arena of objects addressed by `GcId`.
//!
//! Symbols are interned (one identifier per name, forever); pairs, strings,
//! primitives and closures are allocated fresh. A newly allocated object can
//! only point at objects that already exist, so every object's references go
//! to strictly smaller identifiers; walks over heap structure terminate on
//! that rank. The first seven identifiers are the reserved keywords, interned
//! at construction in a fixed order.

use vstd::prelude::*;

use crate::types::{GcId, Value};

verus! {

/// The built-in operators of the primitive library.
#[derive(Clone, Copy, PartialEq, Eq, Structural, Debug)]
pub enum PrimOp {
    Add,
    Sub,
    Mul,
    Div,
    Rem,
    NumEq,
    NumLt,
    NumGt,
    NumLe,
    NumGe,
    NumMax,
    NumMin,
    IsNumber,
    IsInteger,
    IsFloat,
    List,
    IsList,
    IsNull,
    Cons,
    Car,
    Cdr,
    Quit,
}

/// A callable capturing its defining lexical environment: parameter symbol
/// identifiers, body forms, and the frame the lambda was evaluated in.
pub struct Closure {
    pub params: Vec<GcId>,
    pub body: Vec<Value>,
    pub env: usize,
}

/// The mathematical shape of one heap object.
pub enum ObjModel {
    FreeSlot,
    Pair(Value, Value),
    Symbol(Seq<char>),
    Str(Seq<char>),
    Primitive(PrimOp),
    Closure(Seq<GcId>, Seq<Value>, usize),
}

/// A boxed datum reachable only through a `GcId`.
pub enum HeapObject {
    FreeSlot,
    Pair(Value, Value),
    Symbol(String),
    Str(String),
    Primitive(PrimOp),
    Closure(Closure),
}

impl View for HeapObject {
    type V = ObjModel;

    open spec fn view(&self) -> ObjModel {
        match self {
            HeapObject::FreeSlot => ObjModel::FreeSlot,
            HeapObject::Pair(car, cdr) => ObjModel::Pair(*car, *cdr),
            HeapObject::Symbol(s) => ObjModel::Symbol(s@),
            HeapObject::Str(s) => ObjModel::Str(s@),
            HeapObject::Primitive(op) => ObjModel::Primitive(*op),
            HeapObject::Closure(c) => ObjModel::Closure(c.params@, c.body@, c.env),
        }
    }
}

impl HeapObject {
    /// A short noun for this object's shape, for error messages.
    pub fn kind_name(&self) -> (r: &'static str) {
        match self {
            HeapObject::FreeSlot => "FreeSlot",
            HeapObject::Pair(..) => "Pair",
            HeapObject::Symbol(_) => "Symbol",
            HeapObject::Str(_) => "String",
            HeapObject::Primitive(_) => "Primitive",
            HeapObject::Closure(_) => "Closure",
        }
    }
}

/// A value either is a scalar or points below `n`.
pub open spec fn valid_value(v: Value, n: int) -> bool {
    match v {
        Value::Object(id) => id < n,
        _ => true,
    }
}

/// Every value of `items` is valid for a heap of length `n`.
pub open spec fn all_valid(items: Seq<Value>, n: int) -> bool {
    forall|k: int| 0 <= k < items.len() ==> valid_value(#[trigger] items[k], n)
}

/// The object may only reference identifiers strictly below `i`.
pub open spec fn obj_refs_below(o: ObjModel, i: int) -> bool {
    match o {
        ObjModel::Pair(car, cdr) => valid_value(car, i) && valid_value(cdr, i),
        ObjModel::Closure(params, body, _env) => {
            &&& forall|k: int| 0 <= k < params.len() ==> (#[trigger] params[k]) < i
            &&& all_valid(body, i)
        },
        _ => true,
    }
}

/// Each object references only objects allocated before it.
pub open spec fn heap_wf(h: Seq<ObjModel>) -> bool {
    forall|i: int| 0 <= i < h.len() ==> obj_refs_below(#[trigger] h[i], i)
}

/// No two distinct identifiers carry symbols of the same name.
pub open spec fn symbols_unique(h: Seq<ObjModel>) -> bool {
    forall|i: int, j: int|
        (0 <= i < h.len() && 0 <= j < h.len() && ((#[trigger] h[i]) matches ObjModel::Symbol(n1)
            && (#[trigger] h[j]) matches ObjModel::Symbol(n2) && n1 == n2)) ==> i == j
}

/// The number of reserved keyword identifiers.
pub const NUM_KEYWORDS: usize = 7;

/// The reserved identifier of the `quote` keyword.
pub const QUOTE_ID: usize = 3;

/// The reserved words, recognized by identifier comparison in the evaluator.
/// Their identifiers are fixed by the interning order at heap construction.
#[derive(Clone, Copy, PartialEq, Eq, Structural, Debug)]
pub enum Keyword {
    If,
    Define,
    Lambda,
    Quote,
    True,
    False,
    SetBang,
}

/// The canonical spelling of keyword number `k`.
pub open spec fn keyword_name(k: int) -> Seq<char> {
    if k == 0 {
        "if"@
    } else if k == 1 {
        "define"@
    } else if k == 2 {
        "lambda"@
    } else if k == 3 {
        "quote"@
    } else if k == 4 {
        "#t"@
    } else if k == 5 {
        "#f"@
    } else if k == 6 {
        "set!"@
    } else {
        Seq::empty()
    }
}

/// The keyword assigned to identifier `id`, if any.
pub open spec fn keyword_from_id(id: GcId) -> Option<Keyword> {
    if id == 0 {
        Some(Keyword::If)
    } else if id == 1 {
        Some(Keyword::Define)
    } else if id == 2 {
        Some(Keyword::Lambda)
    } else if id == 3 {
        Some(Keyword::Quote)
    } else if id == 4 {
        Some(Keyword::True)
    } else if id == 5 {
        Some(Keyword::False)
    } else if id == 6 {
        Some(Keyword::SetBang)
    } else {
        None
    }
}

impl Keyword {
    /// The keyword whose reserved identifier is `id`, if any.
    pub fn from_id(id: GcId) -> (r: Option<Keyword>)
        ensures
            r == keyword_from_id(id),
    {
        match id {
            0 => Some(Keyword::If),
            1 => Some(Keyword::Define),
            2 => Some(Keyword::Lambda),
            3 => Some(Keyword::Quote),
            4 => Some(Keyword::True),
            5 => Some(Keyword::False),
            6 => Some(Keyword::SetBang),
            _ => None,
        }
    }
}

/// The first seven identifiers of every heap: the keyword symbols in their
/// canonical order.
pub open spec fn keyword_heap() -> Seq<ObjModel> {
    Seq::new(NUM_KEYWORDS as nat, |k: int| ObjModel::Symbol(keyword_name(k)))
}

/// The smallest index at or after `i` holding a symbol named `name`.
pub open spec fn find_symbol_from(h: Seq<ObjModel>, name: Seq<char>, i: int) -> Option<int>
    decreases h.len() - i,
{
    if i < 0 || i >= h.len() {
        None
    } else if h[i] == ObjModel::Symbol(name) {
        Some(i)
    } else {
        find_symbol_from(h, name, i + 1)
    }
}

/// The index of the symbol named `name`, if one is interned.
pub open spec fn find_symbol(h: Seq<ObjModel>, name: Seq<char>) -> Option<int> {
    find_symbol_from(h, name, 0)
}

/// What interning `name` does: returns the existing identifier, or extends
/// the heap with a fresh symbol.
pub open spec fn intern_spec(h: Seq<ObjModel>, name: Seq<char>) -> (Seq<ObjModel>, GcId) {
    match find_symbol(h, name) {
        Some(i) => (h, i as usize),
        None => (h.push(ObjModel::Symbol(name)), h.len() as usize),
    }
}

/// What a search started at `i` can return.
pub proof fn lemma_find_symbol_from(h: Seq<ObjModel>, name: Seq<char>, i: int)
    requires
        0 <= i <= h.len(),
    ensures
        match find_symbol_from(h, name, i) {
            Some(j) => i <= j < h.len() && h[j] == ObjModel::Symbol(name) && (forall|k: int|
                i <= k < j ==> h[k] != ObjModel::Symbol(name)),
            None => forall|k: int| i <= k < h.len() ==> h[k] != ObjModel::Symbol(name),
        },
    decreases h.len() - i,
{
    if i < h.len() && h[i] != ObjModel::Symbol(name) {
        lemma_find_symbol_from(h, name, i + 1);
    }
}

/// The elements of the cons chain starting at `v`: the cars collected from
/// head to the first non-pair tail. (The guard on the recursion is vacuous on
/// well-formed heaps, where a pair's tail always has smaller rank.)
pub open spec fn list_elems(h: Seq<ObjModel>, v: Value) -> Seq<Value>
    decreases v.rank(),
{
    match v {
        Value::Object(id) => if id < h.len() {
            match h[id as int] {
                ObjModel::Pair(car, cdr) => if cdr.rank() < v.rank() {
                    seq![car] + list_elems(h, cdr)
                } else {
                    seq![car]
                },
                _ => Seq::empty(),
            }
        } else {
            Seq::empty()
        },
        _ => Seq::empty(),
    }
}

/// The terminator of the cons chain starting at `v`: the first value that is
/// not a pair (for a proper list, `Nil`).
pub open spec fn list_tail(h: Seq<ObjModel>, v: Value) -> Value
    decreases v.rank(),
{
    match v {
        Value::Object(id) => if id < h.len() {
            match h[id as int] {
                ObjModel::Pair(_car, cdr) => if cdr.rank() < v.rank() {
                    list_tail(h, cdr)
                } else {
                    cdr
                },
                _ => v,
            }
        } else {
            v
        },
        _ => v,
    }
}

/// What the right fold of `alloc_list` does: allocates the chain for the rest
/// of the items first, then one pair for the head; no items yield `Nil`.
pub open spec fn alloc_list_spec(h: Seq<ObjModel>, items: Seq<Value>) -> (Seq<ObjModel>, Value)
    decreases items.len(),
{
    if items.len() == 0 {
        (h, Value::Nil)
    } else {
        let (h1, tail) = alloc_list_spec(h, items.drop_first());
        (h1.push(ObjModel::Pair(items[0], tail)), Value::Object(h1.len() as usize))
    }
}

/// The arena of heap objects.
pub struct Heap {
    objects: Vec<HeapObject>,
}

impl View for Heap {
    type V = Seq<ObjModel>;

    closed spec fn view(&self) -> Seq<ObjModel> {
        self.objects@.map_values(|o: HeapObject| o@)
    }
}

impl Heap {
    /// The heap's invariant: references point down, symbols are interned
    /// uniquely, and the keyword table occupies the first identifiers.
    pub open spec fn inv(&self) -> bool {
        &&& heap_wf(self@)
        &&& symbols_unique(self@)
        &&& self@.len() >= NUM_KEYWORDS
        &&& forall|k: int|
            0 <= k < NUM_KEYWORDS ==> self@[k] == ObjModel::Symbol(keyword_name(k))
    }

    /// A fresh heap holding exactly the pre-interned keyword symbols.
    pub fn new() -> (h: Heap)
        ensures
            h.inv(),
            h@ =~= keyword_heap(),
    {
        let mut objects: Vec<HeapObject> = Vec::new();
        objects.push(HeapObject::Symbol(String::from_str("if")));
        objects.push(HeapObject::Symbol(String::from_str("define")));
        objects.push(HeapObject::Symbol(String::from_str("lambda")));
        objects.push(HeapObject::Symbol(String::from_str("quote")));
        objects.push(HeapObject::Symbol(String::from_str("#t")));
        objects.push(HeapObject::Symbol(String::from_str("#f")));
        objects.push(HeapObject::Symbol(String::from_str("set!")));
        let h = Heap { objects };
        proof {
            reveal_strlit("if");
            reveal_strlit("define");
            reveal_strlit("lambda");
            reveal_strlit("quote");
            reveal_strlit("#t");
            reveal_strlit("#f");
            reveal_strlit("set!");
            assert(h@ =~= keyword_heap());
            assert("if"@.len() == 2 && "define"@.len() == 6 && "lambda"@.len() == 6
                && "quote"@.len() == 5 && "#t"@.len() == 2 && "#f"@.len() == 2
                && "set!"@.len() == 4);
            assert("if"@[0] == 'i' && "#t"@[0] == '#' && "#f"@[0] == '#');
            assert("#t"@[1] == 't' && "#f"@[1] == 'f');
            assert("define"@[0] == 'd' && "lambda"@[0] == 'l');
            assert(forall|i: int, j: int|
                (0 <= i < 7 && 0 <= j < 7 && keyword_name(i) == keyword_name(j)) ==> i == j);
        }
        h
    }

    /// The object stored under a valid identifier.
    pub fn get(&self, id: GcId) -> (o: &HeapObject)
        requires
            id < self@.len(),
        ensures
            o@ == self@[id as int],
    {
        &self.objects[id]
    }

    /// Looks up or creates the identifier interned for `name`.
    fn intern_symbol_to_gcid(&mut self, name: &str) -> (id: GcId)
        requires
            old(self).inv(),
        ensures
            final(self).inv(),
            old(self)@.is_prefix_of(final(self)@),
            (final(self)@, id) == intern_spec(old(self)@, name@),
            final(self)@[id as int] == ObjModel::Symbol(name@),
            id < final(self)@.len(),
    {
        let owned: String = name.to_owned();
        let ghost h0 = self@;
        proof {
            lemma_find_symbol_from(h0, name@, 0);
        }
        let n = self.objects.len();
        let mut i: usize = 0;
        while i < n
            invariant
                n == self.objects@.len(),
                0 <= i <= n,
                owned@ == name@,
                self.inv(),
                h0 == self@,
                forall|k: int| 0 <= k < i ==> self@[k] != ObjModel::Symbol(name@),
            decreases n - i,
        {
            let found = match &self.objects[i] {
                HeapObject::Symbol(s) => *s == owned,
                _ => false,
            };
            if found {
                proof {
                    lemma_find_symbol_from(h0, name@, 0);
                }
                return i;
            }
            i += 1;
        }
        proof {
            lemma_find_symbol_from(h0, name@, 0);
        }
        let id = self.objects.len();
        self.objects.push(HeapObject::Symbol(owned));
        proof {
            assert(self@ =~= h0.push(ObjModel::Symbol(name@)));
        }
        id
    }

    /// Returns the unique symbol value for `name`; idempotent.
    pub fn intern_symbol(&mut self, name: &str) -> (v: Value)
        requires
            old(self).inv(),
        ensures
            final(self).inv(),
            old(self)@.is_prefix_of(final(self)@),
            ({
                let (h2, id) = intern_spec(old(self)@, name@);
                final(self)@ == h2 && v == Value::Object(id) && final(self)@[id as int]
                    == ObjModel::Symbol(name@)
            }),
            valid_value(v, final(self)@.len() as int),
    {
        let id = self.intern_symbol_to_gcid(name);
        Value::Object(id)
    }

    /// Allocates a fresh pair; never interns.
    pub fn alloc_pair(&mut self, car: Value, cdr: Value) -> (v: Value)
        requires
            old(self).inv(),
            valid_value(car, old(self)@.len() as int),
            valid_value(cdr, old(self)@.len() as int),
        ensures
            final(self).inv(),
            old(self)@.is_prefix_of(final(self)@),
            final(self)@ == old(self)@.push(ObjModel::Pair(car, cdr)),
            v == Value::Object(old(self)@.len() as usize),
    {
        let id = self.objects.len();
        self.objects.push(HeapObject::Pair(car, cdr));
        proof {
            assert(self@ =~= old(self)@.push(ObjModel::Pair(car, cdr)));
        }
        Value::Object(id)
    }

    /// Right-folds the items into a cons chain ending in `Nil`; no items
    /// yield `Nil` itself.
    pub fn alloc_list(&mut self, items: Vec<Value>) -> (v: Value)
        requires
            old(self).inv(),
            all_valid(items@, old(self)@.len() as int),
        ensures
            final(self).inv(),
            old(self)@.is_prefix_of(final(self)@),
            (final(self)@, v) == alloc_list_spec(old(self)@, items@),
    {
        let ghost h0 = self@;
        let n = items.len();
        let mut acc = Value::Nil;
        let mut i: usize = n;
        proof {
            assert(items@.skip(n as int) =~= Seq::<Value>::empty());
        }
        while i > 0
            invariant
                n == items@.len(),
                0 <= i <= n,
                self.inv(),
                h0.is_prefix_of(self@),
                all_valid(items@, h0.len() as int),
                (self@, acc) == alloc_list_spec(h0, items@.skip(i as int)),
                valid_value(acc, self@.len() as int),
            decreases i,
        {
            i -= 1;
            let v = items[i];
            acc = self.alloc_pair(v, acc);
            proof {
                assert(items@.skip(i as int).drop_first() =~= items@.skip(i as int + 1));
            }
        }
        proof {
            assert(items@.skip(0) =~= items@);
        }
        acc
    }

    /// Walks the cons chain from `list`, returning the cars in order and the
    /// terminator. Non-`Nil` terminators are tolerated; the caller decides
    /// whether to reject them.
    pub fn fold_list(&self, list: Value) -> (r: (Vec<Value>, Value))
        requires
            self.inv(),
            valid_value(list, self@.len() as int),
        ensures
            r.0@ == list_elems(self@, list),
            r.1 == list_tail(self@, list),
            all_valid(r.0@, self@.len() as int),
            valid_value(r.1, self@.len() as int),
    {
        let mut elems: Vec<Value> = Vec::new();
        let mut p = list;
        loop
            invariant
                self.inv(),
                valid_value(p, self@.len() as int),
                all_valid(elems@, self@.len() as int),
                list_elems(self@, list) == elems@ + list_elems(self@, p),
                list_tail(self@, list) == list_tail(self@, p),
            decreases p.rank(),
        {
            match p {
                Value::Object(id) => {
                    match self.get(id) {
                        HeapObject::Pair(car, cdr) => {
                            let car = *car;
                            let cdr = *cdr;
                            proof {
                                assert(list_elems(self@, p) =~= seq![car] + list_elems(
                                    self@,
                                    cdr,
                                ));
                                assert(elems@ + list_elems(self@, p) =~= elems@.push(car)
                                    + list_elems(self@, cdr));
                            }
                            elems.push(car);
                            p = cdr;
                        },
                        _ => {
                            proof {
                                assert(elems@ + list_elems(self@, p) =~= elems@);
                            }
                            return (elems, p);
                        },
                    }
                },
                _ => {
                    proof {
                        assert(elems@ + list_elems(self@, p) =~= elems@);
                    }
                    return (elems, p);
                },
            }
        }
    }

    /// Allocates a fresh string object; strings are never interned.
    pub fn alloc_string(&mut self, s: String) -> (v: Value)
        requires
            old(self).inv(),
        ensures
            final(self).inv(),
            old(self)@.is_prefix_of(final(self)@),
            final(self)@ == old(self)@.push(ObjModel::Str(s@)),
            v == Value::Object(old(self)@.len() as usize),
    {
        let id = self.objects.len();
        self.objects.push(HeapObject::Str(s));
        proof {
            assert(self@ =~= old(self)@.push(ObjModel::Str(self.objects@.last()->Str_0@)));
        }
        Value::Object(id)
    }

    /// Allocates a built-in operator object.
    pub fn alloc_primitive(&mut self, op: PrimOp) -> (v: Value)
        requires
            old(self).inv(),
        ensures
            final(self).inv(),
            old(self)@.is_prefix_of(final(self)@),
            final(self)@ == old(self)@.push(ObjModel::Primitive(op)),
            v == Value::Object(old(self)@.len() as usize),
    {
        let id = self.objects.len();
        self.objects.push(HeapObject::Primitive(op));
        proof {
            assert(self@ =~= old(self)@.push(ObjModel::Primitive(op)));
        }
        Value::Object(id)
    }

    /// Allocates a closure object.
    pub fn alloc_closure(&mut self, c: Closure) -> (v: Value)
        requires
            old(self).inv(),
            forall|k: int| 0 <= k < c.params@.len() ==> (#[trigger] c.params@[k]) < old(self)@.len(),
            all_valid(c.body@, old(self)@.len() as int),
        ensures
            final(self).inv(),
            old(self)@.is_prefix_of(final(self)@),
            final(self)@ == old(self)@.push(ObjModel::Closure(c.params@, c.body@, c.env)),
            v == Value::Object(old(self)@.len() as usize),
    {
        let id = self.objects.len();
        let ghost params = c.params@;
        let ghost body = c.body@;
        let ghost env = c.env;
        self.objects.push(HeapObject::Closure(c));
        proof {
            assert(self@ =~= old(self)@.push(ObjModel::Closure(params, body, env)));
        }
        Value::Object(id)
    }

    /// The number of objects allocated so far.
    pub fn len(&self) -> (n: usize)
        ensures
            n == self@.len(),
    {
        self.objects.len()
    }

    /// The pair stored under `id`, if the object there is a pair.
    pub fn pair_at(&self, id: GcId) -> (r: Option<(Value, Value)>)
        requires
            id < self@.len(),
        ensures
            match r {
                Some(p) => self@[id as int] == ObjModel::Pair(p.0, p.1),
                None => !(self@[id as int] matches ObjModel::Pair(_a, _d)),
            },
    {
        match self.get(id) {
            HeapObject::Pair(a, d) => Some((*a, *d)),
            _ => None,
        }
    }

    /// Whether the object under `id` is a symbol.
    pub fn is_symbol_at(&self, id: GcId) -> (r: bool)
        requires
            id < self@.len(),
        ensures
            r == (self@[id as int] matches ObjModel::Symbol(_n)),
    {
        matches!(self.get(id), HeapObject::Symbol(_))
    }

    /// Whether the object under `id` is a reclaimed slot.
    pub fn is_free_at(&self, id: GcId) -> (r: bool)
        requires
            id < self@.len(),
        ensures
            r == (self@[id as int] matches ObjModel::FreeSlot),
    {
        matches!(self.get(id), HeapObject::FreeSlot)
    }

    /// The operator stored under `id`, if the object there is a primitive.
    pub fn prim_at(&self, id: GcId) -> (r: Option<PrimOp>)
        requires
            id < self@.len(),
        ensures
            match r {
                Some(op) => self@[id as int] == ObjModel::Primitive(op),
                None => !(self@[id as int] matches ObjModel::Primitive(_o)),
            },
    {
        match self.get(id) {
            HeapObject::Primitive(op) => Some(*op),
            _ => None,
        }
    }


    /// A copy of the name of the symbol under `id`, if the object is one.
    pub fn symbol_name_at(&self, id: GcId) -> (r: Option<String>)
        requires
            id < self@.len(),
        ensures
            match r {
                Some(nm) => self@[id as int] == ObjModel::Symbol(nm@),
                None => !(self@[id as int] matches ObjModel::Symbol(_n)),
            },
    {
        match self.get(id) {
            HeapObject::Symbol(s) => Some(s.clone()),
            _ => None,
        }
    }

    /// A copy of the content of the string under `id`, if the object is one.
    pub fn str_at(&self, id: GcId) -> (r: Option<String>)
        requires
            id < self@.len(),
        ensures
            match r {
                Some(c) => self@[id as int] == ObjModel::Str(c@),
                None => !(self@[id as int] matches ObjModel::Str(_c)),
            },
    {
        match self.get(id) {
            HeapObject::Str(s) => Some(s.clone()),
            _ => None,
        }
    }

    /// A copy of the closure stored under `id`, if the object there is one.
    pub fn closure_at(&self, id: GcId) -> (r: Option<Closure>)
        requires
            id < self@.len(),
        ensures
            match r {
                Some(c) => self@[id as int] == ObjModel::Closure(c.params@, c.body@, c.env),
                None => !(self@[id as int] matches ObjModel::Closure(_p, _b, _e)),
            },
    {
        match self.get(id) {
            HeapObject::Closure(c) => {
                let params = copy_ids(&c.params);
                let body = copy_values(&c.body);
                Some(Closure { params, body, env: c.env })
            },
            _ => None,
        }
    }
}

/// An element-for-element copy of a vector of identifiers.
pub fn copy_ids(v: &Vec<GcId>) -> (r: Vec<GcId>)
    ensures
        r@ == v@,
{
    let mut r: Vec<GcId> = Vec::new();
    let n = v.len();
    let mut i: usize = 0;
    while i < n
        invariant
            n == v@.len(),
            0 <= i <= n,
            r@ == v@.take(i as int),
        decreases n - i,
    {
        r.push(v[i]);
        proof {
            assert(r@ =~= v@.take(i + 1));
        }
        i += 1;
    }
    proof {
        assert(v@.take(n as int) =~= v@);
    }
    r
}

/// An element-for-element copy of a vector of values.
pub fn copy_values(v: &Vec<Value>) -> (r: Vec<Value>)
    ensures
        r@ == v@,
{
    let mut r: Vec<Value> = Vec::new();
    let n = v.len();
    let mut i: usize = 0;
    while i < n
        invariant
            n == v@.len(),
            0 <= i <= n,
            r@ == v@.take(i as int),
        decreases n - i,
    {
        r.push(v[i]);
        proof {
            assert(r@ =~= v@.take(i + 1));
        }
        i += 1;
    }
    proof {
        assert(v@.take(n as int) =~= v@);
    }
    r
}


/// The right fold of `alloc_list_spec` only appends pairs, and its result is
/// a valid value for the extended heap.
pub proof fn lemma_alloc_list_spec_shape(h: Seq<ObjModel>, items: Seq<Value>)
    ensures
        ({
            let (h2, v) = alloc_list_spec(h, items);
            &&& h.is_prefix_of(h2)
            &&& valid_value(v, h2.len() as int)
            &&& forall|i: int|
                h.len() <= i < h2.len() ==> (#[trigger] h2[i]) matches ObjModel::Pair(_a, _d)
        }),
    decreases items.len(),
{
    if items.len() == 0 {
        assert(h.is_prefix_of(h));
    } else {
        lemma_alloc_list_spec_shape(h, items.drop_first());
        let (h1, _tail) = alloc_list_spec(h, items.drop_first());
        assert(h.is_prefix_of(h1.push(ObjModel::Pair(items[0], _tail))));
    }
}


/// A found symbol stays found, at the same identifier, when the heap grows.
pub proof fn lemma_find_symbol_stable(h: Seq<ObjModel>, h2: Seq<ObjModel>, name: Seq<char>, i: int)
    requires
        h.is_prefix_of(h2),
        0 <= i <= h.len(),
    ensures
        find_symbol_from(h, name, i) matches Some(j) ==> find_symbol_from(h2, name, i) == Some(j),
    decreases h.len() - i,
{
    if i < h.len() {
        assert(h2[i] == h[i]);
        if h[i] != ObjModel::Symbol(name) {
            lemma_find_symbol_stable(h, h2, name, i + 1);
        }
    }
}

/// Pushing a new symbol makes it findable at the old length.
pub proof fn lemma_find_symbol_push(h: Seq<ObjModel>, name: Seq<char>, i: int)
    requires
        find_symbol_from(h, name, i) is None,
        0 <= i <= h.len(),
    ensures
        find_symbol_from(h.push(ObjModel::Symbol(name)), name, i) == Some(h.len() as int),
    decreases h.len() - i,
{
    let h2 = h.push(ObjModel::Symbol(name));
    if i < h.len() {
        assert(h2[i] == h[i]);
        lemma_find_symbol_push(h, name, i + 1);
    } else {
        assert(h2[i] == ObjModel::Symbol(name));
    }
}

} // verus!
