//! The printer: the canonical textual rendering of values.
//!
//! `spec_display` defines the exact character sequence each value prints as
//! (with binary64 payloads rendered by the host), and the executable printer
//! is proved to produce it. Integers print as decimal numerals computed and
//! verified here, not delegated.

use vstd::prelude::*;
use vstd::string::StrSliceExecFns;
use vstd::string::StringExecFns;

use crate::float::FloatHost;
use crate::heap::ObjModel;
use crate::interp::Interp;
use crate::types::{Number, Value};

verus! {

/// The character of one decimal digit.
pub open spec fn digit_char(d: int) -> char {
    ((48 + d) as u8) as char
}

/// The character of one hexadecimal digit, lowercase.
pub open spec fn hex_digit_char(d: int) -> char {
    if d < 10 {
        ((48 + d) as u8) as char
    } else {
        ((87 + d) as u8) as char
    }
}

/// The hexadecimal numeral of a non-negative integer, lowercase.
pub open spec fn nat_hex_chars(n: int) -> Seq<char>
    decreases n,
{
    if n < 16 {
        seq![hex_digit_char(if n < 0 { 0 } else { n })]
    } else {
        nat_hex_chars(n / 16).push(hex_digit_char(n % 16))
    }
}

/// The decimal numeral of a non-negative integer.
pub open spec fn nat_chars(n: int) -> Seq<char>
    decreases n,
{
    if n < 10 {
        seq![digit_char(if n < 0 { 0 } else { n })]
    } else {
        nat_chars(n / 10).push(digit_char(n % 10))
    }
}

/// The decimal numeral of an integer, possibly signed.
pub open spec fn int_chars(i: int) -> Seq<char> {
    if i < 0 {
        seq!['-'] + nat_chars(-i)
    } else {
        nat_chars(i)
    }
}

/// String content with `"` and `\` escaped, from index `i` on.
pub open spec fn escape_chars(t: Seq<char>, i: int) -> Seq<char>
    decreases t.len() - i,
{
    if i < 0 || i >= t.len() {
        Seq::empty()
    } else {
        let c = t[i];
        (if c == '"' || c == '\\' {
            seq!['\\', c]
        } else {
            seq![c]
        }) + escape_chars(t, i + 1)
    }
}

/// The printed form of a character literal: a named form for the control
/// characters the reader knows, else the character itself after `#\`.
pub open spec fn char_chars(c: u8) -> Seq<char> {
    if c == 32 {
        seq!['#', '\\', 's', 'p', 'a', 'c', 'e']
    } else if c == 8 {
        seq!['#', '\\', 'b', 'a', 'c', 'k', 's', 'p', 'a', 'c', 'e']
    } else if c == 9 {
        seq!['#', '\\', 't', 'a', 'b']
    } else if c == 10 {
        seq!['#', '\\', 'n', 'e', 'w', 'l', 'i', 'n', 'e']
    } else if c == 13 {
        seq!['#', '\\', 'r', 'e', 't', 'u', 'r', 'n']
    } else {
        seq!['#', '\\', c as char]
    }
}

/// The printed form of a value: numerals, `#t`/`#f`, `()`, symbol names,
/// quoted strings, parenthesized chains with improper tails after a dot, and
/// opaque forms for primitives and closures. A primitive prints as
/// `<primitive 0x..>` with the hexadecimal digits of its heap identifier
/// standing in for a machine address, which a verified core cannot name
/// deterministically; a closure prints as `<closure N>` with its identifier
/// in decimal.
pub open spec fn spec_display<F: FloatHost>(h: Seq<ObjModel>, v: Value) -> Seq<char>
    decreases v.rank(), 0int,
{
    match v {
        Value::Number(Number::Int(x)) => int_chars(x as int),
        Value::Number(Number::Float(p)) => F::format_spec(p),
        Value::Boolean(b) => if b {
            seq!['#', 't']
        } else {
            seq!['#', 'f']
        },
        Value::Char(c) => char_chars(c),
        Value::Nil => seq!['(', ')'],
        Value::Object(id) => if id < h.len() {
            match h[id as int] {
                ObjModel::Symbol(name) => name,
                ObjModel::Str(content) => seq!['"'] + escape_chars(content, 0) + seq!['"'],
                ObjModel::Primitive(_op) => seq!['<', 'p', 'r', 'i', 'm', 'i', 't', 'i', 'v', 'e', ' ', '0', 'x']
                    + nat_hex_chars(id as int) + seq!['>'],
                ObjModel::Closure(_p, _b, _e) => seq!['<', 'c', 'l', 'o', 's', 'u', 'r', 'e', ' ']
                    + int_chars(id as int) + seq!['>'],
                ObjModel::FreeSlot => seq!['<', 'f', 'r', 'e', 'e', '>'],
                ObjModel::Pair(car, cdr) => if car.rank() < v.rank() && cdr.rank() < v.rank() {
                    seq!['('] + spec_display::<F>(h, car) + tail_chars::<F>(h, cdr)
                } else {
                    seq!['<', 'f', 'r', 'e', 'e', '>']
                },
            }
        } else {
            seq!['<', 'f', 'r', 'e', 'e', '>']
        },
    }
}

/// The printed form of the rest of a chain: each element after a space, the
/// closing parenthesis after `Nil`, an improper tail after a dot.
pub open spec fn tail_chars<F: FloatHost>(h: Seq<ObjModel>, p: Value) -> Seq<char>
    decreases p.rank(), 1int,
{
    match p {
        Value::Nil => seq![')'],
        Value::Object(id) => if id < h.len() {
            match h[id as int] {
                ObjModel::Pair(car, cdr) => if car.rank() < p.rank() && cdr.rank() < p.rank() {
                    seq![' '] + spec_display::<F>(h, car) + tail_chars::<F>(h, cdr)
                } else {
                    seq![')']
                },
                _ => seq![' ', '.', ' '] + spec_display::<F>(h, p) + seq![')'],
            }
        } else {
            seq![' ', '.', ' '] + spec_display::<F>(h, p) + seq![')']
        },
        _ => seq![' ', '.', ' '] + spec_display::<F>(h, p) + seq![')'],
    }
}

/// The reversed digit characters of a digit stack (low-order digits first).
pub open spec fn chars_rev(ds: Seq<u8>) -> Seq<char>
    decreases ds.len(),
{
    if ds.len() == 0 {
        Seq::empty()
    } else {
        seq![digit_char(ds.last() as int)] + chars_rev(ds.drop_last())
    }
}

/// The reversed hexadecimal digit characters of a digit stack.
pub open spec fn hex_chars_rev(ds: Seq<u8>) -> Seq<char>
    decreases ds.len(),
{
    if ds.len() == 0 {
        Seq::empty()
    } else {
        seq![hex_digit_char(ds.last() as int)] + hex_chars_rev(ds.drop_last())
    }
}

/// Appends the decimal numeral of `m` to `out`.
#[verifier::loop_isolation(false)]
fn push_nat(out: &mut String, m: u64)
    ensures
        final(out)@ == old(out)@ + nat_chars(m as int),
{
    let mut ds: Vec<u8> = Vec::new();
    let mut cur: u64 = m;
    let mut done = false;
    proof {
        assert(nat_chars(m as int) =~= nat_chars(cur as int) + chars_rev(ds@));
    }
    while !done
        invariant
            forall|q: int| 0 <= q < ds@.len() ==> (#[trigger] ds@[q]) <= 9,
            !done ==> nat_chars(m as int) == nat_chars(cur as int) + chars_rev(ds@),
            done ==> nat_chars(m as int) == chars_rev(ds@),
        decreases (if done {
            0int
        } else {
            cur + 1
        }),
    {
        let d = (cur % 10) as u8;
        proof {
            assert(ds@.push(d).drop_last() =~= ds@);
            assert(chars_rev(ds@.push(d)) =~= seq![digit_char(d as int)] + chars_rev(ds@));
            if cur >= 10 {
                assert(nat_chars(cur as int) == nat_chars(cur as int / 10).push(
                    digit_char(cur as int % 10),
                ));
                assert(nat_chars(cur as int / 10).push(digit_char(cur as int % 10)) =~= nat_chars(
                    cur as int / 10,
                ) + seq![digit_char(cur as int % 10)]);
                assert((nat_chars(cur as int / 10) + seq![digit_char(d as int)]) + chars_rev(ds@)
                    =~= nat_chars(cur as int / 10) + (seq![digit_char(d as int)] + chars_rev(
                    ds@,
                )));
                assert(cur as int / 10 == (cur / 10) as int);
            } else {
                assert(nat_chars(cur as int) =~= seq![digit_char(cur as int)]);
            }
        }
        ds.push(d);
        cur = cur / 10;
        if cur == 0 {
            done = true;
        }
    }
    let k0 = ds.len();
    let mut k = k0;
    proof {
        assert(ds@.take(k0 as int) =~= ds@);
    }
    while k > 0
        invariant
            k <= ds@.len(),
            forall|q: int| 0 <= q < ds@.len() ==> (#[trigger] ds@[q]) <= 9,
            out@ + chars_rev(ds@.take(k as int)) == old(out)@ + nat_chars(m as int),
        decreases k,
    {
        k -= 1;
        let d = ds[k];
        proof {
            assert(ds@.take(k + 1).drop_last() =~= ds@.take(k as int));
            assert(ds@.take(k + 1).last() == ds@[k as int]);
            assert(chars_rev(ds@.take(k + 1)) =~= seq![digit_char(d as int)] + chars_rev(
                ds@.take(k as int),
            ));
            assert(out@.push(digit_char(d as int)) + chars_rev(ds@.take(k as int)) =~= out@ + (
            seq![digit_char(d as int)] + chars_rev(ds@.take(k as int))));
        }
        crate::text::push_char(out, ((48 + d) as u8) as char);
    }
    proof {
        assert(ds@.take(0) =~= Seq::<u8>::empty());
        assert(out@ + Seq::<char>::empty() =~= out@);
    }
}

/// Appends the hexadecimal numeral of `m`, lowercase, to `out`.
#[verifier::loop_isolation(false)]
fn push_hex(out: &mut String, m: u64)
    ensures
        final(out)@ == old(out)@ + nat_hex_chars(m as int),
{
    let mut ds: Vec<u8> = Vec::new();
    let mut cur: u64 = m;
    let mut done = false;
    proof {
        assert(nat_hex_chars(m as int) =~= nat_hex_chars(cur as int) + hex_chars_rev(ds@));
    }
    while !done
        invariant
            forall|q: int| 0 <= q < ds@.len() ==> (#[trigger] ds@[q]) <= 15,
            !done ==> nat_hex_chars(m as int) == nat_hex_chars(cur as int) + hex_chars_rev(ds@),
            done ==> nat_hex_chars(m as int) == hex_chars_rev(ds@),
        decreases (if done {
            0int
        } else {
            cur + 1
        }),
    {
        let d = (cur % 16) as u8;
        proof {
            assert(ds@.push(d).drop_last() =~= ds@);
            assert(hex_chars_rev(ds@.push(d)) =~= seq![hex_digit_char(d as int)] + hex_chars_rev(
                ds@,
            ));
            if cur >= 16 {
                assert(nat_hex_chars(cur as int) == nat_hex_chars(cur as int / 16).push(
                    hex_digit_char(cur as int % 16),
                ));
                assert(nat_hex_chars(cur as int / 16).push(hex_digit_char(cur as int % 16))
                    =~= nat_hex_chars(cur as int / 16) + seq![hex_digit_char(cur as int % 16)]);
                assert((nat_hex_chars(cur as int / 16) + seq![hex_digit_char(d as int)])
                    + hex_chars_rev(ds@) =~= nat_hex_chars(cur as int / 16) + (seq![
                    hex_digit_char(d as int),
                ] + hex_chars_rev(ds@)));
                assert(cur as int / 16 == (cur / 16) as int);
            } else {
                assert(nat_hex_chars(cur as int) =~= seq![hex_digit_char(cur as int)]);
            }
        }
        ds.push(d);
        cur = cur / 16;
        if cur == 0 {
            done = true;
        }
    }
    let k0 = ds.len();
    let mut k = k0;
    proof {
        assert(ds@.take(k0 as int) =~= ds@);
    }
    while k > 0
        invariant
            k <= ds@.len(),
            forall|q: int| 0 <= q < ds@.len() ==> (#[trigger] ds@[q]) <= 15,
            out@ + hex_chars_rev(ds@.take(k as int)) == old(out)@ + nat_hex_chars(m as int),
        decreases k,
    {
        k -= 1;
        let d = ds[k];
        let c: u8 = if d < 10 {
            48 + d
        } else {
            87 + d
        };
        proof {
            assert(ds@.take(k + 1).drop_last() =~= ds@.take(k as int));
            assert(ds@.take(k + 1).last() == ds@[k as int]);
            assert(hex_chars_rev(ds@.take(k + 1)) =~= seq![hex_digit_char(d as int)]
                + hex_chars_rev(ds@.take(k as int)));
            assert(out@.push(hex_digit_char(d as int)) + hex_chars_rev(ds@.take(k as int)) =~= out@
                + (seq![hex_digit_char(d as int)] + hex_chars_rev(ds@.take(k as int))));
        }
        crate::text::push_char(out, c as char);
    }
    proof {
        assert(ds@.take(0) =~= Seq::<u8>::empty());
        assert(out@ + Seq::<char>::empty() =~= out@);
    }
}

/// Appends the decimal numeral of `x`, signed, to `out`.
fn push_int(out: &mut String, x: i64)
    ensures
        final(out)@ == old(out)@ + int_chars(x as int),
{
    if x < 0 {
        crate::text::push_char(out, '-');
        let m: u64 = ((-(x + 1)) as u64) + 1;
        proof {
            assert(m as int == -(x as int));
        }
        push_nat(out, m);
        proof {
            assert(old(out)@.push('-') + nat_chars(m as int) =~= old(out)@ + (seq!['-']
                + nat_chars(m as int)));
        }
    } else {
        push_nat(out, x as u64);
    }
}


impl<F: FloatHost> Interp<F> {
    /// Appends the printed form of `v` to `out`.
    #[verifier::loop_isolation(false)]
    pub fn write_value(&self, v: Value, out: &mut String)
        requires
            self.wf(),
            crate::heap::valid_value(v, self.heap@.len() as int),
        ensures
            final(out)@ == old(out)@ + spec_display::<F>(self.heap@, v),
        decreases v.rank(),
    {
        match v {
            Value::Number(Number::Int(x)) => {
                push_int(out, x);
            },
            Value::Number(Number::Float(p)) => {
                let rendered = self.fops.format(p);
                out.append(rendered.as_str());
            },
            Value::Boolean(b) => {
                crate::text::push_char(out, '#');
                if b {
                    crate::text::push_char(out, 't');
                    proof {
                        assert(old(out)@.push('#').push('t') =~= old(out)@ + seq!['#', 't']);
                    }
                } else {
                    crate::text::push_char(out, 'f');
                    proof {
                        assert(old(out)@.push('#').push('f') =~= old(out)@ + seq!['#', 'f']);
                    }
                }
            },
            Value::Char(c) => {
                crate::text::push_char(out, '#');
                crate::text::push_char(out, '\\');
                if c == 32 {
                    out.append("space");
                    proof {
                        reveal_strlit("space");
                        assert(old(out)@.push('#').push('\\') + "space"@ =~= old(out)@
                            + char_chars(c));
                    }
                } else if c == 8 {
                    out.append("backspace");
                    proof {
                        reveal_strlit("backspace");
                        assert(old(out)@.push('#').push('\\') + "backspace"@ =~= old(out)@
                            + char_chars(c));
                    }
                } else if c == 9 {
                    out.append("tab");
                    proof {
                        reveal_strlit("tab");
                        assert(old(out)@.push('#').push('\\') + "tab"@ =~= old(out)@ + char_chars(
                            c,
                        ));
                    }
                } else if c == 10 {
                    out.append("newline");
                    proof {
                        reveal_strlit("newline");
                        assert(old(out)@.push('#').push('\\') + "newline"@ =~= old(out)@
                            + char_chars(c));
                    }
                } else if c == 13 {
                    out.append("return");
                    proof {
                        reveal_strlit("return");
                        assert(old(out)@.push('#').push('\\') + "return"@ =~= old(out)@
                            + char_chars(c));
                    }
                } else {
                    crate::text::push_char(out, c as char);
                    proof {
                        assert(old(out)@.push('#').push('\\').push(c as char) =~= old(out)@
                            + char_chars(c));
                    }
                }
            },
            Value::Nil => {
                crate::text::push_char(out, '(');
                crate::text::push_char(out, ')');
                proof {
                    assert(old(out)@.push('(').push(')') =~= old(out)@ + seq!['(', ')']);
                }
            },
            Value::Object(id) => {
                if let Some(nm) = self.heap.symbol_name_at(id) {
                    out.append(nm.as_str());
                    return ;
                }
                if let Some(content) = self.heap.str_at(id) {
                    crate::text::push_char(out, '"');
                    let cs = content.as_str();
                    let n = cs.unicode_len();
                    let ghost base = out@;
                    let mut i: usize = 0;
                    while i < n
                        invariant
                            n == content@.len(),
                            0 <= i <= n,
                            cs@ == content@,
                            out@ + escape_chars(content@, i as int) == base + escape_chars(
                                content@,
                                0,
                            ),
                        decreases n - i,
                    {
                        let c = cs.get_char(i);
                        if c == '"' || c == '\\' {
                            crate::text::push_char(out, '\\');
                            crate::text::push_char(out, c);
                            proof {
                                assert(escape_chars(content@, i as int) =~= seq!['\\', c]
                                    + escape_chars(content@, i + 1));
                                assert(out@ =~= (out@.drop_last().drop_last()) + seq!['\\', c]);
                                assert((out@.drop_last().drop_last() + seq!['\\', c])
                                    + escape_chars(content@, i + 1) =~= out@.drop_last().drop_last()
                                    + escape_chars(content@, i as int));
                            }
                        } else {
                            crate::text::push_char(out, c);
                            proof {
                                assert(escape_chars(content@, i as int) =~= seq![c]
                                    + escape_chars(content@, i + 1));
                                assert(out@ =~= out@.drop_last() + seq![c]);
                                assert((out@.drop_last() + seq![c]) + escape_chars(
                                    content@,
                                    i + 1,
                                ) =~= out@.drop_last() + escape_chars(content@, i as int));
                            }
                        }
                        i += 1;
                    }
                    crate::text::push_char(out, '"');
                    proof {
                        assert(escape_chars(content@, n as int) =~= Seq::<char>::empty());
                        assert(out@ =~= old(out)@ + (seq!['"'] + escape_chars(content@, 0)
                            + seq!['"']));
                    }
                    return ;
                }
                if let Some(_op) = self.heap.prim_at(id) {
                    out.append("<primitive 0x");
                    push_hex(out, id as u64);
                    crate::text::push_char(out, '>');
                    proof {
                        reveal_strlit("<primitive 0x");
                        assert("<primitive 0x"@ =~= seq!['<', 'p', 'r', 'i', 'm', 'i', 't', 'i', 'v', 'e', ' ', '0', 'x']);
                        assert(old(out)@ + "<primitive 0x"@ + nat_hex_chars(id as int) + seq!['>']
                            =~= old(out)@ + spec_display::<F>(self.heap@, v));
                    }
                    return ;
                }
                if let Some(_c) = self.heap.closure_at(id) {
                    out.append("<closure ");
                    push_nat(out, id as u64);
                    crate::text::push_char(out, '>');
                    proof {
                        reveal_strlit("<closure ");
                        assert("<closure "@ =~= seq!['<', 'c', 'l', 'o', 's', 'u', 'r', 'e', ' ']);
                        assert(old(out)@ + "<closure "@ + nat_chars(id as int) + seq!['>']
                            =~= old(out)@ + spec_display::<F>(self.heap@, v));
                    }
                    return ;
                }
                match self.heap.pair_at(id) {
                    None => {
                        out.append("<free>");
                        proof {
                            reveal_strlit("<free>");
                            assert("<free>"@ =~= seq!['<', 'f', 'r', 'e', 'e', '>']);
                        }
                    },
                    Some((car, cdr)) => {
                        proof {
                            assert(crate::heap::obj_refs_below(self.heap@[id as int], id as int));
                        }
                        crate::text::push_char(out, '(');
                        self.write_value(car, out);
                        proof {
                            assert(old(out)@.push('(') + spec_display::<F>(self.heap@, car)
                                =~= old(out)@ + (seq!['('] + spec_display::<F>(self.heap@, car)));
                        }
                        let mut p = cdr;
                        loop
                            invariant
                                p.rank() < v.rank(),
                                crate::heap::valid_value(p, self.heap@.len() as int),
                                out@ + tail_chars::<F>(self.heap@, p) == old(out)@
                                    + spec_display::<F>(self.heap@, v),
                            decreases p.rank(),
                        {
                            match p {
                                Value::Object(pid) => {
                                    match self.heap.pair_at(pid) {
                                        Some((cadr, cddr)) => {
                                            proof {
                                                assert(crate::heap::obj_refs_below(
                                                    self.heap@[pid as int],
                                                    pid as int,
                                                ));
                                            }
                                            crate::text::push_char(out, ' ');
                                            self.write_value(cadr, out);
                                            proof {
                                                assert(tail_chars::<F>(self.heap@, p) =~= seq![' ']
                                                    + spec_display::<F>(self.heap@, cadr)
                                                    + tail_chars::<F>(self.heap@, cddr));
                                                assert(out@ =~= (out@.subrange(
                                                    0,
                                                    out@.len() - spec_display::<F>(
                                                        self.heap@,
                                                        cadr,
                                                    ).len() - 1,
                                                )) + seq![' '] + spec_display::<F>(
                                                    self.heap@,
                                                    cadr,
                                                ));
                                            }
                                            p = cddr;
                                        },
                                        None => {
                                            crate::text::push_char(out, ' ');
                                            crate::text::push_char(out, '.');
                                            crate::text::push_char(out, ' ');
                                            self.write_value(p, out);
                                            crate::text::push_char(out, ')');
                                            proof {
                                                assert(tail_chars::<F>(self.heap@, p) =~= seq![' ', '.', ' ']
                                                    + spec_display::<F>(self.heap@, p) + seq![')']);
                                            }
                                            return ;
                                        },
                                    }
                                },
                                Value::Nil => {
                                    crate::text::push_char(out, ')');
                                    proof {
                                        assert(tail_chars::<F>(self.heap@, p) =~= seq![')']);
                                    }
                                    return ;
                                },
                                _ => {
                                    crate::text::push_char(out, ' ');
                                    crate::text::push_char(out, '.');
                                    crate::text::push_char(out, ' ');
                                    self.write_value(p, out);
                                    crate::text::push_char(out, ')');
                                    proof {
                                        assert(tail_chars::<F>(self.heap@, p) =~= seq![' ', '.', ' ']
                                            + spec_display::<F>(self.heap@, p) + seq![')']);
                                    }
                                    return ;
                                },
                            }
                        }
                    },
                }
            },
        }
    }

    /// The printed form of a value, following the printer rules.
    pub fn display(&self, obj: Value) -> (r: String)
        requires
            self.wf(),
            crate::heap::valid_value(obj, self.heap@.len() as int),
        ensures
            r@ == spec_display::<F>(self.heap@, obj),
    {
        let mut out = String::new();
        self.write_value(obj, &mut out);
        proof {
            assert(Seq::<char>::empty() + spec_display::<F>(self.heap@, obj) =~= spec_display::<
                F,
            >(self.heap@, obj));
        }
        out
    }
}

} // verus!
