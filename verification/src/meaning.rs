use vstd::prelude::*;
use crate::instructions::{Instruction, InstrView, instr_view};
use crate::value::ValueView;
use crate::machine::{MachineView, FrameView, Outcome, step, negate, simple_step, list_pair_step, unary_step, binary_step, drop_top, lookup,
    collection_pair_step, collection_set_step, string_step, top, key_values, entry_values};
use crate::bytecode::{key_index, insert_entry, lemma_key_index};
use crate::optimizer::{drops_pair, fold_binary, strength_reduce, fold_from, fold_constants, binary_at, unary_at,
    peephole_from, peephole, strength_at, drop_at, trunc_div, trunc_rem, SIGN_BIT, OP_ADD, OP_SUB, OP_MUL, OP_DIV, OP_MOD, OP_LEQ, OP_LT, OP_GT, OP_GTE, OP_EQ, OP_NEQ};

verus! {

// What instructions mean, stated over plain integers and sequences.

/// The machine after a step that replaces the two values on top of the
/// stack by `v` and moves on to the next instruction.
pub open spec fn top_two_replaced(m: MachineView, v: ValueView) -> MachineView {
    m.with_stack(m.stack.subrange(0, m.stack.len() - 2).push(v)).advanced()
}

/// Whether the machine is about to run `i` with the integers `a` (below)
/// and `b` (on top) as the two topmost values.
pub open spec fn about_to_run(m: MachineView, i: Instruction, a: i64, b: i64) -> bool {
    &&& m.ip < m.code.len()
    &&& m.code[m.ip as int] == instr_view(i)
    &&& m.stack.len() >= 2
    &&& m.stack[m.stack.len() - 2] == ValueView::Integer(a)
    &&& m.stack.last() == ValueView::Integer(b)
}

/// A comparison of two integers replaces them by the truth of the
/// comparison: `Leq` by `a <= b`, `Lt` by `a < b`, `Gt` by `a > b`, `Gte` by
/// `a >= b`, `Eq` by `a == b` and `Neq` by `a != b`.
pub proof fn law_integer_comparisons(m: MachineView, a: i64, b: i64)
    ensures
        about_to_run(m, Instruction::Leq, a, b) ==> step(m) == Outcome::Next(top_two_replaced(m, ValueView::Boolean(a <= b))),
        about_to_run(m, Instruction::Lt, a, b) ==> step(m) == Outcome::Next(top_two_replaced(m, ValueView::Boolean(a < b))),
        about_to_run(m, Instruction::Gt, a, b) ==> step(m) == Outcome::Next(top_two_replaced(m, ValueView::Boolean(a > b))),
        about_to_run(m, Instruction::Gte, a, b) ==> step(m) == Outcome::Next(top_two_replaced(m, ValueView::Boolean(a >= b))),
        about_to_run(m, Instruction::Eq, a, b) ==> step(m) == Outcome::Next(top_two_replaced(m, ValueView::Boolean(a == b))),
        about_to_run(m, Instruction::Neq, a, b) ==> step(m) == Outcome::Next(top_two_replaced(m, ValueView::Boolean(a != b))),
{
}

/// Integer addition, subtraction and multiplication replace the two
/// operands by the exact result, where it is an `i64`.
pub proof fn law_integer_arithmetic(m: MachineView, a: i64, b: i64)
    ensures
        about_to_run(m, Instruction::Add, a, b) && i64::MIN <= a + b <= i64::MAX ==> step(m) == Outcome::Next(
            top_two_replaced(m, ValueView::Integer((a + b) as i64)),
        ),
        about_to_run(m, Instruction::Sub, a, b) && i64::MIN <= a - b <= i64::MAX ==> step(m) == Outcome::Next(
            top_two_replaced(m, ValueView::Integer((a - b) as i64)),
        ),
        about_to_run(m, Instruction::Mul, a, b) && i64::MIN <= a * b <= i64::MAX ==> step(m) == Outcome::Next(
            top_two_replaced(m, ValueView::Integer((a * b) as i64)),
        ),
{
}

/// The constant folder gives two integer constants under a comparison the
/// truth of that comparison.
pub proof fn law_folded_comparisons(a: i64, b: i64)
    ensures
        ({
            let x = InstrView::Push(ValueView::Integer(a));
            let y = InstrView::Push(ValueView::Integer(b));
            &&& fold_binary(x, y, instr_view(Instruction::Leq)) == Some(ValueView::Boolean(a <= b))
            &&& fold_binary(x, y, instr_view(Instruction::Lt)) == Some(ValueView::Boolean(a < b))
            &&& fold_binary(x, y, instr_view(Instruction::Gt)) == Some(ValueView::Boolean(a > b))
            &&& fold_binary(x, y, instr_view(Instruction::Gte)) == Some(ValueView::Boolean(a >= b))
            &&& fold_binary(x, y, instr_view(Instruction::Eq)) == Some(ValueView::Boolean(a == b))
            &&& fold_binary(x, y, instr_view(Instruction::Neq)) == Some(ValueView::Boolean(a != b))
        }),
{
}

/// A pair of instructions that the peephole pass drops does nothing: run
/// on a number, it leaves the stack as it found it and only moves past
/// both instructions. (Where a float takes part in an addition,
/// subtraction, multiplication or division, the host computes the value,
/// so those cases are left out.)
pub proof fn law_dropped_pairs_do_nothing(m: MachineView)
    requires
        m.ip + 1 < m.code.len() <= usize::MAX,
        drops_pair(m.code[m.ip as int], m.code[m.ip + 1]),
        m.stack.len() >= 1,
        m.code[m.ip as int] is Push ==> m.code[m.ip as int]->Push_0 is Integer && m.stack.last() is Integer,
        m.code[m.ip as int] is Simple ==> m.stack.last() is Float || (m.stack.last() is Integer && m.stack.last()->Integer_0
            != i64::MIN),
    ensures
        step(m) matches Outcome::Next(m1) && step(m1) == Outcome::Next(m.advanced().advanced()),
{
    let x = m.code[m.ip as int];
    let v = m.stack.last();
    assert(m.stack.drop_last().push(v) =~= m.stack);
    if x is Push {
        let m1 = m.with_stack(m.stack.push(x->Push_0)).advanced();
        assert(step(m) == Outcome::Next(m1));
        let op = m.code[m.ip + 1]->Simple_0;
        assert(m1.ip == m.ip + 1 && m1.code == m.code);
        assert(m1.code[m1.ip as int] == InstrView::Simple(op));
        assert(step(m1) == simple_step(m1, op));
        assert(simple_step(m1, op) == binary_step(m1, op));
        let n = v->Integer_0;
        assert(m1.stack[m1.stack.len() - 2] == v);
        assert(m1.stack.subrange(0, m1.stack.len() - 2) =~= m.stack.drop_last());
        assert(n / 1 == n) by (nonlinear_arith);
        assert(n * 1 == n);
    } else {
        let m1 = m.with_stack(m.stack.drop_last().push(negate(v)->Ok_0)).advanced();
        assert(step(m) == simple_step(m, 14));
        assert(simple_step(m, 14) == unary_step(m, "Neg operation"@, |w: ValueView| negate(w)));
        assert(step(m) == Outcome::Next(m1));
        assert(m1.ip == m.ip + 1 && m1.code == m.code);
        assert(m1.code[m1.ip as int] == InstrView::Simple(14));
        assert(step(m1) == simple_step(m1, 14));
        assert(m1.stack.drop_last() =~= m.stack.drop_last());
        if v is Float {
            let f = v->Float_0;
            assert((f ^ SIGN_BIT) ^ SIGN_BIT == f) by (bit_vector);
        }
    }
}

/// `Append` on two lists replaces them by one list: the items of the lower
/// list in their order, then those of the upper one in theirs.
pub proof fn law_append_keeps_order(m: MachineView, xs: Seq<ValueView>, ys: Seq<ValueView>)
    requires
        m.ip < m.code.len() <= usize::MAX,
        m.code[m.ip as int] == instr_view(Instruction::Append),
        m.stack.len() >= 2,
        m.stack[m.stack.len() - 2] == ValueView::List(xs),
        m.stack.last() == ValueView::List(ys),
    ensures
        step(m) matches Outcome::Next(after) && {
            &&& after.ip == m.ip + 1
            &&& after.stack.len() == m.stack.len() - 1
            &&& after.stack.subrange(0, m.stack.len() - 2) == m.stack.subrange(0, m.stack.len() - 2)
            &&& after.stack.last() matches ValueView::List(r) && {
                &&& r.len() == xs.len() + ys.len()
                &&& forall|i: int| 0 <= i < xs.len() ==> r[i] == xs[i]
                &&& forall|j: int| 0 <= j < ys.len() ==> r[xs.len() + j] == ys[j]
            }
        },
{
    let rest = m.stack.subrange(0, m.stack.len() - 2);
    assert(instr_view(Instruction::Append) == InstrView::Simple(35));
    assert(step(m) == simple_step(m, 35));
    assert(simple_step(m, 35) == list_pair_step(m, 35));
    assert(drop_top(m.stack, 2) == rest);
    let after = m.with_stack(rest.push(ValueView::List(xs + ys))).advanced();
    assert(list_pair_step(m, 35) == Outcome::Next(after));
    assert(after.stack.subrange(0, m.stack.len() - 2) =~= rest);
    assert(after.stack.last() == ValueView::List(xs + ys));
    assert forall|i: int| 0 <= i < xs.len() implies (xs + ys)[i] == xs[i] by {}
    assert forall|j: int| 0 <= j < ys.len() implies (xs + ys)[xs.len() + j] == ys[j] by {}
}

/// The machine after a step that replaces the value on top of the stack by
/// `v` and moves on to the next instruction.
pub open spec fn top_replaced(m: MachineView, v: ValueView) -> MachineView {
    m.with_stack(m.stack.drop_last().push(v)).advanced()
}

/// Whether `q` is the quotient of `a` by `b` rounded toward zero and `r`
/// the remainder that goes with it: `a == q * b + r`, the remainder is
/// smaller than the divisor and has the sign of `a` (or is zero).
pub open spec fn truncated_division(a: int, b: int, q: int, r: int) -> bool {
    &&& a == q * b + r
    &&& (if b > 0 { r < b } else { r < -b })
    &&& (if b > 0 { -b < r } else { b < r })
    &&& (r == 0 || (r > 0) == (a > 0))
}

/// Integer division and remainder round toward zero: `Div` leaves the
/// quotient and `Mod` the remainder of the same division, where the divisor
/// is not zero and the quotient is an `i64`.
pub proof fn law_integer_division(m: MachineView, a: i64, b: i64)
    requires
        b != 0,
        !(a == i64::MIN && b == -1),
    ensures
        about_to_run(m, Instruction::Div, a, b) ==> exists|q: i64, r: int|
            #[trigger] truncated_division(a as int, b as int, q as int, r) && step(m) == Outcome::Next(
                top_two_replaced(m, ValueView::Integer(q)),
            ),
        about_to_run(m, Instruction::Mod, a, b) ==> exists|q: int, r: i64|
            #[trigger] truncated_division(a as int, b as int, q, r as int) && step(m) == Outcome::Next(
                top_two_replaced(m, ValueView::Integer(r)),
            ),
{
    let q = trunc_div(a as int, b as int);
    let r = trunc_rem(a as int, b as int);
    lemma_truncated(a as int, b as int);
    assert(truncated_division(a as int, b as int, q, r));
    if about_to_run(m, Instruction::Div, a, b) {
        lemma_quotient_fits(a as int, b as int);
        assert(step(m) == simple_step(m, OP_DIV));
        assert(step(m) == Outcome::Next(top_two_replaced(m, ValueView::Integer(q as i64))));
        assert(truncated_division(a as int, b as int, (q as i64) as int, r));
    }
    if about_to_run(m, Instruction::Mod, a, b) {
        lemma_quotient_fits(a as int, b as int);
        assert(step(m) == simple_step(m, OP_MOD));
        assert(step(m) == Outcome::Next(top_two_replaced(m, ValueView::Integer(r as i64))));
        assert(truncated_division(a as int, b as int, q, (r as i64) as int));
    }
}

proof fn lemma_truncated(a: int, b: int)
    requires
        b != 0,
    ensures
        truncated_division(a, b, trunc_div(a, b), trunc_rem(a, b)),
{
    let n = if a >= 0 { a } else { -a };
    vstd::arithmetic::div_mod::lemma_fundamental_div_mod(n, b);
    assert(0 <= n % b && (if b > 0 { n % b < b } else { n % b < -b }));
    if a == 0 {
        assert(0int % b == 0) by (nonlinear_arith)
            requires
                0 == b * (0int / b) + 0int % b,
                0 <= 0int % b,
                b > 0 ==> 0int % b < b,
                b < 0 ==> 0int % b < -b,
        ;
    }
    if a >= 0 {
        assert(a == (a / b) * b + a % b) by (nonlinear_arith)
            requires
                a == b * (a / b) + a % b,
        ;
    } else {
        assert(a == trunc_div(a, b) * b + trunc_rem(a, b)) by (nonlinear_arith)
            requires
                -a == b * ((-a) / b) + (-a) % b,
                trunc_div(a, b) == -((-a) / b),
                trunc_rem(a, b) == -((-a) % b),
        ;
    }
}

proof fn lemma_quotient_fits(a: int, b: int)
    requires
        b != 0,
        i64::MIN <= a <= i64::MAX,
        i64::MIN <= b <= i64::MAX,
        !(a == i64::MIN && b == -1),
    ensures
        i64::MIN <= trunc_div(a, b) <= i64::MAX,
        i64::MIN <= trunc_rem(a, b) <= i64::MAX,
{
    lemma_truncated(a, b);
    let q = trunc_div(a, b);
    let r = trunc_rem(a, b);
    assert(-0x8000_0000_0000_0000 <= q <= 0x7FFF_FFFF_FFFF_FFFF) by (nonlinear_arith)
        requires
            a == q * b + r,
            b != 0,
            -0x8000_0000_0000_0000 <= a <= 0x7FFF_FFFF_FFFF_FFFF,
            -0x8000_0000_0000_0000 <= b <= 0x7FFF_FFFF_FFFF_FFFF,
            !(a == -0x8000_0000_0000_0000 && b == -1),
            b > 0 ==> (r < b && -b < r),
            b < 0 ==> (r < -b && b < r),
            r == 0 || (r > 0) == (a > 0),
    ;
}

/// `Neg` on an integer other than the least one leaves its negation.
pub proof fn law_integer_negation(m: MachineView, a: i64)
    requires
        m.ip < m.code.len() <= usize::MAX,
        m.code[m.ip as int] == instr_view(Instruction::Neg),
        m.stack.len() >= 1,
        m.stack.last() == ValueView::Integer(a),
        a != i64::MIN,
    ensures
        step(m) == Outcome::Next(top_replaced(m, ValueView::Integer((-a) as i64))),
{
    assert(step(m) == simple_step(m, 14));
}

/// `Car`, `Cdr` and `ListLength` on a list: the first item, the list of the
/// items after it, and the number of items.
pub proof fn law_list_access(m: MachineView, xs: Seq<ValueView>)
    requires
        m.ip < m.code.len() <= usize::MAX,
        m.stack.len() >= 1,
        m.stack.last() == ValueView::List(xs),
        xs.len() <= i64::MAX,
    ensures
        m.code[m.ip as int] == instr_view(Instruction::Car) && xs.len() > 0 ==> step(m) == Outcome::Next(top_replaced(m, xs[0])),
        m.code[m.ip as int] == instr_view(Instruction::Cdr) && xs.len() > 0 ==> step(m) == Outcome::Next(
            top_replaced(m, ValueView::List(xs.subrange(1, xs.len() as int))),
        ),
        m.code[m.ip as int] == instr_view(Instruction::ListLength) ==> step(m) == Outcome::Next(
            top_replaced(m, ValueView::Integer(xs.len() as i64)),
        ),
{
    if m.code[m.ip as int] == instr_view(Instruction::Car) {
        assert(step(m) == simple_step(m, 21));
    }
    if m.code[m.ip as int] == instr_view(Instruction::Cdr) {
        assert(step(m) == simple_step(m, 22));
        assert(xs.drop_first() =~= xs.subrange(1, xs.len() as int));
    }
    if m.code[m.ip as int] == instr_view(Instruction::ListLength) {
        assert(step(m) == simple_step(m, 52));
    }
}

/// `Cons` puts the value below on the front of the list on top.
pub proof fn law_cons_puts_in_front(m: MachineView, x: ValueView, ys: Seq<ValueView>)
    requires
        m.ip < m.code.len() <= usize::MAX,
        m.code[m.ip as int] == instr_view(Instruction::Cons),
        m.stack.len() >= 2,
        m.stack[m.stack.len() - 2] == x,
        m.stack.last() == ValueView::List(ys),
    ensures
        step(m) == Outcome::Next(top_two_replaced(m, ValueView::List(seq![x] + ys))),
{
    assert(step(m) == simple_step(m, 20));
}

/// `ListRef` with an index within the list leaves the item at that index.
pub proof fn law_list_ref(m: MachineView, xs: Seq<ValueView>, k: i64)
    requires
        m.ip < m.code.len() <= usize::MAX,
        m.code[m.ip as int] == instr_view(Instruction::ListRef),
        m.stack.len() >= 2,
        m.stack[m.stack.len() - 2] == ValueView::List(xs),
        m.stack.last() == ValueView::Integer(k),
        0 <= k < xs.len(),
    ensures
        step(m) == Outcome::Next(top_two_replaced(m, xs[k as int])),
{
    assert(step(m) == simple_step(m, 51));
    assert(simple_step(m, 51) == list_pair_step(m, 51));
}

/// The constant folder and the machine agree: where two integer constants
/// under an operator fold to a value, running the operator on those
/// integers leaves that value.
pub proof fn law_folding_agrees_with_running(m: MachineView, i: Instruction, a: i64, b: i64)
    requires
        about_to_run(m, i, a, b),
        m.code.len() <= usize::MAX,
    ensures
        fold_binary(InstrView::Push(ValueView::Integer(a)), InstrView::Push(ValueView::Integer(b)), instr_view(i)) matches Some(v)
            ==> step(m) == Outcome::Next(top_two_replaced(m, v)),
{
    let iv = instr_view(i);
    if fold_binary(InstrView::Push(ValueView::Integer(a)), InstrView::Push(ValueView::Integer(b)), iv) is Some {
        let op = iv->Simple_0;
        assert(step(m) == simple_step(m, op));
        assert(op == OP_ADD || op == OP_SUB || op == OP_MUL || op == OP_DIV || op == OP_MOD || op == OP_LEQ || op == OP_LT
            || op == OP_GT || op == OP_GTE || op == OP_EQ || op == OP_NEQ);
        assert(simple_step(m, op) == binary_step(m, op));
        assert(drop_top(m.stack, 2) == m.stack.subrange(0, m.stack.len() - 2));
    }
}

/// Strength reduction keeps what the code computes: where a multiplication
/// of an integer by the constant -1 becomes a negation, the product is the
/// negated integer; where one by the constant 0 becomes dropping the value
/// and pushing 0, the product is 0.
pub proof fn law_strength_reduction_keeps_value(m: MachineView, x: InstrView, v: i64)
    requires
        m.ip + 1 < m.code.len() <= usize::MAX,
        strength_reduce(x, m.code[m.ip as int], m.code[m.ip + 1]) is Some,
        m.code[m.ip as int] is Push,
        m.code[m.ip as int]->Push_0 is Integer,
        m.stack.len() >= 1,
        m.stack.last() == ValueView::Integer(v),
        v != i64::MIN,
    ensures
        ({
            let r = strength_reduce(x, m.code[m.ip as int], m.code[m.ip + 1]).unwrap();
            let result = |w: int| Outcome::Next(top_replaced(m, ValueView::Integer(w as i64)).advanced());
            step(m) matches Outcome::Next(m1) && {
                ||| r == seq![x, instr_view(Instruction::Neg)] && step(m1) == result(-v)
                ||| r == seq![x, instr_view(Instruction::PopN(1)), InstrView::Push(ValueView::Integer(0))] && step(m1) == result(0)
            }
        }),
{
    let y = m.code[m.ip as int];
    let m1 = m.with_stack(m.stack.push(y->Push_0)).advanced();
    assert(step(m) == Outcome::Next(m1));
    assert(m1.ip == m.ip + 1 && m1.code == m.code);
    assert(step(m1) == simple_step(m1, OP_MUL));
    assert(simple_step(m1, OP_MUL) == binary_step(m1, OP_MUL));
    assert(m1.stack[m1.stack.len() - 2] == ValueView::Integer(v));
    assert(drop_top(m1.stack, 2) =~= m.stack.drop_last());
    assert(v * -1 == -v);
    assert(v * 0 == 0);
}

/// The first entry of `t` with key `k` is at `i` (or there is none and `i`
/// is the length): then `key_index` finds `i`.
proof fn lemma_key_index_at<V>(t: Seq<(Seq<char>, V)>, k: Seq<char>, i: int)
    requires
        0 <= i <= t.len(),
        i < t.len() ==> t[i].0 == k,
        forall|j: int| 0 <= j < i ==> t[j].0 != k,
    ensures
        key_index(t, k) == i,
{
    lemma_key_index(t, k);
}

/// A lookup after an insertion finds the inserted value under its key and
/// what was there before under every other key.
pub proof fn law_lookup_after_insert<V>(t: Seq<(Seq<char>, V)>, k: Seq<char>, v: V, k2: Seq<char>)
    ensures
        lookup(insert_entry(t, k, v), k2) == if k2 == k { Some(v) } else { lookup(t, k2) },
{
    lemma_key_index(t, k);
    lemma_key_index(t, k2);
    let i = key_index(t, k);
    let j = key_index(t, k2);
    let u = insert_entry(t, k, v);
    if i < t.len() {
        assert(u.len() == t.len());
        if k2 == k {
            lemma_key_index_at(u, k, i);
        } else {
            assert forall|x: int| 0 <= x < u.len() implies (u[x].0 == k2) == (t[x].0 == k2) by {}
            lemma_key_index_at(u, k2, j);
            if j < t.len() {
                assert(j != i);
            }
        }
    } else {
        if k2 == k {
            lemma_key_index_at(u, k, t.len() as int);
        } else {
            if j < t.len() {
                lemma_key_index_at(u, k2, j);
            } else {
                lemma_key_index_at(u, k2, u.len() as int);
            }
        }
    }
}

/// The machine three instructions on, with the three values on top of the
/// stack replaced by `w`.
pub open spec fn top_three_replaced(m: MachineView, w: ValueView) -> MachineView {
    MachineView { ip: (m.ip + 3) as usize, stack: drop_top(m.stack, 3).push(w), ..m }
}

/// Reading a hash map after setting a key: under that key the value just
/// set, under any other key what the map held before (and an error where it
/// held nothing).
pub proof fn law_hash_map_get_after_set(
    m: MachineView,
    entries: Seq<(Seq<char>, ValueView)>,
    k: Seq<char>,
    v: ValueView,
    k2: Seq<char>,
)
    requires
        m.ip + 2 < m.code.len() <= usize::MAX,
        m.code[m.ip as int] == instr_view(Instruction::HashMapSet),
        m.code[m.ip + 1] == InstrView::Push(ValueView::String(k2)),
        m.code[m.ip + 2] == instr_view(Instruction::HashMapGet),
        m.stack.len() >= 3,
        m.stack[m.stack.len() - 3] == ValueView::HashMap(entries),
        m.stack[m.stack.len() - 2] == ValueView::String(k),
        m.stack.last() == v,
    ensures
        step(m) matches Outcome::Next(m1) && step(m1) matches Outcome::Next(m2) && {
            &&& k2 == k ==> step(m2) == Outcome::Next(top_three_replaced(m, v))
            &&& k2 != k && lookup(entries, k2) is Some ==> step(m2) == Outcome::Next(
                top_three_replaced(m, lookup(entries, k2).unwrap()),
            )
            &&& k2 != k && lookup(entries, k2) is None ==> step(m2) is Failed
        },
{
    let u = insert_entry(entries, k, v);
    let m1 = m.with_stack(drop_top(m.stack, 3).push(ValueView::HashMap(u))).advanced();
    assert(step(m) == simple_step(m, 56));
    assert(simple_step(m, 56) == collection_set_step(m, 56));
    assert(step(m) == Outcome::Next(m1));
    let m2 = m1.with_stack(m1.stack.push(ValueView::String(k2))).advanced();
    assert(m1.ip == m.ip + 1 && m1.code == m.code);
    assert(step(m1) == Outcome::Next(m2));
    assert(m2.ip == m.ip + 2 && m2.code == m.code);
    assert(step(m2) == simple_step(m2, 55));
    assert(simple_step(m2, 55) == collection_pair_step(m2, 55));
    assert(m2.stack[m2.stack.len() - 2] == ValueView::HashMap(u));
    assert(drop_top(m2.stack, 2) =~= drop_top(m.stack, 3));
    law_lookup_after_insert(entries, k, v, k2);
}

/// Reading a vector after setting an index: at that index the value just
/// set, at any other index within the vector the item that was there.
pub proof fn law_vector_get_after_set(m: MachineView, xs: Seq<ValueView>, i: i64, v: ValueView, j: i64)
    requires
        m.ip + 2 < m.code.len() <= usize::MAX,
        m.code[m.ip as int] == instr_view(Instruction::VectorSet),
        m.code[m.ip + 1] == InstrView::Push(ValueView::Integer(j)),
        m.code[m.ip + 2] == instr_view(Instruction::VectorGet),
        m.stack.len() >= 3,
        m.stack[m.stack.len() - 3] == ValueView::Vector(xs),
        m.stack[m.stack.len() - 2] == ValueView::Integer(i),
        m.stack.last() == v,
        0 <= i < xs.len(),
        0 <= j < xs.len(),
    ensures
        step(m) matches Outcome::Next(m1) && step(m1) matches Outcome::Next(m2) && step(m2) == Outcome::Next(
            top_three_replaced(m, if j == i { v } else { xs[j as int] }),
        ),
{
    let u = xs.update(i as int, v);
    let m1 = m.with_stack(drop_top(m.stack, 3).push(ValueView::Vector(u))).advanced();
    assert(step(m) == simple_step(m, 63));
    assert(simple_step(m, 63) == collection_set_step(m, 63));
    assert(step(m) == Outcome::Next(m1));
    let m2 = m1.with_stack(m1.stack.push(ValueView::Integer(j))).advanced();
    assert(m1.ip == m.ip + 1 && m1.code == m.code);
    assert(step(m1) == Outcome::Next(m2));
    assert(m2.ip == m.ip + 2 && m2.code == m.code);
    assert(step(m2) == simple_step(m2, 62));
    assert(simple_step(m2, 62) == collection_pair_step(m2, 62));
    assert(m2.stack[m2.stack.len() - 2] == ValueView::Vector(u));
    assert(drop_top(m2.stack, 2) =~= drop_top(m.stack, 3));
}

/// Popping a vector right after pushing a value onto it gives back the value
/// and the vector as it was.
pub proof fn law_vector_pop_after_push(m: MachineView, xs: Seq<ValueView>, v: ValueView)
    requires
        m.ip + 1 < m.code.len() <= usize::MAX,
        m.code[m.ip as int] == instr_view(Instruction::VectorPush),
        m.code[m.ip + 1] == instr_view(Instruction::VectorPop),
        m.stack.len() >= 2,
        m.stack[m.stack.len() - 2] == ValueView::Vector(xs),
        m.stack.last() == v,
    ensures
        step(m) matches Outcome::Next(m1) && step(m1) == Outcome::Next(
            MachineView { ip: (m.ip + 2) as usize, stack: drop_top(m.stack, 2).push(ValueView::Vector(xs)).push(v), ..m },
        ),
{
    let m1 = m.with_stack(drop_top(m.stack, 2).push(ValueView::Vector(xs.push(v)))).advanced();
    assert(step(m) == simple_step(m, 64));
    assert(simple_step(m, 64) == collection_pair_step(m, 64));
    assert(step(m) == Outcome::Next(m1));
    assert(m1.ip == m.ip + 1 && m1.code == m.code);
    assert(step(m1) == simple_step(m1, 65));
    assert(m1.stack.drop_last() =~= drop_top(m.stack, 2));
    assert(xs.push(v).drop_last() =~= xs);
}

/// Whether every frame that `a` and `b` both have at a depth keeps the
/// place it returns to: the same return address in the same code.
pub open spec fn keeps_return_points(a: Seq<FrameView>, b: Seq<FrameView>) -> bool {
    forall|i: int|
        0 <= i < a.len() && i < b.len() ==> (#[trigger] b[i]).return_address == a[i].return_address && b[i].return_code
            == a[i].return_code
}

/// No step changes where a frame returns to: a step may push a frame or pop
/// the top one, or change other parts of a frame, but every frame that is
/// there before and after returns to the same place.
#[verifier::rlimit(100)]
#[verifier::spinoff_prover]
pub proof fn law_steps_keep_return_points(m: MachineView)
    ensures
        step(m) matches Outcome::Next(m2) ==> keeps_return_points(m.frames, m2.frames),
        step(m) matches Outcome::Output(m2, _) ==> keeps_return_points(m.frames, m2.frames),
{
}

/// A call of a named function enters its code with a new frame that
/// returns to the instruction after the call in the caller's code; the
/// frames below stay as they were.
pub proof fn law_call_enters_callee(m: MachineView, name: Seq<char>, n: usize)
    requires
        m.ip < m.code.len() <= usize::MAX,
        m.code[m.ip as int] == InstrView::Call(name, n),
        lookup(m.functions, name) is Some,
        m.stack.len() >= n,
    ensures
        step(m) matches Outcome::Next(m1) && {
            &&& m1.ip == 0
            &&& m1.code == lookup(m.functions, name).unwrap()
            &&& m1.stack == m.stack.subrange(0, m.stack.len() - n)
            &&& m1.frames.len() == m.frames.len() + 1
            &&& m1.frames.drop_last() == m.frames
            &&& m1.frames.last().return_address == m.ip + 1
            &&& m1.frames.last().return_code == m.code
            &&& m1.frames.last().locals == m.stack.subrange(m.stack.len() - n, m.stack.len() as int)
        },
{
    let m1 = step(m)->Next_0;
    assert(m1.frames.drop_last() =~= m.frames);
}

/// `Ret` goes back to where the top frame returns to, and drops that frame.
/// With the two laws before, the `Ret` that drops the frame a call pushed
/// resumes the caller right after the call.
pub proof fn law_return_resumes(m: MachineView)
    requires
        m.ip < m.code.len(),
        m.code[m.ip as int] == instr_view(Instruction::Ret),
        m.frames.len() > 0,
    ensures
        step(m) == Outcome::Next(
            MachineView {
                ip: m.frames.last().return_address,
                code: m.frames.last().return_code,
                frames: m.frames.drop_last(),
                ..m
            },
        ),
{
    assert(step(m) == simple_step(m, 9));
}

/// `StringAppend` on two strings leaves one string: the characters of the
/// lower one in their order, then those of the upper one in theirs.
pub proof fn law_string_append_keeps_order(m: MachineView, x: Seq<char>, y: Seq<char>)
    requires
        m.ip < m.code.len() <= usize::MAX,
        m.code[m.ip as int] == instr_view(Instruction::StringAppend),
        m.stack.len() >= 2,
        m.stack[m.stack.len() - 2] == ValueView::String(x),
        m.stack.last() == ValueView::String(y),
    ensures
        step(m) matches Outcome::Next(after) && after == top_two_replaced(m, after.stack.last()) && {
            &&& after.stack.last() matches ValueView::String(r) && {
                &&& r.len() == x.len() + y.len()
                &&& forall|i: int| 0 <= i < x.len() ==> r[i] == x[i]
                &&& forall|j: int| 0 <= j < y.len() ==> r[x.len() + j] == y[j]
            }
        },
{
    assert(step(m) == simple_step(m, 42));
    assert(simple_step(m, 42) == string_step(m, 42));
    assert(top(m.stack, 2) =~= seq![ValueView::String(x), ValueView::String(y)]);
    assert(drop_top(m.stack, 2) == m.stack.subrange(0, m.stack.len() - 2));
    let after = top_two_replaced(m, ValueView::String(x + y));
    assert(step(m) == Outcome::Next(after));
    assert(after.stack.last() == ValueView::String(x + y));
    assert forall|i: int| 0 <= i < x.len() implies (x + y)[i] == x[i] by {}
    assert forall|j: int| 0 <= j < y.len() implies (x + y)[x.len() + j] == y[j] by {}
}

/// `StringToList` leaves the list of the string's characters, each as a
/// string of one character, in order.
pub proof fn law_string_to_list(m: MachineView, x: Seq<char>)
    requires
        m.ip < m.code.len() <= usize::MAX,
        m.code[m.ip as int] == instr_view(Instruction::StringToList),
        m.stack.len() >= 1,
        m.stack.last() == ValueView::String(x),
    ensures
        step(m) matches Outcome::Next(after) && after == top_replaced(m, after.stack.last()) && {
            &&& after.stack.last() matches ValueView::List(items) && {
                &&& items.len() == x.len()
                &&& forall|i: int| 0 <= i < x.len() ==> items[i] == ValueView::String(seq![x[i]])
            }
        },
{
    assert(step(m) == simple_step(m, 43));
    assert(simple_step(m, 43) == string_step(m, 43));
    assert(top(m.stack, 1) =~= seq![ValueView::String(x)]);
    assert(drop_top(m.stack, 1) == m.stack.drop_last());
}

proof fn lemma_fold_from_shift(p: Seq<InstrView>, s: Seq<InstrView>, i: int)
    requires
        0 <= i,
    ensures
        fold_from(p + s, p.len() + i) == fold_from(s, i),
    decreases s.len() - i,
{
    let t = p + s;
    let j = p.len() + i;
    if i < s.len() {
        assert(t[j] == s[i]);
        if i + 1 < s.len() {
            assert(t[j + 1] == s[i + 1]);
        }
        if i + 2 < s.len() {
            assert(t[j + 2] == s[i + 2]);
        }
        assert(binary_at(t, j) == binary_at(s, i));
        assert(unary_at(t, j) == unary_at(s, i));
        lemma_fold_from_shift(p, s, i + 1);
        if i + 2 <= s.len() {
            lemma_fold_from_shift(p, s, i + 2);
        }
        if i + 3 <= s.len() {
            lemma_fold_from_shift(p, s, i + 3);
        }
    }
}

proof fn lemma_peephole_from_shift(p: Seq<InstrView>, s: Seq<InstrView>, i: int)
    requires
        0 <= i,
    ensures
        peephole_from(p + s, p.len() + i) == peephole_from(s, i),
    decreases s.len() - i,
{
    let t = p + s;
    let j = p.len() + i;
    if i < s.len() {
        assert(t[j] == s[i]);
        if i + 1 < s.len() {
            assert(t[j + 1] == s[i + 1]);
        }
        if i + 2 < s.len() {
            assert(t[j + 2] == s[i + 2]);
        }
        assert(strength_at(t, j) == strength_at(s, i));
        assert(drop_at(t, j) == drop_at(s, i));
        lemma_peephole_from_shift(p, s, i + 1);
        if i + 2 <= s.len() {
            lemma_peephole_from_shift(p, s, i + 2);
        }
        if i + 3 <= s.len() {
            lemma_peephole_from_shift(p, s, i + 3);
        }
    }
}

/// Constant folding replaces two integer constants and an operator by one
/// push of the value they fold to, and folds the code after them on its
/// own.
pub proof fn law_folding_a_window(a: i64, b: i64, i: Instruction, rest: Seq<InstrView>)
    requires
        fold_binary(InstrView::Push(ValueView::Integer(a)), InstrView::Push(ValueView::Integer(b)), instr_view(i)) is Some,
    ensures
        fold_constants(seq![InstrView::Push(ValueView::Integer(a)), InstrView::Push(ValueView::Integer(b)), instr_view(i)] + rest)
            == seq![
            InstrView::Push(
                fold_binary(InstrView::Push(ValueView::Integer(a)), InstrView::Push(ValueView::Integer(b)), instr_view(i)).unwrap(),
            ),
        ] + fold_constants(rest),
{
    let p = seq![InstrView::Push(ValueView::Integer(a)), InstrView::Push(ValueView::Integer(b)), instr_view(i)];
    let t = p + rest;
    assert(t[0] == p[0] && t[1] == p[1] && t[2] == p[2]);
    assert(binary_at(t, 0));
    lemma_fold_from_shift(p, rest, 0);
}

/// The peephole pass removes a pair that does nothing and goes on with the
/// code after it as if the pair had never been there.
pub proof fn law_peephole_removes_pair(x: InstrView, op: InstrView, rest: Seq<InstrView>)
    requires
        drops_pair(x, op),
    ensures
        peephole(seq![x, op] + rest) == peephole(rest),
{
    let p = seq![x, op];
    let t = p + rest;
    assert(t[0] == x && t[1] == op);
    assert(!strength_at(t, 0));
    assert(drop_at(t, 0));
    lemma_peephole_from_shift(p, rest, 0);
}

/// Two pushes of integer constants put them on the stack, in order.
pub proof fn lemma_two_pushes(m: MachineView, a: i64, b: i64)
    requires
        m.ip + 2 < m.code.len() <= usize::MAX,
        m.code[m.ip as int] == InstrView::Push(ValueView::Integer(a)),
        m.code[m.ip + 1] == InstrView::Push(ValueView::Integer(b)),
    ensures
        step(m) matches Outcome::Next(m1) && step(m1) == Outcome::Next(
            MachineView { ip: (m.ip + 2) as usize, stack: m.stack.push(ValueView::Integer(a)).push(ValueView::Integer(b)), ..m },
        ),
{
    let m1 = m.with_stack(m.stack.push(ValueView::Integer(a))).advanced();
    assert(step(m) == Outcome::Next(m1));
    assert(m1.ip == m.ip + 1 && m1.code == m.code);
}

/// The jumps: `Jmp(a)` goes to `a`; `JmpIfFalse(a)` takes the boolean on top
/// and goes to `a` when it is false, to the next instruction when it is
/// true.
pub proof fn law_jumps(m: MachineView, a: usize)
    requires
        m.ip < m.code.len() <= usize::MAX,
    ensures
        m.code[m.ip as int] == instr_view(Instruction::Jmp(a)) ==> step(m) == Outcome::Next(MachineView { ip: a, ..m }),
        m.code[m.ip as int] == instr_view(Instruction::JmpIfFalse(a)) && m.stack.len() > 0 && m.stack.last()
            == ValueView::Boolean(false) ==> step(m) == Outcome::Next(MachineView { ip: a, stack: m.stack.drop_last(), ..m }),
        m.code[m.ip as int] == instr_view(Instruction::JmpIfFalse(a)) && m.stack.len() > 0 && m.stack.last()
            == ValueView::Boolean(true) ==> step(m) == Outcome::Next(
            MachineView { ip: (m.ip + 1) as usize, stack: m.stack.drop_last(), ..m },
        ),
{
}

/// The stack instructions: `PopN(n)` drops the top `n` values; `Slide(n)`
/// drops the `n` values under the top one and keeps the top one; `MakeList(n)`
/// and `MakeVector(n)` replace the top `n` values by a list or a vector of
/// them, deepest first; `LoadArg(k)` pushes the current frame's `k`-th
/// argument.
pub proof fn law_stack_instructions(m: MachineView, n: usize)
    requires
        m.ip < m.code.len() <= usize::MAX,
    ensures
        m.code[m.ip as int] == instr_view(Instruction::PopN(n)) && m.stack.len() >= n ==> step(m) == Outcome::Next(
            MachineView { ip: (m.ip + 1) as usize, stack: m.stack.subrange(0, m.stack.len() - n), ..m },
        ),
        m.code[m.ip as int] == instr_view(Instruction::Slide(n)) && m.stack.len() > n ==> step(m) == Outcome::Next(
            MachineView { ip: (m.ip + 1) as usize, stack: m.stack.subrange(0, m.stack.len() - n - 1).push(m.stack.last()), ..m },
        ),
        m.code[m.ip as int] == instr_view(Instruction::MakeList(n)) && m.stack.len() >= n ==> step(m) == Outcome::Next(
            MachineView {
                ip: (m.ip + 1) as usize,
                stack: m.stack.subrange(0, m.stack.len() - n).push(
                    ValueView::List(m.stack.subrange(m.stack.len() - n, m.stack.len() as int)),
                ),
                ..m
            },
        ),
        m.code[m.ip as int] == instr_view(Instruction::MakeVector(n)) && m.stack.len() >= n ==> step(m) == Outcome::Next(
            MachineView {
                ip: (m.ip + 1) as usize,
                stack: m.stack.subrange(0, m.stack.len() - n).push(
                    ValueView::Vector(m.stack.subrange(m.stack.len() - n, m.stack.len() as int)),
                ),
                ..m
            },
        ),
        m.code[m.ip as int] == instr_view(Instruction::LoadArg(n)) && m.frames.len() > 0 && n < m.frames.last().locals.len()
            ==> step(m) == Outcome::Next(
            MachineView { ip: (m.ip + 1) as usize, stack: m.stack.push(m.frames.last().locals[n as int]), ..m },
        ),
{
}

/// The machine after `k` steps that each go on, if each does.
pub open spec fn after_steps(m: MachineView, k: nat) -> Option<MachineView>
    decreases k,
{
    if k == 0 {
        Some(m)
    } else {
        match step(m) {
            Outcome::Next(m1) => after_steps(m1, (k - 1) as nat),
            _ => None,
        }
    }
}

/// The type tests replace the value on top by whether it is of their kind;
/// `IsProcedure` holds of functions and closures alike.
pub proof fn law_type_tests(m: MachineView, v: ValueView)
    requires
        m.ip < m.code.len() <= usize::MAX,
        m.stack.len() >= 1,
        m.stack.last() == v,
    ensures
        m.code[m.ip as int] == instr_view(Instruction::IsList) ==> step(m) == Outcome::Next(top_replaced(m, ValueView::Boolean(v is List))),
        m.code[m.ip as int] == instr_view(Instruction::IsString) ==> step(m) == Outcome::Next(top_replaced(m, ValueView::Boolean(v is String))),
        m.code[m.ip as int] == instr_view(Instruction::IsSymbol) ==> step(m) == Outcome::Next(top_replaced(m, ValueView::Boolean(v is Symbol))),
        m.code[m.ip as int] == instr_view(Instruction::IsHashMap) ==> step(m) == Outcome::Next(top_replaced(m, ValueView::Boolean(v is HashMap))),
        m.code[m.ip as int] == instr_view(Instruction::IsVector) ==> step(m) == Outcome::Next(top_replaced(m, ValueView::Boolean(v is Vector))),
        m.code[m.ip as int] == instr_view(Instruction::IsInteger) ==> step(m) == Outcome::Next(top_replaced(m, ValueView::Boolean(v is Integer))),
        m.code[m.ip as int] == instr_view(Instruction::IsBoolean) ==> step(m) == Outcome::Next(top_replaced(m, ValueView::Boolean(v is Boolean))),
        m.code[m.ip as int] == instr_view(Instruction::IsFunction) ==> step(m) == Outcome::Next(top_replaced(m, ValueView::Boolean(v is Function))),
        m.code[m.ip as int] == instr_view(Instruction::IsClosure) ==> step(m) == Outcome::Next(top_replaced(m, ValueView::Boolean(v is Closure))),
        m.code[m.ip as int] == instr_view(Instruction::IsFloat) ==> step(m) == Outcome::Next(top_replaced(m, ValueView::Boolean(v is Float))),
        m.code[m.ip as int] == instr_view(Instruction::IsProcedure) ==> step(m) == Outcome::Next(
            top_replaced(m, ValueView::Boolean(v is Function || v is Closure)),
        ),
{
}

/// `HashMapKeys` and `HashMapValues` list a map's keys, as strings, and its
/// values, each in the order of the map's entries.
pub proof fn law_hash_map_keys_and_values(m: MachineView, entries: Seq<(Seq<char>, ValueView)>)
    requires
        m.ip < m.code.len() <= usize::MAX,
        m.stack.len() >= 1,
        m.stack.last() == ValueView::HashMap(entries),
    ensures
        m.code[m.ip as int] == instr_view(Instruction::HashMapKeys) ==> step(m) == Outcome::Next(
            top_replaced(m, ValueView::List(Seq::new(entries.len(), |i: int| ValueView::String(entries[i].0)))),
        ),
        m.code[m.ip as int] == instr_view(Instruction::HashMapValues) ==> step(m) == Outcome::Next(
            top_replaced(m, ValueView::List(Seq::new(entries.len(), |i: int| entries[i].1))),
        ),
{
    assert(key_values(entries) =~= Seq::new(entries.len(), |i: int| ValueView::String(entries[i].0)));
    assert(entry_values(entries) =~= Seq::new(entries.len(), |i: int| entries[i].1));
}

/// Reading a global after storing one: under the name just stored the
/// value stored, under any other name what was there before (and an error
/// where nothing was).
pub proof fn law_global_load_after_store(m: MachineView, name: Seq<char>, name2: Seq<char>, v: ValueView)
    requires
        m.ip + 1 < m.code.len() <= usize::MAX,
        m.code[m.ip as int] == InstrView::StoreGlobal(name),
        m.code[m.ip + 1] == InstrView::LoadGlobal(name2),
        m.stack.len() >= 1,
        m.stack.last() == v,
    ensures
        step(m) matches Outcome::Next(m1) && {
            &&& name2 == name ==> step(m1) == Outcome::Next(
                MachineView { ip: (m.ip + 2) as usize, globals: m1.globals, ..m },
            )
            &&& name2 != name && lookup(m.globals, name2) is Some ==> step(m1) == Outcome::Next(
                MachineView {
                    ip: (m.ip + 2) as usize,
                    stack: m.stack.drop_last().push(lookup(m.globals, name2).unwrap()),
                    globals: m1.globals,
                    ..m
                },
            )
            &&& name2 != name && lookup(m.globals, name2) is None ==> step(m1) is Failed
        },
{
    let m1 = step(m)->Next_0;
    assert(m1.ip == m.ip + 1 && m1.code == m.code);
    law_lookup_after_insert(m.globals, name, v, name2);
    assert(m.stack.drop_last().push(v) =~= m.stack);
}

} // verus!
