use vstd::prelude::*;
use crate::instructions::{
    Instruction, InstrView, instr_view, instrs_view, simple_opcode, index_opcode, opcode_of_simple,
    opcode_of_indexed, lemma_instrs_view_len, lemma_instrs_view_index, lemma_instrs_view_ext,
    lemma_simple_view, lemma_indexed_view, lemma_classify,
};
use crate::value::{Value, ValueView, value_view};
use crate::bytecode::{FunctionTable, table_view};

verus! {
/// The opcodes of the operand-free instructions the optimizer looks at.
pub const OP_ADD: u8 = 1;
pub const OP_SUB: u8 = 2;
pub const OP_MUL: u8 = 3;
pub const OP_DIV: u8 = 4;
pub const OP_LEQ: u8 = 5;
pub const OP_RET: u8 = 9;
pub const OP_HALT: u8 = 12;
pub const OP_MOD: u8 = 13;
pub const OP_NEG: u8 = 14;
pub const OP_LT: u8 = 15;
pub const OP_GT: u8 = 16;
pub const OP_GTE: u8 = 17;
pub const OP_EQ: u8 = 18;
pub const OP_NEQ: u8 = 19;
/// The opcodes of the instructions with one numeric operand the optimizer looks at.
pub const OP_JMP_IF_FALSE: u8 = 6;
pub const OP_JMP: u8 = 7;
pub const OP_POP_N: u8 = 29;

/// The sign bit of an IEEE-754 double.
pub const SIGN_BIT: u64 = 0x8000_0000_0000_0000;
/// The bit patterns of the doubles 1.0 and -1.0.
pub const ONE_BITS: u64 = 0x3FF0_0000_0000_0000;
pub const MINUS_ONE_BITS: u64 = 0xBFF0_0000_0000_0000;

// ---------------------------------------------------------------------------
// What an instruction is, as the optimizer sees it

/// The integer an instruction pushes, when it pushes an integer constant.
pub open spec fn pushed_int(i: InstrView) -> Option<i64> {
    match i {
        InstrView::Push(ValueView::Integer(n)) => Some(n),
        _ => None,
    }
}

/// The bit pattern of the float an instruction pushes, when it pushes a float constant.
pub open spec fn pushed_float(i: InstrView) -> Option<u64> {
    match i {
        InstrView::Push(ValueView::Float(f)) => Some(f),
        _ => None,
    }
}

/// The opcode of an operand-free instruction.
pub open spec fn simple_op(i: InstrView) -> Option<u8> {
    match i {
        InstrView::Simple(op) => Some(op),
        _ => None,
    }
}

/// Whether a float's bit pattern is +0.0 or -0.0, the two patterns equal to 0.0.
pub open spec fn is_zero_bits(f: u64) -> bool {
    f == 0 || f == SIGN_BIT
}

/// The target of an unconditional jump.
pub open spec fn jump_target(i: InstrView) -> Option<usize> {
    match i {
        InstrView::Indexed(op, t) => if op == OP_JMP { Some(t) } else { None },
        _ => None,
    }
}

/// The target of a conditional jump.
pub open spec fn cond_jump_target(i: InstrView) -> Option<usize> {
    match i {
        InstrView::Indexed(op, t) => if op == OP_JMP_IF_FALSE { Some(t) } else { None },
        _ => None,
    }
}

// ---------------------------------------------------------------------------
// Integer arithmetic as Rust computes it

/// Division truncated toward zero.
pub open spec fn trunc_div(a: int, b: int) -> int {
    if a >= 0 {
        a / b
    } else {
        -((-a) / b)
    }
}

/// The remainder of division truncated toward zero; it has the sign of `a`.
pub open spec fn trunc_rem(a: int, b: int) -> int {
    if a >= 0 {
        a % b
    } else {
        -((-a) % b)
    }
}

pub open spec fn in_i64(x: int) -> bool {
    i64::MIN <= x <= i64::MAX
}

/// The value two integer constants fold to under an operator: arithmetic
/// (division and remainder only by a nonzero divisor) or a comparison.
/// The arithmetic result is the exact one; `int_fold_overflows` tells when
/// it does not fit.
pub open spec fn int_fold(a: i64, b: i64, op: u8) -> Option<ValueView> {
    if op == OP_ADD {
        Some(ValueView::Integer((a + b) as i64))
    } else if op == OP_SUB {
        Some(ValueView::Integer((a - b) as i64))
    } else if op == OP_MUL {
        Some(ValueView::Integer((a * b) as i64))
    } else if op == OP_DIV && b != 0 {
        Some(ValueView::Integer(trunc_div(a as int, b as int) as i64))
    } else if op == OP_MOD && b != 0 {
        Some(ValueView::Integer(trunc_rem(a as int, b as int) as i64))
    } else if op == OP_LEQ {
        Some(ValueView::Boolean(a <= b))
    } else if op == OP_LT {
        Some(ValueView::Boolean(a < b))
    } else if op == OP_GT {
        Some(ValueView::Boolean(a > b))
    } else if op == OP_GTE {
        Some(ValueView::Boolean(a >= b))
    } else if op == OP_EQ {
        Some(ValueView::Boolean(a == b))
    } else if op == OP_NEQ {
        Some(ValueView::Boolean(a != b))
    } else {
        None
    }
}

/// Whether folding `a op b` would leave the range of `i64` (Rust's integer
/// arithmetic stops there).
pub open spec fn int_fold_overflows(a: i64, b: i64, op: u8) -> bool {
    ||| op == OP_ADD && !in_i64(a + b)
    ||| op == OP_SUB && !in_i64(a - b)
    ||| op == OP_MUL && !in_i64(a * b)
    ||| (op == OP_DIV || op == OP_MOD) && a == i64::MIN && b == -1
}

// ---------------------------------------------------------------------------
// Constant folding

/// The value that three instructions `x y op` fold to: two integer constants
/// and an operator. A float operand is not folded here: the library holds no
/// floating-point arithmetic.
pub open spec fn fold_binary(x: InstrView, y: InstrView, op: InstrView) -> Option<ValueView> {
    match (pushed_int(x), pushed_int(y), simple_op(op)) {
        (Some(a), Some(b), Some(o)) => int_fold(a, b, o),
        _ => None,
    }
}

/// The value that a constant followed by a negation folds to. Negating a
/// float flips its sign bit.
pub open spec fn fold_unary(x: InstrView, y: InstrView) -> Option<ValueView> {
    if y == InstrView::Simple(OP_NEG) {
        match x {
            InstrView::Push(ValueView::Integer(n)) => Some(ValueView::Integer((-n) as i64)),
            InstrView::Push(ValueView::Float(f)) => Some(ValueView::Float(f ^ SIGN_BIT)),
            _ => None,
        }
    } else {
        None
    }
}

/// Whether folding a binary window at `i` applies.
pub open spec fn binary_at(s: Seq<InstrView>, i: int) -> bool {
    i + 2 < s.len() && fold_binary(s[i], s[i + 1], s[i + 2]).is_some()
}

/// Whether folding a negation at `i` applies.
pub open spec fn unary_at(s: Seq<InstrView>, i: int) -> bool {
    i + 1 < s.len() && fold_unary(s[i], s[i + 1]).is_some()
}

/// Constant folding of `s` from position `i` on: scanning left to right, a
/// binary window is folded first, then a negation; otherwise the instruction
/// is kept.
pub open spec fn fold_from(s: Seq<InstrView>, i: int) -> Seq<InstrView>
    decreases s.len() - i,
{
    if i < 0 || i >= s.len() {
        Seq::empty()
    } else if binary_at(s, i) {
        seq![InstrView::Push(fold_binary(s[i], s[i + 1], s[i + 2]).unwrap())] + fold_from(s, i + 3)
    } else if unary_at(s, i) {
        seq![InstrView::Push(fold_unary(s[i], s[i + 1]).unwrap())] + fold_from(s, i + 2)
    } else {
        seq![s[i]] + fold_from(s, i + 1)
    }
}

/// The number of folds that scan makes.
pub open spec fn fold_count_from(s: Seq<InstrView>, i: int) -> nat
    decreases s.len() - i,
{
    if i < 0 || i >= s.len() {
        0
    } else if binary_at(s, i) {
        1 + fold_count_from(s, i + 3)
    } else if unary_at(s, i) {
        1 + fold_count_from(s, i + 2)
    } else {
        fold_count_from(s, i + 1)
    }
}

/// Whether every fold that scan makes stays in the range of `i64`.
pub open spec fn fold_fits_from(s: Seq<InstrView>, i: int) -> bool
    decreases s.len() - i,
{
    if i < 0 || i >= s.len() {
        true
    } else if binary_at(s, i) {
        !int_fold_overflows(pushed_int(s[i]).unwrap(), pushed_int(s[i + 1]).unwrap(), simple_op(s[i + 2]).unwrap())
            && fold_fits_from(s, i + 3)
    } else if unary_at(s, i) {
        (pushed_int(s[i]).is_some() ==> pushed_int(s[i]).unwrap() != i64::MIN) && fold_fits_from(s, i + 2)
    } else {
        fold_fits_from(s, i + 1)
    }
}

pub open spec fn fold_constants(s: Seq<InstrView>) -> Seq<InstrView> {
    fold_from(s, 0)
}

pub open spec fn fold_count(s: Seq<InstrView>) -> nat {
    fold_count_from(s, 0)
}

pub open spec fn fold_fits(s: Seq<InstrView>) -> bool {
    fold_fits_from(s, 0)
}

// ---------------------------------------------------------------------------
// Peephole optimization

/// What strength reduction turns the window `x y op` into: a multiplication
/// by -1 becomes a negation, one by 0 drops `x` and pushes 0.
pub open spec fn strength_reduce(x: InstrView, y: InstrView, op: InstrView) -> Option<Seq<InstrView>> {
    if op != InstrView::Simple(OP_MUL) {
        None
    } else if pushed_int(y) == Some(-1i64) || pushed_float(y) == Some(MINUS_ONE_BITS) {
        Some(seq![x, InstrView::Simple(OP_NEG)])
    } else if pushed_int(y) == Some(0i64) {
        Some(seq![x, InstrView::Indexed(OP_POP_N, 1), InstrView::Push(ValueView::Integer(0))])
    } else if pushed_float(y).is_some() && is_zero_bits(pushed_float(y).unwrap()) {
        Some(seq![x, InstrView::Indexed(OP_POP_N, 1), InstrView::Push(ValueView::Float(0))])
    } else {
        None
    }
}

/// Whether the pair `x op` does nothing and is dropped: adding or
/// subtracting 0, multiplying or dividing by 1, or negating twice.
pub open spec fn drops_pair(x: InstrView, op: InstrView) -> bool {
    ||| (op == InstrView::Simple(OP_ADD) || op == InstrView::Simple(OP_SUB)) && (pushed_int(x) == Some(0i64)
        || (pushed_float(x).is_some() && is_zero_bits(pushed_float(x).unwrap())))
    ||| (op == InstrView::Simple(OP_MUL) || op == InstrView::Simple(OP_DIV)) && (pushed_int(x) == Some(1i64)
        || pushed_float(x) == Some(ONE_BITS))
    ||| x == InstrView::Simple(OP_NEG) && op == InstrView::Simple(OP_NEG)
}

pub open spec fn strength_at(s: Seq<InstrView>, i: int) -> bool {
    i + 2 < s.len() && strength_reduce(s[i], s[i + 1], s[i + 2]).is_some()
}

pub open spec fn drop_at(s: Seq<InstrView>, i: int) -> bool {
    i + 1 < s.len() && drops_pair(s[i], s[i + 1])
}

/// The peephole pass over `s` from position `i` on: scanning left to right,
/// strength reduction first, then a pair that does nothing; otherwise the
/// instruction is kept.
pub open spec fn peephole_from(s: Seq<InstrView>, i: int) -> Seq<InstrView>
    decreases s.len() - i,
{
    if i < 0 || i >= s.len() {
        Seq::empty()
    } else if strength_at(s, i) {
        strength_reduce(s[i], s[i + 1], s[i + 2]).unwrap() + peephole_from(s, i + 3)
    } else if drop_at(s, i) {
        peephole_from(s, i + 2)
    } else {
        seq![s[i]] + peephole_from(s, i + 1)
    }
}

/// The number of strength reductions that scan makes.
pub open spec fn strength_count_from(s: Seq<InstrView>, i: int) -> nat
    decreases s.len() - i,
{
    if i < 0 || i >= s.len() {
        0
    } else if strength_at(s, i) {
        1 + strength_count_from(s, i + 3)
    } else if drop_at(s, i) {
        strength_count_from(s, i + 2)
    } else {
        strength_count_from(s, i + 1)
    }
}

/// The number of pairs that scan drops.
pub open spec fn drop_count_from(s: Seq<InstrView>, i: int) -> nat
    decreases s.len() - i,
{
    if i < 0 || i >= s.len() {
        0
    } else if strength_at(s, i) {
        drop_count_from(s, i + 3)
    } else if drop_at(s, i) {
        1 + drop_count_from(s, i + 2)
    } else {
        drop_count_from(s, i + 1)
    }
}

pub open spec fn peephole(s: Seq<InstrView>) -> Seq<InstrView> {
    peephole_from(s, 0)
}

pub open spec fn strength_count(s: Seq<InstrView>) -> nat {
    strength_count_from(s, 0)
}

pub open spec fn drop_count(s: Seq<InstrView>) -> nat {
    drop_count_from(s, 0)
}

// ---------------------------------------------------------------------------
// Jump threading

/// The longest chain of jumps followed.
pub const MAX_CHAIN: usize = 100;

/// The target of a jump of either kind.
pub open spec fn any_jump_target(i: InstrView) -> Option<usize> {
    match i {
        InstrView::Indexed(op, t) => if op == OP_JMP || op == OP_JMP_IF_FALSE { Some(t) } else { None },
        _ => None,
    }
}

/// Where a chain of unconditional jumps starting at `t` ends: it is followed
/// while fuel is left, the position is inside the code and not yet passed
/// (`seen`), and the instruction there is an unconditional jump.
pub open spec fn follow_chain(s: Seq<InstrView>, t: usize, fuel: nat, seen: Set<usize>) -> usize
    decreases fuel,
{
    if fuel == 0 || t >= s.len() || seen.contains(t) {
        t
    } else {
        match jump_target(s[t as int]) {
            Some(next) => follow_chain(s, next, (fuel - 1) as nat, seen.insert(t)),
            None => t,
        }
    }
}

/// The target a jump to `t` is given: when the instruction at `t` is itself
/// a jump (of either kind) to `u`, the end of the chain of unconditional
/// jumps from `u`; otherwise `t` itself.
pub open spec fn rethread(s: Seq<InstrView>, t: usize) -> usize {
    if t < s.len() && any_jump_target(s[t as int]).is_some() {
        follow_chain(s, any_jump_target(s[t as int]).unwrap(), MAX_CHAIN as nat, Set::empty())
    } else {
        t
    }
}

/// An instruction of `s` after jump threading.
pub open spec fn thread_instr(s: Seq<InstrView>, i: InstrView) -> InstrView {
    match i {
        InstrView::Indexed(op, t) => if op == OP_JMP || op == OP_JMP_IF_FALSE {
            InstrView::Indexed(op, rethread(s, t))
        } else {
            i
        },
        _ => i,
    }
}

/// Jump threading: every jump is given its threaded target.
pub open spec fn thread_jumps(s: Seq<InstrView>) -> Seq<InstrView> {
    Seq::new(s.len(), |k: int| thread_instr(s, s[k]))
}

/// Whether jump threading changes the instruction at `k`.
pub open spec fn retargets(s: Seq<InstrView>, k: int) -> bool {
    any_jump_target(s[k]).is_some() && rethread(s, any_jump_target(s[k]).unwrap()) != any_jump_target(s[k]).unwrap()
}

/// The number of jumps among the first `n` instructions whose target changes.
pub open spec fn retarget_count_upto(s: Seq<InstrView>, n: int) -> nat
    decreases n,
{
    if n <= 0 {
        0
    } else {
        retarget_count_upto(s, n - 1) + if retargets(s, n - 1) { 1nat } else { 0nat }
    }
}

pub open spec fn retarget_count(s: Seq<InstrView>) -> nat {
    retarget_count_upto(s, s.len() as int)
}

// ---------------------------------------------------------------------------
// Dead code elimination

/// Whether control passes from position `a` to position `b`: a jump goes to
/// its target, a conditional jump to its target or the next position, a
/// return or halt nowhere, any other instruction to the next position.
pub open spec fn flows_to(s: Seq<InstrView>, a: int, b: int) -> bool {
    if jump_target(s[a]).is_some() {
        b == jump_target(s[a]).unwrap()
    } else if cond_jump_target(s[a]).is_some() {
        b == cond_jump_target(s[a]).unwrap() || b == a + 1
    } else if s[a] == InstrView::Simple(OP_RET) || s[a] == InstrView::Simple(OP_HALT) {
        false
    } else {
        b == a + 1
    }
}

/// Whether a set of positions holds, with each position of the code in it,
/// every position of the code that control passes to from there.
pub open spec fn closed_under_flow(s: Seq<InstrView>, r: Set<int>) -> bool {
    forall|a: int, b: int|
        0 <= a < s.len() && 0 <= b < s.len() && #[trigger] r.contains(a) && #[trigger] flows_to(s, a, b)
            ==> r.contains(b)
}

/// Whether position `k` can be reached from the first instruction: it lies in
/// every set that holds position 0 and is closed under control flow.
pub open spec fn reachable(s: Seq<InstrView>, k: int) -> bool {
    &&& 0 <= k < s.len()
    &&& forall|r: Set<int>| r.contains(0) && closed_under_flow(s, r) ==> #[trigger] r.contains(k)
}

/// The reachable instructions among the first `n`, in order.
pub open spec fn live_upto(s: Seq<InstrView>, n: int) -> Seq<InstrView>
    decreases n,
{
    if n <= 0 {
        Seq::empty()
    } else {
        live_upto(s, n - 1) + if reachable(s, n - 1) { seq![s[n - 1]] } else { Seq::empty() }
    }
}

/// Dead code elimination: the reachable instructions, in order. Jump
/// targets are left as they are.
pub open spec fn live_code(s: Seq<InstrView>) -> Seq<InstrView> {
    live_upto(s, s.len() as int)
}

/// The number of unreachable instructions among the first `n`.
pub open spec fn dead_count_upto(s: Seq<InstrView>, n: int) -> nat
    decreases n,
{
    if n <= 0 {
        0
    } else {
        dead_count_upto(s, n - 1) + if reachable(s, n - 1) { 0nat } else { 1nat }
    }
}

pub open spec fn dead_count(s: Seq<InstrView>) -> nat {
    dead_count_upto(s, s.len() as int)
}

/// The number of `false` entries.
pub open spec fn count_false(m: Seq<bool>) -> nat
    decreases m.len(),
{
    if m.len() == 0 {
        0
    } else {
        count_false(m.drop_last()) + if m.last() { 0nat } else { 1nat }
    }
}

/// Position 0 of a nonempty code is reachable.
pub proof fn lemma_entry_reachable(s: Seq<InstrView>)
    requires
        s.len() > 0,
    ensures
        reachable(s, 0),
{
}

/// Control passes from a reachable position only to reachable positions.
pub proof fn lemma_reach_step(s: Seq<InstrView>, a: int, b: int)
    requires
        reachable(s, a),
        0 <= b < s.len(),
        flows_to(s, a, b),
    ensures
        reachable(s, b),
{
    assert forall|r: Set<int>| r.contains(0) && closed_under_flow(s, r) implies #[trigger] r.contains(b) by {
        assert(r.contains(a));
    }
}

proof fn lemma_count_false_set(m: Seq<bool>, k: int)
    requires
        0 <= k < m.len(),
        !m[k],
    ensures
        count_false(m.update(k, true)) + 1 == count_false(m),
    decreases m.len(),
{
    let u = m.update(k, true);
    if k == m.len() - 1 {
        assert(u.drop_last() =~= m.drop_last());
    } else {
        lemma_count_false_set(m.drop_last(), k);
        assert(u.drop_last() =~= m.drop_last().update(k, true));
    }
}

// ---------------------------------------------------------------------------
// The whole optimizer

/// The four passes in order: constant folding, peephole optimization, jump
/// threading, dead code elimination.
pub open spec fn optimized(s: Seq<InstrView>) -> Seq<InstrView> {
    live_code(thread_jumps(peephole(fold_constants(s))))
}

/// What the optimizer has done so far.
#[derive(Debug, Clone)]
pub struct OptimizationStats {
    pub original_instruction_count: usize,
    pub optimized_instruction_count: usize,
    pub constant_folds: usize,
    pub dead_code_removed: usize,
    pub jump_chains_simplified: usize,
    pub peephole_optimizations: usize,
    pub strength_reductions: usize,
}

impl OptimizationStats {
    /// All counts zero.
    pub open spec fn is_zero(self) -> bool {
        &&& self.original_instruction_count == 0
        &&& self.optimized_instruction_count == 0
        &&& self.constant_folds == 0
        &&& self.dead_code_removed == 0
        &&& self.jump_chains_simplified == 0
        &&& self.peephole_optimizations == 0
        &&& self.strength_reductions == 0
    }

    /// Whether every count can still grow by `n`.
    pub open spec fn has_room(self, n: nat) -> bool {
        &&& self.original_instruction_count + n <= usize::MAX
        &&& self.optimized_instruction_count + n <= usize::MAX
        &&& self.constant_folds + n <= usize::MAX
        &&& self.dead_code_removed + n <= usize::MAX
        &&& self.jump_chains_simplified + n <= usize::MAX
        &&& self.peephole_optimizations + n <= usize::MAX
        &&& self.strength_reductions + n <= usize::MAX
    }

    /// The counts after optimizing the code `s`.
    pub open spec fn after(self, s: Seq<InstrView>) -> OptimizationStats {
        let f = fold_constants(s);
        let p = peephole(f);
        let t = thread_jumps(p);
        OptimizationStats {
            original_instruction_count: (self.original_instruction_count + s.len()) as usize,
            optimized_instruction_count: (self.optimized_instruction_count + live_code(t).len()) as usize,
            constant_folds: (self.constant_folds + fold_count(s)) as usize,
            dead_code_removed: (self.dead_code_removed + dead_count(t)) as usize,
            jump_chains_simplified: (self.jump_chains_simplified + retarget_count(p)) as usize,
            peephole_optimizations: (self.peephole_optimizations + drop_count(f)) as usize,
            strength_reductions: (self.strength_reductions + strength_count(f)) as usize,
        }
    }

    /// The counts after optimizing each function of a table in turn.
    pub open spec fn after_table(self, t: Seq<(Seq<char>, Seq<InstrView>)>) -> OptimizationStats
        decreases t.len(),
    {
        if t.len() == 0 {
            self
        } else {
            self.after(t[0].1).after_table(t.subrange(1, t.len() as int))
        }
    }

    /// Fresh counts, all zero.
    pub fn new() -> (r: Self)
        ensures
            r.is_zero(),
    {
        OptimizationStats {
            original_instruction_count: 0,
            optimized_instruction_count: 0,
            constant_folds: 0,
            dead_code_removed: 0,
            jump_chains_simplified: 0,
            peephole_optimizations: 0,
            strength_reductions: 0,
        }
    }
}

/// The number of instructions in all functions of a table.
pub open spec fn table_size(t: Seq<(Seq<char>, Seq<InstrView>)>) -> nat
    decreases t.len(),
{
    if t.len() == 0 {
        0
    } else {
        t[0].1.len() + table_size(t.subrange(1, t.len() as int))
    }
}

proof fn lemma_fold_bounds(s: Seq<InstrView>, i: int)
    requires
        0 <= i <= s.len(),
    ensures
        fold_count_from(s, i) + fold_from(s, i).len() <= s.len() - i,
    decreases s.len() - i,
{
    if i < s.len() {
        if binary_at(s, i) {
            lemma_fold_bounds(s, i + 3);
        } else if unary_at(s, i) {
            lemma_fold_bounds(s, i + 2);
        } else {
            lemma_fold_bounds(s, i + 1);
        }
    }
}

proof fn lemma_peephole_bounds(s: Seq<InstrView>, i: int)
    requires
        0 <= i <= s.len(),
    ensures
        strength_count_from(s, i) <= s.len() - i,
        drop_count_from(s, i) <= s.len() - i,
        peephole_from(s, i).len() <= s.len() - i,
    decreases s.len() - i,
{
    if i < s.len() {
        if strength_at(s, i) {
            lemma_peephole_bounds(s, i + 3);
        } else if drop_at(s, i) {
            lemma_peephole_bounds(s, i + 2);
        } else {
            lemma_peephole_bounds(s, i + 1);
        }
    }
}

proof fn lemma_retarget_bound(s: Seq<InstrView>, n: int)
    requires
        0 <= n,
    ensures
        retarget_count_upto(s, n) <= n,
    decreases n,
{
    if n > 0 {
        lemma_retarget_bound(s, n - 1);
    }
}

proof fn lemma_live_bounds(s: Seq<InstrView>, n: int)
    requires
        0 <= n,
    ensures
        dead_count_upto(s, n) <= n,
        live_upto(s, n).len() <= n,
    decreases n,
{
    if n > 0 {
        lemma_live_bounds(s, n - 1);
    }
}

/// Every count the optimizer adds for `s` is at most the length of `s`, and
/// so is the length of the optimized code.
pub proof fn lemma_optimize_bounds(s: Seq<InstrView>)
    ensures
        fold_count(s) <= s.len(),
        fold_constants(s).len() <= s.len(),
        strength_count(fold_constants(s)) <= s.len(),
        drop_count(fold_constants(s)) <= s.len(),
        peephole(fold_constants(s)).len() <= s.len(),
        retarget_count(peephole(fold_constants(s))) <= s.len(),
        dead_count(thread_jumps(peephole(fold_constants(s)))) <= s.len(),
        optimized(s).len() <= s.len(),
{
    lemma_fold_bounds(s, 0);
    let f = fold_constants(s);
    lemma_peephole_bounds(f, 0);
    let p = peephole(f);
    lemma_retarget_bound(p, p.len() as int);
    let t = thread_jumps(p);
    lemma_live_bounds(t, t.len() as int);
}

/// Optimizing `s` uses at most `s.len()` of each count's room.
pub proof fn lemma_after_room(st: OptimizationStats, s: Seq<InstrView>, m: nat)
    requires
        st.has_room(s.len() + m),
    ensures
        st.after(s).has_room(m),
{
    lemma_optimize_bounds(s);
}

/// Optimizing never reports more optimized instructions than original
/// ones: from counts where that holds, it still holds after optimizing any
/// code, so the reduction is never negative.
pub proof fn law_reduction_never_negative(st: OptimizationStats, s: Seq<InstrView>)
    requires
        st.optimized_instruction_count <= st.original_instruction_count,
        st.has_room(s.len()),
    ensures
        st.after(s).optimized_instruction_count <= st.after(s).original_instruction_count,
{
    lemma_optimize_bounds(s);
}

/// The counts after optimizing each piece of code of `ps` in turn.
pub open spec fn after_each(st: OptimizationStats, ps: Seq<Seq<InstrView>>) -> OptimizationStats
    decreases ps.len(),
{
    if ps.len() == 0 {
        st
    } else {
        after_each(st, ps.drop_last()).after(ps.last())
    }
}

/// The number of instructions in all pieces of code of `ps`.
pub open spec fn total_len(ps: Seq<Seq<InstrView>>) -> nat
    decreases ps.len(),
{
    if ps.len() == 0 {
        0
    } else {
        total_len(ps.drop_last()) + ps.last().len()
    }
}

/// The number of instructions in the optimized forms of the pieces of `ps`.
pub open spec fn total_optimized_len(ps: Seq<Seq<InstrView>>) -> nat
    decreases ps.len(),
{
    if ps.len() == 0 {
        0
    } else {
        total_optimized_len(ps.drop_last()) + optimized(ps.last()).len()
    }
}

/// Over any run of optimizations from fresh counts, the original count is
/// the number of instructions handed in, the optimized count the number
/// handed back, and the second never exceeds the first.
pub proof fn law_stats_over_calls(st: OptimizationStats, ps: Seq<Seq<InstrView>>)
    requires
        st.is_zero(),
        st.has_room(total_len(ps)),
    ensures
        after_each(st, ps).original_instruction_count == total_len(ps),
        after_each(st, ps).optimized_instruction_count == total_optimized_len(ps),
        total_optimized_len(ps) <= total_len(ps),
    decreases ps.len(),
{
    if ps.len() > 0 {
        let pre = ps.drop_last();
        let l = ps.last();
        lemma_optimize_bounds(l);
        assert(total_len(ps) == total_len(pre) + l.len());
        law_stats_over_calls(st, pre);
        assert(optimized(l) == live_code(thread_jumps(peephole(fold_constants(l)))));
    }
}

/// Jump threading keeps the code's length and every instruction that is
/// not a jump, and gives each jump a new target only.
pub proof fn law_threading_keeps_shape(s: Seq<InstrView>)
    ensures
        thread_jumps(s).len() == s.len(),
        forall|k: int| 0 <= k < s.len() && any_jump_target(s[k]).is_none() ==> #[trigger] thread_jumps(s)[k] == s[k],
        forall|k: int| 0 <= k < s.len() && any_jump_target(s[k]).is_some() ==> (#[trigger] thread_jumps(s)[k] is Indexed
            && thread_jumps(s)[k]->Indexed_0 == s[k]->Indexed_0),
{
}

/// Dead code elimination keeps exactly the reachable instructions: its
/// result is as long as the code less the instructions it counts as removed.
pub proof fn law_dead_code_count(s: Seq<InstrView>)
    ensures
        live_code(s).len() + dead_count(s) == s.len(),
{
    lemma_live_count(s, s.len() as int);
}

proof fn lemma_live_count(s: Seq<InstrView>, n: int)
    requires
        0 <= n,
    ensures
        live_upto(s, n).len() + dead_count_upto(s, n) == n,
    decreases n,
{
    if n > 0 {
        lemma_live_count(s, n - 1);
    }
}

// ---------------------------------------------------------------------------
// Reading instructions

fn int_of(i: &Instruction) -> (r: Option<i64>)
    ensures
        r == pushed_int(instr_view(*i)),
{
    match i {
        Instruction::Push(Value::Integer(n)) => Some(*n),
        Instruction::Push(_) => None,
        _ => {
            proof {
                lemma_classify(*i);
                if simple_opcode(*i).is_some() {
                    lemma_simple_view(*i);
                } else if index_opcode(*i).is_some() {
                    lemma_indexed_view(*i);
                }
            }
            None
        },
    }
}

fn float_of(i: &Instruction) -> (r: Option<u64>)
    ensures
        r == pushed_float(instr_view(*i)),
{
    match i {
        Instruction::Push(Value::Float(f)) => Some(*f),
        Instruction::Push(_) => None,
        _ => {
            proof {
                lemma_classify(*i);
                if simple_opcode(*i).is_some() {
                    lemma_simple_view(*i);
                } else if index_opcode(*i).is_some() {
                    lemma_indexed_view(*i);
                }
            }
            None
        },
    }
}

fn op_of(i: &Instruction) -> (r: Option<u8>)
    ensures
        r == simple_op(instr_view(*i)),
{
    proof {
        lemma_classify(*i);
        if index_opcode(*i).is_some() {
            lemma_indexed_view(*i);
        }
    }
    let r = opcode_of_simple(i);
    proof {
        if r.is_some() {
            lemma_simple_view(*i);
        }
    }
    r
}

/// The opcode and operand of an instruction with one numeric operand.
fn indexed_of(i: &Instruction) -> (r: Option<(u8, usize)>)
    ensures
        r == (match instr_view(*i) {
            InstrView::Indexed(op, a) => Some((op, a)),
            _ => None,
        }),
{
    proof {
        lemma_classify(*i);
        if simple_opcode(*i).is_some() {
            lemma_simple_view(*i);
        }
    }
    let r = opcode_of_indexed(i);
    proof {
        if r.is_some() {
            lemma_indexed_view(*i);
        }
    }
    r
}

/// Folds two integer constants under an operator.
pub(crate) fn fold_int_int(a: i64, b: i64, op: u8) -> (r: Option<Value>)
    requires
        int_fold(a, b, op).is_some() ==> !int_fold_overflows(a, b, op),
    ensures
        r.is_some() == int_fold(a, b, op).is_some(),
        r.is_some() ==> value_view(r.unwrap()) == int_fold(a, b, op).unwrap(),
{
    if op == OP_ADD {
        Some(Value::Integer(a + b))
    } else if op == OP_SUB {
        Some(Value::Integer(a - b))
    } else if op == OP_MUL {
        Some(Value::Integer(a * b))
    } else if op == OP_DIV && b != 0 {
        Some(Value::Integer(a / b))
    } else if op == OP_MOD && b != 0 {
        Some(Value::Integer(a % b))
    } else if op == OP_LEQ {
        Some(Value::Boolean(a <= b))
    } else if op == OP_LT {
        Some(Value::Boolean(a < b))
    } else if op == OP_GT {
        Some(Value::Boolean(a > b))
    } else if op == OP_GTE {
        Some(Value::Boolean(a >= b))
    } else if op == OP_EQ {
        Some(Value::Boolean(a == b))
    } else if op == OP_NEQ {
        Some(Value::Boolean(a != b))
    } else {
        None
    }
}

/// The items of `v`, last first.
fn reversed<T>(v: Vec<T>) -> (r: Vec<T>)
    ensures
        r@.len() == v@.len(),
        forall|k: int| 0 <= k < v@.len() ==> #[trigger] r@[k] == v@[v@.len() - 1 - k],
{
    let ghost orig = v@;
    let mut v = v;
    let mut r: Vec<T> = Vec::new();
    while v.len() > 0
        invariant
            v@ == orig.subrange(0, v@.len() as int),
            r@.len() + v@.len() == orig.len(),
            forall|k: int| 0 <= k < r@.len() ==> #[trigger] r@[k] == orig[orig.len() - 1 - k],
        decreases v@.len(),
    {
        let x = v.pop().unwrap();
        r.push(x);
    }
    r
}

/// Folds the window `x y op` when it is two integer constants and an operator.
fn fold_window3(x: &Instruction, y: &Instruction, op: &Instruction) -> (r: Option<Value>)
    requires
        fold_binary(instr_view(*x), instr_view(*y), instr_view(*op)).is_some() ==> !int_fold_overflows(
            pushed_int(instr_view(*x)).unwrap(),
            pushed_int(instr_view(*y)).unwrap(),
            simple_op(instr_view(*op)).unwrap(),
        ),
    ensures
        r.is_some() == fold_binary(instr_view(*x), instr_view(*y), instr_view(*op)).is_some(),
        r.is_some() ==> value_view(r.unwrap()) == fold_binary(instr_view(*x), instr_view(*y), instr_view(*op)).unwrap(),
{
    let a = int_of(x);
    let b = int_of(y);
    let o = op_of(op);
    match (a, b, o) {
        (Some(a), Some(b), Some(o)) => fold_int_int(a, b, o),
        _ => None,
    }
}

/// Folds the window `x Neg` when `x` pushes a number.
fn fold_window2(x: &Instruction, y: &Instruction) -> (r: Option<Value>)
    requires
        fold_unary(instr_view(*x), instr_view(*y)).is_some() && pushed_int(instr_view(*x)).is_some()
            ==> pushed_int(instr_view(*x)).unwrap() != i64::MIN,
    ensures
        r.is_some() == fold_unary(instr_view(*x), instr_view(*y)).is_some(),
        r.is_some() ==> value_view(r.unwrap()) == fold_unary(instr_view(*x), instr_view(*y)).unwrap(),
{
    let o = op_of(y);
    if o != Some(OP_NEG) {
        proof {
            if instr_view(*y) == InstrView::Simple(OP_NEG) {
                assert(simple_op(instr_view(*y)) == Some(OP_NEG));
            }
        }
        return None;
    }
    assert(instr_view(*y) == InstrView::Simple(OP_NEG));
    match int_of(x) {
        Some(n) => {
            return Some(Value::Integer(-n));
        },
        None => {},
    }
    match float_of(x) {
        Some(f) => Some(Value::Float(f ^ SIGN_BIT)),
        None => None,
    }
}

/// Constant folding: the folded code and the number of folds.
fn constant_folding_pass(bytecode: Vec<Instruction>) -> (r: (Vec<Instruction>, usize))
    requires
        fold_fits(instrs_view(bytecode@)),
    ensures
        instrs_view(r.0@) == fold_constants(instrs_view(bytecode@)),
        r.1 == fold_count(instrs_view(bytecode@)),
{
    let n = bytecode.len();
    let ghost s = instrs_view(bytecode@);
    proof {
        lemma_instrs_view_len(bytecode@);
        assert forall|k: int| 0 <= k < n implies s[k] == instr_view(#[trigger] bytecode@[k]) by {
            lemma_instrs_view_index(bytecode@, k);
        }
    }
    let mut rest = reversed(bytecode);
    let mut out: Vec<Instruction> = Vec::new();
    let mut count: usize = 0;
    let mut i: usize = 0;
    let ghost mut outv: Seq<InstrView> = Seq::empty();
    assert(outv + fold_from(s, 0) =~= fold_from(s, 0));
    while rest.len() > 0
        invariant
            s.len() == n,
            rest@.len() + i == n,
            forall|k: int| 0 <= k < rest@.len() ==> instr_view(#[trigger] rest@[k]) == s[n - 1 - k],
            out@.len() == outv.len(),
            forall|k: int| 0 <= k < out@.len() ==> instr_view(#[trigger] out@[k]) == outv[k],
            outv + fold_from(s, i as int) == fold_from(s, 0),
            count + fold_count_from(s, i as int) == fold_count_from(s, 0),
            fold_fits_from(s, i as int),
            count <= i,
        decreases rest@.len(),
    {
        let len = rest.len();
        let bin = if len >= 3 {
            proof {
                assert(instr_view(rest@[len - 1]) == s[i as int]);
                assert(instr_view(rest@[len - 2]) == s[i + 1]);
                assert(instr_view(rest@[len - 3]) == s[i + 2]);
            }
            fold_window3(&rest[len - 1], &rest[len - 2], &rest[len - 3])
        } else {
            None
        };
        match bin {
            Some(v) => {
                proof {
                    assert(binary_at(s, i as int));
                }
                rest.pop();
                rest.pop();
                rest.pop();
                let ghost x = InstrView::Push(value_view(v));
                out.push(Instruction::Push(v));
                proof {
                    assert(outv.push(x) + fold_from(s, i + 3) =~= outv + (seq![x] + fold_from(s, i + 3)));
                    outv = outv.push(x);
                }
                count = count + 1;
                i = i + 3;
            },
            None => {
                proof {
                    assert(!binary_at(s, i as int)) by {
                        if len >= 3 {
                            assert(instr_view(rest@[len - 1]) == s[i as int]);
                            assert(instr_view(rest@[len - 2]) == s[i + 1]);
                            assert(instr_view(rest@[len - 3]) == s[i + 2]);
                        }
                    }
                }
                let un = if len >= 2 {
                    proof {
                        assert(instr_view(rest@[len - 1]) == s[i as int]);
                        assert(instr_view(rest@[len - 2]) == s[i + 1]);
                    }
                    fold_window2(&rest[len - 1], &rest[len - 2])
                } else {
                    None
                };
                match un {
                    Some(v) => {
                        proof {
                            assert(unary_at(s, i as int));
                        }
                        rest.pop();
                        rest.pop();
                        let ghost x = InstrView::Push(value_view(v));
                        out.push(Instruction::Push(v));
                        proof {
                            assert(outv.push(x) + fold_from(s, i + 2) =~= outv + (seq![x] + fold_from(s, i + 2)));
                            outv = outv.push(x);
                        }
                        count = count + 1;
                        i = i + 2;
                    },
                    None => {
                        proof {
                            assert(!unary_at(s, i as int)) by {
                                if len >= 2 {
                                    assert(instr_view(rest@[len - 1]) == s[i as int]);
                                    assert(instr_view(rest@[len - 2]) == s[i + 1]);
                                }
                            }
                            assert(instr_view(rest@[len - 1]) == s[i as int]);
                        }
                        let x = rest.pop().unwrap();
                        let ghost xv = instr_view(x);
                        out.push(x);
                        proof {
                            assert(outv.push(xv) + fold_from(s, i + 1) =~= outv + (seq![xv] + fold_from(s, i + 1)));
                            outv = outv.push(xv);
                        }
                        i = i + 1;
                    },
                }
            },
        }
    }
    proof {
        assert(outv + fold_from(s, i as int) =~= outv);
        lemma_instrs_view_ext(out@);
        lemma_instrs_view_len(out@);
        assert(instrs_view(out@) =~= outv);
    }
    (out, count)
}

/// Which strength reduction applies to `_ y op`: none (0), a negation (1),
/// an integer zero (2) or a float zero (3).
fn strength_kind(y: &Instruction, op: &Instruction) -> (r: u8)
    ensures
        r <= 3,
        forall|x: InstrView| (r == 0) == (#[trigger] strength_reduce(x, instr_view(*y), instr_view(*op))).is_none(),
        forall|x: InstrView| r == 1 ==> #[trigger] strength_reduce(x, instr_view(*y), instr_view(*op)) == Some(seq![x, InstrView::Simple(OP_NEG)]),
        forall|x: InstrView| r == 2 ==> #[trigger] strength_reduce(x, instr_view(*y), instr_view(*op)) == Some(
            seq![x, InstrView::Indexed(OP_POP_N, 1), InstrView::Push(ValueView::Integer(0))],
        ),
        forall|x: InstrView| r == 3 ==> #[trigger] strength_reduce(x, instr_view(*y), instr_view(*op)) == Some(
            seq![x, InstrView::Indexed(OP_POP_N, 1), InstrView::Push(ValueView::Float(0))],
        ),
{
    let o = op_of(op);
    if o != Some(OP_MUL) {
        proof {
            if instr_view(*op) == InstrView::Simple(OP_MUL) {
                assert(simple_op(instr_view(*op)) == Some(OP_MUL));
            }
        }
        return 0;
    }
    assert(instr_view(*op) == InstrView::Simple(OP_MUL));
    let a = int_of(y);
    let f = float_of(y);
    if a == Some(-1i64) || f == Some(MINUS_ONE_BITS) {
        1
    } else if a == Some(0i64) {
        2
    } else {
        match f {
            Some(bits) => if bits == 0 || bits == SIGN_BIT { 3 } else { 0 },
            None => 0,
        }
    }
}

/// Whether the pair `x op` does nothing.
fn drops(x: &Instruction, op: &Instruction) -> (r: bool)
    ensures
        r == drops_pair(instr_view(*x), instr_view(*op)),
{
    let o = op_of(op);
    let xo = op_of(x);
    let a = int_of(x);
    let f = float_of(x);
    proof {
        if instr_view(*op) is Simple {
            assert(simple_op(instr_view(*op)) == Some(instr_view(*op)->Simple_0));
        }
        if instr_view(*x) is Simple {
            assert(simple_op(instr_view(*x)) == Some(instr_view(*x)->Simple_0));
        }
    }
    let zero = a == Some(0i64) || f == Some(0u64) || f == Some(SIGN_BIT);
    let one = a == Some(1i64) || f == Some(ONE_BITS);
    ((o == Some(OP_ADD) || o == Some(OP_SUB)) && zero) || ((o == Some(OP_MUL) || o == Some(OP_DIV)) && one) || (
    xo == Some(OP_NEG) && o == Some(OP_NEG))
}

/// The peephole pass: the rewritten code, the number of strength reductions
/// and the number of pairs dropped.
fn peephole_optimization_pass(bytecode: Vec<Instruction>) -> (r: (Vec<Instruction>, usize, usize))
    ensures
        instrs_view(r.0@) == peephole(instrs_view(bytecode@)),
        r.1 == strength_count(instrs_view(bytecode@)),
        r.2 == drop_count(instrs_view(bytecode@)),
{
    let n = bytecode.len();
    let ghost s = instrs_view(bytecode@);
    proof {
        lemma_instrs_view_len(bytecode@);
        assert forall|k: int| 0 <= k < n implies s[k] == instr_view(#[trigger] bytecode@[k]) by {
            lemma_instrs_view_index(bytecode@, k);
        }
    }
    let mut rest = reversed(bytecode);
    let mut out: Vec<Instruction> = Vec::new();
    let mut reductions: usize = 0;
    let mut drops_made: usize = 0;
    let mut i: usize = 0;
    let ghost mut outv: Seq<InstrView> = Seq::empty();
    assert(outv + peephole_from(s, 0) =~= peephole_from(s, 0));
    while rest.len() > 0
        invariant
            s.len() == n,
            rest@.len() + i == n,
            forall|k: int| 0 <= k < rest@.len() ==> instr_view(#[trigger] rest@[k]) == s[n - 1 - k],
            out@.len() == outv.len(),
            forall|k: int| 0 <= k < out@.len() ==> instr_view(#[trigger] out@[k]) == outv[k],
            outv + peephole_from(s, i as int) == peephole_from(s, 0),
            reductions + strength_count_from(s, i as int) == strength_count_from(s, 0),
            drops_made + drop_count_from(s, i as int) == drop_count_from(s, 0),
            reductions + drops_made <= i,
        decreases rest@.len(),
    {
        let len = rest.len();
        let kind = if len >= 3 {
            proof {
                assert(instr_view(rest@[len - 2]) == s[i + 1]);
                assert(instr_view(rest@[len - 3]) == s[i + 2]);
            }
            strength_kind(&rest[len - 2], &rest[len - 3])
        } else {
            0
        };
        proof {
            assert(instr_view(rest@[len - 1]) == s[i as int]);
            if len >= 3 {
                assert(instr_view(rest@[len - 2]) == s[i + 1]);
                assert(instr_view(rest@[len - 3]) == s[i + 2]);
                let _ = strength_reduce(s[i as int], s[i + 1], s[i + 2]);
            }
            if len >= 2 {
                assert(instr_view(rest@[len - 2]) == s[i + 1]);
            }
        }
        if kind != 0 {
            let x = rest.pop().unwrap();
            rest.pop();
            rest.pop();
            let ghost r = strength_reduce(s[i as int], s[i + 1], s[i + 2]).unwrap();
            out.push(x);
            if kind == 1 {
                out.push(Instruction::Neg);
            } else if kind == 2 {
                out.push(Instruction::PopN(1));
                out.push(Instruction::Push(Value::Integer(0)));
            } else {
                out.push(Instruction::PopN(1));
                out.push(Instruction::Push(Value::Float(0)));
            }
            proof {
                assert((outv + r) + peephole_from(s, i + 3) =~= outv + (r + peephole_from(s, i + 3)));
                outv = outv + r;
            }
            reductions = reductions + 1;
            i = i + 3;
        } else {
            let d = if len >= 2 {
                drops(&rest[len - 1], &rest[len - 2])
            } else {
                false
            };
            if d {
                rest.pop();
                rest.pop();
                drops_made = drops_made + 1;
                i = i + 2;
            } else {
                let x = rest.pop().unwrap();
                let ghost xv = instr_view(x);
                out.push(x);
                proof {
                    assert(outv.push(xv) + peephole_from(s, i + 1) =~= outv + (seq![xv] + peephole_from(s, i + 1)));
                    outv = outv.push(xv);
                }
                i = i + 1;
            }
        }
    }
    proof {
        assert(outv + peephole_from(s, i as int) =~= outv);
        lemma_instrs_view_ext(out@);
        lemma_instrs_view_len(out@);
        assert(instrs_view(out@) =~= outv);
    }
    (out, reductions, drops_made)
}

/// The target of an instruction that is an unconditional jump.
fn jump_of(i: &Instruction) -> (r: Option<usize>)
    ensures
        r == jump_target(instr_view(*i)),
{
    match indexed_of(i) {
        Some((op, t)) => if op == OP_JMP { Some(t) } else { None },
        None => None,
    }
}

/// The target of an instruction that is a jump of either kind.
fn any_jump_of(i: &Instruction) -> (r: Option<usize>)
    ensures
        r == any_jump_target(instr_view(*i)),
{
    match indexed_of(i) {
        Some((op, t)) => if op == OP_JMP || op == OP_JMP_IF_FALSE { Some(t) } else { None },
        None => None,
    }
}

fn contains_position(v: &Vec<usize>, x: usize) -> (r: bool)
    ensures
        r == v@.contains(x),
{
    let mut k: usize = 0;
    while k < v.len()
        invariant
            k <= v@.len(),
            forall|j: int| 0 <= j < k ==> v@[j] != x,
        decreases v@.len() - k,
    {
        if v[k] == x {
            return true;
        }
        k = k + 1;
    }
    false
}

/// Follows a chain of unconditional jumps from `target`, for at most
/// `max_depth` steps and never through a position twice.
fn follow_jump_chain(bytecode: &Vec<Instruction>, target: usize, max_depth: usize) -> (r: usize)
    ensures
        r == follow_chain(instrs_view(bytecode@), target, max_depth as nat, Set::empty()),
{
    let ghost s = instrs_view(bytecode@);
    proof {
        lemma_instrs_view_len(bytecode@);
    }
    let mut target = target;
    let mut depth: usize = 0;
    let mut visited: Vec<usize> = Vec::new();
    let ghost mut seen: Set<usize> = Set::empty();
    let ghost goal = follow_chain(s, target, max_depth as nat, Set::empty());
    loop
        invariant
            s == instrs_view(bytecode@),
            s.len() == bytecode@.len(),
            depth <= max_depth,
            forall|x: usize| seen.contains(x) <==> visited@.contains(x),
            follow_chain(s, target, (max_depth - depth) as nat, seen) == goal,
        ensures
            target == goal,
        decreases max_depth - depth,
    {
        if depth >= max_depth || target >= bytecode.len() {
            break;
        }
        if contains_position(&visited, target) {
            break;
        }
        proof {
            lemma_instrs_view_index(bytecode@, target as int);
        }
        match jump_of(&bytecode[target]) {
            Some(next) => {
                proof {
                    assert forall|x: usize| seen.insert(target).contains(x) <==> visited@.push(target).contains(x) by {
                        if visited@.push(target).contains(x) {
                            let j = choose|j: int| 0 <= j < visited@.push(target).len() && visited@.push(target)[j] == x;
                            if j < visited@.len() {
                                assert(visited@.contains(x));
                            }
                        }
                        if visited@.contains(x) {
                            let j = choose|j: int| 0 <= j < visited@.len() && visited@[j] == x;
                            assert(visited@.push(target)[j] == x);
                        }
                        if x == target {
                            assert(visited@.push(target)[visited@.len() as int] == x);
                        }
                    }
                    seen = seen.insert(target);
                }
                visited.push(target);
                target = next;
                depth = depth + 1;
            },
            None => {
                break;
            },
        }
    }
    target
}

/// For each position, the threaded target of the jump there, if it is one.
fn resolve_jump_chains(bytecode: &Vec<Instruction>) -> (r: Vec<Option<usize>>)
    ensures
        r@.len() == bytecode@.len(),
        forall|k: int| 0 <= k < r@.len() ==> #[trigger] r@[k] == match any_jump_target(instrs_view(bytecode@)[k]) {
            Some(t) => Some(follow_chain(instrs_view(bytecode@), t, MAX_CHAIN as nat, Set::empty())),
            None => None::<usize>,
        },
{
    let ghost s = instrs_view(bytecode@);
    let mut resolved: Vec<Option<usize>> = Vec::new();
    let mut k: usize = 0;
    while k < bytecode.len()
        invariant
            s == instrs_view(bytecode@),
            k <= bytecode@.len(),
            resolved@.len() == k,
            forall|j: int| 0 <= j < k ==> #[trigger] resolved@[j] == match any_jump_target(s[j]) {
                Some(t) => Some(follow_chain(s, t, MAX_CHAIN as nat, Set::empty())),
                None => None::<usize>,
            },
        decreases bytecode@.len() - k,
    {
        proof {
            lemma_instrs_view_index(bytecode@, k as int);
        }
        match any_jump_of(&bytecode[k]) {
            Some(t) => {
                let f = follow_jump_chain(bytecode, t, MAX_CHAIN);
                resolved.push(Some(f));
            },
            None => {
                resolved.push(None);
            },
        }
        k = k + 1;
    }
    resolved
}

/// Jump threading: the rewritten code and the number of jumps retargeted.
fn jump_to_jump_elimination_pass(bytecode: Vec<Instruction>) -> (r: (Vec<Instruction>, usize))
    ensures
        instrs_view(r.0@) == thread_jumps(instrs_view(bytecode@)),
        r.1 == retarget_count(instrs_view(bytecode@)),
{
    let n = bytecode.len();
    let ghost s = instrs_view(bytecode@);
    proof {
        lemma_instrs_view_len(bytecode@);
        assert forall|k: int| 0 <= k < n implies s[k] == instr_view(#[trigger] bytecode@[k]) by {
            lemma_instrs_view_index(bytecode@, k);
        }
    }
    let table = resolve_jump_chains(&bytecode);
    let mut rest = reversed(bytecode);
    let mut out: Vec<Instruction> = Vec::new();
    let mut changed: usize = 0;
    let mut i: usize = 0;
    while rest.len() > 0
        invariant
            s.len() == n,
            table@.len() == n,
            forall|k: int| 0 <= k < n ==> #[trigger] table@[k] == match any_jump_target(s[k]) {
                Some(t) => Some(follow_chain(s, t, MAX_CHAIN as nat, Set::empty())),
                None => None::<usize>,
            },
            rest@.len() + i == n,
            forall|k: int| 0 <= k < rest@.len() ==> instr_view(#[trigger] rest@[k]) == s[n - 1 - k],
            out@.len() == i,
            forall|k: int| 0 <= k < i ==> instr_view(#[trigger] out@[k]) == thread_instr(s, s[k]),
            changed == retarget_count_upto(s, i as int),
            changed <= i,
        decreases rest@.len(),
    {
        let x = rest.pop().unwrap();
        assert(instr_view(x) == s[i as int]);
        let ix = indexed_of(&x);
        let y = match ix {
            Some((op, t)) => {
                if op == OP_JMP || op == OP_JMP_IF_FALSE {
                    let mut nt = t;
                    if t < n {
                        match table[t] {
                            Some(f) => {
                                nt = f;
                            },
                            None => {},
                        }
                    }
                    if nt != t {
                        changed = changed + 1;
                    }
                    if op == OP_JMP {
                        Instruction::Jmp(nt)
                    } else {
                        Instruction::JmpIfFalse(nt)
                    }
                } else {
                    x
                }
            },
            None => x,
        };
        proof {
            assert(instr_view(y) == thread_instr(s, s[i as int]));
        }
        out.push(y);
        i = i + 1;
    }
    proof {
        lemma_instrs_view_ext(out@);
        lemma_instrs_view_len(out@);
        assert(instrs_view(out@) =~= thread_jumps(s));
    }
    (out, changed)
}

/// Marks, for each position, whether it is reachable from the first
/// instruction, by a depth-first walk.
fn compute_reachable(bytecode: &Vec<Instruction>) -> (marks: Vec<bool>)
    ensures
        marks@.len() == bytecode@.len(),
        forall|k: int| 0 <= k < marks@.len() ==> #[trigger] marks@[k] == reachable(instrs_view(bytecode@), k),
{
    let n = bytecode.len();
    let ghost s = instrs_view(bytecode@);
    proof {
        lemma_instrs_view_len(bytecode@);
    }
    let mut marks: Vec<bool> = Vec::new();
    while marks.len() < n
        invariant
            marks@.len() <= n,
            forall|k: int| 0 <= k < marks@.len() ==> !#[trigger] marks@[k],
            count_false(marks@) == marks@.len(),
        decreases n - marks@.len(),
    {
        proof {
            assert(marks@.push(false).drop_last() =~= marks@);
        }
        marks.push(false);
    }
    let mut to_visit: Vec<usize> = Vec::new();
    to_visit.push(0);
    assert(to_visit@[0] == 0usize);
    let ghost mut unmarked: nat = n as nat;
    while to_visit.len() > 0
        invariant
            s == instrs_view(bytecode@),
            s.len() == n,
            bytecode@.len() == n,
            marks@.len() == n,
            unmarked == count_false(marks@),
            forall|k: int| 0 <= k < n && #[trigger] marks@[k] ==> reachable(s, k),
            forall|j: int| 0 <= j < to_visit@.len() && #[trigger] to_visit@[j] < n ==> reachable(s, to_visit@[j] as int),
            forall|a: int, b: int|
                0 <= a < n && 0 <= b < n && #[trigger] marks@[a] && #[trigger] flows_to(s, a, b)
                    ==> marks@[b] || to_visit@.contains(b as usize),
            n > 0 ==> marks@[0] || to_visit@.contains(0usize),
        decreases 3 * unmarked + to_visit@.len(),
    {
        let ghost before = to_visit@;
        let addr = to_visit.pop().unwrap();
        assert(before == to_visit@.push(addr));
        proof {
            assert forall|x: usize| before.contains(x) && x != addr implies to_visit@.contains(x) by {
                let j = choose|j: int| 0 <= j < before.len() && before[j] == x;
                assert(j < to_visit@.len());
                assert(to_visit@[j] == x);
            }
            assert forall|j: int| 0 <= j < to_visit@.len() && #[trigger] to_visit@[j] < n implies reachable(s, to_visit@[j] as int) by {
                assert(before[j] == to_visit@[j]);
            }
            assert(before[before.len() - 1] == addr);
        }
        if addr >= n || marks[addr] {
            proof {
                if unmarked == 0 {
                    assert(3 * unmarked + to_visit@.len() < 3 * unmarked + before.len());
                }
            }
        } else {
            proof {
                lemma_count_false_set(marks@, addr as int);
                lemma_instrs_view_index(bytecode@, addr as int);
            }
            let ghost old_marks = marks@;
            marks.set(addr, true);
            proof {
                unmarked = (unmarked - 1) as nat;
            }
            let ghost mid = to_visit@;
            let j = jump_of(&bytecode[addr]);
            let c = match indexed_of(&bytecode[addr]) {
                Some((op, t)) => if op == OP_JMP_IF_FALSE { Some(t) } else { None },
                None => None,
            };
            let o = op_of(&bytecode[addr]);
            match j {
                Some(t) => {
                    to_visit.push(t);
                },
                None => {
                    match c {
                        Some(t) => {
                            to_visit.push(t);
                            if addr + 1 < n {
                                to_visit.push(addr + 1);
                            }
                        },
                        None => {
                            if o == Some(OP_RET) || o == Some(OP_HALT) {
                            } else if addr + 1 < n {
                                to_visit.push(addr + 1);
                            }
                        },
                    }
                },
            }
            proof {
                assert(cond_jump_target(s[addr as int]) == c);
                assert(s[addr as int] == InstrView::Simple(OP_RET) ==> o == Some(OP_RET));
                assert(s[addr as int] == InstrView::Simple(OP_HALT) ==> o == Some(OP_HALT));
                assert(o == Some(OP_RET) ==> s[addr as int] == InstrView::Simple(OP_RET));
                assert(o == Some(OP_HALT) ==> s[addr as int] == InstrView::Simple(OP_HALT));
                assert forall|x: usize| mid.contains(x) implies to_visit@.contains(x) by {
                    let k = choose|k: int| 0 <= k < mid.len() && mid[k] == x;
                    assert(to_visit@[k] == x);
                }
                assert forall|b: int| 0 <= b < n && flows_to(s, addr as int, b) implies to_visit@.contains(b as usize) by {
                    if to_visit@.len() == mid.len() + 1 {
                        assert(to_visit@[mid.len() as int] == b as usize);
                    } else {
                        if b as usize == to_visit@[mid.len() as int] {
                        } else {
                            assert(to_visit@[mid.len() + 1int] == b as usize);
                        }
                    }
                }
                assert forall|jj: int| 0 <= jj < to_visit@.len() && #[trigger] to_visit@[jj] < n implies reachable(s, to_visit@[jj] as int) by {
                    if jj >= mid.len() {
                        lemma_reach_step(s, addr as int, to_visit@[jj] as int);
                    } else {
                        assert(mid[jj] == to_visit@[jj]);
                    }
                }
                assert forall|a: int, b: int|
                    0 <= a < n && 0 <= b < n && #[trigger] marks@[a] && #[trigger] flows_to(s, a, b)
                        implies marks@[b] || to_visit@.contains(b as usize) by {
                    if a != addr as int {
                        assert(old_marks[a]);
                        if !old_marks[b] {
                            assert(before.contains(b as usize));
                            if b != addr as int {
                                assert(mid.contains(b as usize));
                            }
                        }
                    }
                }
                assert forall|k: int| 0 <= k < n && #[trigger] marks@[k] implies reachable(s, k) by {
                    if k != addr as int {
                        assert(old_marks[k]);
                    }
                }
                if n > 0 && !marks@[0] {
                    assert(before.contains(0usize));
                    assert(mid.contains(0usize));
                }
            }
        }
    }
    proof {
        let r = Set::new(|k: int| 0 <= k < n && marks@[k]);
        if n > 0 {
            assert(r.contains(0));
        }
        assert(closed_under_flow(s, r));
        assert forall|k: int| 0 <= k < n implies #[trigger] marks@[k] == reachable(s, k) by {
            if reachable(s, k) && n > 0 {
                assert(r.contains(k));
            }
        }
    }
    marks
}

/// Dead code elimination: the reachable instructions and the number removed.
fn dead_code_elimination_pass(bytecode: Vec<Instruction>) -> (r: (Vec<Instruction>, usize))
    ensures
        instrs_view(r.0@) == live_code(instrs_view(bytecode@)),
        r.1 == dead_count(instrs_view(bytecode@)),
{
    let n = bytecode.len();
    let ghost s = instrs_view(bytecode@);
    proof {
        lemma_instrs_view_len(bytecode@);
        assert forall|k: int| 0 <= k < n implies s[k] == instr_view(#[trigger] bytecode@[k]) by {
            lemma_instrs_view_index(bytecode@, k);
        }
    }
    let marks = compute_reachable(&bytecode);
    let mut rest = reversed(bytecode);
    let mut out: Vec<Instruction> = Vec::new();
    let mut removed: usize = 0;
    let mut i: usize = 0;
    let ghost mut outv: Seq<InstrView> = Seq::empty();
    while rest.len() > 0
        invariant
            s.len() == n,
            marks@.len() == n,
            forall|k: int| 0 <= k < n ==> #[trigger] marks@[k] == reachable(s, k),
            rest@.len() + i == n,
            forall|k: int| 0 <= k < rest@.len() ==> instr_view(#[trigger] rest@[k]) == s[n - 1 - k],
            out@.len() == outv.len(),
            forall|k: int| 0 <= k < out@.len() ==> instr_view(#[trigger] out@[k]) == outv[k],
            outv == live_upto(s, i as int),
            removed == dead_count_upto(s, i as int),
            removed <= i,
        decreases rest@.len(),
    {
        let x = rest.pop().unwrap();
        assert(instr_view(x) == s[i as int]);
        if marks[i] {
            proof {
                outv = outv.push(instr_view(x));
                assert(live_upto(s, i + 1) =~= outv);
            }
            out.push(x);
        } else {
            proof {
                assert(live_upto(s, i + 1) =~= outv);
            }
            removed = removed + 1;
        }
        i = i + 1;
    }
    proof {
        lemma_instrs_view_ext(out@);
        lemma_instrs_view_len(out@);
        assert(instrs_view(out@) =~= outv);
    }
    (out, removed)
}

/// A bytecode optimizer that keeps counts of what it did.
pub struct Optimizer {
    stats: OptimizationStats,
}

impl Optimizer {
    /// The counts so far.
    pub closed spec fn current_stats(&self) -> OptimizationStats {
        self.stats
    }

    /// An optimizer with all counts zero.
    pub fn new() -> (r: Self)
        ensures
            r.current_stats().is_zero(),
    {
        Optimizer { stats: OptimizationStats::new() }
    }

    /// The counts so far.
    pub fn get_stats(&self) -> (r: &OptimizationStats)
        ensures
            *r == self.current_stats(),
    {
        &self.stats
    }

    /// Optimizes one piece of code: constant folding, peephole optimization,
    /// jump threading and dead code elimination, in that order.
    pub fn optimize(&mut self, bytecode: Vec<Instruction>) -> (r: Vec<Instruction>)
        requires
            fold_fits(instrs_view(bytecode@)),
            old(self).current_stats().has_room(bytecode@.len() as nat),
        ensures
            instrs_view(r@) == optimized(instrs_view(bytecode@)),
            final(self).current_stats() == old(self).current_stats().after(instrs_view(bytecode@)),
    {
        let ghost s = instrs_view(bytecode@);
        proof {
            lemma_instrs_view_len(bytecode@);
            lemma_optimize_bounds(s);
        }
        self.stats.original_instruction_count = self.stats.original_instruction_count + bytecode.len();
        let (folded, folds) = constant_folding_pass(bytecode);
        self.stats.constant_folds = self.stats.constant_folds + folds;
        proof {
            lemma_instrs_view_len(folded@);
        }
        let (reduced, reductions, drops_made) = peephole_optimization_pass(folded);
        self.stats.strength_reductions = self.stats.strength_reductions + reductions;
        self.stats.peephole_optimizations = self.stats.peephole_optimizations + drops_made;
        let (threaded, retargeted) = jump_to_jump_elimination_pass(reduced);
        self.stats.jump_chains_simplified = self.stats.jump_chains_simplified + retargeted;
        let (live, removed) = dead_code_elimination_pass(threaded);
        self.stats.dead_code_removed = self.stats.dead_code_removed + removed;
        proof {
            lemma_instrs_view_len(live@);
        }
        self.stats.optimized_instruction_count = self.stats.optimized_instruction_count + live.len();
        live
    }

    /// Optimizes each function of a table, in order; the names stay.
    pub fn optimize_functions(&mut self, functions: FunctionTable) -> (r: FunctionTable)
        requires
            forall|k: int| 0 <= k < functions@.len() ==> fold_fits(#[trigger] instrs_view(functions@[k].1@)),
            old(self).current_stats().has_room(table_size(table_view(functions@))),
        ensures
            r@.len() == functions@.len(),
            forall|k: int| 0 <= k < r@.len() ==> #[trigger] r@[k].0@ == functions@[k].0@,
            forall|k: int| 0 <= k < r@.len() ==> #[trigger] instrs_view(r@[k].1@) == optimized(instrs_view(functions@[k].1@)),
            final(self).current_stats() == old(self).current_stats().after_table(table_view(functions@)),
    {
        let ghost t = table_view(functions@);
        let n = functions.len();
        let mut rest = reversed(functions);
        let mut out: FunctionTable = Vec::new();
        let mut i: usize = 0;
        let ghost start = self.stats;
        proof {
            assert(t.subrange(0, t.len() as int) =~= t);
        }
        while rest.len() > 0
            invariant
                t == table_view(functions@),
                t.len() == n,
                functions@.len() == n,
                forall|k: int| 0 <= k < n ==> fold_fits(#[trigger] instrs_view(functions@[k].1@)),
                rest@.len() + i == n,
                forall|k: int| 0 <= k < rest@.len() ==> #[trigger] rest@[k] == functions@[n - 1 - k],
                out@.len() == i,
                forall|k: int| 0 <= k < i ==> #[trigger] out@[k].0@ == functions@[k].0@,
                forall|k: int| 0 <= k < i ==> #[trigger] instrs_view(out@[k].1@) == optimized(instrs_view(functions@[k].1@)),
                self.stats.after_table(t.subrange(i as int, n as int)) == start.after_table(t),
                self.stats.has_room(table_size(t.subrange(i as int, n as int))),
            decreases rest@.len(),
        {
            let (name, code) = rest.pop().unwrap();
            let ghost tail = t.subrange(i as int, n as int);
            proof {
                assert(tail[0] == t[i as int]);
                assert(t[i as int].1 == instrs_view(code@));
                assert(tail.subrange(1, tail.len() as int) =~= t.subrange(i + 1, n as int));
                lemma_instrs_view_len(code@);
                lemma_after_room(self.stats, instrs_view(code@), table_size(t.subrange(i + 1, n as int)));
            }
            let optimized_code = self.optimize(code);
            out.push((name, optimized_code));
            i = i + 1;
        }
        proof {
            assert(t.subrange(n as int, n as int) =~= Seq::<(Seq<char>, Seq<InstrView>)>::empty());
        }
        out
    }
}

/// Whether constant folding of `bytecode` stays in the range of `i64`.
pub fn folds_fit(bytecode: &Vec<Instruction>) -> (r: bool)
    ensures
        r == fold_fits(instrs_view(bytecode@)),
{
    let n = bytecode.len();
    let ghost s = instrs_view(bytecode@);
    proof {
        lemma_instrs_view_len(bytecode@);
        assert forall|k: int| 0 <= k < n implies s[k] == instr_view(#[trigger] bytecode@[k]) by {
            lemma_instrs_view_index(bytecode@, k);
        }
    }
    let mut i: usize = 0;
    while i < n
        invariant
            s.len() == n,
            bytecode@.len() == n,
            forall|k: int| 0 <= k < n ==> s[k] == instr_view(#[trigger] bytecode@[k]),
            s == instrs_view(bytecode@),
            i <= n,
            fold_fits_from(s, i as int) == fold_fits(s),
        decreases n - i,
    {
        if n - i > 2 {
            let a = int_of(&bytecode[i]);
            let b = int_of(&bytecode[i + 1]);
            let o = op_of(&bytecode[i + 2]);
            match (a, b, o) {
                (Some(a), Some(b), Some(o)) => {
                    if int_fold_applies(a, b, o) {
                        assert(binary_at(s, i as int));
                        assert(pushed_int(s[i as int]) == Some(a));
                        assert(pushed_int(s[i + 1]) == Some(b));
                        assert(simple_op(s[i + 2]) == Some(o));
                        if int_overflows(a, b, o) {
                            assert(!fold_fits_from(s, i as int));
                            return false;
                        }
                        i = i + 3;
                        continue;
                    }
                },
                _ => {},
            }
        }
        assert(!binary_at(s, i as int));
        if n - i > 1 {
            let o = op_of(&bytecode[i + 1]);
            if o == Some(OP_NEG) {
                assert(s[i + 1] == InstrView::Simple(OP_NEG));
                let a = int_of(&bytecode[i]);
                let f = float_of(&bytecode[i]);
                match a {
                    Some(v) => {
                        assert(unary_at(s, i as int));
                        assert(pushed_int(s[i as int]) == Some(v));
                        if v == i64::MIN {
                            assert(!fold_fits_from(s, i as int));
                            return false;
                        }
                        i = i + 2;
                        continue;
                    },
                    None => {
                        if f.is_some() {
                            assert(unary_at(s, i as int));
                            i = i + 2;
                            continue;
                        }
                    },
                }
            } else {
                assert(s[i + 1] != InstrView::Simple(OP_NEG)) by {
                    if s[i + 1] == InstrView::Simple(OP_NEG) {
                        assert(simple_op(s[i + 1]) == Some(OP_NEG));
                    }
                }
            }
        }
        assert(!unary_at(s, i as int));
        i = i + 1;
    }
    true
}

/// Whether two integer constants fold under the operator `op`.
fn int_fold_applies(a: i64, b: i64, op: u8) -> (r: bool)
    ensures
        r == int_fold(a, b, op).is_some(),
{
    op == OP_ADD || op == OP_SUB || op == OP_MUL || (op == OP_DIV && b != 0) || (op == OP_MOD && b != 0)
        || op == OP_LEQ || op == OP_LT || op == OP_GT || op == OP_GTE || op == OP_EQ || op == OP_NEQ
}

/// Whether folding `a op b` leaves the range of `i64`.
fn int_overflows(a: i64, b: i64, op: u8) -> (r: bool)
    ensures
        r == int_fold_overflows(a, b, op),
{
    let wa = a as i128;
    let wb = b as i128;
    let lo = i64::MIN as i128;
    let hi = i64::MAX as i128;
    if op == OP_ADD {
        let v = wa + wb;
        v < lo || v > hi
    } else if op == OP_SUB {
        let v = wa - wb;
        v < lo || v > hi
    } else if op == OP_MUL {
        assert(-0x4000_0000_0000_0000_0000_0000_0000_0000 <= wa * wb <= 0x4000_0000_0000_0000_0000_0000_0000_0000) by (nonlinear_arith)
            requires
                -0x8000_0000_0000_0000 <= wa <= 0x8000_0000_0000_0000,
                -0x8000_0000_0000_0000 <= wb <= 0x8000_0000_0000_0000,
        ;
        let v = wa * wb;
        v < lo || v > hi
    } else {
        (op == OP_DIV || op == OP_MOD) && a == i64::MIN && b == -1
    }
}
} // verus!
