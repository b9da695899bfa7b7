//! What emitted code does: the target machine's instructions as state changes,
//! and the laws that the emitted blocks obey.
use vstd::prelude::*;
use crate::code::{Comp, Dest, Ins, Jump, Reg};
use crate::labels::label_text;
use crate::emit::{
    base_reg, binary_code, call_code, cmp_jump, compare_code, compute, end_prefix,
    true_prefix, unary_code, Cmp, fixed_base, if_goto_code, is_based, is_fixed, pop_body, pop_code,
    pop_d, push_body, push_code, push_d, restore_code, return_code, save_code, static_symbol,
    Segment,
};

verus! {

/// The machine's registers and data memory. `target` records where the last
/// jumping instruction went (`None` if it did not jump).
pub struct State {
    pub a: int,
    pub d: int,
    pub ram: spec_fn(int) -> int,
    pub target: Option<int>,
}

/// A value as a 16-bit word.
pub open spec fn wrap(x: int) -> int {
    x % 65536
}

/// A word read as a signed number.
pub open spec fn signed(v: int) -> int {
    if v >= 32768 { v - 65536 } else { v }
}

pub open spec fn reg_addr(r: Reg) -> int {
    match r {
        Reg::SP => 0,
        Reg::LCL => 1,
        Reg::ARG => 2,
        Reg::THIS => 3,
        Reg::THAT => 4,
        Reg::R13 => 13,
        Reg::R14 => 14,
    }
}

pub open spec fn comp_value(cp: Comp, s: State) -> int {
    let m = (s.ram)(s.a);
    match cp {
        Comp::Zero => 0,
        Comp::MinusOne => wrap(-1),
        Comp::D => s.d,
        Comp::A => s.a,
        Comp::M => m,
        Comp::NotM => wrap(-m - 1),
        Comp::NegM => wrap(-m),
        Comp::MPlusOne => wrap(m + 1),
        Comp::MMinusOne => wrap(m - 1),
        Comp::MPlusD => wrap(m + s.d),
        Comp::MMinusD => wrap(m - s.d),
        Comp::DAndM => ((s.d as u16) & (m as u16)) as int,
        Comp::DOrM => ((s.d as u16) | (m as u16)) as int,
        Comp::APlusD => wrap(s.a + s.d),
        Comp::DMinusA => wrap(s.d - s.a),
    }
}

pub open spec fn taken(j: Jump, v: int) -> bool {
    match j {
        Jump::Never => false,
        Jump::JEQ => signed(v) == 0,
        Jump::JGT => signed(v) > 0,
        Jump::JLT => signed(v) < 0,
        Jump::JNE => signed(v) != 0,
        Jump::JMP => true,
    }
}

pub open spec fn writes_m(d: Dest) -> bool {
    d == Dest::M || d == Dest::AM
}

pub open spec fn writes_a(d: Dest) -> bool {
    d == Dest::A || d == Dest::AM
}

/// One instruction; `sym` gives the address that the assembler assigns to each symbol.
pub open spec fn step(sym: spec_fn(Seq<char>) -> int, s: State, i: Ins) -> State {
    match i {
        Ins::AtNum(n) => State { a: n as int, ..s },
        Ins::AtReg(r) => State { a: reg_addr(r), ..s },
        Ins::AtSym(x) => State { a: sym(x), ..s },
        Ins::C(d, cp, j) => {
            let v = comp_value(cp, s);
            State {
                a: if writes_a(d) { v } else { s.a },
                d: if d == Dest::D { v } else { s.d },
                ram: if writes_m(d) { |x: int| if x == s.a { v } else { (s.ram)(x) } } else { s.ram },
                target: if j == Jump::Never { s.target } else if taken(j, v) { Some(s.a) } else { None },
            }
        },
        Ins::Mark(_) => s,
        Ins::Note(_) => s,
    }
}

/// Runs `code` from its first instruction to its last, one after another.
/// This is how the machine runs code in which no jump is taken before the
/// last instruction; `target` then tells where control goes next.
pub open spec fn run(sym: spec_fn(Seq<char>) -> int, s: State, code: Seq<Ins>) -> State
    decreases code.len(),
{
    if code.len() == 0 {
        s
    } else {
        run(sym, step(sym, s, code[0]), code.drop_first())
    }
}

pub proof fn lemma_run_append(sym: spec_fn(Seq<char>) -> int, s: State, p: Seq<Ins>, q: Seq<Ins>)
    ensures
        run(sym, s, p + q) == run(sym, run(sym, s, p), q),
    decreases p.len(),
{
    if p.len() > 0 {
        assert((p + q).drop_first() =~= p.drop_first() + q);
        assert((p + q)[0] == p[0]);
        lemma_run_append(sym, step(sym, s, p[0]), p.drop_first(), q);
    } else {
        assert(p + q =~= q);
    }
}

/// `r` and `s` agree on every address but those in `except`.
pub open spec fn same_ram_except(r: spec_fn(int) -> int, s: spec_fn(int) -> int, except: Set<int>) -> bool {
    forall|x: int| !except.contains(x) ==> #[trigger] r(x) == s(x)
}

/// The stack pointer of `s`.
pub open spec fn sp(s: State) -> int {
    (s.ram)(0)
}

proof fn lemma_push_d(sym: spec_fn(Seq<char>) -> int, s: State)
    requires
        0 < sp(s) < 65535,
    ensures
        ({
            let t = run(sym, s, push_d());
            &&& sp(t) == sp(s) + 1
            &&& (t.ram)(sp(s)) == s.d
            &&& same_ram_except(t.ram, s.ram, set![0, sp(s)])
            &&& t.d == s.d
            &&& t.target == s.target
        }),
{
    reveal_with_fuel(run, 6);
}

proof fn lemma_pop_d(sym: spec_fn(Seq<char>) -> int, s: State)
    requires
        1 < sp(s) < 65536,
    ensures
        ({
            let t = run(sym, s, pop_d());
            &&& sp(t) == sp(s) - 1
            &&& t.d == (s.ram)(sp(s) - 1)
            &&& same_ram_except(t.ram, s.ram, set![0])
            &&& t.target == s.target
        }),
{
    reveal_with_fuel(run, 5);
}

/// `if-goto` leaves the stack pointer (a word above zero) one lower, changes
/// no other memory, and jumps to its label exactly when the value it popped
/// is not zero: either way exactly one value leaves the stack. The popped
/// value is the one below the old stack pointer, unless that slot is the stack
/// pointer itself.
pub proof fn lemma_if_goto_pops_one(sym: spec_fn(Seq<char>) -> int, s: State, name: Seq<char>)
    requires
        0 < sp(s) < 65536,
    ensures
        ({
            let t = run(sym, s, if_goto_code(name));
            &&& sp(t) == sp(s) - 1
            &&& same_ram_except(t.ram, s.ram, set![0])
            &&& t.target == if signed(t.d) != 0 { Some(sym(name)) } else { None::<int> }
            &&& sp(s) > 1 ==> t.d == (s.ram)(sp(s) - 1)
        }),
{
    reveal_with_fuel(run, 7);
}

/// The address of entry `i` of segment `seg` (not `constant`) in state `s`.
pub open spec fn address(sym: spec_fn(Seq<char>) -> int, s: State, seg: Segment, i: nat, unit: Seq<char>) -> int {
    if is_based(seg) {
        wrap((s.ram)(reg_addr(base_reg(seg))) + i)
    } else if is_fixed(seg) {
        wrap((fixed_base(seg) + i) as int)
    } else {
        sym(static_symbol(unit, i))
    }
}

/// The value that pushing entry `i` of `seg` in state `s` puts on the stack.
pub open spec fn pushed_value(sym: spec_fn(Seq<char>) -> int, s: State, seg: Segment, i: nat, unit: Seq<char>) -> int {
    if seg == Segment::Constant { i as int } else { (s.ram)(address(sym, s, seg, i, unit)) }
}

proof fn lemma_run_note(sym: spec_fn(Seq<char>) -> int, s: State, n: Seq<char>, code: Seq<Ins>)
    ensures
        run(sym, s, seq![Ins::Note(n)] + code) == run(sym, s, code),
{
    lemma_run_append(sym, s, seq![Ins::Note(n)], code);
    reveal_with_fuel(run, 2);
}

/// Pushing entry `i` of `seg` grows the stack by one, puts the entry's value
/// on top, and changes no other memory.
pub proof fn lemma_push(sym: spec_fn(Seq<char>) -> int, s: State, seg: Segment, i: nat, unit: Seq<char>)
    requires
        15 < sp(s) < 65535,
    ensures
        ({
            let t = run(sym, s, push_code(seg, i, unit));
            &&& sp(t) == sp(s) + 1
            &&& (t.ram)(sp(s)) == pushed_value(sym, s, seg, i, unit)
            &&& same_ram_except(t.ram, s.ram, set![0, sp(s)])
        }),
{
    let body = push_body(seg, i, unit);
    lemma_run_note(sym, s, "push "@ + crate::emit::segment_name(seg) + " "@ + crate::text::decimal(i), body);
    let head = if seg == Segment::Constant {
        seq![Ins::AtNum(i), compute(Dest::D, Comp::A)]
    } else if is_based(seg) {
        seq![
            Ins::AtNum(i), compute(Dest::D, Comp::A), Ins::AtReg(base_reg(seg)),
            compute(Dest::A, Comp::MPlusD), compute(Dest::D, Comp::M),
        ]
    } else if is_fixed(seg) {
        seq![
            Ins::AtNum(i), compute(Dest::D, Comp::A), Ins::AtNum(fixed_base(seg)),
            compute(Dest::A, Comp::APlusD), compute(Dest::D, Comp::M),
        ]
    } else {
        seq![Ins::AtSym(static_symbol(unit, i)), compute(Dest::D, Comp::M)]
    };
    assert(body == head + push_d());
    lemma_run_append(sym, s, head, push_d());
    reveal_with_fuel(run, 6);
    let m = run(sym, s, head);
    assert(m.ram == s.ram);
    assert(m.d == pushed_value(sym, s, seg, i, unit));
    lemma_push_d(sym, m);
}

/// Popping into entry `i` of `seg` (not `constant`) stores the value that was
/// on top at the entry's address and, unless that address is the stack
/// pointer's own, shrinks the stack by one; besides, it changes only the
/// scratch register `R13`.
pub proof fn lemma_pop(sym: spec_fn(Seq<char>) -> int, s: State, seg: Segment, i: nat, unit: Seq<char>)
    requires
        seg != Segment::Constant,
        15 < sp(s) < 65536,
    ensures
        ({
            let t = run(sym, s, pop_code(seg, i, unit));
            let addr = address(sym, s, seg, i, unit);
            &&& addr != 0 ==> sp(t) == sp(s) - 1
            &&& (t.ram)(addr) == (s.ram)(sp(s) - 1)
            &&& same_ram_except(t.ram, s.ram, set![0, 13, addr])
        }),
{
    let body = pop_body(seg, i, unit);
    lemma_run_note(sym, s, "pop "@ + crate::emit::segment_name(seg) + " "@ + crate::text::decimal(i), body);
    let addr = address(sym, s, seg, i, unit);
    if seg == Segment::Static {
        let tail = seq![Ins::AtSym(static_symbol(unit, i)), compute(Dest::M, Comp::D)];
        assert(body == pop_d() + tail);
        lemma_run_append(sym, s, pop_d(), tail);
        lemma_pop_d(sym, s);
        reveal_with_fuel(run, 3);
    } else {
        let head = if is_based(seg) {
            seq![
                Ins::AtNum(i), compute(Dest::D, Comp::A), Ins::AtReg(base_reg(seg)),
                compute(Dest::D, Comp::MPlusD), Ins::AtReg(Reg::R13), compute(Dest::M, Comp::D),
            ]
        } else {
            seq![
                Ins::AtNum(i), compute(Dest::D, Comp::A), Ins::AtNum(fixed_base(seg)),
                compute(Dest::D, Comp::APlusD), Ins::AtReg(Reg::R13), compute(Dest::M, Comp::D),
            ]
        };
        let tail = seq![Ins::AtReg(Reg::R13), compute(Dest::A, Comp::M), compute(Dest::M, Comp::D)];
        assert(body == head + pop_d() + tail);
        lemma_run_append(sym, s, head + pop_d(), tail);
        lemma_run_append(sym, s, head, pop_d());
        reveal_with_fuel(run, 7);
        let m1 = run(sym, s, head);
        assert((m1.ram)(13) == addr);
        assert(same_ram_except(m1.ram, s.ram, set![13]));
        lemma_pop_d(sym, m1);
    }
}

/// Pushing entry `i` of a segment and popping it back into the same entry
/// leaves the stack pointer and every memory location as they were, but for
/// the scratch register `R13` and the free stack slot that the value passed
/// through; in particular the entry holds its old value. This holds where the
/// stack lies above the registers (which the code uses while it runs) and
/// the entry is not that free slot.
pub proof fn lemma_push_pop_round_trip(sym: spec_fn(Seq<char>) -> int, s: State, seg: Segment, i: nat, unit: Seq<char>)
    requires
        seg != Segment::Constant,
        15 < sp(s) < 65535,
        address(sym, s, seg, i, unit) != sp(s),
    ensures
        ({
            let t = run(sym, s, push_code(seg, i, unit) + pop_code(seg, i, unit));
            &&& sp(t) == sp(s)
            &&& (t.ram)(address(sym, s, seg, i, unit)) == (s.ram)(address(sym, s, seg, i, unit))
            &&& same_ram_except(t.ram, s.ram, set![13, sp(s)])
        }),
{
    let addr = address(sym, s, seg, i, unit);
    lemma_run_append(sym, s, push_code(seg, i, unit), pop_code(seg, i, unit));
    lemma_push(sym, s, seg, i, unit);
    let m = run(sym, s, push_code(seg, i, unit));
    assert((m.ram)(reg_addr(base_reg(seg))) == (s.ram)(reg_addr(base_reg(seg))));
    assert(address(sym, m, seg, i, unit) == addr);
    lemma_pop(sym, m, seg, i, unit);
}

proof fn lemma_save(sym: spec_fn(Seq<char>) -> int, s: State, r: Reg)
    requires
        15 < sp(s) < 65535,
    ensures
        ({
            let t = run(sym, s, save_code(r));
            &&& sp(t) == sp(s) + 1
            &&& (t.ram)(sp(s)) == (s.ram)(reg_addr(r))
            &&& same_ram_except(t.ram, s.ram, set![0, sp(s)])
            &&& t.target == s.target
        }),
{
    let head = seq![Ins::AtReg(r), compute(Dest::D, Comp::M)];
    assert(save_code(r) == head + push_d());
    lemma_run_append(sym, s, head, push_d());
    reveal_with_fuel(run, 3);
    lemma_push_d(sym, run(sym, s, head));
}

/// The state after a call's code, where the call started from stack pointer
/// `p` in state `s`: it changes the stack pointer, the local and argument
/// bases and the five words it pushes, and no other memory.
pub open spec fn call_effect(s: State, t: State, p: int, k: nat, ret: int) -> bool {
    &&& sp(t) == p + 5
    &&& (t.ram)(1) == p + 5
    &&& (t.ram)(2) == p - k
    &&& (t.ram)(p) == ret
    &&& (t.ram)(p + 1) == (s.ram)(1)
    &&& (t.ram)(p + 2) == (s.ram)(2)
    &&& (t.ram)(p + 3) == (s.ram)(3)
    &&& (t.ram)(p + 4) == (s.ram)(4)
    &&& same_ram_except(t.ram, s.ram, set![0, 1, 2, p, p + 1, p + 2, p + 3, p + 4])
}

proof fn lemma_push_address(sym: spec_fn(Seq<char>) -> int, s: State, x: Seq<char>)
    requires
        15 < sp(s) < 65535,
    ensures
        ({
            let t = run(sym, s, seq![Ins::AtSym(x), compute(Dest::D, Comp::A)] + push_d());
            &&& sp(t) == sp(s) + 1
            &&& (t.ram)(sp(s)) == sym(x)
            &&& same_ram_except(t.ram, s.ram, set![0, sp(s)])
        }),
{
    let head = seq![Ins::AtSym(x), compute(Dest::D, Comp::A)];
    lemma_run_append(sym, s, head, push_d());
    reveal_with_fuel(run, 3);
    lemma_push_d(sym, run(sym, s, head));
}

/// The end of a call's code: sets the argument base and the local base, and jumps.
pub open spec fn call_tail(f: Seq<char>, k: nat, ret: Seq<char>) -> Seq<Ins> {
    seq![
        Ins::AtReg(Reg::SP), compute(Dest::D, Comp::M), Ins::AtNum(5), compute(Dest::D, Comp::DMinusA),
        Ins::AtNum(k), compute(Dest::D, Comp::DMinusA), Ins::AtReg(Reg::ARG), compute(Dest::M, Comp::D),
        Ins::AtReg(Reg::SP), compute(Dest::D, Comp::M), Ins::AtReg(Reg::LCL), compute(Dest::M, Comp::D),
        Ins::AtSym(f), Ins::C(Dest::Nothing, Comp::Zero, Jump::JMP), Ins::Mark(ret),
    ]
}

proof fn lemma_call_tail(sym: spec_fn(Seq<char>) -> int, s: State, f: Seq<char>, k: nat, ret: Seq<char>)
    requires
        20 < sp(s) < 65536,
        k + 5 <= sp(s),
    ensures
        ({
            let t = run(sym, s, call_tail(f, k, ret));
            &&& (t.ram)(2) == sp(s) - 5 - k
            &&& (t.ram)(1) == sp(s)
            &&& same_ram_except(t.ram, s.ram, set![1, 2])
            &&& t.target == Some(sym(f))
        }),
{
    reveal_with_fuel(run, 16);
}

/// A call of `f` with `k` arguments saves the return address and the caller's
/// four base registers above the arguments, points the callee's argument base
/// at the first argument and its local base just above the saved registers,
/// and jumps to `f`.
pub proof fn lemma_call(sym: spec_fn(Seq<char>) -> int, s: State, f: Seq<char>, k: nat, ret: Seq<char>)
    requires
        15 < sp(s),
        sp(s) + 5 < 65535,
        k <= sp(s),
    ensures
        ({
            let t = run(sym, s, call_code(f, k, ret));
            &&& call_effect(s, t, sp(s), k, sym(ret))
            &&& t.target == Some(sym(f))
        }),
{
    let p = sp(s);
    let n = "call "@ + f + " "@ + crate::text::decimal(k);
    let pl = seq![Ins::AtSym(ret), compute(Dest::D, Comp::A)] + push_d();
    let x1 = pl;
    let x2 = x1 + save_code(Reg::LCL);
    let x3 = x2 + save_code(Reg::ARG);
    let x4 = x3 + save_code(Reg::THIS);
    let x5 = x4 + save_code(Reg::THAT);
    assert(call_code(f, k, ret) =~= seq![Ins::Note(n)] + (x5 + call_tail(f, k, ret)));
    lemma_run_note(sym, s, n, x5 + call_tail(f, k, ret));
    lemma_run_append(sym, s, x5, call_tail(f, k, ret));
    lemma_run_append(sym, s, x4, save_code(Reg::THAT));
    lemma_run_append(sym, s, x3, save_code(Reg::THIS));
    lemma_run_append(sym, s, x2, save_code(Reg::ARG));
    lemma_run_append(sym, s, x1, save_code(Reg::LCL));
    lemma_push_address(sym, s, ret);
    let s1 = run(sym, s, x1);
    lemma_save(sym, s1, Reg::LCL);
    let s2 = run(sym, s, x2);
    lemma_save(sym, s2, Reg::ARG);
    let s3 = run(sym, s, x3);
    lemma_save(sym, s3, Reg::THIS);
    let s4 = run(sym, s, x4);
    lemma_save(sym, s4, Reg::THAT);
    let s5 = run(sym, s, x5);
    lemma_call_tail(sym, s5, f, k, ret);
}

proof fn lemma_restore(sym: spec_fn(Seq<char>) -> int, s: State, r: Reg)
    requires
        15 < (s.ram)(13) < 65536,
        reg_addr(r) != 13,
    ensures
        ({
            let t = run(sym, s, restore_code(r));
            let fp = (s.ram)(13) - 1;
            &&& (t.ram)(13) == fp
            &&& (t.ram)(reg_addr(r)) == (s.ram)(fp)
            &&& same_ram_except(t.ram, s.ram, set![13, reg_addr(r)])
            &&& t.target == s.target
        }),
{
    reveal_with_fuel(run, 6);
}

/// The start of a return's code: keeps the frame base in `R13` and the
/// return address in `R14`.
pub open spec fn return_head() -> Seq<Ins> {
    seq![
        Ins::AtReg(Reg::LCL), compute(Dest::D, Comp::M), Ins::AtReg(Reg::R13), compute(Dest::M, Comp::D),
        Ins::AtNum(5), compute(Dest::A, Comp::DMinusA), compute(Dest::D, Comp::M), Ins::AtReg(Reg::R14),
        compute(Dest::M, Comp::D),
    ]
}

/// Stores `D` at the argument base and sets the stack pointer just above it.
pub open spec fn return_mid() -> Seq<Ins> {
    seq![
        Ins::AtReg(Reg::ARG), compute(Dest::A, Comp::M), compute(Dest::M, Comp::D),
        Ins::AtReg(Reg::ARG), compute(Dest::D, Comp::MPlusOne), Ins::AtReg(Reg::SP), compute(Dest::M, Comp::D),
    ]
}

pub open spec fn return_jump() -> Seq<Ins> {
    seq![Ins::AtReg(Reg::R14), compute(Dest::A, Comp::M), Ins::C(Dest::Nothing, Comp::Zero, Jump::JMP)]
}

proof fn lemma_return_head(sym: spec_fn(Seq<char>) -> int, s: State)
    requires
        20 < (s.ram)(1) < 65536,
    ensures
        ({
            let t = run(sym, s, return_head());
            &&& (t.ram)(13) == (s.ram)(1)
            &&& (t.ram)(14) == (s.ram)((s.ram)(1) - 5)
            &&& same_ram_except(t.ram, s.ram, set![13, 14])
        }),
{
    reveal_with_fuel(run, 10);
}

proof fn lemma_return_mid(sym: spec_fn(Seq<char>) -> int, s: State)
    requires
        15 < (s.ram)(2),
        (s.ram)(2) + 1 < 65536,
    ensures
        ({
            let t = run(sym, s, return_mid());
            &&& sp(t) == (s.ram)(2) + 1
            &&& (t.ram)((s.ram)(2)) == s.d
            &&& same_ram_except(t.ram, s.ram, set![0, (s.ram)(2)])
            &&& t.target == s.target
        }),
{
    reveal_with_fuel(run, 8);
}

proof fn lemma_return_jump(sym: spec_fn(Seq<char>) -> int, s: State)
    ensures
        run(sym, s, return_jump()).target == Some((s.ram)(14)),
        run(sym, s, return_jump()).ram == s.ram,
{
    reveal_with_fuel(run, 4);
}

/// A return whose frame is intact: the local base `l` (above the registers)
/// sits just above the five saved words, the argument base lies at or below
/// those words, and the stack holds at least the result above `l`. Then the result lands at the caller's argument base, the
/// stack ends just above it, the four base registers get their saved values
/// back, and control jumps to the saved return address.
pub proof fn lemma_return(sym: spec_fn(Seq<char>) -> int, b: State)
    requires
        20 < (b.ram)(1),
        (b.ram)(1) < sp(b) < 65536,
        15 < (b.ram)(2),
        (b.ram)(2) + 5 <= (b.ram)(1),
    ensures
        ({
            let t = run(sym, b, return_code());
            let l = (b.ram)(1);
            &&& sp(t) == (b.ram)(2) + 1
            &&& (t.ram)((b.ram)(2)) == (b.ram)(sp(b) - 1)
            &&& (t.ram)(1) == (b.ram)(l - 4)
            &&& (t.ram)(2) == (b.ram)(l - 3)
            &&& (t.ram)(3) == (b.ram)(l - 2)
            &&& (t.ram)(4) == (b.ram)(l - 1)
            &&& t.target == Some((b.ram)(l - 5))
        }),
{
    let l = (b.ram)(1);
    let arg = (b.ram)(2);
    let y1 = return_head() + pop_d();
    let y2 = y1 + return_mid();
    let y3 = y2 + restore_code(Reg::THAT);
    let y4 = y3 + restore_code(Reg::THIS);
    let y5 = y4 + restore_code(Reg::ARG);
    let y6 = y5 + restore_code(Reg::LCL);
    assert(return_code() =~= seq![Ins::Note("return"@)] + (y6 + return_jump()));
    lemma_run_note(sym, b, "return"@, y6 + return_jump());
    lemma_run_append(sym, b, y6, return_jump());
    lemma_run_append(sym, b, y5, restore_code(Reg::LCL));
    lemma_run_append(sym, b, y4, restore_code(Reg::ARG));
    lemma_run_append(sym, b, y3, restore_code(Reg::THIS));
    lemma_run_append(sym, b, y2, restore_code(Reg::THAT));
    lemma_run_append(sym, b, y1, return_mid());
    lemma_run_append(sym, b, return_head(), pop_d());
    lemma_return_head(sym, b);
    let s1 = run(sym, b, return_head());
    lemma_pop_d(sym, s1);
    let s2 = run(sym, b, y1);
    lemma_return_mid(sym, s2);
    let s3 = run(sym, b, y2);
    assert((s3.ram)(13) == l);
    lemma_restore(sym, s3, Reg::THAT);
    let s4 = run(sym, b, y3);
    lemma_restore(sym, s4, Reg::THIS);
    let s5 = run(sym, b, y4);
    lemma_restore(sym, s5, Reg::ARG);
    let s6 = run(sym, b, y5);
    lemma_restore(sym, s6, Reg::LCL);
    let s7 = run(sym, b, y6);
    lemma_return_jump(sym, s7);
}

/// A call of `f` with `k` arguments, from a stack that lies above the
/// registers, whose callee (started in state `c`, just after the call's code)
/// keeps its frame and reaches `return` in state `b`: its local and argument
/// bases as the call set them, the five words the call saved untouched, and
/// at least its result above its local base. After the return, the stack
/// pointer is the one from before the call less `k`, plus one; the result
/// stands where the first argument was; the caller's four base registers hold
/// their values from before the call; and control goes to the call's return
/// label.
pub proof fn lemma_call_return(
    sym: spec_fn(Seq<char>) -> int,
    s: State,
    f: Seq<char>,
    k: nat,
    ret: Seq<char>,
    c: State,
    b: State,
)
    requires
        15 < sp(s) - k,
        sp(s) + 5 < 65535,
        c == run(sym, s, call_code(f, k, ret)),
        (b.ram)(1) == (c.ram)(1),
        (b.ram)(2) == (c.ram)(2),
        forall|x: int| sp(s) <= x < sp(s) + 5 ==> (b.ram)(x) == #[trigger] (c.ram)(x),
        (b.ram)(1) < sp(b) < 65536,
    ensures
        ({
            let t = run(sym, b, return_code());
            &&& sp(t) == sp(s) - k + 1
            &&& (t.ram)(sp(s) - k) == (b.ram)(sp(b) - 1)
            &&& (t.ram)(1) == (s.ram)(1)
            &&& (t.ram)(2) == (s.ram)(2)
            &&& (t.ram)(3) == (s.ram)(3)
            &&& (t.ram)(4) == (s.ram)(4)
            &&& t.target == Some(sym(ret))
        }),
{
    let p = sp(s);
    lemma_call(sym, s, f, k, ret);
    assert((b.ram)(p + 5 - 5) == (c.ram)(p));
    assert((b.ram)(p + 5 - 4) == (c.ram)(p + 1));
    assert((b.ram)(p + 5 - 3) == (c.ram)(p + 2));
    assert((b.ram)(p + 5 - 2) == (c.ram)(p + 3));
    assert((b.ram)(p + 5 - 1) == (c.ram)(p + 4));
    lemma_return(sym, b);
}

/// A two-operand command pops the upper value `y` and replaces the lower one
/// `x` by what `op` computes from `x` (as `M`) and `y` (as `D`): the stack
/// pointer ends one lower and no other memory changes.
pub proof fn lemma_binary(sym: spec_fn(Seq<char>) -> int, s: State, name: Seq<char>, op: Comp)
    requires
        15 < sp(s) < 65536,
    ensures
        ({
            let t = run(sym, s, binary_code(name, op));
            let p = sp(s);
            &&& sp(t) == p - 1
            &&& (t.ram)(p - 2) == comp_value(op, State { a: p - 2, d: (s.ram)(p - 1), ..s })
            &&& same_ram_except(t.ram, s.ram, set![0, p - 2])
        }),
{
    let rest = seq![
        Ins::AtReg(Reg::SP), compute(Dest::M, Comp::MMinusOne), compute(Dest::A, Comp::M),
        compute(Dest::M, op), Ins::AtReg(Reg::SP), compute(Dest::M, Comp::MPlusOne),
    ];
    assert(binary_code(name, op) =~= seq![Ins::Note(name)] + (pop_d() + rest));
    lemma_run_note(sym, s, name, pop_d() + rest);
    lemma_run_append(sym, s, pop_d(), rest);
    lemma_pop_d(sym, s);
    reveal_with_fuel(run, 7);
}

/// A one-operand command replaces the top of the stack `x` by what `op`
/// computes from it (as `M`); the stack pointer and all other memory stay.
pub proof fn lemma_unary(sym: spec_fn(Seq<char>) -> int, s: State, name: Seq<char>, op: Comp)
    requires
        15 < sp(s) < 65535,
    ensures
        ({
            let t = run(sym, s, unary_code(name, op));
            let p = sp(s);
            &&& sp(t) == p
            &&& (t.ram)(p - 1) == comp_value(op, State { a: p - 1, ..s })
            &&& same_ram_except(t.ram, s.ram, set![p - 1])
        }),
{
    reveal_with_fuel(run, 8);
}

/// The part of a comparison up to its conditional jump to the true label.
pub open spec fn compare_test(k: Cmp, t: Seq<char>) -> Seq<Ins> {
    seq![Ins::Note(crate::emit::cmp_name(k))] + pop_d() + seq![
        Ins::AtReg(Reg::SP), compute(Dest::M, Comp::MMinusOne), compute(Dest::A, Comp::M),
        compute(Dest::D, Comp::MMinusD), Ins::AtSym(t), Ins::C(Dest::Nothing, Comp::D, cmp_jump(k)),
    ]
}

/// Stores false and jumps to the end label.
pub open spec fn compare_false(e: Seq<char>) -> Seq<Ins> {
    seq![
        Ins::AtReg(Reg::SP), compute(Dest::A, Comp::M), compute(Dest::M, Comp::Zero),
        Ins::AtSym(e), Ins::C(Dest::Nothing, Comp::Zero, Jump::JMP),
    ]
}

/// The true label, where true is stored.
pub open spec fn compare_true(t: Seq<char>) -> Seq<Ins> {
    seq![Ins::Mark(t), Ins::AtReg(Reg::SP), compute(Dest::A, Comp::M), compute(Dest::M, Comp::MinusOne)]
}

/// The end label, where the stack grows back over the stored result.
pub open spec fn compare_end(e: Seq<char>) -> Seq<Ins> {
    seq![Ins::Mark(e), Ins::AtReg(Reg::SP), compute(Dest::M, Comp::MPlusOne)]
}

/// A comparison's code is its test, its false branch, its true branch and its end, in that order.
pub proof fn lemma_compare_parts(k: Cmp, n: nat)
    ensures
        compare_code(k, n) == compare_test(k, label_text(true_prefix(k), n))
            + compare_false(label_text(end_prefix(k), n + 1))
            + compare_true(label_text(true_prefix(k), n))
            + compare_end(label_text(end_prefix(k), n + 1)),
{
    assert(compare_code(k, n) =~= compare_test(k, label_text(true_prefix(k), n))
        + compare_false(label_text(end_prefix(k), n + 1))
        + compare_true(label_text(true_prefix(k), n))
        + compare_end(label_text(end_prefix(k), n + 1)));
}

/// A comparison of the lower value `x` with the upper value `y` (both words)
/// pops both and pushes one result. Its test jumps to the true label exactly
/// when the predicate holds of `x - y`; the path taken then stores true (all
/// bits set), the other path stores false (zero) and jumps to the end label;
/// either way the stack pointer ends one lower and only the result's slot and
/// the stack pointer change. For `eq` the predicate holds exactly when `x == y`.
pub proof fn lemma_compare(sym: spec_fn(Seq<char>) -> int, s: State, k: Cmp, t: Seq<char>, e: Seq<char>)
    requires
        15 < sp(s) < 65536,
        0 <= (s.ram)(sp(s) - 2) < 65536,
        0 <= (s.ram)(sp(s) - 1) < 65536,
    ensures
        ({
            let p = sp(s);
            let x = (s.ram)(p - 2);
            let y = (s.ram)(p - 1);
            let holds = taken(cmp_jump(k), wrap(x - y));
            let m = run(sym, s, compare_test(k, t));
            let f = run(sym, m, compare_false(e));
            let on_true = run(sym, m, compare_true(t) + compare_end(e));
            let on_false = run(sym, f, compare_end(e));
            &&& (k == Cmp::Eq ==> (holds <==> x == y))
            &&& m.target == if holds { Some(sym(t)) } else { None::<int> }
            &&& f.target == Some(sym(e))
            &&& holds ==> sp(on_true) == p - 1 && (on_true.ram)(p - 2) == 65535
                && same_ram_except(on_true.ram, s.ram, set![0, p - 2])
            &&& !holds ==> sp(on_false) == p - 1 && (on_false.ram)(p - 2) == 0
                && same_ram_except(on_false.ram, s.ram, set![0, p - 2])
        }),
{
    let p = sp(s);
    let rest = seq![
        Ins::AtReg(Reg::SP), compute(Dest::M, Comp::MMinusOne), compute(Dest::A, Comp::M),
        compute(Dest::D, Comp::MMinusD), Ins::AtSym(t), Ins::C(Dest::Nothing, Comp::D, cmp_jump(k)),
    ];
    let n = crate::emit::cmp_name(k);
    assert(compare_test(k, t) =~= seq![Ins::Note(n)] + (pop_d() + rest));
    lemma_run_note(sym, s, n, pop_d() + rest);
    lemma_run_append(sym, s, pop_d(), rest);
    lemma_pop_d(sym, s);
    lemma_run_append(sym, run(sym, s, compare_test(k, t)), compare_true(t), compare_end(e));
    reveal_with_fuel(run, 7);
}
} // verus!
