//! The code emitted for each command of the virtual machine.
use vstd::prelude::*;
use crate::code::{text, Comp, Dest, Emitter, Ins, Jump, Reg};
use crate::labels::{label_text, LabelAllocator};
use crate::text::{decimal, write_decimal, write_str};

verus! {

/// A memory segment of the virtual machine.
#[derive(Clone, Copy, PartialEq, Eq, Structural, Debug)]
pub enum Segment {
    Constant,
    Local,
    Argument,
    This,
    That,
    Temp,
    Pointer,
    Static,
}

/// A comparison command.
#[derive(Clone, Copy, PartialEq, Eq, Structural, Debug)]
pub enum Cmp {
    Eq,
    Gt,
    Lt,
}

pub open spec fn segment_name(s: Segment) -> Seq<char> {
    match s {
        Segment::Constant => "constant"@,
        Segment::Local => "local"@,
        Segment::Argument => "argument"@,
        Segment::This => "this"@,
        Segment::That => "that"@,
        Segment::Temp => "temp"@,
        Segment::Pointer => "pointer"@,
        Segment::Static => "static"@,
    }
}

/// The base register of a segment addressed through one.
pub open spec fn base_reg(s: Segment) -> Reg {
    match s {
        Segment::Argument => Reg::ARG,
        Segment::This => Reg::THIS,
        Segment::That => Reg::THAT,
        _ => Reg::LCL,
    }
}

/// The fixed base address of `temp` and `pointer`.
pub open spec fn fixed_base(s: Segment) -> nat {
    if s == Segment::Temp { 5 } else { 3 }
}

pub open spec fn is_based(s: Segment) -> bool {
    s == Segment::Local || s == Segment::Argument || s == Segment::This || s == Segment::That
}

pub open spec fn is_fixed(s: Segment) -> bool {
    s == Segment::Temp || s == Segment::Pointer
}

/// The symbol of entry `i` of the static segment of translation unit `unit`.
pub open spec fn static_symbol(unit: Seq<char>, i: nat) -> Seq<char> {
    unit + "."@ + decimal(i)
}

/// A computing instruction that does not jump.
pub open spec fn compute(d: Dest, cp: Comp) -> Ins {
    Ins::C(d, cp, Jump::Never)
}

/// Stores `D` on top of the stack and grows the stack by one.
pub open spec fn push_d() -> Seq<Ins> {
    seq![
        Ins::AtReg(Reg::SP), compute(Dest::A, Comp::M), compute(Dest::M, Comp::D),
        Ins::AtReg(Reg::SP), compute(Dest::M, Comp::MPlusOne),
    ]
}

/// Pushes a segment's entry, without the comment line.
pub open spec fn push_body(s: Segment, i: nat, unit: Seq<char>) -> Seq<Ins> {
    if s == Segment::Constant {
        seq![Ins::AtNum(i), compute(Dest::D, Comp::A)] + push_d()
    } else if is_based(s) {
        seq![
            Ins::AtNum(i), compute(Dest::D, Comp::A), Ins::AtReg(base_reg(s)),
            compute(Dest::A, Comp::MPlusD), compute(Dest::D, Comp::M),
        ] + push_d()
    } else if is_fixed(s) {
        seq![
            Ins::AtNum(i), compute(Dest::D, Comp::A), Ins::AtNum(fixed_base(s)),
            compute(Dest::A, Comp::APlusD), compute(Dest::D, Comp::M),
        ] + push_d()
    } else {
        seq![Ins::AtSym(static_symbol(unit, i)), compute(Dest::D, Comp::M)] + push_d()
    }
}

/// Removes the top of the stack into `D`.
pub open spec fn pop_d() -> Seq<Ins> {
    seq![
        Ins::AtReg(Reg::SP), compute(Dest::M, Comp::MMinusOne), compute(Dest::A, Comp::M),
        compute(Dest::D, Comp::M),
    ]
}

/// Pops into a segment's entry, without the comment line.
pub open spec fn pop_body(s: Segment, i: nat, unit: Seq<char>) -> Seq<Ins> {
    if is_based(s) {
        seq![
            Ins::AtNum(i), compute(Dest::D, Comp::A), Ins::AtReg(base_reg(s)),
            compute(Dest::D, Comp::MPlusD), Ins::AtReg(Reg::R13), compute(Dest::M, Comp::D),
        ] + pop_d() + seq![Ins::AtReg(Reg::R13), compute(Dest::A, Comp::M), compute(Dest::M, Comp::D)]
    } else if is_fixed(s) {
        seq![
            Ins::AtNum(i), compute(Dest::D, Comp::A), Ins::AtNum(fixed_base(s)),
            compute(Dest::D, Comp::APlusD), Ins::AtReg(Reg::R13), compute(Dest::M, Comp::D),
        ] + pop_d() + seq![Ins::AtReg(Reg::R13), compute(Dest::A, Comp::M), compute(Dest::M, Comp::D)]
    } else {
        pop_d() + seq![Ins::AtSym(static_symbol(unit, i)), compute(Dest::M, Comp::D)]
    }
}

pub open spec fn push_code(s: Segment, i: nat, unit: Seq<char>) -> Seq<Ins> {
    seq![Ins::Note("push "@ + segment_name(s) + " "@ + decimal(i))] + push_body(s, i, unit)
}

pub open spec fn pop_code(s: Segment, i: nat, unit: Seq<char>) -> Seq<Ins> {
    seq![Ins::Note("pop "@ + segment_name(s) + " "@ + decimal(i))] + pop_body(s, i, unit)
}

/// Pops two values and pushes what `op` makes of them (`D` holds the upper one).
pub open spec fn binary_code(name: Seq<char>, op: Comp) -> Seq<Ins> {
    seq![Ins::Note(name)] + pop_d() + seq![
        Ins::AtReg(Reg::SP), compute(Dest::M, Comp::MMinusOne), compute(Dest::A, Comp::M),
        compute(Dest::M, op), Ins::AtReg(Reg::SP), compute(Dest::M, Comp::MPlusOne),
    ]
}

/// Replaces the top of the stack by what `op` makes of it.
pub open spec fn unary_code(name: Seq<char>, op: Comp) -> Seq<Ins> {
    seq![
        Ins::Note(name), Ins::AtReg(Reg::SP), compute(Dest::M, Comp::MMinusOne),
        compute(Dest::A, Comp::M), compute(Dest::M, op), Ins::AtReg(Reg::SP), compute(Dest::M, Comp::MPlusOne),
    ]
}

pub open spec fn add_code() -> Seq<Ins> {
    binary_code("add"@, Comp::MPlusD)
}

pub open spec fn sub_code() -> Seq<Ins> {
    binary_code("sub"@, Comp::MMinusD)
}

pub open spec fn and_code() -> Seq<Ins> {
    binary_code("and"@, Comp::DAndM)
}

pub open spec fn or_code() -> Seq<Ins> {
    binary_code("or"@, Comp::DOrM)
}

pub open spec fn neg_code() -> Seq<Ins> {
    unary_code("neg"@, Comp::NegM)
}

pub open spec fn not_code() -> Seq<Ins> {
    unary_code("not"@, Comp::NotM)
}

pub open spec fn cmp_name(k: Cmp) -> Seq<char> {
    match k {
        Cmp::Eq => "eq"@,
        Cmp::Gt => "gt"@,
        Cmp::Lt => "lt"@,
    }
}

pub open spec fn cmp_jump(k: Cmp) -> Jump {
    match k {
        Cmp::Eq => Jump::JEQ,
        Cmp::Gt => Jump::JGT,
        Cmp::Lt => Jump::JLT,
    }
}

/// The prefix of the label where a comparison found its predicate true.
pub open spec fn true_prefix(k: Cmp) -> Seq<char> {
    match k {
        Cmp::Eq => "EQ_TRUE"@,
        Cmp::Gt => "GT_TRUE"@,
        Cmp::Lt => "LT_TRUE"@,
    }
}

/// The prefix of the label where both branches of a comparison meet.
pub open spec fn end_prefix(k: Cmp) -> Seq<char> {
    match k {
        Cmp::Eq => "EQ_END"@,
        Cmp::Gt => "GT_END"@,
        Cmp::Lt => "LT_END"@,
    }
}

/// A comparison whose two labels carry the numbers `n` and `n + 1`.
pub open spec fn compare_code(k: Cmp, n: nat) -> Seq<Ins> {
    let t = label_text(true_prefix(k), n);
    let e = label_text(end_prefix(k), n + 1);
    seq![Ins::Note(cmp_name(k))] + pop_d() + seq![
        Ins::AtReg(Reg::SP), compute(Dest::M, Comp::MMinusOne), compute(Dest::A, Comp::M),
        compute(Dest::D, Comp::MMinusD), Ins::AtSym(t), Ins::C(Dest::Nothing, Comp::D, cmp_jump(k)),
        Ins::AtReg(Reg::SP), compute(Dest::A, Comp::M), compute(Dest::M, Comp::Zero),
        Ins::AtSym(e), Ins::C(Dest::Nothing, Comp::Zero, Jump::JMP),
        Ins::Mark(t), Ins::AtReg(Reg::SP), compute(Dest::A, Comp::M), compute(Dest::M, Comp::MinusOne),
        Ins::Mark(e), Ins::AtReg(Reg::SP), compute(Dest::M, Comp::MPlusOne),
    ]
}

pub open spec fn label_code(name: Seq<char>) -> Seq<Ins> {
    seq![Ins::Note("label "@ + name), Ins::Mark(name)]
}

pub open spec fn goto_code(name: Seq<char>) -> Seq<Ins> {
    seq![Ins::Note("goto "@ + name), Ins::AtSym(name), Ins::C(Dest::Nothing, Comp::Zero, Jump::JMP)]
}

pub open spec fn if_goto_code(name: Seq<char>) -> Seq<Ins> {
    seq![
        Ins::Note("if-goto "@ + name), Ins::AtReg(Reg::SP), compute(Dest::AM, Comp::MMinusOne),
        compute(Dest::D, Comp::M), Ins::AtSym(name), Ins::C(Dest::Nothing, Comp::D, Jump::JNE),
    ]
}

/// Pushes the value of a register.
pub open spec fn save_code(r: Reg) -> Seq<Ins> {
    seq![Ins::AtReg(r), compute(Dest::D, Comp::M)] + push_d()
}

/// The prefix of the return labels of calls made inside function `scope`.
pub open spec fn return_prefix(scope: Seq<char>) -> Seq<char> {
    scope + "$retAddr"@
}

/// A call of `f` with `k` arguments, returning to label `ret`.
pub open spec fn call_code(f: Seq<char>, k: nat, ret: Seq<char>) -> Seq<Ins> {
    seq![Ins::Note("call "@ + f + " "@ + decimal(k))]
        + (seq![Ins::AtSym(ret), compute(Dest::D, Comp::A)] + push_d())
        + save_code(Reg::LCL) + save_code(Reg::ARG) + save_code(Reg::THIS) + save_code(Reg::THAT)
        + seq![
            Ins::AtReg(Reg::SP), compute(Dest::D, Comp::M), Ins::AtNum(5), compute(Dest::D, Comp::DMinusA),
            Ins::AtNum(k), compute(Dest::D, Comp::DMinusA), Ins::AtReg(Reg::ARG), compute(Dest::M, Comp::D),
            Ins::AtReg(Reg::SP), compute(Dest::D, Comp::M), Ins::AtReg(Reg::LCL), compute(Dest::M, Comp::D),
            Ins::AtSym(f), Ins::C(Dest::Nothing, Comp::Zero, Jump::JMP), Ins::Mark(ret),
        ]
}

/// `k` pushes of the constant zero.
pub open spec fn zeros(k: nat) -> Seq<Ins>
    decreases k,
{
    if k == 0 {
        Seq::empty()
    } else {
        zeros((k - 1) as nat) + push_body(Segment::Constant, 0, Seq::empty())
    }
}

pub open spec fn function_code(f: Seq<char>, k: nat) -> Seq<Ins> {
    seq![Ins::Note("function "@ + f + " "@ + decimal(k)), Ins::Mark(f)] + zeros(k)
}

/// Reads the saved register at the frame pointer (in `R13`) less one, and
/// moves the frame pointer down by one.
pub open spec fn restore_code(r: Reg) -> Seq<Ins> {
    seq![
        Ins::AtReg(Reg::R13), compute(Dest::AM, Comp::MMinusOne), compute(Dest::D, Comp::M),
        Ins::AtReg(r), compute(Dest::M, Comp::D),
    ]
}

pub open spec fn return_code() -> Seq<Ins> {
    seq![
        Ins::Note("return"@),
        Ins::AtReg(Reg::LCL), compute(Dest::D, Comp::M), Ins::AtReg(Reg::R13), compute(Dest::M, Comp::D),
        Ins::AtNum(5), compute(Dest::A, Comp::DMinusA), compute(Dest::D, Comp::M), Ins::AtReg(Reg::R14),
        compute(Dest::M, Comp::D),
    ] + pop_d() + seq![
        Ins::AtReg(Reg::ARG), compute(Dest::A, Comp::M), compute(Dest::M, Comp::D),
        Ins::AtReg(Reg::ARG), compute(Dest::D, Comp::MPlusOne), Ins::AtReg(Reg::SP), compute(Dest::M, Comp::D),
    ] + restore_code(Reg::THAT) + restore_code(Reg::THIS) + restore_code(Reg::ARG)
        + restore_code(Reg::LCL) + seq![
        Ins::AtReg(Reg::R14), compute(Dest::A, Comp::M), Ins::C(Dest::Nothing, Comp::Zero, Jump::JMP),
    ]
}


fn emit_push_d(e: &mut Emitter)
    requires
        old(e).wf(),
    ensures
        final(e).wf(),
        final(e).code@ == old(e).code@ + push_d(),
{
    e.at_reg(Reg::SP);
    e.compute(Dest::A, Comp::M, Jump::Never);
    e.compute(Dest::M, Comp::D, Jump::Never);
    e.at_reg(Reg::SP);
    e.compute(Dest::M, Comp::MPlusOne, Jump::Never);
    assert(e.code@ =~= old(e).code@ + push_d());
}

fn emit_pop_d(e: &mut Emitter)
    requires
        old(e).wf(),
    ensures
        final(e).wf(),
        final(e).code@ == old(e).code@ + pop_d(),
{
    e.at_reg(Reg::SP);
    e.compute(Dest::M, Comp::MMinusOne, Jump::Never);
    e.compute(Dest::A, Comp::M, Jump::Never);
    e.compute(Dest::D, Comp::M, Jump::Never);
    assert(e.code@ =~= old(e).code@ + pop_d());
}

fn segment_str(s: Segment) -> (r: &'static str)
    ensures
        r@ == segment_name(s),
{
    match s {
        Segment::Constant => "constant",
        Segment::Local => "local",
        Segment::Argument => "argument",
        Segment::This => "this",
        Segment::That => "that",
        Segment::Temp => "temp",
        Segment::Pointer => "pointer",
        Segment::Static => "static",
    }
}

fn base_reg_exec(s: Segment) -> (r: Reg)
    ensures
        r == base_reg(s),
{
    match s {
        Segment::Argument => Reg::ARG,
        Segment::This => Reg::THIS,
        Segment::That => Reg::THAT,
        _ => Reg::LCL,
    }
}

fn fixed_base_exec(s: Segment) -> (r: u64)
    ensures
        r as nat == fixed_base(s),
{
    if s == Segment::Temp { 5 } else { 3 }
}

/// The symbol of entry `i` of the static segment of `unit`.
pub fn static_name(unit: &str, i: u16) -> (r: String)
    ensures
        r@ == static_symbol(unit@, i as nat),
{
    let mut r = String::new();
    write_str(&mut r, unit);
    write_str(&mut r, ".");
    write_decimal(&mut r, i as u64);
    r
}

fn emit_push_body(e: &mut Emitter, s: Segment, i: u16, unit: &str)
    requires
        old(e).wf(),
    ensures
        final(e).wf(),
        final(e).code@ == old(e).code@ + push_body(s, i as nat, unit@),
{
    match s {
        Segment::Constant => {
            e.at_num(i as u64);
            e.compute(Dest::D, Comp::A, Jump::Never);
        },
        Segment::Local | Segment::Argument | Segment::This | Segment::That => {
            e.at_num(i as u64);
            e.compute(Dest::D, Comp::A, Jump::Never);
            e.at_reg(base_reg_exec(s));
            e.compute(Dest::A, Comp::MPlusD, Jump::Never);
            e.compute(Dest::D, Comp::M, Jump::Never);
        },
        Segment::Temp | Segment::Pointer => {
            e.at_num(i as u64);
            e.compute(Dest::D, Comp::A, Jump::Never);
            e.at_num(fixed_base_exec(s));
            e.compute(Dest::A, Comp::APlusD, Jump::Never);
            e.compute(Dest::D, Comp::M, Jump::Never);
        },
        Segment::Static => {
            let name = static_name(unit, i);
            e.at_sym(name.as_str());
            e.compute(Dest::D, Comp::M, Jump::Never);
        },
    }
    emit_push_d(e);
    assert(e.code@ =~= old(e).code@ + push_body(s, i as nat, unit@));
}

fn emit_note_op(e: &mut Emitter, op: &str, s: Segment, i: u16)
    requires
        old(e).wf(),
    ensures
        final(e).wf(),
        final(e).code@ == old(e).code@.push(
            Ins::Note(op@ + segment_name(s) + " "@ + decimal(i as nat)),
        ),
{
    let mut n = String::new();
    write_str(&mut n, op);
    write_str(&mut n, segment_str(s));
    write_str(&mut n, " ");
    write_decimal(&mut n, i as u64);
    assert(n@ =~= op@ + segment_name(s) + " "@ + decimal(i as nat));
    e.note(n.as_str());
}

/// The code that pushes entry `index` of `segment` (for `static`, that of
/// translation unit `unit`).
pub fn push(segment: Segment, index: u16, unit: &str) -> (r: String)
    ensures
        r@ == text(push_code(segment, index as nat, unit@)),
{
    let mut e = Emitter::new();
    emit_note_op(&mut e, "push ", segment, index);
    emit_push_body(&mut e, segment, index, unit);
    assert(e.code@ =~= push_code(segment, index as nat, unit@));
    e.out
}

/// An error in one command line.
#[derive(Clone, Copy, PartialEq, Eq, Structural, Debug)]
pub enum ParseError {
    /// The line holds no command.
    Empty,
    /// The first word names no command.
    UnknownCommand,
    /// An operand that the command needs is missing.
    MissingOperand,
    /// A number operand is not a non-negative integer up to 32767.
    BadNumber,
    /// The segment is unknown, or cannot be popped into.
    BadSegment,
}

/// The code that pops into entry `index` of `segment`; `constant` cannot be
/// popped into.
pub fn pop(segment: Segment, index: u16, unit: &str) -> (r: Result<String, ParseError>)
    ensures
        segment == Segment::Constant ==> r == Err::<String, ParseError>(ParseError::BadSegment),
        segment != Segment::Constant ==> (r matches Ok(t) && t@ == text(
            pop_code(segment, index as nat, unit@),
        )),
{
    if segment == Segment::Constant {
        return Err(ParseError::BadSegment);
    }
    let mut e = Emitter::new();
    emit_note_op(&mut e, "pop ", segment, index);
    match segment {
        Segment::Static => {
            emit_pop_d(&mut e);
            let name = static_name(unit, index);
            e.at_sym(name.as_str());
            e.compute(Dest::M, Comp::D, Jump::Never);
        },
        _ => {
            e.at_num(index as u64);
            e.compute(Dest::D, Comp::A, Jump::Never);
            if segment == Segment::Temp || segment == Segment::Pointer {
                e.at_num(fixed_base_exec(segment));
                e.compute(Dest::D, Comp::APlusD, Jump::Never);
            } else {
                e.at_reg(base_reg_exec(segment));
                e.compute(Dest::D, Comp::MPlusD, Jump::Never);
            }
            e.at_reg(Reg::R13);
            e.compute(Dest::M, Comp::D, Jump::Never);
            emit_pop_d(&mut e);
            e.at_reg(Reg::R13);
            e.compute(Dest::A, Comp::M, Jump::Never);
            e.compute(Dest::M, Comp::D, Jump::Never);
        },
    }
    assert(e.code@ =~= pop_code(segment, index as nat, unit@));
    Ok(e.out)
}

fn binary(name: &str, op: Comp) -> (r: String)
    ensures
        r@ == text(binary_code(name@, op)),
{
    let mut e = Emitter::new();
    e.note(name);
    emit_pop_d(&mut e);
    e.at_reg(Reg::SP);
    e.compute(Dest::M, Comp::MMinusOne, Jump::Never);
    e.compute(Dest::A, Comp::M, Jump::Never);
    e.compute(Dest::M, op, Jump::Never);
    e.at_reg(Reg::SP);
    e.compute(Dest::M, Comp::MPlusOne, Jump::Never);
    assert(e.code@ =~= binary_code(name@, op));
    e.out
}

fn unary(name: &str, op: Comp) -> (r: String)
    ensures
        r@ == text(unary_code(name@, op)),
{
    let mut e = Emitter::new();
    e.note(name);
    e.at_reg(Reg::SP);
    e.compute(Dest::M, Comp::MMinusOne, Jump::Never);
    e.compute(Dest::A, Comp::M, Jump::Never);
    e.compute(Dest::M, op, Jump::Never);
    e.at_reg(Reg::SP);
    e.compute(Dest::M, Comp::MPlusOne, Jump::Never);
    assert(e.code@ =~= unary_code(name@, op));
    e.out
}

/// Pops two values and pushes their sum.
pub fn add() -> (r: String)
    ensures
        r@ == text(add_code()),
{
    binary("add", Comp::MPlusD)
}

/// Pops two values and pushes the lower one less the upper one.
pub fn sub() -> (r: String)
    ensures
        r@ == text(sub_code()),
{
    binary("sub", Comp::MMinusD)
}

/// Negates the top of the stack.
pub fn neg() -> (r: String)
    ensures
        r@ == text(neg_code()),
{
    unary("neg", Comp::NegM)
}

/// Inverts every bit of the top of the stack.
pub fn not() -> (r: String)
    ensures
        r@ == text(not_code()),
{
    unary("not", Comp::NotM)
}

/// Pops two values and pushes their bitwise and.
pub fn and() -> (r: String)
    ensures
        r@ == text(and_code()),
{
    binary("and", Comp::DAndM)
}

/// Pops two values and pushes their bitwise or.
pub fn or() -> (r: String)
    ensures
        r@ == text(or_code()),
{
    binary("or", Comp::DOrM)
}

fn compare(k: Cmp, labels: &mut LabelAllocator) -> (r: String)
    requires
        old(labels).next_number() + 2 <= usize::MAX,
    ensures
        r@ == text(compare_code(k, old(labels).next_number())),
        final(labels).next_number() == old(labels).next_number() + 2,
{
    let (name, tp, ep, jump) = match k {
        Cmp::Eq => ("eq", "EQ_TRUE", "EQ_END", Jump::JEQ),
        Cmp::Gt => ("gt", "GT_TRUE", "GT_END", Jump::JGT),
        Cmp::Lt => ("lt", "LT_TRUE", "LT_END", Jump::JLT),
    };
    let t = labels.unique_label(tp);
    let end = labels.unique_label(ep);
    let mut e = Emitter::new();
    e.note(name);
    emit_pop_d(&mut e);
    e.at_reg(Reg::SP);
    e.compute(Dest::M, Comp::MMinusOne, Jump::Never);
    e.compute(Dest::A, Comp::M, Jump::Never);
    e.compute(Dest::D, Comp::MMinusD, Jump::Never);
    e.at_sym(t.as_str());
    e.compute(Dest::Nothing, Comp::D, jump);
    e.at_reg(Reg::SP);
    e.compute(Dest::A, Comp::M, Jump::Never);
    e.compute(Dest::M, Comp::Zero, Jump::Never);
    e.at_sym(end.as_str());
    e.compute(Dest::Nothing, Comp::Zero, Jump::JMP);
    e.mark(t.as_str());
    e.at_reg(Reg::SP);
    e.compute(Dest::A, Comp::M, Jump::Never);
    e.compute(Dest::M, Comp::MinusOne, Jump::Never);
    e.mark(end.as_str());
    e.at_reg(Reg::SP);
    e.compute(Dest::M, Comp::MPlusOne, Jump::Never);
    assert(e.code@ =~= compare_code(k, old(labels).next_number()));
    e.out
}

/// Pops two values and pushes true (all bits set) if they are equal, else false (zero).
pub fn eq(labels: &mut LabelAllocator) -> (r: String)
    requires
        old(labels).next_number() + 2 <= usize::MAX,
    ensures
        r@ == text(compare_code(Cmp::Eq, old(labels).next_number())),
        final(labels).next_number() == old(labels).next_number() + 2,
{
    compare(Cmp::Eq, labels)
}

/// Pops two values and pushes true if the lower one is greater than the upper one.
pub fn gt(labels: &mut LabelAllocator) -> (r: String)
    requires
        old(labels).next_number() + 2 <= usize::MAX,
    ensures
        r@ == text(compare_code(Cmp::Gt, old(labels).next_number())),
        final(labels).next_number() == old(labels).next_number() + 2,
{
    compare(Cmp::Gt, labels)
}

/// Pops two values and pushes true if the lower one is less than the upper one.
pub fn lt(labels: &mut LabelAllocator) -> (r: String)
    requires
        old(labels).next_number() + 2 <= usize::MAX,
    ensures
        r@ == text(compare_code(Cmp::Lt, old(labels).next_number())),
        final(labels).next_number() == old(labels).next_number() + 2,
{
    compare(Cmp::Lt, labels)
}

fn note_with(e: &mut Emitter, word: &str, name: &str)
    requires
        old(e).wf(),
    ensures
        final(e).wf(),
        final(e).code@ == old(e).code@.push(Ins::Note(word@ + name@)),
{
    let mut n = String::new();
    write_str(&mut n, word);
    write_str(&mut n, name);
    e.note(n.as_str());
}

/// Marks the position of label `name`.
pub fn label(name: &str) -> (r: String)
    ensures
        r@ == text(label_code(name@)),
{
    let mut e = Emitter::new();
    note_with(&mut e, "label ", name);
    e.mark(name);
    assert(e.code@ =~= label_code(name@));
    e.out
}

/// Jumps to label `name`.
pub fn goto(name: &str) -> (r: String)
    ensures
        r@ == text(goto_code(name@)),
{
    let mut e = Emitter::new();
    note_with(&mut e, "goto ", name);
    e.at_sym(name);
    e.compute(Dest::Nothing, Comp::Zero, Jump::JMP);
    assert(e.code@ =~= goto_code(name@));
    e.out
}

/// Pops the top of the stack and jumps to label `name` if it is not zero.
pub fn if_goto(name: &str) -> (r: String)
    ensures
        r@ == text(if_goto_code(name@)),
{
    let mut e = Emitter::new();
    note_with(&mut e, "if-goto ", name);
    e.at_reg(Reg::SP);
    e.compute(Dest::AM, Comp::MMinusOne, Jump::Never);
    e.compute(Dest::D, Comp::M, Jump::Never);
    e.at_sym(name);
    e.compute(Dest::Nothing, Comp::D, Jump::JNE);
    assert(e.code@ =~= if_goto_code(name@));
    e.out
}

fn emit_save(e: &mut Emitter, r: Reg)
    requires
        old(e).wf(),
    ensures
        final(e).wf(),
        final(e).code@ == old(e).code@ + save_code(r),
{
    e.at_reg(r);
    e.compute(Dest::D, Comp::M, Jump::Never);
    emit_push_d(e);
    assert(e.code@ =~= old(e).code@ + save_code(r));
}

fn note_count(e: &mut Emitter, word: &str, name: &str, k: u16)
    requires
        old(e).wf(),
    ensures
        final(e).wf(),
        final(e).code@ == old(e).code@.push(Ins::Note(word@ + name@ + " "@ + decimal(k as nat))),
{
    let mut n = String::new();
    write_str(&mut n, word);
    write_str(&mut n, name);
    write_str(&mut n, " ");
    write_decimal(&mut n, k as u64);
    assert(n@ =~= word@ + name@ + " "@ + decimal(k as nat));
    e.note(n.as_str());
}

/// Calls `function_name` with `n_args` arguments on the stack, from inside
/// function `caller`: saves the caller's frame, sets up the callee's, jumps,
/// and marks the return address, a fresh label scoped by `caller`.
pub fn call(caller: &str, function_name: &str, n_args: u16, labels: &mut LabelAllocator) -> (r: String)
    requires
        old(labels).next_number() < usize::MAX,
    ensures
        r@ == text(
            call_code(
                function_name@,
                n_args as nat,
                label_text(return_prefix(caller@), old(labels).next_number()),
            ),
        ),
        final(labels).next_number() == old(labels).next_number() + 1,
{
    let mut prefix = String::new();
    write_str(&mut prefix, caller);
    write_str(&mut prefix, "$retAddr");
    let ret = labels.unique_label(prefix.as_str());
    let mut e = Emitter::new();
    note_count(&mut e, "call ", function_name, n_args);
    e.at_sym(ret.as_str());
    e.compute(Dest::D, Comp::A, Jump::Never);
    emit_push_d(&mut e);
    emit_save(&mut e, Reg::LCL);
    emit_save(&mut e, Reg::ARG);
    emit_save(&mut e, Reg::THIS);
    emit_save(&mut e, Reg::THAT);
    e.at_reg(Reg::SP);
    e.compute(Dest::D, Comp::M, Jump::Never);
    e.at_num(5);
    e.compute(Dest::D, Comp::DMinusA, Jump::Never);
    e.at_num(n_args as u64);
    e.compute(Dest::D, Comp::DMinusA, Jump::Never);
    e.at_reg(Reg::ARG);
    e.compute(Dest::M, Comp::D, Jump::Never);
    e.at_reg(Reg::SP);
    e.compute(Dest::D, Comp::M, Jump::Never);
    e.at_reg(Reg::LCL);
    e.compute(Dest::M, Comp::D, Jump::Never);
    e.at_sym(function_name);
    e.compute(Dest::Nothing, Comp::Zero, Jump::JMP);
    e.mark(ret.as_str());
    assert(e.code@ =~= call_code(function_name@, n_args as nat, ret@));
    e.out
}

/// The entry of `function_name`: its label, then `n_locals` zeroed local slots.
pub fn function(function_name: &str, n_locals: u16) -> (r: String)
    ensures
        r@ == text(function_code(function_name@, n_locals as nat)),
{
    let mut e = Emitter::new();
    note_count(&mut e, "function ", function_name, n_locals);
    e.mark(function_name);
    let ghost head = e.code@;
    let mut i: u16 = 0;
    while i < n_locals
        invariant
            e.wf(),
            i <= n_locals,
            e.code@ == head + zeros(i as nat),
        decreases n_locals - i,
    {
        emit_push_body(&mut e, Segment::Constant, 0, "");
        proof {
            assert(push_body(Segment::Constant, 0, ""@) =~= push_body(Segment::Constant, 0, Seq::empty()));
        }
        i = i + 1;
        assert(e.code@ =~= head + zeros(i as nat));
    }
    assert(e.code@ =~= function_code(function_name@, n_locals as nat));
    e.out
}

fn emit_restore(e: &mut Emitter, r: Reg)
    requires
        old(e).wf(),
    ensures
        final(e).wf(),
        final(e).code@ == old(e).code@ + restore_code(r),
{
    e.at_reg(Reg::R13);
    e.compute(Dest::AM, Comp::MMinusOne, Jump::Never);
    e.compute(Dest::D, Comp::M, Jump::Never);
    e.at_reg(r);
    e.compute(Dest::M, Comp::D, Jump::Never);
    assert(e.code@ =~= old(e).code@ + restore_code(r));
}

/// Returns from the current function: puts its result where the caller's
/// arguments began, restores the caller's frame and jumps back.
pub fn return_() -> (r: String)
    ensures
        r@ == text(return_code()),
{
    let mut e = Emitter::new();
    e.note("return");
    e.at_reg(Reg::LCL);
    e.compute(Dest::D, Comp::M, Jump::Never);
    e.at_reg(Reg::R13);
    e.compute(Dest::M, Comp::D, Jump::Never);
    e.at_num(5);
    e.compute(Dest::A, Comp::DMinusA, Jump::Never);
    e.compute(Dest::D, Comp::M, Jump::Never);
    e.at_reg(Reg::R14);
    e.compute(Dest::M, Comp::D, Jump::Never);
    emit_pop_d(&mut e);
    e.at_reg(Reg::ARG);
    e.compute(Dest::A, Comp::M, Jump::Never);
    e.compute(Dest::M, Comp::D, Jump::Never);
    e.at_reg(Reg::ARG);
    e.compute(Dest::D, Comp::MPlusOne, Jump::Never);
    e.at_reg(Reg::SP);
    e.compute(Dest::M, Comp::D, Jump::Never);
    emit_restore(&mut e, Reg::THAT);
    emit_restore(&mut e, Reg::THIS);
    emit_restore(&mut e, Reg::ARG);
    emit_restore(&mut e, Reg::LCL);
    e.at_reg(Reg::R14);
    e.compute(Dest::A, Comp::M, Jump::Never);
    e.compute(Dest::Nothing, Comp::Zero, Jump::JMP);
    assert(e.code@ =~= return_code());
    e.out
}
} // verus!
