//! The target machine's instructions, as an abstract model and as text.
use vstd::prelude::*;
use crate::text::{decimal, push_char, write_decimal, write_str};

verus! {

/// A register of the machine reached by a predefined symbol.
#[derive(Clone, Copy, PartialEq, Eq, Structural, Debug)]
pub enum Reg {
    SP,
    LCL,
    ARG,
    THIS,
    THAT,
    R13,
    R14,
}

/// Where the result of a computing instruction is stored.
#[derive(Clone, Copy, PartialEq, Eq, Structural, Debug)]
pub enum Dest {
    Nothing,
    M,
    D,
    A,
    AM,
}

/// What a computing instruction computes.
#[derive(Clone, Copy, PartialEq, Eq, Structural, Debug)]
pub enum Comp {
    Zero,
    MinusOne,
    D,
    A,
    M,
    NotM,
    NegM,
    MPlusOne,
    MMinusOne,
    MPlusD,
    MMinusD,
    DAndM,
    DOrM,
    APlusD,
    DMinusA,
}

/// The jump condition of a computing instruction, tested on its result.
#[derive(Clone, Copy, PartialEq, Eq, Structural, Debug)]
pub enum Jump {
    Never,
    JEQ,
    JGT,
    JLT,
    JNE,
    JMP,
}

/// One line of emitted assembly.
pub enum Ins {
    /// Loads a constant into `A`.
    AtNum(nat),
    /// Loads a register's address into `A`.
    AtReg(Reg),
    /// Loads the address that a symbol stands for into `A`.
    AtSym(Seq<char>),
    /// Computes, stores and possibly jumps.
    C(Dest, Comp, Jump),
    /// Marks the position of a label.
    Mark(Seq<char>),
    /// A comment; it has no effect.
    Note(Seq<char>),
}

pub open spec fn reg_name(r: Reg) -> Seq<char> {
    match r {
        Reg::SP => "SP"@,
        Reg::LCL => "LCL"@,
        Reg::ARG => "ARG"@,
        Reg::THIS => "THIS"@,
        Reg::THAT => "THAT"@,
        Reg::R13 => "R13"@,
        Reg::R14 => "R14"@,
    }
}

pub open spec fn dest_text(d: Dest) -> Seq<char> {
    match d {
        Dest::Nothing => ""@,
        Dest::M => "M="@,
        Dest::D => "D="@,
        Dest::A => "A="@,
        Dest::AM => "AM="@,
    }
}

pub open spec fn comp_text(c: Comp) -> Seq<char> {
    match c {
        Comp::Zero => "0"@,
        Comp::MinusOne => "-1"@,
        Comp::D => "D"@,
        Comp::A => "A"@,
        Comp::M => "M"@,
        Comp::NotM => "!M"@,
        Comp::NegM => "-M"@,
        Comp::MPlusOne => "M+1"@,
        Comp::MMinusOne => "M-1"@,
        Comp::MPlusD => "M+D"@,
        Comp::MMinusD => "M-D"@,
        Comp::DAndM => "D&M"@,
        Comp::DOrM => "D|M"@,
        Comp::APlusD => "A+D"@,
        Comp::DMinusA => "D-A"@,
    }
}

pub open spec fn jump_text(j: Jump) -> Seq<char> {
    match j {
        Jump::Never => ""@,
        Jump::JEQ => ";JEQ"@,
        Jump::JGT => ";JGT"@,
        Jump::JLT => ";JLT"@,
        Jump::JNE => ";JNE"@,
        Jump::JMP => ";JMP"@,
    }
}

/// The text of one instruction, without its line end.
pub open spec fn line(i: Ins) -> Seq<char> {
    match i {
        Ins::AtNum(n) => "@"@ + decimal(n),
        Ins::AtReg(r) => "@"@ + reg_name(r),
        Ins::AtSym(s) => "@"@ + s,
        Ins::C(d, c, j) => dest_text(d) + comp_text(c) + jump_text(j),
        Ins::Mark(s) => "("@ + s + ")"@,
        Ins::Note(s) => "//"@ + s,
    }
}

/// The text of a sequence of instructions: one line each, each ended by a newline.
pub open spec fn text(code: Seq<Ins>) -> Seq<char>
    decreases code.len(),
{
    if code.len() == 0 {
        Seq::empty()
    } else {
        text(code.drop_last()) + line(code.last()).push('\n')
    }
}

pub proof fn lemma_text_push(code: Seq<Ins>, i: Ins)
    ensures
        text(code.push(i)) == text(code) + line(i).push('\n'),
{
    assert(code.push(i).drop_last() =~= code);
}

/// Assembly text under construction, together with the instructions it spells.
pub struct Emitter {
    pub out: String,
    pub code: Ghost<Seq<Ins>>,
}

impl Emitter {
    pub open spec fn wf(&self) -> bool {
        self.out@ == text(self.code@)
    }

    pub fn new() -> (e: Emitter)
        ensures
            e.wf(),
            e.code@ == Seq::<Ins>::empty(),
    {
        Emitter { out: String::new(), code: Ghost(Seq::empty()) }
    }

    pub fn at_num(&mut self, n: u64)
        requires
            old(self).wf(),
        ensures
            final(self).wf(),
            final(self).code@ == old(self).code@.push(Ins::AtNum(n as nat)),
    {
        write_str(&mut self.out, "@");
        write_decimal(&mut self.out, n);
        push_char(&mut self.out, '\n');
        proof {
            lemma_text_push(self.code@, Ins::AtNum(n as nat));
            self.code@ = self.code@.push(Ins::AtNum(n as nat));
        }
        assert(self.out@ =~= text(self.code@));
    }
}


fn reg_str(r: Reg) -> (s: &'static str)
    ensures
        s@ == reg_name(r),
{
    match r {
        Reg::SP => "SP",
        Reg::LCL => "LCL",
        Reg::ARG => "ARG",
        Reg::THIS => "THIS",
        Reg::THAT => "THAT",
        Reg::R13 => "R13",
        Reg::R14 => "R14",
    }
}

fn dest_str(d: Dest) -> (s: &'static str)
    ensures
        s@ == dest_text(d),
{
    match d {
        Dest::Nothing => "",
        Dest::M => "M=",
        Dest::D => "D=",
        Dest::A => "A=",
        Dest::AM => "AM=",
    }
}

fn comp_str(c: Comp) -> (s: &'static str)
    ensures
        s@ == comp_text(c),
{
    match c {
        Comp::Zero => "0",
        Comp::MinusOne => "-1",
        Comp::D => "D",
        Comp::A => "A",
        Comp::M => "M",
        Comp::NotM => "!M",
        Comp::NegM => "-M",
        Comp::MPlusOne => "M+1",
        Comp::MMinusOne => "M-1",
        Comp::MPlusD => "M+D",
        Comp::MMinusD => "M-D",
        Comp::DAndM => "D&M",
        Comp::DOrM => "D|M",
        Comp::APlusD => "A+D",
        Comp::DMinusA => "D-A",
    }
}

fn jump_str(j: Jump) -> (s: &'static str)
    ensures
        s@ == jump_text(j),
{
    match j {
        Jump::Never => "",
        Jump::JEQ => ";JEQ",
        Jump::JGT => ";JGT",
        Jump::JLT => ";JLT",
        Jump::JNE => ";JNE",
        Jump::JMP => ";JMP",
    }
}

impl Emitter {
    pub fn at_reg(&mut self, r: Reg)
        requires
            old(self).wf(),
        ensures
            final(self).wf(),
            final(self).code@ == old(self).code@.push(Ins::AtReg(r)),
    {
        write_str(&mut self.out, "@");
        write_str(&mut self.out, reg_str(r));
        push_char(&mut self.out, '\n');
        proof {
            lemma_text_push(self.code@, Ins::AtReg(r));
            self.code@ = self.code@.push(Ins::AtReg(r));
        }
        assert(self.out@ =~= text(self.code@));
    }

    pub fn at_sym(&mut self, name: &str)
        requires
            old(self).wf(),
        ensures
            final(self).wf(),
            final(self).code@ == old(self).code@.push(Ins::AtSym(name@)),
    {
        write_str(&mut self.out, "@");
        write_str(&mut self.out, name);
        push_char(&mut self.out, '\n');
        proof {
            lemma_text_push(self.code@, Ins::AtSym(name@));
            self.code@ = self.code@.push(Ins::AtSym(name@));
        }
        assert(self.out@ =~= text(self.code@));
    }

    pub fn compute(&mut self, d: Dest, cp: Comp, j: Jump)
        requires
            old(self).wf(),
        ensures
            final(self).wf(),
            final(self).code@ == old(self).code@.push(Ins::C(d, cp, j)),
    {
        write_str(&mut self.out, dest_str(d));
        write_str(&mut self.out, comp_str(cp));
        write_str(&mut self.out, jump_str(j));
        push_char(&mut self.out, '\n');
        proof {
            lemma_text_push(self.code@, Ins::C(d, cp, j));
            self.code@ = self.code@.push(Ins::C(d, cp, j));
        }
        assert(self.out@ =~= text(self.code@));
    }

    pub fn mark(&mut self, name: &str)
        requires
            old(self).wf(),
        ensures
            final(self).wf(),
            final(self).code@ == old(self).code@.push(Ins::Mark(name@)),
    {
        write_str(&mut self.out, "(");
        write_str(&mut self.out, name);
        write_str(&mut self.out, ")");
        push_char(&mut self.out, '\n');
        proof {
            lemma_text_push(self.code@, Ins::Mark(name@));
            self.code@ = self.code@.push(Ins::Mark(name@));
        }
        assert(self.out@ =~= text(self.code@));
    }

    pub fn note(&mut self, s: &str)
        requires
            old(self).wf(),
        ensures
            final(self).wf(),
            final(self).code@ == old(self).code@.push(Ins::Note(s@)),
    {
        write_str(&mut self.out, "//");
        write_str(&mut self.out, s);
        push_char(&mut self.out, '\n');
        proof {
            lemma_text_push(self.code@, Ins::Note(s@));
            self.code@ = self.code@.push(Ins::Note(s@));
        }
        assert(self.out@ =~= text(self.code@));
    }
}

} // verus!
