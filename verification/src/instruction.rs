//! The instructions of a program, one for each significant line.

use vstd::prelude::*;

verus! {

/// One instruction of the source program.
#[derive(Debug, Clone, PartialEq, Eq)]
pub enum Instruction {
    /// `@value`: loads a number, or the address that a symbol stands for,
    /// into the address register.
    A { value: String },
    /// `dest=comp;jump`: a computation, with an optional destination for its
    /// result and an optional jump.
    C { dest: Option<String>, comp: String, jump: Option<String> },
    /// `(value)`: binds a name to the address of the next instruction that
    /// takes a place in the program. It takes none itself.
    L { value: String },
}

/// An `Instruction` over sequences of characters.
pub enum Statement {
    A { value: Seq<char> },
    C { dest: Option<Seq<char>>, comp: Seq<char>, jump: Option<Seq<char>> },
    L { value: Seq<char> },
}

/// The characters of an optional string.
pub open spec fn optional_text(s: Option<String>) -> Option<Seq<char>> {
    match s {
        Some(t) => Some(t@),
        None => None,
    }
}

impl View for Instruction {
    type V = Statement;

    open spec fn view(&self) -> Statement {
        match self {
            Instruction::A { value } => Statement::A { value: value@ },
            Instruction::C { dest, comp, jump } => Statement::C {
                dest: optional_text(*dest),
                comp: comp@,
                jump: optional_text(*jump),
            },
            Instruction::L { value } => Statement::L { value: value@ },
        }
    }
}

impl DeepView for Instruction {
    type V = Statement;

    open spec fn deep_view(&self) -> Statement {
        self@
    }
}

impl Statement {
    /// Whether the instruction takes a place in the translated program.
    pub open spec fn occupies_address(self) -> bool {
        !(self is L)
    }
}

/// How many of the instructions take a place in the translated program.
pub open spec fn instruction_count(program: Seq<Statement>) -> nat
    decreases program.len(),
{
    if program.len() == 0 {
        0
    } else {
        instruction_count(program.drop_last()) + if program.last().occupies_address() {
            1nat
        } else {
            0nat
        }
    }
}

} // verus!
