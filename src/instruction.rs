//! The instruction set: sixteen kinds, each with one byte of operand.
use vstd::prelude::*;

verus! {

/// The kind of an instruction.
#[derive(Clone, Copy, Debug, PartialEq, Eq, Structural)]
pub enum InstructionType {
    Inc,
    Dec,
    Push,
    Pop,
    Jmp,
    Jz,
    Jnz,
    Call,
    Ret,
    Nand,
    Halt,
    Pick,
    Poke,
    Swap,
    Load,
    Store,
}

/// One decoded instruction. The operand is a jump target, a literal byte, a
/// stack depth or a memory address, by kind; kinds without one carry zero.
#[derive(Clone, Copy, Debug, PartialEq, Eq, Structural)]
pub struct Instruction {
    pub instruction: InstructionType,
    pub operand: u8,
}

/// What follows a mnemonic on its line.
#[derive(Clone, Copy, Debug, PartialEq, Eq, Structural)]
pub enum OperandClass {
    /// Nothing is read; the operand is zero.
    Absent,
    /// A decimal byte.
    Number,
    /// The name of a label.
    Label,
}

/// The kind that a mnemonic names, if it names one.
pub open spec fn kind_of(w: Seq<char>) -> Option<InstructionType> {
    if w == "inc"@ {
        Some(InstructionType::Inc)
    } else if w == "dec"@ {
        Some(InstructionType::Dec)
    } else if w == "push"@ {
        Some(InstructionType::Push)
    } else if w == "pop"@ {
        Some(InstructionType::Pop)
    } else if w == "jmp"@ {
        Some(InstructionType::Jmp)
    } else if w == "jz"@ {
        Some(InstructionType::Jz)
    } else if w == "jnz"@ {
        Some(InstructionType::Jnz)
    } else if w == "call"@ {
        Some(InstructionType::Call)
    } else if w == "ret"@ {
        Some(InstructionType::Ret)
    } else if w == "nand"@ {
        Some(InstructionType::Nand)
    } else if w == "halt"@ {
        Some(InstructionType::Halt)
    } else if w == "pick"@ {
        Some(InstructionType::Pick)
    } else if w == "poke"@ {
        Some(InstructionType::Poke)
    } else if w == "swap"@ {
        Some(InstructionType::Swap)
    } else if w == "load"@ {
        Some(InstructionType::Load)
    } else if w == "store"@ {
        Some(InstructionType::Store)
    } else {
        None
    }
}

/// The operand that each kind reads from the source.
pub open spec fn operand_class_spec(k: InstructionType) -> OperandClass {
    match k {
        InstructionType::Push | InstructionType::Pick | InstructionType::Poke
        | InstructionType::Load | InstructionType::Store => OperandClass::Number,
        InstructionType::Jmp | InstructionType::Jz | InstructionType::Jnz
        | InstructionType::Call => OperandClass::Label,
        _ => OperandClass::Absent,
    }
}

/// The operand that instructions of kind `k` read from the source.
pub fn operand_class(k: InstructionType) -> (r: OperandClass)
    ensures
        r == operand_class_spec(k),
{
    match k {
        InstructionType::Push | InstructionType::Pick | InstructionType::Poke
        | InstructionType::Load | InstructionType::Store => OperandClass::Number,
        InstructionType::Jmp | InstructionType::Jz | InstructionType::Jnz
        | InstructionType::Call => OperandClass::Label,
        _ => OperandClass::Absent,
    }
}

/// Whether the characters of `w` are those of `lit`.
fn is_word(w: &Vec<char>, lit: &str) -> (r: bool)
    ensures
        r == (w@ == lit@),
{
    let n = lit.unicode_len();
    if w.len() != n {
        return false;
    }
    let mut i: usize = 0;
    while i < n
        invariant
            i <= n == w@.len() == lit@.len(),
            forall|j: int| 0 <= j < i ==> w@[j] == lit@[j],
        decreases n - i,
    {
        if w[i] != lit.get_char(i) {
            return false;
        }
        i = i + 1;
    }
    assert(w@ =~= lit@);
    true
}

/// The kind named by the mnemonic `w`.
pub fn kind_of_word(w: &Vec<char>) -> (r: Option<InstructionType>)
    ensures
        r == kind_of(w@),
{
    if is_word(w, "inc") {
        Some(InstructionType::Inc)
    } else if is_word(w, "dec") {
        Some(InstructionType::Dec)
    } else if is_word(w, "push") {
        Some(InstructionType::Push)
    } else if is_word(w, "pop") {
        Some(InstructionType::Pop)
    } else if is_word(w, "jmp") {
        Some(InstructionType::Jmp)
    } else if is_word(w, "jz") {
        Some(InstructionType::Jz)
    } else if is_word(w, "jnz") {
        Some(InstructionType::Jnz)
    } else if is_word(w, "call") {
        Some(InstructionType::Call)
    } else if is_word(w, "ret") {
        Some(InstructionType::Ret)
    } else if is_word(w, "nand") {
        Some(InstructionType::Nand)
    } else if is_word(w, "halt") {
        Some(InstructionType::Halt)
    } else if is_word(w, "pick") {
        Some(InstructionType::Pick)
    } else if is_word(w, "poke") {
        Some(InstructionType::Poke)
    } else if is_word(w, "swap") {
        Some(InstructionType::Swap)
    } else if is_word(w, "load") {
        Some(InstructionType::Load)
    } else if is_word(w, "store") {
        Some(InstructionType::Store)
    } else {
        None
    }
}

} // verus!
