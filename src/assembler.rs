//! The two-pass assembler: the first pass finds where each label points, the
//! second decodes each instruction line and appends it to the program.
use vstd::prelude::*;
use crate::instruction::{
    Instruction,
    InstructionType,
    OperandClass,
    kind_of,
    kind_of_word,
    operand_class,
    operand_class_spec,
};
use crate::labels::LabelTable;
use crate::machine::{Frame, FrameView};
use crate::text::{
    byte_literal,
    chars_of,
    label_name,
    lines_of,
    parse_byte,
    split_lines,
    split_words,
    trim_colons,
    views_of,
    words_of,
};

verus! {

/// The ways in which assembly can fail.
#[derive(Clone, Copy, Debug, PartialEq, Eq, Structural)]
pub enum AsmError {
    /// The first word of an instruction line names no instruction.
    UnknownMnemonic,
    /// An instruction that takes an operand has none on its line.
    MissingOperand,
    /// A numeric operand is not a decimal byte.
    BadNumber,
    /// A label operand names no label that is defined at that point.
    UndefinedLabel,
    /// More instructions than an 8-bit program counter can count.
    ProgramTooLong,
}

/// What the assembler tracks while it walks the lines.
pub struct AsmState {
    pub pc: u8,
    pub labels: Map<Seq<char>, u8>,
    pub program: Seq<Instruction>,
}

/// A first word that starts a comment.
pub open spec fn is_comment(w: Seq<char>) -> bool {
    w.len() > 0 && w[0] == ';'
}

/// A first word that defines a label.
pub open spec fn is_label_def(w: Seq<char>) -> bool {
    w.len() > 0 && w.last() == ':'
}

/// The instruction that the words of a line denote, with `labels` to resolve
/// label operands. Words after the operand are not read.
pub open spec fn decode(words: Seq<Seq<char>>, labels: Map<Seq<char>, u8>) -> Result<
    Instruction,
    AsmError,
> {
    match kind_of(words[0]) {
        None => Err(AsmError::UnknownMnemonic),
        Some(k) => match operand_class_spec(k) {
            OperandClass::Absent => Ok(Instruction { instruction: k, operand: 0 }),
            OperandClass::Number => if words.len() < 2 {
                Err(AsmError::MissingOperand)
            } else {
                match byte_literal(words[1]) {
                    Some(n) => Ok(Instruction { instruction: k, operand: n }),
                    None => Err(AsmError::BadNumber),
                }
            },
            OperandClass::Label => if words.len() < 2 {
                Err(AsmError::MissingOperand)
            } else if labels.contains_key(words[1]) {
                Ok(Instruction { instruction: k, operand: labels[words[1]] })
            } else {
                Err(AsmError::UndefinedLabel)
            },
        },
    }
}

/// The effect of one line. Blank and comment lines change nothing; a label
/// line names the current position; any other line is an instruction, which
/// moves the position on and, in every pass but the first, is decoded and
/// appended.
pub open spec fn line_step(st: AsmState, line: Seq<char>, pass: u8) -> Result<AsmState, AsmError> {
    let w = words_of(line);
    if w.len() == 0 || is_comment(w[0]) {
        Ok(st)
    } else if is_label_def(w[0]) {
        Ok(AsmState { labels: st.labels.insert(trim_colons(w[0]), st.pc), ..st })
    } else if st.pc == 255 {
        Err(AsmError::ProgramTooLong)
    } else if pass == 1 {
        Ok(AsmState { pc: (st.pc + 1) as u8, ..st })
    } else {
        match decode(w, st.labels) {
            Ok(ins) => Ok(AsmState { pc: (st.pc + 1) as u8, program: st.program.push(ins), ..st }),
            Err(e) => Err(e),
        }
    }
}

/// The lines taken in order, stopping at the first error.
pub open spec fn assemble_lines(st: AsmState, lines: Seq<Seq<char>>, pass: u8) -> Result<
    AsmState,
    AsmError,
>
    decreases lines.len(),
{
    if lines.len() == 0 {
        Ok(st)
    } else {
        match line_step(st, lines[0], pass) {
            Ok(next) => assemble_lines(next, lines.drop_first(), pass),
            Err(e) => Err(e),
        }
    }
}

/// One pass over `code`, from position zero, with the labels and program of `v`.
pub open spec fn assembly(v: FrameView, code: Seq<char>, pass: u8) -> Result<AsmState, AsmError> {
    assemble_lines(AsmState { pc: 0, labels: v.labels, program: v.program }, lines_of(code), pass)
}

/// Decodes the words of an instruction line against `labels`.
pub fn decode_words(words: &Vec<Vec<char>>, labels: &LabelTable) -> (r: Result<Instruction, AsmError>)
    requires
        words@.len() > 0,
        labels.wf(),
    ensures
        r == decode(views_of(words@), labels@),
{
    let ghost w = views_of(words@);
    match kind_of_word(&words[0]) {
        None => Err(AsmError::UnknownMnemonic),
        Some(k) => match operand_class(k) {
            OperandClass::Absent => Ok(Instruction { instruction: k, operand: 0 }),
            OperandClass::Number => {
                if words.len() < 2 {
                    Err(AsmError::MissingOperand)
                } else {
                    match parse_byte(&words[1]) {
                        Some(n) => Ok(Instruction { instruction: k, operand: n }),
                        None => Err(AsmError::BadNumber),
                    }
                }
            },
            OperandClass::Label => {
                if words.len() < 2 {
                    Err(AsmError::MissingOperand)
                } else {
                    match labels.get(&words[1]) {
                        Some(n) => Ok(Instruction { instruction: k, operand: n }),
                        None => Err(AsmError::UndefinedLabel),
                    }
                }
            },
        },
    }
}

impl Frame {
    /// Runs one line of a pass.
    fn assemble_line(&mut self, line: &Vec<char>, pass: u8) -> (r: Result<(), AsmError>)
        requires
            old(self).wf(),
        ensures
            final(self).wf(),
            final(self).stack == old(self).stack,
            final(self).retstack == old(self).retstack,
            final(self).memory == old(self).memory,
            match line_step(
                AsmState {
                    pc: old(self).pc,
                    labels: old(self).labels@,
                    program: old(self).instructions@,
                },
                line@,
                pass,
            ) {
                Ok(st) => r == Ok::<(), AsmError>(()) && final(self).pc == st.pc
                    && final(self).labels@ == st.labels && final(self).instructions@
                    == st.program,
                Err(e) => r == Err::<(), AsmError>(e),
            },
    {
        let words = split_words(line);
        if words.len() == 0 {
            return Ok(());
        }
        let first = &words[0];
        if first.len() > 0 && first[0] == ';' {
            return Ok(());
        }
        if first.len() > 0 && first[first.len() - 1] == ':' {
            let name = label_name(first);
            self.labels.insert(name, self.pc);
            return Ok(());
        }
        if self.pc == 255 {
            return Err(AsmError::ProgramTooLong);
        }
        if pass == 1 {
            self.pc = self.pc + 1;
            return Ok(());
        }
        match decode_words(&words, &self.labels) {
            Ok(ins) => {
                self.instructions.push(ins);
                self.pc = self.pc + 1;
                Ok(())
            },
            Err(e) => Err(e),
        }
    }

    /// Runs one pass of the assembler over `code`. Pass 1 only records where
    /// each label points; any other pass also decodes each instruction line
    /// and appends it to the program. The stacks and memory are not touched.
    pub fn assembler(&mut self, code: &str, pass: u8) -> (r: Result<(), AsmError>)
        requires
            old(self).wf(),
        ensures
            final(self).wf(),
            final(self)@.stack == old(self)@.stack,
            final(self)@.retstack == old(self)@.retstack,
            final(self)@.memory == old(self)@.memory,
            match assembly(old(self)@, code@, pass) {
                Ok(st) => r == Ok::<(), AsmError>(()) && final(self)@.pc == st.pc
                    && final(self)@.labels == st.labels && final(self)@.program == st.program,
                Err(e) => r == Err::<(), AsmError>(e),
            },
    {
        self.pc = 0;
        let text = chars_of(code);
        let lines = split_lines(&text);
        let ghost all = views_of(lines@);
        let mut i: usize = 0;
        assert(all.skip(0) == all);
        while i < lines.len()
            invariant
                self.wf(),
                self.stack == old(self).stack,
                self.retstack == old(self).retstack,
                self.memory == old(self).memory,
                i <= lines@.len(),
                all == views_of(lines@),
                all == lines_of(code@),
                assembly(old(self)@, code@, pass) == assemble_lines(
                    AsmState { pc: self.pc, labels: self.labels@, program: self.instructions@ },
                    all.skip(i as int),
                    pass,
                ),
            decreases lines@.len() - i,
        {
            assert(all.skip(i as int).drop_first() == all.skip(i + 1));
            assert(all.skip(i as int)[0] == lines@[i as int]@);
            match self.assemble_line(&lines[i], pass) {
                Ok(()) => {},
                Err(e) => {
                    return Err(e);
                },
            }
            i = i + 1;
        }
        Ok(())
    }

    /// The position that the label `name` denotes, if it is defined.
    pub fn label(&self, name: &str) -> (r: Option<u8>)
        requires
            self.wf(),
        ensures
            r == if self@.labels.contains_key(name@) {
                Some(self@.labels[name@])
            } else {
                None
            },
    {
        let key = chars_of(name);
        self.labels.get(&key)
    }
}

} // verus!
