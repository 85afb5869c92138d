//! Properties of the assembler and the machine that hold for every input.
use vstd::prelude::*;
use crate::assembler::{
    AsmError,
    AsmState,
    assemble_lines,
    decode,
    is_comment,
    is_label_def,
    line_step,
};
use crate::instruction::{Instruction, InstructionType, OperandClass, kind_of, operand_class_spec};
use crate::machine::{FrameView, Step, step};
use crate::text::{byte_literal, lines_of, trim_colons, words_of};

verus! {

/// What a fresh frame holds after pass 1 and then pass 2 over `code`, when
/// its label table starts as `labels`.
pub open spec fn two_pass(labels: Map<Seq<char>, u8>, code: Seq<char>) -> Result<AsmState, AsmError> {
    match assemble_lines(AsmState { pc: 0, labels, program: Seq::empty() }, lines_of(code), 1) {
        Ok(first) => assemble_lines(
            AsmState { pc: 0, labels: first.labels, program: first.program },
            lines_of(code),
            2,
        ),
        Err(e) => Err(e),
    }
}

/// The name that `line` defines, if it is a label line.
pub open spec fn label_def(line: Seq<char>) -> Option<Seq<char>> {
    let w = words_of(line);
    if w.len() > 0 && !is_comment(w[0]) && is_label_def(w[0]) {
        Some(trim_colons(w[0]))
    } else {
        None
    }
}

/// The label that `line` refers to, if it is an instruction that takes one.
pub open spec fn label_ref(line: Seq<char>) -> Option<Seq<char>> {
    let w = words_of(line);
    if w.len() >= 2 && !is_comment(w[0]) && !is_label_def(w[0]) && kind_of(w[0]) is Some
        && operand_class_spec(kind_of(w[0])->Some_0) == OperandClass::Label {
        Some(w[1])
    } else {
        None
    }
}

/// Every label that a line of `lines` refers to is defined by some line, before or after it.
pub open spec fn refs_defined(lines: Seq<Seq<char>>) -> bool {
    forall|j: int|
        0 <= j < lines.len() && (#[trigger] label_ref(lines[j])) is Some ==> exists|i: int|
            0 <= i < lines.len() && #[trigger] label_def(lines[i]) == label_ref(lines[j])
}

/// Pass 1 leaves the program alone, fails only on a program too long, and
/// whether it fails does not depend on the labels; labels it starts with are overridden by the ones it finds.
proof fn lemma_pass1_shift(st: AsmState, lines: Seq<Seq<char>>, extra: Map<Seq<char>, u8>)
    ensures
        ({
            let a = assemble_lines(st, lines, 1);
            let b = assemble_lines(
                AsmState { labels: extra.union_prefer_right(st.labels), ..st },
                lines,
                1,
            );
            &&& a is Ok <==> b is Ok
            &&& a is Err ==> a == b && a == Err::<AsmState, AsmError>(AsmError::ProgramTooLong)
            &&& a is Ok ==> a->Ok_0.program == st.program && b->Ok_0 == (AsmState {
                labels: extra.union_prefer_right(a->Ok_0.labels),
                ..a->Ok_0
            })
        }),
    decreases lines.len(),
{
    if lines.len() > 0 {
        let sb = AsmState { labels: extra.union_prefer_right(st.labels), ..st };
        let w = words_of(lines[0]);
        if w.len() == 0 || is_comment(w[0]) {
            lemma_pass1_shift(st, lines.drop_first(), extra);
        } else if is_label_def(w[0]) {
            let na = AsmState { labels: st.labels.insert(trim_colons(w[0]), st.pc), ..st };
            assert(extra.union_prefer_right(st.labels).insert(trim_colons(w[0]), st.pc)
                =~= extra.union_prefer_right(na.labels));
            lemma_pass1_shift(na, lines.drop_first(), extra);
        } else if st.pc != 255 {
            let na = AsmState { pc: (st.pc + 1) as u8, ..st };
            lemma_pass1_shift(na, lines.drop_first(), extra);
        }
    }
}

/// Where pass 2 succeeds, pass 1 from the same position and labels succeeds
/// too and ends at the same position with the same labels.
proof fn lemma_passes_agree(a: AsmState, b: AsmState, lines: Seq<Seq<char>>)
    requires
        a.pc == b.pc,
        a.labels == b.labels,
    ensures
        assemble_lines(a, lines, 2) is Ok ==> {
            &&& assemble_lines(b, lines, 1) is Ok
            &&& assemble_lines(b, lines, 1)->Ok_0.pc == assemble_lines(a, lines, 2)->Ok_0.pc
            &&& assemble_lines(b, lines, 1)->Ok_0.labels == assemble_lines(
                a,
                lines,
                2,
            )->Ok_0.labels
        },
    decreases lines.len(),
{
    if lines.len() > 0 {
        let ra = line_step(a, lines[0], 2);
        let rb = line_step(b, lines[0], 1);
        if ra is Ok {
            lemma_passes_agree(ra->Ok_0, rb->Ok_0, lines.drop_first());
        }
    }
}

/// Assembly is idempotent: assembling `code` again, with the label table that
/// the first assembly produced, gives the same program and the same labels.
pub proof fn lemma_assembly_idempotent(code: Seq<char>)
    requires
        two_pass(Map::empty(), code) is Ok,
    ensures
        two_pass(two_pass(Map::empty(), code)->Ok_0.labels, code) == two_pass(Map::empty(), code),
{
    let lines = lines_of(code);
    let empty = Map::<Seq<char>, u8>::empty();
    let s0 = AsmState { pc: 0, labels: empty, program: Seq::empty() };
    let first = assemble_lines(s0, lines, 1)->Ok_0;
    let w = first.labels;
    lemma_pass1_shift(s0, lines, empty);
    let s1 = AsmState { pc: 0, labels: w, program: first.program };
    let r = assemble_lines(s1, lines, 2)->Ok_0;
    // The labels that pass 2 ends with are those of pass 1 from `w`, that is `w` over `w`.
    let s0w = AsmState { labels: w.union_prefer_right(s0.labels), ..s0 };
    assert(w.union_prefer_right(s0.labels) =~= w);
    lemma_pass1_shift(s0, lines, w);
    assert(s0w == s1);
    lemma_passes_agree(s1, s1, lines);
    assert(w.union_prefer_right(w) =~= w);
    assert(r.labels == w);
    // A second round starts from the same state as the first pass 2.
    let t0 = AsmState { pc: 0, labels: r.labels, program: Seq::empty() };
    assert(t0 == s0w);
}

/// Pass 1 records every label that the lines define, and keeps those it had.
proof fn lemma_pass1_collects(st: AsmState, lines: Seq<Seq<char>>, name: Seq<char>)
    requires
        assemble_lines(st, lines, 1) is Ok,
        st.labels.contains_key(name) || exists|i: int|
            0 <= i < lines.len() && label_def(lines[i]) == Some(name),
    ensures
        assemble_lines(st, lines, 1)->Ok_0.labels.contains_key(name),
    decreases lines.len(),
{
    if lines.len() > 0 {
        let next = line_step(st, lines[0], 1)->Ok_0;
        assert(next.labels.contains_key(name) || exists|i: int|
            0 <= i < lines.drop_first().len() && label_def(lines.drop_first()[i]) == Some(name))
            by {
            if !st.labels.contains_key(name) && label_def(lines[0]) != Some(name) {
                let i = choose|i: int| 0 <= i < lines.len() && label_def(lines[i]) == Some(name);
                assert(lines.drop_first()[i - 1] == lines[i]);
            }
        }
        lemma_pass1_collects(next, lines.drop_first(), name);
    }
}

/// Pass 2 does not fail on a label reference whose name the table already holds.
proof fn lemma_pass2_resolves(st: AsmState, lines: Seq<Seq<char>>)
    requires
        forall|j: int|
            0 <= j < lines.len() && (#[trigger] label_ref(lines[j])) is Some
                ==> st.labels.contains_key(label_ref(lines[j])->Some_0),
    ensures
        assemble_lines(st, lines, 2) != Err::<AsmState, AsmError>(AsmError::UndefinedLabel),
    decreases lines.len(),
{
    if lines.len() > 0 {
        let r = line_step(st, lines[0], 2);
        if r is Ok {
            let next = r->Ok_0;
            assert forall|j: int|
                0 <= j < lines.drop_first().len() && (#[trigger] label_ref(
                    lines.drop_first()[j],
                )) is Some implies next.labels.contains_key(
                label_ref(lines.drop_first()[j])->Some_0,
            ) by {
                assert(lines.drop_first()[j] == lines[j + 1]);
            }
            lemma_pass2_resolves(next, lines.drop_first());
        } else {
            // The first line's own reference, if any, is in the table.
            assert(label_ref(lines[0]) is Some ==> st.labels.contains_key(
                label_ref(lines[0])->Some_0,
            ));
        }
    }
}

/// Labels may be used before they are defined: when every label that the
/// source refers to is defined somewhere in it, assembly never reports an
/// undefined label.
pub proof fn lemma_forward_references(code: Seq<char>)
    requires
        refs_defined(lines_of(code)),
    ensures
        two_pass(Map::empty(), code) != Err::<AsmState, AsmError>(AsmError::UndefinedLabel),
{
    let lines = lines_of(code);
    let s0 = AsmState { pc: 0, labels: Map::empty(), program: Seq::empty() };
    let a = assemble_lines(s0, lines, 1);
    lemma_pass1_shift(s0, lines, Map::empty());
    if a is Ok {
        let first = a->Ok_0;
        assert forall|j: int|
            0 <= j < lines.len() && (#[trigger] label_ref(lines[j])) is Some
                implies first.labels.contains_key(label_ref(lines[j])->Some_0) by {
            let i = choose|i: int|
                0 <= i < lines.len() && #[trigger] label_def(lines[i]) == label_ref(lines[j]);
            lemma_pass1_collects(s0, lines, label_ref(lines[j])->Some_0);
        }
        lemma_pass2_resolves(
            AsmState { pc: 0, labels: first.labels, program: first.program },
            lines,
        );
    }
}

/// Incrementing and then decrementing the top of the stack leaves the stack as it was.
pub proof fn lemma_inc_dec(v: FrameView)
    requires
        v.stack.len() > 0,
        v.pc < 254,
    ensures
        step(v, Instruction { instruction: InstructionType::Inc, operand: 0 }) is Continue,
        step(
            step(v, Instruction { instruction: InstructionType::Inc, operand: 0 })->Continue_0,
            Instruction { instruction: InstructionType::Dec, operand: 0 },
        ) is Continue,
        step(
            step(v, Instruction { instruction: InstructionType::Inc, operand: 0 })->Continue_0,
            Instruction { instruction: InstructionType::Dec, operand: 0 },
        )->Continue_0.stack == v.stack,
{
    let w = step(v, Instruction { instruction: InstructionType::Inc, operand: 0 })->Continue_0;
    let u = step(w, Instruction { instruction: InstructionType::Dec, operand: 0 })->Continue_0;
    assert(u.stack =~= v.stack);
}

/// A `ret` that finds the return stack as a `call` left it resumes at the
/// instruction after the `call`, with the return stack as it was before.
pub proof fn lemma_call_returns(v: FrameView, target: u8, u: FrameView)
    requires
        v.pc < 255,
        u.retstack == step(
            v,
            Instruction { instruction: InstructionType::Call, operand: target },
        )->Continue_0.retstack,
    ensures
        step(v, Instruction { instruction: InstructionType::Call, operand: target }) is Continue,
        step(v, Instruction { instruction: InstructionType::Call, operand: target })->Continue_0.pc
            == target,
        step(u, Instruction { instruction: InstructionType::Ret, operand: 0 }) is Continue,
        step(u, Instruction { instruction: InstructionType::Ret, operand: 0 })->Continue_0.pc
            == v.pc + 1,
        step(u, Instruction { instruction: InstructionType::Ret, operand: 0 })->Continue_0.retstack
            == v.retstack,
{
    let w = step(v, Instruction { instruction: InstructionType::Call, operand: target })->Continue_0;
    assert(w.retstack.drop_last() =~= v.retstack);
}

/// Whether some line of `lines` defines `name`.
pub open spec fn defined(lines: Seq<Seq<char>>, name: Seq<char>) -> bool {
    exists|i: int| 0 <= i < lines.len() && #[trigger] label_def(lines[i]) == Some(name)
}

/// Whether `line` is an instruction whose numeric operand is not a decimal byte.
pub open spec fn bad_number(line: Seq<char>) -> bool {
    let w = words_of(line);
    &&& w.len() >= 2
    &&& !is_comment(w[0])
    &&& !is_label_def(w[0])
    &&& kind_of(w[0]) is Some
    &&& operand_class_spec(kind_of(w[0])->Some_0) == OperandClass::Number
    &&& byte_literal(w[1]) is None
}

/// Pass 1 adds no name that the lines do not define.
proof fn lemma_pass1_keys(st: AsmState, lines: Seq<Seq<char>>, name: Seq<char>)
    requires
        assemble_lines(st, lines, 1) is Ok,
        !st.labels.contains_key(name),
        !defined(lines, name),
    ensures
        !assemble_lines(st, lines, 1)->Ok_0.labels.contains_key(name),
    decreases lines.len(),
{
    if lines.len() > 0 {
        let next = line_step(st, lines[0], 1)->Ok_0;
        assert(label_def(lines[0]) != Some(name));
        assert(!defined(lines.drop_first(), name)) by {
            if defined(lines.drop_first(), name) {
                let i = choose|i: int|
                    0 <= i < lines.drop_first().len() && #[trigger] label_def(
                        lines.drop_first()[i],
                    ) == Some(name);
                assert(lines.drop_first()[i] == lines[i + 1]);
            }
        }
        lemma_pass1_keys(next, lines.drop_first(), name);
    }
}

/// Pass 2 fails when line `j` refers to a name that neither the table nor any
/// line defines, or has a numeric operand that is not a byte.
proof fn lemma_pass2_fails_at(st: AsmState, lines: Seq<Seq<char>>, j: int)
    requires
        0 <= j < lines.len(),
        bad_number(lines[j]) || (label_ref(lines[j]) is Some && !st.labels.contains_key(
            label_ref(lines[j])->Some_0,
        ) && !defined(lines, label_ref(lines[j])->Some_0)),
    ensures
        assemble_lines(st, lines, 2) is Err,
    decreases j,
{
    let r = line_step(st, lines[0], 2);
    if j > 0 && r is Ok {
        let rest = lines.drop_first();
        assert(rest[j - 1] == lines[j]);
        if !bad_number(lines[j]) {
            let name = label_ref(lines[j])->Some_0;
            assert(label_def(lines[0]) != Some(name));
            assert(!defined(rest, name)) by {
                if defined(rest, name) {
                    let i = choose|i: int|
                        0 <= i < rest.len() && #[trigger] label_def(rest[i]) == Some(name);
                    assert(rest[i] == lines[i + 1]);
                }
            }
        }
        lemma_pass2_fails_at(r->Ok_0, rest, j - 1);
    }
}

/// A label operand that no line defines, or a numeric operand that is not a
/// decimal byte, makes assembly fail; the assembler reports it without
/// touching the stacks or memory, so nothing of the program runs.
pub proof fn lemma_bad_operand_fails(code: Seq<char>, j: int)
    requires
        0 <= j < lines_of(code).len(),
        bad_number(lines_of(code)[j]) || (label_ref(lines_of(code)[j]) is Some && !defined(
            lines_of(code),
            label_ref(lines_of(code)[j])->Some_0,
        )),
    ensures
        two_pass(Map::empty(), code) is Err,
{
    let lines = lines_of(code);
    let s0 = AsmState { pc: 0, labels: Map::empty(), program: Seq::empty() };
    let a = assemble_lines(s0, lines, 1);
    if a is Ok {
        let first = a->Ok_0;
        if !bad_number(lines[j]) {
            lemma_pass1_keys(s0, lines, label_ref(lines[j])->Some_0);
        }
        lemma_pass2_fails_at(
            AsmState { pc: 0, labels: first.labels, program: first.program },
            lines,
            j,
        );
    }
}

/// Whether `line` holds an instruction: it has words, and its first word
/// neither starts a comment nor defines a label.
pub open spec fn is_instruction_line(line: Seq<char>) -> bool {
    let w = words_of(line);
    w.len() > 0 && !is_comment(w[0]) && !is_label_def(w[0])
}

/// The number of instruction lines among the first `n` lines: the position
/// in the program of what line `n` holds or points at.
pub open spec fn position(lines: Seq<Seq<char>>, n: int) -> int
    decreases lines.len(),
{
    if n <= 0 || lines.len() == 0 {
        0
    } else {
        (if is_instruction_line(lines[0]) {
            1int
        } else {
            0
        }) + position(lines.drop_first(), n - 1)
    }
}

/// Line `i` defines `name`, and no other line does.
pub open spec fn defined_once_at(lines: Seq<Seq<char>>, name: Seq<char>, i: int) -> bool {
    &&& 0 <= i < lines.len()
    &&& label_def(lines[i]) == Some(name)
    &&& forall|m: int| 0 <= m < lines.len() && m != i ==> #[trigger] label_def(lines[m]) != Some(name)
}

/// Pass 1 leaves alone the entry of a name that the lines do not define.
proof fn lemma_pass1_keeps(st: AsmState, lines: Seq<Seq<char>>, name: Seq<char>)
    requires
        assemble_lines(st, lines, 1) is Ok,
        st.labels.contains_key(name),
        !defined(lines, name),
    ensures
        assemble_lines(st, lines, 1)->Ok_0.labels.contains_key(name),
        assemble_lines(st, lines, 1)->Ok_0.labels[name] == st.labels[name],
    decreases lines.len(),
{
    if lines.len() > 0 {
        let next = line_step(st, lines[0], 1)->Ok_0;
        assert(label_def(lines[0]) != Some(name));
        assert(!defined(lines.drop_first(), name)) by {
            if defined(lines.drop_first(), name) {
                let i = choose|i: int|
                    0 <= i < lines.drop_first().len() && #[trigger] label_def(
                        lines.drop_first()[i],
                    ) == Some(name);
                assert(lines.drop_first()[i] == lines[i + 1]);
            }
        }
        lemma_pass1_keeps(next, lines.drop_first(), name);
    }
}

/// Pass 1 maps a name defined once to the position of its definition.
proof fn lemma_pass1_value(st: AsmState, lines: Seq<Seq<char>>, name: Seq<char>, i: int)
    requires
        assemble_lines(st, lines, 1) is Ok,
        defined_once_at(lines, name, i),
    ensures
        assemble_lines(st, lines, 1)->Ok_0.labels.contains_key(name),
        assemble_lines(st, lines, 1)->Ok_0.labels[name] == st.pc + position(lines, i),
    decreases lines.len(),
{
    let next = line_step(st, lines[0], 1)->Ok_0;
    let rest = lines.drop_first();
    if i == 0 {
        assert(!defined(rest, name)) by {
            if defined(rest, name) {
                let m = choose|m: int| 0 <= m < rest.len() && #[trigger] label_def(rest[m]) == Some(name);
                assert(rest[m] == lines[m + 1]);
            }
        }
        lemma_pass1_keeps(next, rest, name);
    } else {
        assert(rest[i - 1] == lines[i]);
        assert forall|m: int| 0 <= m < rest.len() && m != i - 1 implies #[trigger] label_def(rest[m])
            != Some(name) by {
            assert(rest[m] == lines[m + 1]);
        }
        assert(label_def(lines[0]) != Some(name));
        lemma_pass1_value(next, rest, name, i - 1);
    }
}

/// Pass 2 only appends to the program.
proof fn lemma_pass2_extends(st: AsmState, lines: Seq<Seq<char>>)
    requires
        assemble_lines(st, lines, 2) is Ok,
    ensures
        assemble_lines(st, lines, 2)->Ok_0.program.len() >= st.program.len(),
        forall|k: int|
            0 <= k < st.program.len() ==> #[trigger] assemble_lines(st, lines, 2)->Ok_0.program[k]
                == st.program[k],
    decreases lines.len(),
{
    if lines.len() > 0 {
        lemma_pass2_extends(line_step(st, lines[0], 2)->Ok_0, lines.drop_first());
    }
}

/// In pass 2, a table that already maps `name` to the position of each of its
/// definitions resolves every reference to `name` to that value.
proof fn lemma_pass2_value(st: AsmState, lines: Seq<Seq<char>>, name: Seq<char>, j: int)
    requires
        assemble_lines(st, lines, 2) is Ok,
        st.labels.contains_key(name),
        forall|m: int|
            0 <= m < lines.len() && #[trigger] label_def(lines[m]) == Some(name)
                ==> st.labels[name] == st.pc + position(lines, m),
        0 <= j < lines.len(),
        label_ref(lines[j]) == Some(name),
    ensures
        st.program.len() + position(lines, j) < assemble_lines(st, lines, 2)->Ok_0.program.len(),
        assemble_lines(st, lines, 2)->Ok_0.program[st.program.len() + position(lines, j)] == (
        Instruction {
            instruction: kind_of(words_of(lines[j])[0])->Some_0,
            operand: st.labels[name],
        }),
    decreases lines.len(),
{
    let next = line_step(st, lines[0], 2)->Ok_0;
    let rest = lines.drop_first();
    if j == 0 {
        lemma_pass2_extends(next, rest);
    } else {
        assert(rest[j - 1] == lines[j]);
        if label_def(lines[0]) == Some(name) {
            assert(st.labels[name] == st.pc + position(lines, 0));
        }
        assert(next.labels.contains_key(name) && next.labels[name] == st.labels[name]);
        assert forall|m: int|
            0 <= m < rest.len() && #[trigger] label_def(rest[m]) == Some(name)
                implies next.labels[name] == next.pc + position(rest, m) by {
            assert(rest[m] == lines[m + 1]);
            assert(label_def(lines[m + 1]) == Some(name));
        }
        lemma_pass2_value(next, rest, name, j - 1);
    }
}

/// Label resolution does not depend on order: a reference to a label that is
/// defined once, before or after the reference, assembles to the position of
/// that definition.
pub proof fn lemma_label_resolution(code: Seq<char>, name: Seq<char>, i: int, j: int)
    requires
        defined_once_at(lines_of(code), name, i),
        0 <= j < lines_of(code).len(),
        label_ref(lines_of(code)[j]) == Some(name),
        two_pass(Map::empty(), code) is Ok,
    ensures
        position(lines_of(code), j) < two_pass(Map::empty(), code)->Ok_0.program.len(),
        two_pass(Map::empty(), code)->Ok_0.program[position(lines_of(code), j)] == (Instruction {
            instruction: kind_of(words_of(lines_of(code)[j])[0])->Some_0,
            operand: position(lines_of(code), i) as u8,
        }),
{
    let lines = lines_of(code);
    let s0 = AsmState { pc: 0, labels: Map::empty(), program: Seq::empty() };
    lemma_pass1_shift(s0, lines, Map::empty());
    lemma_pass1_value(s0, lines, name, i);
    let first = assemble_lines(s0, lines, 1)->Ok_0;
    let s1 = AsmState { pc: 0, labels: first.labels, program: first.program };
    assert forall|m: int|
        0 <= m < lines.len() && #[trigger] label_def(lines[m]) == Some(name) implies s1.labels[name]
        == s1.pc + position(lines, m) by {
        assert(m == i);
    }
    lemma_pass2_value(s1, lines, name, j);
}

} // verus!
