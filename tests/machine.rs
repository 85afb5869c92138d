use stack_asm::assembler::AsmError;
use stack_asm::instruction::{Instruction, InstructionType};
use stack_asm::machine::{Control, Exit, Frame, RuntimeError};

fn assembled(code: &str) -> Frame {
    let mut frame = Frame::new();
    assert_eq!(frame.assembler(code, 1), Ok(()));
    assert_eq!(frame.assembler(code, 2), Ok(()));
    frame
}

fn ran(code: &str) -> (Frame, Result<Exit, RuntimeError>) {
    let mut frame = assembled(code);
    let r = frame.execute(10_000);
    (frame, r)
}

#[test]
fn new_frame_is_empty() {
    let frame = Frame::new();
    assert!(frame.stack().is_empty());
    assert!(frame.retstack().is_empty());
    assert_eq!(frame.memory().len(), 256);
    assert!(frame.memory().iter().all(|b| *b == 0));
    assert_eq!(frame.pc(), 0);
    assert!(frame.instructions().is_empty());
}

#[test]
fn assembling_twice_gives_same_program_and_labels() {
    let code = "start:\npush 1\njz end\ncall f\nend:\nhalt\nf:\nret\n";
    let a = assembled(code);
    let b = assembled(code);
    assert_eq!(a.instructions(), b.instructions());
    for name in ["start", "end", "f"] {
        assert_eq!(a.label(name), b.label(name));
    }
    // A second round on a frame with an empty program, seeded with the labels found.
    let mut c = Frame::new();
    assert_eq!(c.assembler(code, 1), Ok(()));
    assert_eq!(c.assembler(code, 1), Ok(()));
    assert_eq!(c.assembler(code, 2), Ok(()));
    assert_eq!(c.instructions(), a.instructions());
    assert_eq!(c.label("end"), Some(3));
    assert_eq!(c.label("f"), Some(4));
    assert_eq!(c.label("start"), Some(0));
}

#[test]
fn forward_label_reference_resolves() {
    let frame = assembled("jmp end\npush 1\nend:\nhalt");
    assert_eq!(
        frame.instructions()[0],
        Instruction { instruction: InstructionType::Jmp, operand: 2 }
    );
    assert_eq!(frame.instructions()[2].instruction, InstructionType::Halt);
    assert_eq!(frame.label("end"), Some(2));
    // The same source as one line per label: what follows a label on its line is not read.
    let frame = assembled("jmp end\npush 1\nend: halt");
    assert_eq!(frame.instructions().len(), 2);
    assert_eq!(
        frame.instructions()[0],
        Instruction { instruction: InstructionType::Jmp, operand: 2 }
    );
}

#[test]
fn inc_then_dec_round_trip() {
    let (frame, r) = ran("push 5\ninc\ndec");
    assert_eq!(r, Ok(Exit::Finished));
    assert_eq!(frame.stack(), &vec![5u8]);
}

#[test]
fn nand_of_three_and_five() {
    let (frame, r) = ran("push 3\npush 5\nnand");
    assert_eq!(r, Ok(Exit::Finished));
    assert_eq!(frame.stack(), &vec![!(5u8 & 3u8)]);
    assert_eq!(frame.stack(), &vec![254u8]);
    let (frame, _) = ran("push 12\npush 10\nnand");
    assert_eq!(frame.stack(), &vec![0b1111_0111u8]);
}

#[test]
fn jz_skips_when_top_is_zero() {
    let (frame, r) = ran("push 0\njz skip\npush 99\nskip: halt");
    assert_eq!(r, Ok(Exit::Finished));
    assert_eq!(frame.stack(), &vec![0u8]);
    let (frame, r) = ran("push 0\njz skip\npush 99\nskip:\nhalt");
    assert_eq!(r, Ok(Exit::Halted));
    assert_eq!(frame.stack(), &vec![0u8]);
}

#[test]
fn jnz_falls_through_on_zero_and_jumps_otherwise() {
    let (frame, _) = ran("push 0\njnz skip\npush 99\nskip: halt");
    assert_eq!(frame.stack(), &vec![0u8, 99]);
    let (frame, _) = ran("push 1\njnz skip\npush 99\nskip: halt");
    assert_eq!(frame.stack(), &vec![1u8]);
}

#[test]
fn store_then_load_round_trip() {
    let (frame, r) = ran("push 7\nstore 10\nload 10");
    assert_eq!(r, Ok(Exit::Finished));
    assert_eq!(frame.stack(), &vec![7u8]);
    assert_eq!(frame.memory()[10], 7);
}

#[test]
fn call_returns_after_the_call() {
    let (frame, r) = ran("call f\npush 1\nhalt\nf:\npush 2\nret");
    assert_eq!(r, Ok(Exit::Halted));
    assert_eq!(frame.stack(), &vec![2u8, 1]);
    assert!(frame.retstack().is_empty());
    assert_eq!(frame.pc(), 2);
}

#[test]
fn pick_zero_duplicates_top() {
    let (frame, _) = ran("push 4\npush 9\npick 0");
    assert_eq!(frame.stack(), &vec![4u8, 9, 9]);
    let (frame, _) = ran("push 4\npush 9\npick 1");
    assert_eq!(frame.stack(), &vec![4u8, 9, 4]);
}

#[test]
fn poke_zero_overwrites_new_top() {
    let (frame, _) = ran("push 4\npush 9\npush 7\npoke 0");
    assert_eq!(frame.stack(), &vec![4u8, 7]);
    let (frame, _) = ran("push 4\npush 9\npush 7\npoke 1");
    assert_eq!(frame.stack(), &vec![7u8, 9]);
}

#[test]
fn swap_exchanges_top_two() {
    let (frame, _) = ran("push 1\npush 2\nswap");
    assert_eq!(frame.stack(), &vec![2u8, 1]);
}

#[test]
fn pop_discards_top() {
    let (frame, _) = ran("push 1\npush 2\npop");
    assert_eq!(frame.stack(), &vec![1u8]);
}

#[test]
fn arithmetic_wraps_at_256() {
    let (frame, _) = ran("push 255\ninc");
    assert_eq!(frame.stack(), &vec![0u8]);
    let (frame, _) = ran("push 0\ndec");
    assert_eq!(frame.stack(), &vec![255u8]);
}

#[test]
fn halt_stops_at_once() {
    let (frame, r) = ran("push 1\nhalt\npush 2");
    assert_eq!(r, Ok(Exit::Halted));
    assert_eq!(frame.stack(), &vec![1u8]);
    assert_eq!(frame.pc(), 1);
}

#[test]
fn loop_runs_out_of_steps() {
    let mut frame = assembled("top:\njmp top");
    assert_eq!(frame.execute(10), Ok(Exit::OutOfSteps));
    assert_eq!(frame.pc(), 0);
}

#[test]
fn countdown_loop_finishes() {
    let (frame, r) = ran("push 3\nagain:\ndec\njnz again\npush 42");
    assert_eq!(r, Ok(Exit::Finished));
    assert_eq!(frame.stack(), &vec![0u8, 42]);
}

#[test]
fn empty_program_finishes() {
    let (frame, r) = ran("");
    assert_eq!(r, Ok(Exit::Finished));
    assert!(frame.stack().is_empty());
}

#[test]
fn runtime_errors() {
    assert_eq!(ran("pop").1, Err(RuntimeError::StackUnderflow));
    assert_eq!(ran("inc").1, Err(RuntimeError::StackUnderflow));
    assert_eq!(ran("jz x\nx: halt").1, Err(RuntimeError::StackUnderflow));
    assert_eq!(ran("push 1\nnand").1, Err(RuntimeError::StackUnderflow));
    assert_eq!(ran("push 1\nswap").1, Err(RuntimeError::StackUnderflow));
    assert_eq!(ran("store 3").1, Err(RuntimeError::StackUnderflow));
    assert_eq!(ran("ret").1, Err(RuntimeError::ReturnUnderflow));
    assert_eq!(ran("push 1\npick 1").1, Err(RuntimeError::DepthOutOfRange));
    assert_eq!(ran("push 1\npoke 0").1, Err(RuntimeError::DepthOutOfRange));
    assert_eq!(ran("poke 0").1, Err(RuntimeError::StackUnderflow));
}

#[test]
fn fault_leaves_frame_unchanged() {
    let (frame, r) = ran("push 8\npush 1\npick 5");
    assert_eq!(r, Err(RuntimeError::DepthOutOfRange));
    assert_eq!(frame.stack(), &vec![8u8, 1]);
    assert_eq!(frame.pc(), 2);
}

#[test]
fn pc_overflow_is_reported() {
    let code = "push 1\n".repeat(255);
    let mut frame = assembled(&code);
    assert_eq!(frame.pc(), 255);
    let r = frame.execute_single(Instruction { instruction: InstructionType::Push, operand: 3 });
    assert_eq!(r, Err(RuntimeError::PcOverflow));
    let r = frame.execute_single(Instruction { instruction: InstructionType::Jmp, operand: 3 });
    assert_eq!(r, Ok(Control::Continue));
    assert_eq!(frame.pc(), 3);
}

#[test]
fn execute_single_halt() {
    let mut frame = Frame::new();
    let r = frame.execute_single(Instruction { instruction: InstructionType::Halt, operand: 0 });
    assert_eq!(r, Ok(Control::Halt));
    assert_eq!(frame.pc(), 0);
}

#[test]
fn undefined_label_fails_assembly() {
    let mut frame = Frame::new();
    assert_eq!(frame.assembler("push 1\njmp nowhere", 1), Ok(()));
    assert_eq!(frame.assembler("push 1\njmp nowhere", 2), Err(AsmError::UndefinedLabel));
    assert!(frame.stack().is_empty());
}

#[test]
fn bad_number_fails_assembly() {
    for code in ["push 256", "push x", "push -1", "push +", "load 1.5", "pick ++1"] {
        let mut frame = Frame::new();
        assert_eq!(frame.assembler(code, 1), Ok(()));
        assert_eq!(frame.assembler(code, 2), Err(AsmError::BadNumber), "{}", code);
        assert!(frame.stack().is_empty());
    }
}

#[test]
fn numbers_accept_plus_and_leading_zeros() {
    let frame = assembled("push +5\npush 007\npush 255\npush 0");
    let ops: Vec<u8> = frame.instructions().iter().map(|i| i.operand).collect();
    assert_eq!(ops, vec![5, 7, 255, 0]);
}

#[test]
fn unknown_and_incomplete_lines_fail() {
    let mut frame = Frame::new();
    assert_eq!(frame.assembler("PUSH 1", 2), Err(AsmError::UnknownMnemonic));
    let mut frame = Frame::new();
    assert_eq!(frame.assembler("push", 2), Err(AsmError::MissingOperand));
    let mut frame = Frame::new();
    assert_eq!(frame.assembler("jmp", 2), Err(AsmError::MissingOperand));
}

#[test]
fn too_many_instructions_fail() {
    let code = "inc\n".repeat(256);
    let mut frame = Frame::new();
    assert_eq!(frame.assembler(&code, 1), Err(AsmError::ProgramTooLong));
    let code = "inc\n".repeat(255);
    let mut frame = Frame::new();
    assert_eq!(frame.assembler(&code, 1), Ok(()));
    assert_eq!(frame.pc(), 255);
}

#[test]
fn blank_comment_and_label_lines_take_no_slot() {
    let code = "\n; a comment\n   \n\tfirst:\n  push 1 ; trailing words are ignored\nsecond::\r\npush 2\n";
    let frame = assembled(code);
    assert_eq!(frame.instructions().len(), 2);
    assert_eq!(frame.label("first"), Some(0));
    assert_eq!(frame.label("second"), Some(1));
    assert_eq!(frame.label("second:"), None);
}

#[test]
fn pass_one_emits_nothing() {
    let mut frame = Frame::new();
    assert_eq!(frame.assembler("push 1\nbogus\nl: inc", 1), Ok(()));
    assert!(frame.instructions().is_empty());
    assert_eq!(frame.pc(), 2);
    assert_eq!(frame.label("l"), Some(2));
}

#[test]
fn duplicate_label_last_definition_wins() {
    let mut frame = Frame::new();
    let code = "a:\npush 1\na:\npush 2";
    assert_eq!(frame.assembler(code, 1), Ok(()));
    assert_eq!(frame.label("a"), Some(1));
}
