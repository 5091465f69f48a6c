use intcode::vm::{
    compute, equals, get_2_params, get_3_params, jump_if_false, jump_if_true, less_than, patch,
    perform_add, perform_input, perform_mul, perform_output, search, Fault,
};

fn run_no_io(program: &mut Vec<i32>) -> Result<(), Fault> {
    let mut input: Vec<i32> = Vec::new();
    let mut output: Vec<i32> = Vec::new();
    compute(program, &mut input, &mut output)
}

fn run_io(program: Vec<i32>, input: Vec<i32>) -> Vec<i32> {
    let mut program = program;
    let mut input = input;
    let mut output: Vec<i32> = Vec::new();
    assert_eq!(compute(&mut program, &mut input, &mut output), Ok(()));
    output
}

#[test]
fn test_compute() {
    // 1,0,0,0,99 becomes 2,0,0,0,99 (1 + 1 = 2).
    let mut a: Vec<i32> = vec![1, 0, 0, 0, 99];
    let b: Vec<i32> = vec![2, 0, 0, 0, 99];
    assert_eq!(run_no_io(&mut a), Ok(()));
    assert_eq!(a, b);

    // 2,3,0,3,99 becomes 2,3,0,6,99 (3 * 2 = 6).
    let mut a: Vec<i32> = vec![2, 3, 0, 3, 99];
    let b: Vec<i32> = vec![2, 3, 0, 6, 99];
    assert_eq!(run_no_io(&mut a), Ok(()));
    assert_eq!(a, b);

    // 2,4,4,5,99,0 becomes 2,4,4,5,99,9801 (99 * 99 = 9801).
    let mut a: Vec<i32> = vec![2, 4, 4, 5, 99, 0];
    let b: Vec<i32> = vec![2, 4, 4, 5, 99, 9801];
    assert_eq!(run_no_io(&mut a), Ok(()));
    assert_eq!(a, b);

    // 1,1,1,4,99,5,6,0,99 becomes 30,1,1,4,2,5,6,0,99.
    let mut a: Vec<i32> = vec![1, 1, 1, 4, 99, 5, 6, 0, 99];
    let b: Vec<i32> = vec![30, 1, 1, 4, 2, 5, 6, 0, 99];
    assert_eq!(run_no_io(&mut a), Ok(()));
    assert_eq!(a, b);
}

#[test]
fn main_test_compute() {
    let mut a: Vec<i32> = vec![1, 0, 0, 0, 99];
    let b: Vec<i32> = vec![2, 0, 0, 0, 99];
    assert_eq!(run_no_io(&mut a), Ok(()));
    assert_eq!(a, b);

    let mut a: Vec<i32> = vec![2, 3, 0, 3, 99];
    let b: Vec<i32> = vec![2, 3, 0, 6, 99];
    assert_eq!(run_no_io(&mut a), Ok(()));
    assert_eq!(a, b);

    let mut a: Vec<i32> = vec![2, 4, 4, 5, 99, 0];
    let b: Vec<i32> = vec![2, 4, 4, 5, 99, 9801];
    assert_eq!(run_no_io(&mut a), Ok(()));
    assert_eq!(a, b);

    let mut a: Vec<i32> = vec![1, 1, 1, 4, 99, 5, 6, 0, 99];
    let b: Vec<i32> = vec![30, 1, 1, 4, 2, 5, 6, 0, 99];
    assert_eq!(run_no_io(&mut a), Ok(()));
    assert_eq!(a, b);
}

#[test]
fn test_io() {
    // The echo program hands one input value straight back.
    let output = run_io(vec![3, 0, 4, 0, 99], vec![123]);
    assert_eq!(output, vec![123]);
}

#[test]
fn test_modes() {
    let mut a: Vec<i32> = vec![1101, 100, -1, 4, 0];
    let b: Vec<i32> = vec![1101, 100, -1, 4, 99];
    assert_eq!(run_no_io(&mut a), Ok(()));
    assert_eq!(a, b);

    let mut a: Vec<i32> = vec![101, 100, 5, 4, 0, -1];
    let b: Vec<i32> = vec![101, 100, 5, 4, 99, -1];
    assert_eq!(run_no_io(&mut a), Ok(()));
    assert_eq!(a, b);

    let mut a: Vec<i32> = vec![1001, 5, -1, 4, 0, 100];
    let b: Vec<i32> = vec![1001, 5, -1, 4, 99, 100];
    assert_eq!(run_no_io(&mut a), Ok(()));
    assert_eq!(a, b);

    let mut a: Vec<i32> = vec![1002, 5, 11, 4, 0, 9];
    let b: Vec<i32> = vec![1002, 5, 11, 4, 99, 9];
    assert_eq!(run_no_io(&mut a), Ok(()));
    assert_eq!(a, b);
}

#[test]
fn test_equal_to() {
    // Position mode: outputs 1 when the input equals 8.
    let output = run_io(vec![3, 9, 8, 9, 10, 9, 4, 9, 99, -1, 8], vec![8]);
    assert_eq!(output, vec![1]);

    let output = run_io(vec![3, 9, 8, 9, 10, 9, 4, 9, 99, -1, 8], vec![1]);
    assert_eq!(output, vec![0]);

    // Immediate mode.
    let output = run_io(vec![3, 3, 1108, -1, 8, 3, 4, 3, 99], vec![8]);
    assert_eq!(output, vec![1]);

    let output = run_io(vec![3, 3, 1108, -1, 8, 3, 4, 3, 99], vec![1]);
    assert_eq!(output, vec![0]);
}

#[test]
fn test_less_than() {
    // Position mode: outputs 1 when the input is below 8.
    let output = run_io(vec![3, 9, 7, 9, 10, 9, 4, 9, 99, -1, 8], vec![10]);
    assert_eq!(output, vec![0]);

    let output = run_io(vec![3, 9, 7, 9, 10, 9, 4, 9, 99, -1, 8], vec![8]);
    assert_eq!(output, vec![0]);

    let output = run_io(vec![3, 9, 7, 9, 10, 9, 4, 9, 99, -1, 8], vec![1]);
    assert_eq!(output, vec![1]);

    // Immediate mode.
    let output = run_io(vec![3, 3, 1107, -1, 8, 3, 4, 3, 99], vec![10]);
    assert_eq!(output, vec![0]);

    let output = run_io(vec![3, 3, 1107, -1, 8, 3, 4, 3, 99], vec![8]);
    assert_eq!(output, vec![0]);

    let output = run_io(vec![3, 3, 1107, -1, 8, 3, 4, 3, 99], vec![1]);
    assert_eq!(output, vec![1]);
}

#[test]
fn test_jmp() {
    // Position mode: outputs 0 when the input was zero, 1 otherwise.
    let jump_pos: Vec<i32> = vec![3, 12, 6, 12, 15, 1, 13, 14, 13, 4, 13, 99, -1, 0, 1, 9];
    let output = run_io(jump_pos.clone(), vec![0]);
    assert_eq!(output, vec![0]);

    let output = run_io(jump_pos.clone(), vec![-1]);
    assert_eq!(output, vec![1]);

    let output = run_io(jump_pos.clone(), vec![10]);
    assert_eq!(output, vec![1]);

    // Immediate mode.
    let jump_imm: Vec<i32> = vec![3, 3, 1105, -1, 9, 1101, 0, 0, 12, 4, 12, 99, 1];
    let output = run_io(jump_imm.clone(), vec![0]);
    assert_eq!(output, vec![0]);

    let output = run_io(jump_imm.clone(), vec![-1]);
    assert_eq!(output, vec![1]);

    let output = run_io(jump_imm.clone(), vec![10]);
    assert_eq!(output, vec![1]);
}

#[test]
fn test_rerun_diverges() {
    // Running mutates memory: a second run over the mutated buffer does
    // not reproduce a fresh run's result.
    let fresh: Vec<i32> = vec![1, 0, 0, 0, 99];
    let mut first = fresh.clone();
    assert_eq!(run_no_io(&mut first), Ok(()));
    assert_eq!(first, vec![2, 0, 0, 0, 99]);

    let mut rerun = first.clone();
    assert_eq!(run_no_io(&mut rerun), Ok(()));
    // 2,0,0,0,99 multiplies position 0 by itself: 2 * 2 = 4.
    assert_eq!(rerun, vec![4, 0, 0, 0, 99]);
    assert_ne!(rerun, first);
}

#[test]
fn test_deterministic_runs() {
    // Two fresh runs over the same program and input agree exactly.
    let program: Vec<i32> = vec![3, 9, 8, 9, 10, 9, 4, 9, 99, -1, 8];
    let mut first = program.clone();
    let mut second = program.clone();
    let mut in1: Vec<i32> = vec![8];
    let mut in2: Vec<i32> = vec![8];
    let mut out1: Vec<i32> = Vec::new();
    let mut out2: Vec<i32> = Vec::new();
    assert_eq!(compute(&mut first, &mut in1, &mut out1), Ok(()));
    assert_eq!(compute(&mut second, &mut in2, &mut out2), Ok(()));
    assert_eq!(first, second);
    assert_eq!(out1, out2);
}

#[test]
fn test_patch() {
    let mut program: Vec<i32> = vec![1, 0, 0, 0, 99];
    patch(&mut program, 12, 2);
    assert_eq!(program, vec![1, 12, 2, 0, 99]);
}

#[test]
fn test_search_finds_last_match() {
    // Position 0 gets memory[noun] + memory[verb]; everything past the
    // halt opcode is zero, so the last pair summing to 0 is (98, 98).
    let mut program: Vec<i32> = vec![1, 0, 0, 0, 99];
    for _ in 0..98 {
        program.push(0);
    }
    assert_eq!(search(0, program.clone()), Some((98, 98)));
    // No pair of cells can sum to a large target.
    assert_eq!(search(123456, program), None);
}

#[test]
fn test_fault_unknown_opcode() {
    let mut program: Vec<i32> = vec![42, 0];
    assert_eq!(run_no_io(&mut program), Err(Fault::UnknownOpcode));

    let mut program: Vec<i32> = vec![-7, 0];
    assert_eq!(run_no_io(&mut program), Err(Fault::UnknownOpcode));
}

#[test]
fn test_fault_out_of_bounds() {
    // The first operand dereferences position 50, far past the end.
    let mut program: Vec<i32> = vec![1, 50, 50, 50, 99];
    assert_eq!(run_no_io(&mut program), Err(Fault::OutOfBounds));

    // Running off the end of memory without a halt opcode.
    let mut program: Vec<i32> = vec![1101, 1, 1, 0];
    assert_eq!(run_no_io(&mut program), Err(Fault::OutOfBounds));
}

#[test]
fn test_fault_input_exhausted() {
    let mut program: Vec<i32> = vec![3, 0, 99];
    assert_eq!(run_no_io(&mut program), Err(Fault::InputExhausted));
}

#[test]
fn test_fault_overflow() {
    let mut program: Vec<i32> = vec![1101, 2147483647, 1, 0, 99];
    assert_eq!(run_no_io(&mut program), Err(Fault::Overflow));

    let mut program: Vec<i32> = vec![1102, 2147483647, 2, 0, 99];
    assert_eq!(run_no_io(&mut program), Err(Fault::Overflow));
}

#[test]
fn test_get_2_params_modes() {
    // 1002: first parameter position mode, second immediate.
    let program: Vec<i32> = vec![1002, 4, 3, 4, 33];
    assert_eq!(get_2_params(0, &program), Ok((33, 3)));

    // Out-of-bounds dereference.
    let program: Vec<i32> = vec![2, 50, 0, 0, 99];
    assert_eq!(get_2_params(0, &program), Err(Fault::OutOfBounds));
}

#[test]
fn test_get_3_params_modes() {
    // All three mode digits set: every operand is literal.
    let program: Vec<i32> = vec![11101, 7, 8, 9, 99];
    assert_eq!(get_3_params(0, &program), Ok((7, 8, 9)));

    // All position mode: each operand is dereferenced.
    let program: Vec<i32> = vec![1, 4, 0, 4, 33];
    assert_eq!(get_3_params(0, &program), Ok((33, 1, 33)));

    let program: Vec<i32> = vec![1, 9, 0, 0];
    assert_eq!(get_3_params(0, &program), Err(Fault::OutOfBounds));
}

#[test]
fn test_handlers_step_once() {
    // add: 1 + 1 stored at position 0, counter advances to 4.
    let mut program: Vec<i32> = vec![1, 0, 0, 0, 99];
    assert_eq!(perform_add(0, &mut program), Ok(4));
    assert_eq!(program, vec![2, 0, 0, 0, 99]);

    // mul: 99 * 99 stored at position 5.
    let mut program: Vec<i32> = vec![2, 4, 4, 5, 99, 0];
    assert_eq!(perform_mul(0, &mut program), Ok(4));
    assert_eq!(program, vec![2, 4, 4, 5, 99, 9801]);

    // less-than, immediate operands: 1 < 8 stores 1.
    let mut program: Vec<i32> = vec![11107, 1, 8, 0, 99];
    assert_eq!(less_than(0, &mut program), Ok(4));
    assert_eq!(program[0], 1);

    // equals, immediate operands: 8 == 8 stores 1.
    let mut program: Vec<i32> = vec![11108, 8, 8, 0, 99];
    assert_eq!(equals(0, &mut program), Ok(4));
    assert_eq!(program[0], 1);

    // jump-if-true takes the jump on a non-zero operand.
    let mut program: Vec<i32> = vec![1105, 1, 9, 0, 99];
    assert_eq!(jump_if_true(0, &mut program), Ok(9));

    // jump-if-false falls through on the same operand.
    let mut program: Vec<i32> = vec![1106, 1, 9, 0, 99];
    assert_eq!(jump_if_false(0, &mut program), Ok(3));

    // input consumes the front of the stream.
    let mut program: Vec<i32> = vec![3, 0, 99];
    let mut input: Vec<i32> = vec![55, 66];
    assert_eq!(perform_input(0, &mut program, &mut input), Ok(2));
    assert_eq!(program, vec![55, 0, 99]);
    assert_eq!(input, vec![66]);

    // output appends the resolved operand.
    let mut program: Vec<i32> = vec![104, 77, 99];
    let mut output: Vec<i32> = Vec::new();
    assert_eq!(perform_output(0, &mut program, &mut output), Ok(2));
    assert_eq!(output, vec![77]);
}
