//! The Intcode interpreter: a mutable buffer of signed integers is both
//! code and data.  Each instruction carries an opcode in its low two
//! decimal digits and one addressing-mode digit per parameter above them;
//! mode digit zero means the operand is an address to dereference, any
//! other digit means the operand is the literal value.  Destinations of
//! writing instructions are always raw addresses.
//!
//! The semantics is given by the small-step spec function [`step`] and its
//! iteration [`run_n`]; every executable piece below is proved against it.

use vstd::prelude::*;

verus! {

/// An unrecoverable execution fault: the run stops immediately and the
/// memory left behind is not meaningful.
#[derive(Clone, Copy, Debug, PartialEq, Eq, Structural)]
pub enum Fault {
    /// The decoded opcode is not one of the recognized instructions.
    UnknownOpcode,
    /// Some memory access (instruction fetch, operand, destination or jump
    /// target) lies outside the program buffer.
    OutOfBounds,
    /// An input instruction ran but the input stream had no value left.
    InputExhausted,
    /// An add or multiply produced a value outside the machine word range.
    Overflow,
}

/// The whole machine: memory, program counter, values not yet read from
/// the input stream, and values written to the output stream so far.
#[verifier::ext_equal]
pub ghost struct VmState {
    pub mem: Seq<i32>,
    pub pc: int,
    pub input: Seq<i32>,
    pub output: Seq<i32>,
}

/// `i` is a valid address of `mem`.
pub open spec fn in_mem(mem: Seq<i32>, i: int) -> bool {
    0 <= i < mem.len()
}

/// Opcode: the low two decimal digits of a (non-negative) instruction.
pub open spec fn opcode_of(instr: int) -> int {
    instr % 100
}

/// Addressing-mode digit for the `p`-th parameter (1-based): the decimal
/// digit of the instruction at position `p + 1`.
pub open spec fn mode_of(instr: int, p: int) -> int {
    if p == 1 {
        (instr / 100) % 10
    } else if p == 2 {
        (instr / 1000) % 10
    } else {
        (instr / 10000) % 10
    }
}

/// The `p`-th parameter of the instruction at `pc` can be read: the
/// operand cell is in memory, and in position mode the address it holds is
/// in memory too.
pub open spec fn read_ok(mem: Seq<i32>, pc: int, p: int) -> bool {
    &&& in_mem(mem, pc + p)
    &&& (mode_of(mem[pc] as int, p) == 0 ==> in_mem(mem, mem[pc + p] as int))
}

/// The resolved value of the `p`-th parameter: dereferenced in position
/// mode, literal otherwise.
pub open spec fn read_val(mem: Seq<i32>, pc: int, p: int) -> i32 {
    if mode_of(mem[pc] as int, p) == 0 {
        mem[mem[pc + p] as int]
    } else {
        mem[pc + p]
    }
}

/// The write destination held in the operand cell at `pc + off` is a valid
/// address.  Destinations are never mode-resolved.
pub open spec fn dst_ok(mem: Seq<i32>, pc: int, off: int) -> bool {
    &&& in_mem(mem, pc + off)
    &&& in_mem(mem, mem[pc + off] as int)
}

/// The raw write destination held at `pc + off`.
pub open spec fn dst_of(mem: Seq<i32>, pc: int, off: int) -> int {
    mem[pc + off] as int
}

/// Both read parameters of a two-operand instruction resolve.
pub open spec fn params2_ok(mem: Seq<i32>, pc: int) -> bool {
    read_ok(mem, pc, 1) && read_ok(mem, pc, 2)
}

/// All three parameters of the instruction resolve as reads: unlike a
/// write destination, the third one is dereferenced too when its mode
/// digit is zero.
pub open spec fn params3_ok(mem: Seq<i32>, pc: int) -> bool {
    read_ok(mem, pc, 1) && read_ok(mem, pc, 2) && read_ok(mem, pc, 3)
}

pub open spec fn fits_word(v: int) -> bool {
    i32::MIN <= v <= i32::MAX
}

/// Effect of an add instruction at `pc` on memory: new memory and next
/// program counter, or the fault it raises.
pub open spec fn exec_add(mem: Seq<i32>, pc: int) -> Result<(Seq<i32>, int), Fault> {
    if !(params2_ok(mem, pc) && dst_ok(mem, pc, 3)) {
        Err(Fault::OutOfBounds)
    } else {
        let v = read_val(mem, pc, 1) + read_val(mem, pc, 2);
        if !fits_word(v) {
            Err(Fault::Overflow)
        } else {
            Ok((mem.update(dst_of(mem, pc, 3), v as i32), pc + 4))
        }
    }
}

/// Effect of a multiply instruction at `pc`.
pub open spec fn exec_mul(mem: Seq<i32>, pc: int) -> Result<(Seq<i32>, int), Fault> {
    if !(params2_ok(mem, pc) && dst_ok(mem, pc, 3)) {
        Err(Fault::OutOfBounds)
    } else {
        let v = read_val(mem, pc, 1) * read_val(mem, pc, 2);
        if !fits_word(v) {
            Err(Fault::Overflow)
        } else {
            Ok((mem.update(dst_of(mem, pc, 3), v as i32), pc + 4))
        }
    }
}

/// Effect of a less-than instruction at `pc`: stores 1 or 0.
pub open spec fn exec_less_than(mem: Seq<i32>, pc: int) -> Result<(Seq<i32>, int), Fault> {
    if !(params2_ok(mem, pc) && dst_ok(mem, pc, 3)) {
        Err(Fault::OutOfBounds)
    } else {
        let v: i32 = if read_val(mem, pc, 1) < read_val(mem, pc, 2) {
            1
        } else {
            0
        };
        Ok((mem.update(dst_of(mem, pc, 3), v), pc + 4))
    }
}

/// Effect of an equals instruction at `pc`: stores 1 or 0.
pub open spec fn exec_equals(mem: Seq<i32>, pc: int) -> Result<(Seq<i32>, int), Fault> {
    if !(params2_ok(mem, pc) && dst_ok(mem, pc, 3)) {
        Err(Fault::OutOfBounds)
    } else {
        let v: i32 = if read_val(mem, pc, 1) == read_val(mem, pc, 2) {
            1
        } else {
            0
        };
        Ok((mem.update(dst_of(mem, pc, 3), v), pc + 4))
    }
}

/// Next program counter chosen by a jump-if-true instruction at `pc`.  A
/// negative jump target can never be a program counter and faults at once.
pub open spec fn exec_jump_true(mem: Seq<i32>, pc: int) -> Result<int, Fault> {
    if !params2_ok(mem, pc) {
        Err(Fault::OutOfBounds)
    } else {
        if read_val(mem, pc, 1) != 0 {
            if read_val(mem, pc, 2) < 0 {
                Err(Fault::OutOfBounds)
            } else {
                Ok(read_val(mem, pc, 2) as int)
            }
        } else {
            Ok(pc + 3)
        }
    }
}

/// Next program counter chosen by a jump-if-false instruction at `pc`.
pub open spec fn exec_jump_false(mem: Seq<i32>, pc: int) -> Result<int, Fault> {
    if !params2_ok(mem, pc) {
        Err(Fault::OutOfBounds)
    } else {
        if read_val(mem, pc, 1) == 0 {
            if read_val(mem, pc, 2) < 0 {
                Err(Fault::OutOfBounds)
            } else {
                Ok(read_val(mem, pc, 2) as int)
            }
        } else {
            Ok(pc + 3)
        }
    }
}

/// Next program counter and emitted value of an output instruction at `pc`.
pub open spec fn exec_output(mem: Seq<i32>, pc: int) -> Result<(int, i32), Fault> {
    if !read_ok(mem, pc, 1) {
        Err(Fault::OutOfBounds)
    } else {
        Ok((pc + 2, read_val(mem, pc, 1)))
    }
}

/// One step of the machine: decode the instruction under the program
/// counter and apply it.  A halt instruction leaves the state unchanged.
pub open spec fn step(s: VmState) -> Result<VmState, Fault> {
    if !in_mem(s.mem, s.pc) {
        Err(Fault::OutOfBounds)
    } else if s.mem[s.pc] < 0 {
        Err(Fault::UnknownOpcode)
    } else {
        let op = opcode_of(s.mem[s.pc] as int);
        if op == 1 {
            match exec_add(s.mem, s.pc) {
                Ok(mp) => Ok(VmState { mem: mp.0, pc: mp.1, input: s.input, output: s.output }),
                Err(f) => Err(f),
            }
        } else if op == 2 {
            match exec_mul(s.mem, s.pc) {
                Ok(mp) => Ok(VmState { mem: mp.0, pc: mp.1, input: s.input, output: s.output }),
                Err(f) => Err(f),
            }
        } else if op == 3 {
            if !dst_ok(s.mem, s.pc, 1) {
                Err(Fault::OutOfBounds)
            } else if s.input.len() == 0 {
                Err(Fault::InputExhausted)
            } else {
                Ok(
                    VmState {
                        mem: s.mem.update(dst_of(s.mem, s.pc, 1), s.input[0]),
                        pc: s.pc + 2,
                        input: s.input.remove(0),
                        output: s.output,
                    },
                )
            }
        } else if op == 4 {
            match exec_output(s.mem, s.pc) {
                Ok(pv) => Ok(
                    VmState { mem: s.mem, pc: pv.0, input: s.input, output: s.output.push(pv.1) },
                ),
                Err(f) => Err(f),
            }
        } else if op == 5 {
            match exec_jump_true(s.mem, s.pc) {
                Ok(p) => Ok(VmState { mem: s.mem, pc: p, input: s.input, output: s.output }),
                Err(f) => Err(f),
            }
        } else if op == 6 {
            match exec_jump_false(s.mem, s.pc) {
                Ok(p) => Ok(VmState { mem: s.mem, pc: p, input: s.input, output: s.output }),
                Err(f) => Err(f),
            }
        } else if op == 7 {
            match exec_less_than(s.mem, s.pc) {
                Ok(mp) => Ok(VmState { mem: mp.0, pc: mp.1, input: s.input, output: s.output }),
                Err(f) => Err(f),
            }
        } else if op == 8 {
            match exec_equals(s.mem, s.pc) {
                Ok(mp) => Ok(VmState { mem: mp.0, pc: mp.1, input: s.input, output: s.output }),
                Err(f) => Err(f),
            }
        } else if op == 99 {
            Ok(s)
        } else {
            Err(Fault::UnknownOpcode)
        }
    }
}

/// The machine rests on a halt instruction.
pub open spec fn is_halted(s: VmState) -> bool {
    &&& in_mem(s.mem, s.pc)
    &&& s.mem[s.pc] >= 0
    &&& opcode_of(s.mem[s.pc] as int) == 99
}

/// The state after at most `n` steps from `s`: stepping stops at a halt
/// instruction, and a fault is final.
pub open spec fn run_n(s: VmState, n: nat) -> Result<VmState, Fault>
    decreases n,
{
    if n == 0 {
        Ok(s)
    } else {
        match run_n(s, (n - 1) as nat) {
            Ok(t) => if is_halted(t) {
                Ok(t)
            } else {
                step(t)
            },
            Err(f) => Err(f),
        }
    }
}

/// Within `n` steps the run from `s` has either halted or faulted.
pub open spec fn terminated(s: VmState, n: nat) -> bool {
    match run_n(s, n) {
        Ok(t) => is_halted(t),
        Err(_) => true,
    }
}

/// The run from `s` eventually halts or faults (it does not loop forever).
pub open spec fn terminates(s: VmState) -> bool {
    exists|n: nat| terminated(s, n)
}

/// Within `n` steps the run from `s` has halted without a fault.
pub open spec fn halted_at(s: VmState, n: nat) -> bool {
    match run_n(s, n) {
        Ok(t) => is_halted(t),
        Err(_) => false,
    }
}

/// The run from `s` eventually halts without a fault.
pub open spec fn halts_ok(s: VmState) -> bool {
    exists|n: nat| halted_at(s, n)
}

/// The state in which a fault-free run from `s` halts.
pub open spec fn halt_state(s: VmState) -> VmState {
    let n = choose|n: nat| halted_at(s, n);
    match run_n(s, n) {
        Ok(t) => t,
        Err(_) => s,
    }
}

/// Once halted, the run stays in the same state forever.
proof fn lemma_halted_stays(s: VmState, n: nat, m: nat)
    requires
        halted_at(s, n),
        n <= m,
    ensures
        run_n(s, m) == run_n(s, n),
    decreases m - n,
{
    if n < m {
        lemma_halted_stays(s, n, (m - 1) as nat);
    }
}

/// Once faulted, the run stays faulted with the same fault forever.
proof fn lemma_err_stays(s: VmState, f: Fault, n: nat, m: nat)
    requires
        run_n(s, n) == Err::<VmState, Fault>(f),
        n <= m,
    ensures
        run_n(s, m) == Err::<VmState, Fault>(f),
    decreases m - n,
{
    if n < m {
        lemma_err_stays(s, f, n, (m - 1) as nat);
    }
}

/// Execution is deterministic and pure: any two fault-free terminated runs
/// of the same initial state rest in the same final state, namely
/// [`halt_state`] of the initial state.
pub proof fn lemma_run_deterministic(s: VmState, n1: nat, n2: nat)
    requires
        halted_at(s, n1),
        halted_at(s, n2),
    ensures
        run_n(s, n1) == run_n(s, n2),
        run_n(s, n1) == Ok::<VmState, Fault>(halt_state(s)),
{
    if n1 <= n2 {
        lemma_halted_stays(s, n1, n2);
    } else {
        lemma_halted_stays(s, n2, n1);
    }
    let n = choose|n: nat| halted_at(s, n);
    if n <= n1 {
        lemma_halted_stays(s, n, n1);
    } else {
        lemma_halted_stays(s, n1, n);
    }
}

/// A run that halts without a fault never reports a fault, at any step
/// count.
pub proof fn lemma_halt_excludes_fault(s: VmState, n: nat, m: nat, f: Fault)
    requires
        halted_at(s, n),
    ensures
        run_n(s, m) != Err::<VmState, Fault>(f),
{
    if run_n(s, m) == Err::<VmState, Fault>(f) {
        if m <= n {
            lemma_err_stays(s, f, m, n);
        } else {
            lemma_halted_stays(s, n, m);
        }
    }
}

/// Fetches and resolves the two read parameters of the instruction at
/// `counter`, honouring their addressing-mode digits.
pub fn get_2_params(counter: usize, program: &Vec<i32>) -> (r: Result<(i32, i32), Fault>)
    requires
        counter < program.len(),
        0 <= program[counter as int],
    ensures
        match r {
            Ok(p) => params2_ok(program@, counter as int) && p.0 == read_val(
                program@,
                counter as int,
                1,
            ) && p.1 == read_val(program@, counter as int, 2),
            Err(f) => f == Fault::OutOfBounds && !params2_ok(program@, counter as int),
        },
{
    let instr = program[counter];
    let m = instr as u32;
    if counter + 1 >= program.len() {
        return Err(Fault::OutOfBounds);
    }
    let ra = program[counter + 1];
    let a = if (m / 100) % 10 == 0 {
        if ra < 0 || ra as usize >= program.len() {
            return Err(Fault::OutOfBounds);
        }
        program[ra as usize]
    } else {
        ra
    };
    if counter + 2 >= program.len() {
        return Err(Fault::OutOfBounds);
    }
    let rb = program[counter + 2];
    let b = if (m / 1000) % 10 == 0 {
        if rb < 0 || rb as usize >= program.len() {
            return Err(Fault::OutOfBounds);
        }
        program[rb as usize]
    } else {
        rb
    };
    Ok((a, b))
}

/// Fetches and resolves three parameters of the instruction at `counter`,
/// all as reads: the third is dereferenced too when its mode digit is
/// zero.
pub fn get_3_params(counter: usize, program: &Vec<i32>) -> (r: Result<(i32, i32, i32), Fault>)
    requires
        counter < program.len(),
        0 <= program[counter as int],
    ensures
        match r {
            Ok(p) => params3_ok(program@, counter as int) && p.0 == read_val(
                program@,
                counter as int,
                1,
            ) && p.1 == read_val(program@, counter as int, 2) && p.2 == read_val(
                program@,
                counter as int,
                3,
            ),
            Err(f) => f == Fault::OutOfBounds && !params3_ok(program@, counter as int),
        },
{
    let instr = program[counter];
    let m = instr as u32;
    if counter + 1 >= program.len() {
        return Err(Fault::OutOfBounds);
    }
    let ra = program[counter + 1];
    let a = if (m / 100) % 10 == 0 {
        if ra < 0 || ra as usize >= program.len() {
            return Err(Fault::OutOfBounds);
        }
        program[ra as usize]
    } else {
        ra
    };
    if counter + 2 >= program.len() {
        return Err(Fault::OutOfBounds);
    }
    let rb = program[counter + 2];
    let b = if (m / 1000) % 10 == 0 {
        if rb < 0 || rb as usize >= program.len() {
            return Err(Fault::OutOfBounds);
        }
        program[rb as usize]
    } else {
        rb
    };
    if counter + 3 >= program.len() {
        return Err(Fault::OutOfBounds);
    }
    let rc = program[counter + 3];
    let c = if (m / 10000) % 10 == 0 {
        if rc < 0 || rc as usize >= program.len() {
            return Err(Fault::OutOfBounds);
        }
        program[rc as usize]
    } else {
        rc
    };
    Ok((a, b, c))
}

/// Runs the add instruction at `counter`: stores the sum of the two
/// resolved operands at the raw destination and advances by four.
pub fn perform_add(counter: usize, program: &mut Vec<i32>) -> (r: Result<usize, Fault>)
    requires
        counter < old(program).len(),
        0 <= old(program)[counter as int],
    ensures
        match exec_add(old(program)@, counter as int) {
            Ok(mp) => r == Ok::<usize, Fault>((counter + 4) as usize) && final(program)@ == mp.0
                && mp.1 == counter + 4,
            Err(f) => r == Err::<usize, Fault>(f) && final(program)@ == old(program)@,
        },
{
    let params = match get_2_params(counter, program) {
        Ok(p) => p,
        Err(f) => {
            return Err(f);
        },
    };
    let (a, b) = params;
    if counter + 3 >= program.len() {
        return Err(Fault::OutOfBounds);
    }
    let store = program[counter + 3];
    if store < 0 || store as usize >= program.len() {
        return Err(Fault::OutOfBounds);
    }
    let v = a as i64 + b as i64;
    if v < i32::MIN as i64 || v > i32::MAX as i64 {
        return Err(Fault::Overflow);
    }
    program.set(store as usize, v as i32);
    Ok(counter + 4)
}

/// Runs the multiply instruction at `counter`: stores the product of the
/// two resolved operands at the raw destination and advances by four.
pub fn perform_mul(counter: usize, program: &mut Vec<i32>) -> (r: Result<usize, Fault>)
    requires
        counter < old(program).len(),
        0 <= old(program)[counter as int],
    ensures
        match exec_mul(old(program)@, counter as int) {
            Ok(mp) => r == Ok::<usize, Fault>((counter + 4) as usize) && final(program)@ == mp.0
                && mp.1 == counter + 4,
            Err(f) => r == Err::<usize, Fault>(f) && final(program)@ == old(program)@,
        },
{
    let params = match get_2_params(counter, program) {
        Ok(p) => p,
        Err(f) => {
            return Err(f);
        },
    };
    let (a, b) = params;
    if counter + 3 >= program.len() {
        return Err(Fault::OutOfBounds);
    }
    let store = program[counter + 3];
    if store < 0 || store as usize >= program.len() {
        return Err(Fault::OutOfBounds);
    }
    proof {
        assert(-0x8000_0000_0000_0000 <= (a as int) * (b as int)
            < 0x8000_0000_0000_0000) by (nonlinear_arith)
            requires
                -0x8000_0000 <= a as int <= 0x7fff_ffff,
                -0x8000_0000 <= b as int <= 0x7fff_ffff,
        ;
    }
    let v = a as i64 * b as i64;
    if v < i32::MIN as i64 || v > i32::MAX as i64 {
        return Err(Fault::Overflow);
    }
    program.set(store as usize, v as i32);
    Ok(counter + 4)
}

/// Runs the less-than instruction at `counter`: stores 1 when the first
/// resolved operand is below the second, 0 otherwise.
pub fn less_than(counter: usize, program: &mut Vec<i32>) -> (r: Result<usize, Fault>)
    requires
        counter < old(program).len(),
        0 <= old(program)[counter as int],
    ensures
        match exec_less_than(old(program)@, counter as int) {
            Ok(mp) => r == Ok::<usize, Fault>((counter + 4) as usize) && final(program)@ == mp.0
                && mp.1 == counter + 4,
            Err(f) => r == Err::<usize, Fault>(f) && final(program)@ == old(program)@,
        },
{
    let params = match get_2_params(counter, program) {
        Ok(p) => p,
        Err(f) => {
            return Err(f);
        },
    };
    let (a, b) = params;
    if counter + 3 >= program.len() {
        return Err(Fault::OutOfBounds);
    }
    let store = program[counter + 3];
    if store < 0 || store as usize >= program.len() {
        return Err(Fault::OutOfBounds);
    }
    let v: i32 = if a < b {
        1
    } else {
        0
    };
    program.set(store as usize, v);
    Ok(counter + 4)
}

/// Runs the equals instruction at `counter`: stores 1 when the two
/// resolved operands are equal, 0 otherwise.
pub fn equals(counter: usize, program: &mut Vec<i32>) -> (r: Result<usize, Fault>)
    requires
        counter < old(program).len(),
        0 <= old(program)[counter as int],
    ensures
        match exec_equals(old(program)@, counter as int) {
            Ok(mp) => r == Ok::<usize, Fault>((counter + 4) as usize) && final(program)@ == mp.0
                && mp.1 == counter + 4,
            Err(f) => r == Err::<usize, Fault>(f) && final(program)@ == old(program)@,
        },
{
    let params = match get_2_params(counter, program) {
        Ok(p) => p,
        Err(f) => {
            return Err(f);
        },
    };
    let (a, b) = params;
    if counter + 3 >= program.len() {
        return Err(Fault::OutOfBounds);
    }
    let store = program[counter + 3];
    if store < 0 || store as usize >= program.len() {
        return Err(Fault::OutOfBounds);
    }
    let v: i32 = if a == b {
        1
    } else {
        0
    };
    program.set(store as usize, v);
    Ok(counter + 4)
}

/// Runs the jump-if-true instruction at `counter`: the next program
/// counter is the second resolved operand when the first is non-zero.
pub fn jump_if_true(counter: usize, program: &mut Vec<i32>) -> (r: Result<usize, Fault>)
    requires
        counter < old(program).len(),
        0 <= old(program)[counter as int],
    ensures
        final(program)@ == old(program)@,
        match exec_jump_true(old(program)@, counter as int) {
            Ok(p) => r matches Ok(c) && c == p,
            Err(f) => r == Err::<usize, Fault>(f),
        },
{
    let params = match get_2_params(counter, program) {
        Ok(p) => p,
        Err(f) => {
            return Err(f);
        },
    };
    let (a, b) = params;
    if a != 0 {
        if b < 0 {
            return Err(Fault::OutOfBounds);
        }
        Ok(b as usize)
    } else {
        Ok(counter + 3)
    }
}

/// Runs the jump-if-false instruction at `counter`: the next program
/// counter is the second resolved operand when the first is zero.
pub fn jump_if_false(counter: usize, program: &mut Vec<i32>) -> (r: Result<usize, Fault>)
    requires
        counter < old(program).len(),
        0 <= old(program)[counter as int],
    ensures
        final(program)@ == old(program)@,
        match exec_jump_false(old(program)@, counter as int) {
            Ok(p) => r matches Ok(c) && c == p,
            Err(f) => r == Err::<usize, Fault>(f),
        },
{
    let params = match get_2_params(counter, program) {
        Ok(p) => p,
        Err(f) => {
            return Err(f);
        },
    };
    let (a, b) = params;
    if a == 0 {
        if b < 0 {
            return Err(Fault::OutOfBounds);
        }
        Ok(b as usize)
    } else {
        Ok(counter + 3)
    }
}

/// Runs the input instruction at `counter`: consumes the first value still
/// on the input stream and stores it at the raw destination.
pub fn perform_input(counter: usize, program: &mut Vec<i32>, input: &mut Vec<i32>) -> (r: Result<
    usize,
    Fault,
>)
    requires
        counter < old(program).len(),
    ensures
        ({
            let mem = old(program)@;
            let pc = counter as int;
            if !dst_ok(mem, pc, 1) {
                r == Err::<usize, Fault>(Fault::OutOfBounds) && final(program)@ == mem
                    && final(input)@ == old(input)@
            } else if old(input)@.len() == 0 {
                r == Err::<usize, Fault>(Fault::InputExhausted) && final(program)@ == mem
                    && final(input)@ == old(input)@
            } else {
                r == Ok::<usize, Fault>((counter + 2) as usize) && final(program)@ == mem.update(
                    dst_of(mem, pc, 1),
                    old(input)@[0],
                ) && final(input)@ == old(input)@.remove(0)
            }
        }),
{
    if counter + 1 >= program.len() {
        return Err(Fault::OutOfBounds);
    }
    let dst = program[counter + 1];
    if dst < 0 || dst as usize >= program.len() {
        return Err(Fault::OutOfBounds);
    }
    if input.len() == 0 {
        return Err(Fault::InputExhausted);
    }
    let v = input.remove(0);
    program.set(dst as usize, v);
    Ok(counter + 2)
}

/// Runs the output instruction at `counter`: appends the resolved operand
/// to the output stream.
pub fn perform_output(counter: usize, program: &mut Vec<i32>, output: &mut Vec<i32>) -> (r: Result<
    usize,
    Fault,
>)
    requires
        counter < old(program).len(),
        0 <= old(program)[counter as int],
    ensures
        final(program)@ == old(program)@,
        match exec_output(old(program)@, counter as int) {
            Ok(pv) => r == Ok::<usize, Fault>((counter + 2) as usize) && pv.0 == counter + 2
                && final(output)@ == old(output)@.push(pv.1),
            Err(f) => r == Err::<usize, Fault>(f) && final(output)@ == old(output)@,
        },
{
    let instr = program[counter];
    let m = instr as u32;
    if counter + 1 >= program.len() {
        return Err(Fault::OutOfBounds);
    }
    let ra = program[counter + 1];
    let a = if (m / 100) % 10 == 0 {
        if ra < 0 || ra as usize >= program.len() {
            return Err(Fault::OutOfBounds);
        }
        program[ra as usize]
    } else {
        ra
    };
    output.push(a);
    Ok(counter + 2)
}

/// The run from `init` reaches, after `n` steps, a fault-free halt whose
/// memory, remaining input and output are the given ones.
pub open spec fn halts_with(
    init: VmState,
    mem: Seq<i32>,
    inp: Seq<i32>,
    outp: Seq<i32>,
    n: nat,
) -> bool {
    match run_n(init, n) {
        Ok(t) => is_halted(t) && t.mem == mem && t.input == inp && t.output == outp,
        Err(_) => false,
    }
}

/// Decodes and dispatches instructions starting at position 0 until the
/// program halts or faults.  Memory is mutated in place; the input stream
/// is consumed from the front and outputs are appended.  On a fault the
/// run stops at once and the buffers hold whatever the faulting prefix of
/// the run left behind.
#[verifier::loop_isolation(false)]
pub fn compute(program: &mut Vec<i32>, input: &mut Vec<i32>, output: &mut Vec<i32>) -> (r: Result<
    (),
    Fault,
>)
    requires
        terminates(
            VmState { mem: old(program)@, pc: 0, input: old(input)@, output: old(output)@ },
        ),
    ensures
        ({
            let init = VmState {
                mem: old(program)@,
                pc: 0,
                input: old(input)@,
                output: old(output)@,
            };
            match r {
                Ok(u) => exists|n: nat|
                    halts_with(init, final(program)@, final(input)@, final(output)@, n),
                Err(f) => exists|n: nat| run_n(init, n) == Err::<VmState, Fault>(f),
            }
        }),
{
    let ghost init = VmState { mem: old(program)@, pc: 0, input: old(input)@, output: old(output)@ };
    let mut counter: usize = 0;
    let ghost mut steps: nat = 0;
    let ghost mut fuel: nat = choose|n: nat| terminated(init, n);
    loop
        invariant
            run_n(init, steps) == Ok::<VmState, Fault>(
                VmState { mem: program@, pc: counter as int, input: input@, output: output@ },
            ),
            terminated(init, steps + fuel),
        decreases fuel,
    {
        let ghost cur = VmState { mem: program@, pc: counter as int, input: input@, output: output@ };
        if counter >= program.len() {
            proof {
                assert(run_n(init, steps + 1) == Err::<VmState, Fault>(Fault::OutOfBounds));
            }
            return Err(Fault::OutOfBounds);
        }
        let instr = program[counter];
        if instr < 0 {
            proof {
                assert(run_n(init, steps + 1) == Err::<VmState, Fault>(Fault::UnknownOpcode));
            }
            return Err(Fault::UnknownOpcode);
        }
        let op = (instr as u32) % 100;
        proof {
            assert(op == opcode_of(instr as int));
        }
        if op == 99 {
            proof {
                assert(halts_with(init, program@, input@, output@, steps));
            }
            return Ok(());
        }
        let res: Result<usize, Fault> = if op == 1 {
            perform_add(counter, program)
        } else if op == 2 {
            perform_mul(counter, program)
        } else if op == 3 {
            perform_input(counter, program, input)
        } else if op == 4 {
            perform_output(counter, program, output)
        } else if op == 5 {
            jump_if_true(counter, program)
        } else if op == 6 {
            jump_if_false(counter, program)
        } else if op == 7 {
            less_than(counter, program)
        } else if op == 8 {
            equals(counter, program)
        } else {
            proof {
                assert(run_n(init, steps + 1) == Err::<VmState, Fault>(Fault::UnknownOpcode));
            }
            return Err(Fault::UnknownOpcode);
        };
        match res {
            Ok(next) => {
                proof {
                    let next_state = VmState {
                        mem: program@,
                        pc: next as int,
                        input: input@,
                        output: output@,
                    };
                    assert(step(cur) == Ok::<VmState, Fault>(next_state));
                    assert(run_n(init, steps + 1) == Ok::<VmState, Fault>(next_state));
                    if fuel == 0 {
                        assert(terminated(init, steps));
                        assert(false);
                    }
                    steps = steps + 1;
                    fuel = (fuel - 1) as nat;
                }
                counter = next;
            },
            Err(f) => {
                proof {
                    assert(step(cur) == Err::<VmState, Fault>(f));
                    assert(run_n(init, steps + 1) == Err::<VmState, Fault>(f));
                }
                return Err(f);
            },
        }
    }
}

/// Memory after placing `noun` at position 1 and `verb` at position 2.
pub open spec fn patched(mem: Seq<i32>, noun: i32, verb: i32) -> Seq<i32> {
    mem.update(1, noun).update(2, verb)
}

/// The machine about to run `mem` from position 0 with an empty input
/// stream and nothing written yet.
pub open spec fn boot(mem: Seq<i32>) -> VmState {
    VmState { mem: mem, pc: 0, input: Seq::empty(), output: Seq::empty() }
}

/// The value left at position 0 by the fault-free run of `mem`.
pub open spec fn run_result0(mem: Seq<i32>) -> i32 {
    halt_state(boot(mem)).mem[0]
}

/// The noun/verb pair reported after trying the first `i` pairs in
/// verb-fastest order: the last tried pair whose run leaves the target at
/// position 0, if any.
pub open spec fn search_upto(mem: Seq<i32>, target: i32, i: int) -> Option<(i32, i32)>
    decreases i,
{
    if i <= 0 {
        None
    } else {
        let noun = ((i - 1) / 99) as i32;
        let verb = ((i - 1) % 99) as i32;
        if run_result0(patched(mem, noun, verb)) == target {
            Some((noun, verb))
        } else {
            search_upto(mem, target, i - 1)
        }
    }
}

/// Places `noun` at position 1 and `verb` at position 2 of the program.
pub fn patch(program: &mut Vec<i32>, noun: i32, verb: i32)
    requires
        old(program).len() >= 3,
    ensures
        final(program)@ == patched(old(program)@, noun, verb),
{
    program.set(1, noun);
    program.set(2, verb);
}

/// A fresh buffer holding the same words, so that a run can mutate it
/// while the original stays reusable.
#[verifier::loop_isolation(false)]
fn copy_program(program: &Vec<i32>) -> (r: Vec<i32>)
    ensures
        r@ == program@,
{
    let mut r: Vec<i32> = Vec::new();
    let mut i: usize = 0;
    while i < program.len()
        invariant
            i <= program.len(),
            r@ == program@.take(i as int),
        decreases program.len() - i,
    {
        proof {
            assert(program@.take(i + 1) =~= program@.take(i as int).push(program@[i as int]));
        }
        r.push(program[i]);
        i = i + 1;
    }
    proof {
        assert(program@.take(program.len() as int) =~= program@);
    }
    r
}

/// Tries every noun/verb pair in `[0, 99) x [0, 99)`: each pair is patched
/// into a fresh copy of the program, the copy is run to its halt, and the
/// last pair that leaves `target` at position 0 is reported.
#[verifier::loop_isolation(false)]
pub fn search(target: i32, program: Vec<i32>) -> (r: Option<(i32, i32)>)
    requires
        program.len() >= 3,
        forall|noun: i32, verb: i32|
            0 <= noun < 99 && 0 <= verb < 99 ==> halts_ok(
                boot(#[trigger] patched(program@, noun, verb)),
            ),
    ensures
        r == search_upto(program@, target, 99int * 99),
{
    let mut output: Option<(i32, i32)> = None;
    let mut noun: i32 = 0;
    while noun < 99
        invariant
            0 <= noun <= 99,
            output == search_upto(program@, target, noun as int * 99),
        decreases 99 - noun,
    {
        let mut verb: i32 = 0;
        while verb < 99
            invariant
                0 <= noun < 99,
                0 <= verb <= 99,
                output == search_upto(program@, target, noun as int * 99 + verb as int),
            decreases 99 - verb,
        {
            let mut working_copy = copy_program(&program);
            patch(&mut working_copy, noun, verb);
            let mut inp: Vec<i32> = Vec::new();
            let mut outp: Vec<i32> = Vec::new();
            let ghost st = boot(patched(program@, noun, verb));
            proof {
                let n0 = choose|n: nat| halted_at(st, n);
                assert(terminated(st, n0));
            }
            let res = compute(&mut working_copy, &mut inp, &mut outp);
            match res {
                Ok(()) => {
                    proof {
                        let n = choose|n: nat|
                            halts_with(st, working_copy@, inp@, outp@, n);
                        let n0 = choose|n: nat| halted_at(st, n);
                        lemma_run_deterministic(st, n, n0);
                        assert(run_result0(patched(program@, noun, verb)) == working_copy@[0]);
                    }
                    if working_copy[0] == target {
                        output = Some((noun, verb));
                    }
                    proof {
                        let i = noun as int * 99 + verb as int + 1;
                        vstd::arithmetic::div_mod::lemma_fundamental_div_mod_converse(
                            i - 1,
                            99,
                            noun as int,
                            verb as int,
                        );
                        assert(output == search_upto(program@, target, i));
                    }
                },
                Err(f) => {
                    proof {
                        let n = choose|n: nat| run_n(st, n) == Err::<VmState, Fault>(f);
                        let n0 = choose|n: nat| halted_at(st, n);
                        lemma_halt_excludes_fault(st, n0, n, f);
                        assert(false);
                    }
                    return vstd::pervasive::unreached();
                },
            }
            verb = verb + 1;
        }
        noun = noun + 1;
    }
    output
}

/// The classical fixed-point machine: only the whole instruction words 1,
/// 2 and 99 are recognized, every operand is position-mode, and the
/// counter always advances by four.
pub open spec fn narrow_step(s: VmState) -> Result<VmState, Fault> {
    if !in_mem(s.mem, s.pc) {
        Err(Fault::OutOfBounds)
    } else if s.mem[s.pc] == 1 || s.mem[s.pc] == 2 {
        if !(in_mem(s.mem, s.pc + 1) && in_mem(s.mem, s.pc + 2) && in_mem(s.mem, s.pc + 3)
            && in_mem(s.mem, s.mem[s.pc + 1] as int) && in_mem(s.mem, s.mem[s.pc + 2] as int)
            && in_mem(s.mem, s.mem[s.pc + 3] as int)) {
            Err(Fault::OutOfBounds)
        } else {
            let a = s.mem[s.mem[s.pc + 1] as int];
            let b = s.mem[s.mem[s.pc + 2] as int];
            let v = if s.mem[s.pc] == 1 {
                a + b
            } else {
                a * b
            };
            if !fits_word(v) {
                Err(Fault::Overflow)
            } else {
                Ok(
                    VmState {
                        mem: s.mem.update(s.mem[s.pc + 3] as int, v as i32),
                        pc: s.pc + 4,
                        input: s.input,
                        output: s.output,
                    },
                )
            }
        }
    } else if s.mem[s.pc] == 99 {
        Ok(s)
    } else {
        Err(Fault::UnknownOpcode)
    }
}

/// The full decoder subsumes the classical machine: wherever the current
/// instruction word is literally 1, 2 or 99 (so every mode digit is
/// zero), a step of the full machine is exactly a step of the classical
/// one.  Well-formed programs of the narrow instruction set therefore run
/// to the same fixed point under both.
pub proof fn lemma_step_subsumes_narrow(s: VmState)
    requires
        in_mem(s.mem, s.pc) ==> s.mem[s.pc] == 1 || s.mem[s.pc] == 2 || s.mem[s.pc] == 99,
    ensures
        step(s) == narrow_step(s),
{
    if in_mem(s.mem, s.pc) {
        let instr = s.mem[s.pc] as int;
        assert(opcode_of(1) == 1 && mode_of(1, 1) == 0 && mode_of(1, 2) == 0);
        assert(opcode_of(2) == 2 && mode_of(2, 1) == 0 && mode_of(2, 2) == 0);
        assert(opcode_of(99) == 99);
    }
}

/// The classical machine rests on a literal halt word.
pub open spec fn narrow_is_halted(s: VmState) -> bool {
    in_mem(s.mem, s.pc) && s.mem[s.pc] == 99
}

/// Iteration of the classical machine, exactly as [`run_n`] iterates the
/// full one.
pub open spec fn narrow_run_n(s: VmState, n: nat) -> Result<VmState, Fault>
    decreases n,
{
    if n == 0 {
        Ok(s)
    } else {
        match narrow_run_n(s, (n - 1) as nat) {
            Ok(t) => if narrow_is_halted(t) {
                Ok(t)
            } else {
                narrow_step(t)
            },
            Err(f) => Err(f),
        }
    }
}

/// The state `n` steps into the classical run keeps to the narrow
/// instruction set: whenever its counter rests on a fetchable word, that
/// word is literally 1, 2 or 99.
pub open spec fn narrow_at(s: VmState, n: nat) -> bool {
    match narrow_run_n(s, n) {
        Ok(t) => in_mem(t.mem, t.pc) ==> (t.mem[t.pc] == 1 || t.mem[t.pc] == 2 || t.mem[t.pc]
            == 99),
        Err(_) => true,
    }
}

/// Whole runs of well-formed narrow programs coincide: as long as every
/// word the classical run fetches is literally 1, 2 or 99, the full
/// decoder reproduces the classical fixed-point semantics step for step,
/// halt for halt and fault for fault.
pub proof fn lemma_run_subsumes_narrow(s: VmState, n: nat)
    requires
        forall|k: nat| k < n ==> narrow_at(s, k),
    ensures
        run_n(s, n) == narrow_run_n(s, n),
    decreases n,
{
    if n > 0 {
        lemma_run_subsumes_narrow(s, (n - 1) as nat);
        assert(narrow_at(s, (n - 1) as nat));
        match narrow_run_n(s, (n - 1) as nat) {
            Ok(t) => {
                if in_mem(t.mem, t.pc) {
                    assert(opcode_of(1) == 1 && opcode_of(2) == 2 && opcode_of(99) == 99);
                }
                assert(is_halted(t) == narrow_is_halted(t));
                if !is_halted(t) {
                    lemma_step_subsumes_narrow(t);
                }
            },
            Err(_) => {},
        }
    }
}

/// Initial state of the echo program holding the single input value `n`.
pub open spec fn echo_state(n: i32) -> VmState {
    VmState {
        mem: seq![3i32, 0i32, 4i32, 0i32, 99i32],
        pc: 0,
        input: seq![n],
        output: Seq::empty(),
    }
}

/// Round trip through the echo program: fed the single input value `n`,
/// it halts after two steps and its whole output is exactly `n`.
pub proof fn lemma_echo_round_trip(n: i32)
    ensures
        halted_at(echo_state(n), 2),
        halt_state(echo_state(n)).output == seq![n],
{
    let m0 = seq![3i32, 0i32, 4i32, 0i32, 99i32];
    let init = echo_state(n);
    let s1 = VmState {
        mem: m0.update(0, n),
        pc: 2,
        input: seq![n].remove(0),
        output: Seq::empty(),
    };
    assert(m0[1] == 0 && m0[2] == 4 && m0[0] == 3);
    assert(step(init) == Ok::<VmState, Fault>(s1));
    let s2 = VmState {
        mem: m0.update(0, n),
        pc: 4,
        input: seq![n].remove(0),
        output: Seq::empty().push(n),
    };
    assert(s1.mem[2] == 4 && s1.mem[3] == 0 && s1.mem[0] == n);
    assert(step(s1) == Ok::<VmState, Fault>(s2));
    assert(s2.mem[4] == 99);
    assert(is_halted(s2));
    assert(run_n(init, 0) == Ok::<VmState, Fault>(init));
    assert(run_n(init, 1) == Ok::<VmState, Fault>(s1));
    assert(run_n(init, 2) == Ok::<VmState, Fault>(s2));
    lemma_run_deterministic(init, 2, 2);
    assert(halt_state(init) == s2);
    assert(Seq::empty().push(n) =~= seq![n]);
}

} // verus!
