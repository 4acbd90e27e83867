use vstd::prelude::*;

use crate::cpu::{
    exec_rel, load_next_instruction, machine_of, spec_decode, with_pc, Addr, Cpu, CpuModel,
    ExecOutcome, Instruction, MachineModel, Vx,
};
use crate::error::Chip8Error;
use crate::io::{Display, Keypad};
use crate::memory::{Memory, MEMORY_SIZE};

verus! {

/// How one full machine cycle (fetch, decode, execute) relates the machine
/// state before and after, given the key state the host last reported. A
/// fetch failure leaves the machine unchanged; an execute failure leaves it
/// as it stood after the fetch.
pub open spec fn step_rel(
    pre: MachineModel,
    post: MachineModel,
    keys: Seq<bool>,
    r: Result<ExecOutcome, Chip8Error>,
) -> bool {
    let pc = pre.cpu.pc as int;
    if pc + 2 <= MEMORY_SIZE {
        match spec_decode(pre.mem[pc], pre.mem[pc + 1]) {
            Some(instr) => exec_rel(
                machine_of(with_pc(pre.cpu, (pc + 2) as u16), pre.mem, pre.disp),
                post, instr, keys, r),
            None => {
                &&& r == Err::<ExecOutcome, Chip8Error>(
                    (Chip8Error::InvalidInstruction { high_byte: pre.mem[pc], low_byte: pre.mem[pc + 1] }))
                &&& post == pre
            },
        }
    } else {
        &&& r == Err::<ExecOutcome, Chip8Error>(
            (Chip8Error::OutOfBounds { address: pre.cpu.pc as usize, length: 2 }))
        &&& post == pre
    }
}

/// Runs one machine cycle: fetches and decodes the instruction at the
/// program counter and executes it.
pub fn step(cpu: &mut Cpu, ram: &mut Memory, display: &mut Display, keypad: &Keypad) -> (r: Result<
    ExecOutcome,
    Chip8Error,
>)
    requires
        old(cpu).wf(),
        old(ram).wf(),
        old(display).wf(),
        keypad.wf(),
    ensures
        final(cpu).wf(),
        final(ram).wf(),
        final(display).wf(),
        step_rel(
            machine_of(old(cpu)@, old(ram)@, old(display)@),
            machine_of(final(cpu)@, final(ram)@, final(display)@),
            keypad@, r),
{
    match load_next_instruction(cpu, ram) {
        Ok(instr) => cpu.execute_instruction(instr, ram, display, keypad),
        Err(e) => Err(e),
    }
}

/// What a burst of machine cycles ended with: either every requested cycle
/// ran, or a key-wait suspended the machine after the given number of
/// cycles, naming the register the key must land in.
#[derive(Debug, Clone, Copy, PartialEq, Eq, Structural)]
pub enum RunOutcome {
    Completed,
    AwaitingKey(Vx, u64),
}

/// Every consecutive pair of states in `trace` is one completed machine
/// cycle under the key state `keys`.
pub open spec fn ok_chain(trace: Seq<MachineModel>, keys: Seq<bool>) -> bool {
    forall|t: int| 0 <= t < trace.len() - 1
        ==> #[trigger] step_rel(trace[t], trace[t + 1], keys,
                Ok::<ExecOutcome, Chip8Error>(ExecOutcome::Continue))
}

/// How a burst of up to `n` machine cycles relates the machine before and
/// after. On `Completed` there is a trace of `n` completed cycles from
/// `pre` to `post`; on `AwaitingKey(x, used)` a trace of `used - 1`
/// completed cycles, with cycle `used` suspending on a key-wait into
/// register `x`; on an error, a trace of completed cycles whose next cycle
/// fails with exactly that error.
pub open spec fn run_rel(
    pre: MachineModel,
    post: MachineModel,
    keys: Seq<bool>,
    n: u64,
    r: Result<RunOutcome, Chip8Error>,
) -> bool {
    match r {
        Ok(RunOutcome::Completed) => exists|trace: Seq<MachineModel>| {
            &&& #[trigger] ok_chain(trace, keys)
            &&& trace.len() == n + 1
            &&& trace[0] == pre
            &&& trace.last() == post
        },
        Ok(RunOutcome::AwaitingKey(x, used)) => {
            &&& 1 <= used <= n
            &&& exists|trace: Seq<MachineModel>| {
                &&& #[trigger] ok_chain(trace, keys)
                &&& trace.len() == used
                &&& trace[0] == pre
                &&& step_rel(trace.last(), post, keys,
                        Ok::<ExecOutcome, Chip8Error>(ExecOutcome::AwaitKey(x)))
            }
        },
        Err(e) => exists|trace: Seq<MachineModel>| {
            &&& #[trigger] ok_chain(trace, keys)
            &&& 1 <= trace.len() <= n
            &&& trace[0] == pre
            &&& step_rel(trace.last(), post, keys, Err::<ExecOutcome, Chip8Error>(e))
        },
    }
}

/// Runs up to `n` machine cycles, stopping early when a key-wait suspends
/// the machine or a cycle fails.
pub fn run_cycles(
    cpu: &mut Cpu,
    ram: &mut Memory,
    display: &mut Display,
    keypad: &Keypad,
    n: u64,
) -> (r: Result<RunOutcome, Chip8Error>)
    requires
        old(cpu).wf(),
        old(ram).wf(),
        old(display).wf(),
        keypad.wf(),
    ensures
        final(cpu).wf(),
        final(ram).wf(),
        final(display).wf(),
        run_rel(
            machine_of(old(cpu)@, old(ram)@, old(display)@),
            machine_of(final(cpu)@, final(ram)@, final(display)@),
            keypad@, n, r),
{
    let ghost pre = machine_of(cpu@, ram@, display@);
    let ghost mut trace: Seq<MachineModel> = seq![pre];
    let mut done: u64 = 0;
    while done < n
        invariant
            done <= n,
            cpu.wf(),
            ram.wf(),
            display.wf(),
            keypad.wf(),
            pre == machine_of(old(cpu)@, old(ram)@, old(display)@),
            trace.len() == done + 1,
            trace[0] == pre,
            trace.last() == machine_of(cpu@, ram@, display@),
            ok_chain(trace, keypad@),
        decreases n - done,
    {
        let ghost cur = machine_of(cpu@, ram@, display@);
        let res = step(cpu, ram, display, keypad);
        let ghost nxt = machine_of(cpu@, ram@, display@);
        match res {
            Ok(ExecOutcome::Continue) => {
                proof {
                    let grown = trace.push(nxt);
                    assert forall|t: int| 0 <= t < grown.len() - 1
                        implies #[trigger] step_rel(grown[t], grown[t + 1], keypad@,
                            Ok::<ExecOutcome, Chip8Error>(ExecOutcome::Continue)) by {
                        if t < trace.len() - 1 {
                            assert(step_rel(trace[t], trace[t + 1], keypad@,
                                Ok::<ExecOutcome, Chip8Error>(ExecOutcome::Continue)));
                        } else {
                            assert(grown[t] == cur && grown[t + 1] == nxt);
                        }
                    }
                    trace = grown;
                }
                done = done + 1;
            }
            Ok(ExecOutcome::AwaitKey(x)) => {
                proof {
                    let used = (done + 1) as u64;
                    assert(run_rel(pre, nxt, keypad@, n,
                        Ok::<RunOutcome, Chip8Error>(RunOutcome::AwaitingKey(x, used)))) by {
                        assert(ok_chain(trace, keypad@)
                            && trace.len() == used
                            && trace[0] == pre
                            && step_rel(trace.last(), nxt, keypad@,
                                Ok::<ExecOutcome, Chip8Error>(ExecOutcome::AwaitKey(x))));
                    }
                }
                return Ok(RunOutcome::AwaitingKey(x, done + 1));
            }
            Err(e) => {
                proof {
                    assert(run_rel(pre, nxt, keypad@, n, Err::<RunOutcome, Chip8Error>(e))) by {
                        assert(ok_chain(trace, keypad@)
                            && 1 <= trace.len() <= n
                            && trace[0] == pre
                            && step_rel(trace.last(), nxt, keypad@,
                                Err::<ExecOutcome, Chip8Error>(e)));
                    }
                }
                return Err(e);
            }
        }
    }
    proof {
        assert(trace.len() == n + 1 && trace.last() == machine_of(cpu@, ram@, display@));
    }
    Ok(RunOutcome::Completed)
}

proof fn lemma_chain_step(trace: Seq<MachineModel>, keys: Seq<bool>, t: int)
    requires
        ok_chain(trace, keys),
        0 <= t < trace.len() - 1,
    ensures
        step_rel(trace[t], trace[t + 1], keys, Ok::<ExecOutcome, Chip8Error>(ExecOutcome::Continue)),
{
}

proof fn lemma_ok_chain_drop_last(trace: Seq<MachineModel>, keys: Seq<bool>)
    requires
        ok_chain(trace, keys),
        trace.len() >= 1,
    ensures
        ok_chain(trace.drop_last(), keys),
{
    let dl = trace.drop_last();
    assert forall|t: int| 0 <= t < dl.len() - 1
        implies #[trigger] step_rel(dl[t], dl[t + 1], keys,
            Ok::<ExecOutcome, Chip8Error>(ExecOutcome::Continue)) by {
        assert(step_rel(trace[t], trace[t + 1], keys,
            Ok::<ExecOutcome, Chip8Error>(ExecOutcome::Continue)));
        assert(dl[t] == trace[t] && dl[t + 1] == trace[t + 1]);
    }
}

/// A machine whose memory holds, at the program origin, `Load(V0, 5)`,
/// `Add(V0, 3)` and a jump back to the jump itself, run for any number of
/// completed cycles of at least two, ends with `V0 == 8` and the program
/// counter parked on the jump; memory never changes.
pub proof fn lemma_load_add_loop_program(trace: Seq<MachineModel>, keys: Seq<bool>)
    requires
        trace.len() >= 3,
        ok_chain(trace, keys),
        trace[0].cpu.vx.len() == 16,
        trace[0].cpu.pc == 0x200,
        trace[0].mem.len() == MEMORY_SIZE,
        trace[0].mem[0x200] == 0x60,
        trace[0].mem[0x201] == 0x05,
        trace[0].mem[0x202] == 0x70,
        trace[0].mem[0x203] == 0x03,
        trace[0].mem[0x204] == 0x12,
        trace[0].mem[0x205] == 0x04,
    ensures
        trace.last().cpu.vx[0] == 8,
        trace.last().cpu.pc == 0x204,
        trace.last().mem == trace[0].mem,
    decreases trace.len(),
{
    let m = trace[0].mem;
    if trace.len() == 3 {
        assert((0x60u8 >> 4) & 0x0F == 6 && 0x60u8 & 0x0F == 0
            && (0x05u8 >> 4) & 0x0F == 0 && 0x05u8 & 0x0F == 5) by (bit_vector);
        lemma_chain_step(trace, keys, 0);
        assert(spec_decode(m[0x200], m[0x201]) == Some(Instruction::Load(Vx(0), 5)));
        assert(trace[1].cpu.vx[0] == 5 && trace[1].cpu.pc == 0x202 && trace[1].mem == m);

        assert((0x70u8 >> 4) & 0x0F == 7 && 0x70u8 & 0x0F == 0
            && (0x03u8 >> 4) & 0x0F == 0 && 0x03u8 & 0x0F == 3) by (bit_vector);
        lemma_chain_step(trace, keys, 1);
        assert(spec_decode(m[0x202], m[0x203]) == Some(Instruction::Add(Vx(0), 3)));
        assert(trace[2].cpu.vx[0] == 8 && trace[2].cpu.pc == 0x204 && trace[2].mem == m);
        assert(trace.last() == trace[2]);
    } else {
        let dl = trace.drop_last();
        lemma_ok_chain_drop_last(trace, keys);
        assert(dl[0] == trace[0]);
        lemma_load_add_loop_program(dl, keys);
        let prev = trace[trace.len() - 2];
        assert(dl.last() == prev);

        assert((0x12u8 >> 4) & 0x0F == 1 && 0x12u8 & 0x0F == 2
            && (0x04u8 >> 4) & 0x0F == 0 && 0x04u8 & 0x0F == 4) by (bit_vector);
        lemma_chain_step(trace, keys, trace.len() - 2);
        assert(step_rel(prev, trace.last(), keys,
            Ok::<ExecOutcome, Chip8Error>(ExecOutcome::Continue)));
        assert(spec_decode(prev.mem[0x204], prev.mem[0x205]) == Some(Instruction::Jmp(Addr(0x204))));
        assert(trace.last().cpu.vx[0] == 8 && trace.last().cpu.pc == 0x204 && trace.last().mem == m);
    }
}

/// The register file after one 60Hz timer tick.
pub open spec fn ticked(c: CpuModel) -> CpuModel {
    CpuModel {
        delay: if c.delay > 0 { (c.delay - 1) as u8 } else { 0u8 },
        sound: if c.sound > 0 { (c.sound - 1) as u8 } else { 0u8 },
        ..c
    }
}

/// The number of guest instructions executed per 60Hz frame at a given
/// total instruction rate; the one guard cycle avoids systematic
/// under-execution from the integer truncation.
pub fn frame_cycles(cycles_per_second: u64) -> (r: u64)
    ensures
        r == cycles_per_second / 60 + 1,
{
    cycles_per_second / 60 + 1
}

/// How one frame relates the machine before and after: a burst of `n`
/// cycles as `run_rel` has it, followed, when every cycle completed, by
/// exactly one timer tick.
pub open spec fn frame_rel(
    pre: MachineModel,
    post: MachineModel,
    keys: Seq<bool>,
    n: u64,
    r: Result<RunOutcome, Chip8Error>,
) -> bool {
    match r {
        Ok(RunOutcome::Completed) => exists|mid: MachineModel| {
            &&& #[trigger] run_rel(pre, mid, keys, n, Ok::<RunOutcome, Chip8Error>(RunOutcome::Completed))
            &&& post == machine_of(ticked(mid.cpu), mid.mem, mid.disp)
        },
        _ => run_rel(pre, post, keys, n, r),
    }
}

/// One 60Hz frame of the fixed-timestep schedule: the frame's burst of
/// `cycles_per_second / 60 + 1` cycles, then exactly one timer tick. A
/// key-wait or an error suspends the frame before the tick.
pub fn run_frame(
    cpu: &mut Cpu,
    ram: &mut Memory,
    display: &mut Display,
    keypad: &Keypad,
    cycles_per_second: u64,
) -> (r: Result<RunOutcome, Chip8Error>)
    requires
        old(cpu).wf(),
        old(ram).wf(),
        old(display).wf(),
        keypad.wf(),
    ensures
        final(cpu).wf(),
        final(ram).wf(),
        final(display).wf(),
        frame_rel(
            machine_of(old(cpu)@, old(ram)@, old(display)@),
            machine_of(final(cpu)@, final(ram)@, final(display)@),
            keypad@, (cycles_per_second / 60 + 1) as u64, r),
{
    let n = frame_cycles(cycles_per_second);
    let res = run_cycles(cpu, ram, display, keypad, n);
    match res {
        Ok(RunOutcome::Completed) => {
            let ghost pre = machine_of(old(cpu)@, old(ram)@, old(display)@);
            let ghost mid = machine_of(cpu@, ram@, display@);
            proof {
                assert(run_rel(pre, mid, keypad@, n,
                    Ok::<RunOutcome, Chip8Error>(RunOutcome::Completed)));
            }
            cpu.step_clocks();
            proof {
                assert(cpu@ == ticked(mid.cpu));
                let post = machine_of(cpu@, ram@, display@);
                assert(post == machine_of(ticked(mid.cpu), mid.mem, mid.disp));
                assert(frame_rel(pre, post, keypad@, n,
                    Ok::<RunOutcome, Chip8Error>(RunOutcome::Completed)));
            }
            Ok(RunOutcome::Completed)
        }
        Ok(RunOutcome::AwaitingKey(x, used)) => Ok(RunOutcome::AwaitingKey(x, used)),
        Err(e) => Err(e),
    }
}

} // verus!
