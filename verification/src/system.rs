use vstd::prelude::*;

use crate::bios::Bios;
use crate::bus::{timings_consistent, with_timings, Bus, BusModel};
use crate::cpu::{reset_model, step_spec, CpuModel, CPU};

verus! {

/// What a front end can be told about.
#[derive(Debug, Clone, Copy, PartialEq, Eq, Hash, Structural)]
pub enum Event {
    SystemBootComplete,
    SystemStartComplete,
    SystemStopComplete,
    SystemShutdownComplete,
    InstructionComplete,
    FrameComplete,
}

/// The flags that the front end sets and the processing loop reads.
pub struct SystemControl {
    pub is_on: bool,
    pub is_running: bool,
    pub run_next_instruction: bool,
    pub run_next_frame: bool,
}

/// What the processing loop does on one turn.
#[derive(Debug, Clone, Copy, PartialEq, Eq, Structural)]
pub enum RunnerAction {
    /// The system is off: leave the loop.
    Exit,
    /// Running: execute an instruction and report `InstructionComplete`.
    ExecuteAndNotify,
    /// Stepping: execute the one instruction that was asked for.
    ExecuteOnce,
    /// Nothing to do until the next turn.
    Wait,
}

/// One turn of the processing loop, as action and flags after it.
pub open spec fn next_action_spec(c: SystemControl) -> (RunnerAction, SystemControl) {
    if !c.is_on {
        (RunnerAction::Exit, c)
    } else if c.is_running {
        (RunnerAction::ExecuteAndNotify, c)
    } else if c.run_next_instruction {
        (RunnerAction::ExecuteOnce, SystemControl { run_next_instruction: false, ..c })
    } else {
        (RunnerAction::Wait, c)
    }
}

impl SystemControl {
    /// Off, stopped, nothing asked for.
    pub fn new() -> (r: Self)
        ensures
            !r.is_on && !r.is_running && !r.run_next_instruction && !r.run_next_frame,
    {
        Self { is_on: false, is_running: false, run_next_instruction: false, run_next_frame: false }
    }

    /// The system is on: the processing loop may run.
    pub fn boot(&mut self)
        ensures
            *final(self) == (SystemControl { is_on: true, ..*old(self) }),
    {
        self.is_on = true;
    }

    pub fn start(&mut self)
        ensures
            *final(self) == (SystemControl { is_running: true, ..*old(self) }),
    {
        self.is_running = true;
    }

    /// Asks for a single instruction to be executed.
    pub fn next_instruction(&mut self)
        ensures
            *final(self) == (SystemControl { run_next_instruction: true, ..*old(self) }),
    {
        self.run_next_instruction = true;
    }

    pub fn stop(&mut self)
        ensures
            *final(self) == (SystemControl { is_running: false, ..*old(self) }),
    {
        self.is_running = false;
    }

    /// The system is off: the processing loop ends at its next turn.
    pub fn shutdown(&mut self)
        ensures
            *final(self) == (SystemControl { is_on: false, ..*old(self) }),
    {
        self.is_on = false;
    }

    /// One turn of the processing loop: while on, a running system executes
    /// (and reports) an instruction; otherwise one asked-for instruction is
    /// executed and the request consumed.
    pub fn next_action(&mut self) -> (r: RunnerAction)
        ensures
            (r, *final(self)) == next_action_spec(*old(self)),
    {
        if !self.is_on {
            RunnerAction::Exit
        } else if self.is_running {
            RunnerAction::ExecuteAndNotify
        } else if self.run_next_instruction {
            self.run_next_instruction = false;
            RunnerAction::ExecuteOnce
        } else {
            RunnerAction::Wait
        }
    }
}

/// The emulated machine: the bus and the CPU.
pub struct InnerSystem {
    bus: Bus,
    cpu: CPU,
}

impl InnerSystem {
    /// The state of the CPU.
    pub closed spec fn cpu_view(&self) -> CpuModel {
        self.cpu@
    }

    /// The state of the bus.
    pub closed spec fn bus_view(&self) -> BusModel {
        self.bus@
    }

    /// RAM and BIOS sizes are right.
    pub closed spec fn wf(&self) -> bool {
        self.bus.wf()
    }

    /// A machine after a reset, with no BIOS loaded.
    pub fn new() -> (r: Self)
        ensures
            r.wf(),
            r.cpu_view() == reset_model(),
    {
        Self { bus: Bus::new(), cpu: CPU::new() }
    }

    /// Loads the BIOS and sets up the bus's access times.
    pub fn boot(&mut self, bios: &Bios)
        requires
            old(self).wf(),
            bios@.len() == crate::bios::BIOS_SIZE,
        ensures
            final(self).wf(),
            final(self).bus_view() == with_timings(BusModel { bios: bios@, ..old(self).bus_view() }),
            timings_consistent(final(self).bus_view()),
            final(self).cpu_view() == old(self).cpu_view(),
    {
        let _ = self.load_bios(bios);
        let _ = self.initialize();
    }

    /// Executes one instruction.
    pub fn next_instruction(&mut self) -> (r: Result<(), String>)
        requires
            old(self).wf(),
        ensures
            final(self).wf(),
            match step_spec(old(self).cpu_view(), old(self).bus_view()) {
                Some((s, b)) => r is Ok && final(self).cpu_view() == s && final(self).bus_view() == b,
                None => r is Err,
            },
    {
        self.run_frame()
    }

    pub fn get_cycle(&self) -> (r: usize)
        ensures
            r == self.cpu_view().cycle,
    {
        self.cpu.get_cycle()
    }

    pub fn get_instruction(&self) -> (r: u32)
        ensures
            r == self.cpu_view().instruction,
    {
        self.cpu.get_instruction()
    }

    /// The bus, for inspection.
    pub fn bus(&self) -> (r: &Bus)
        ensures
            r@ == self.bus_view(),
    {
        &self.bus
    }

    /// The CPU, for inspection.
    pub fn cpu(&self) -> (r: &CPU)
        ensures
            r@ == self.cpu_view(),
    {
        &self.cpu
    }

    fn run_frame(&mut self) -> (r: Result<(), String>)
        requires
            old(self).wf(),
        ensures
            final(self).wf(),
            match step_spec(old(self).cpu_view(), old(self).bus_view()) {
                Some((s, b)) => r is Ok && final(self).cpu_view() == s && final(self).bus_view() == b,
                None => r is Err,
            },
    {
        self.cpu.execute(&mut self.bus)
    }

    fn load_bios(&mut self, bios: &Bios) -> (r: Result<(), String>)
        requires
            old(self).wf(),
            bios@.len() == crate::bios::BIOS_SIZE,
        ensures
            r is Ok,
            final(self).wf(),
            final(self).bus_view() == (BusModel { bios: bios@, ..old(self).bus_view() }),
            final(self).cpu_view() == old(self).cpu_view(),
    {
        self.bus.load_bios(bios.data());
        Ok(())
    }

    fn initialize(&mut self) -> (r: Result<(), String>)
        requires
            old(self).wf(),
        ensures
            r is Ok,
            final(self).wf(),
            final(self).bus_view() == with_timings(old(self).bus_view()),
            timings_consistent(final(self).bus_view()),
            final(self).cpu_view() == old(self).cpu_view(),
    {
        self.bus.initialize();
        Ok(())
    }
}

/// After a shutdown the processing loop leaves at its next turn, whatever
/// else was asked for.
pub proof fn lemma_shutdown_exits(c: SystemControl)
    ensures
        next_action_spec(SystemControl { is_on: false, ..c }).0 == RunnerAction::Exit,
{
}

/// A started system executes an instruction on every turn until it is
/// stopped or shut down.
pub proof fn lemma_running_executes(c: SystemControl)
    requires
        c.is_on,
    ensures
        next_action_spec(SystemControl { is_running: true, ..c }).0 == RunnerAction::ExecuteAndNotify,
        next_action_spec(SystemControl { is_running: true, ..c }).1 == (SystemControl {
            is_running: true,
            ..c
        }),
{
}

/// Stepping a stopped system executes exactly one instruction: the turn
/// after the request executes it, and the turn after that waits.
pub proof fn lemma_single_step(c: SystemControl)
    requires
        c.is_on,
        !c.is_running,
    ensures
        next_action_spec(SystemControl { run_next_instruction: true, ..c }).0
            == RunnerAction::ExecuteOnce,
        next_action_spec(next_action_spec(SystemControl { run_next_instruction: true, ..c }).1).0
            == RunnerAction::Wait,
{
}

} // verus!
