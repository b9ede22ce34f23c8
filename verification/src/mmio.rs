//! Device register programs: a driver operation written as a list of
//! register reads, writes and bounded polls, run one access at a time. The
//! caller performs each access the runner asks for and hands back the value
//! of each read; the runner decides everything else.
use vstd::prelude::*;

verus! {

/// One step of a register program.
#[derive(Clone, Copy, PartialEq, Eq, Structural, Debug)]
pub enum Instr {
    /// Read the 32-bit register at `addr` into the saved value.
    Load { addr: u64 },
    /// Replace the saved value by `(saved & and_mask) | or_mask` and write it to `addr`.
    StoreSaved { addr: u64, and_mask: u32, or_mask: u32 },
    Write32 { addr: u64, value: u32 },
    Write16 { addr: u64, value: u16 },
    Write8 { addr: u64, value: u8 },
    Write64 { addr: u64, value: u64 },
    /// Zero `len` bytes of memory at `addr`.
    Zero { addr: u64, len: u64 },
    /// Spin `cycles` times.
    Spin { cycles: u64 },
    /// A full memory fence.
    Fence,
    /// Skip the next `count` steps when `((saved & mask) == value) == equal`.
    SkipIf { mask: u32, value: u32, equal: bool, count: u64 },
    /// End the program, failed, when `saved & mask == value`.
    FailIf { mask: u32, value: u32 },
    /// Read `addr` for as long as `((v & mask) == value) == busy_when_equal`,
    /// spinning `cycles` between reads. With `bounded`, at most `budget`
    /// spins; a poll that ends with the budget used up fails the program
    /// when `fatal`, and is passed over otherwise.
    Poll { addr: u64, mask: u32, value: u32, busy_when_equal: bool, bounded: bool, budget: u64, cycles: u64, fatal: bool },
    /// Wait for command slot 0: read `ci` while its bit 0 is set and the
    /// budget lasts; after each such read, read `is`, and stop at once
    /// (writing the value back to `is`) when it has a bit of `error_mask`;
    /// else spin `cycles` and use one unit of the budget.
    WaitCommand { ci: u64, is: u64, error_mask: u32, budget: u64, cycles: u64 },
    /// End the program, failed, when the last command wait used up its
    /// budget; when it stopped on an error, read `tfd` and then fail.
    FailIfCommandFailed { tfd: u64 },
    /// Read `addr` while its bit 0 is set, with no bound; after each such
    /// read, read `error_addr` and stop when it has a bit of `error_mask`,
    /// else spin `cycles`.
    WaitWhileSet { addr: u64, error_addr: u64, error_mask: u32, cycles: u64 },
}

/// What the runner asks of the caller.
#[derive(Clone, Copy, PartialEq, Eq, Structural, Debug)]
pub enum Mmio {
    /// Read the 32-bit register and hand its value to the next step.
    Read32 { addr: u64 },
    Write32 { addr: u64, value: u32 },
    Write16 { addr: u64, value: u16 },
    Write8 { addr: u64, value: u8 },
    Write64 { addr: u64, value: u64 },
    Zero { addr: u64, len: u64 },
    Spin { cycles: u64 },
    Fence,
    /// Nothing to do; call the next step.
    Nothing,
    /// The program is over, successful or not.
    Done { ok: bool },
}

/// Where a program run stands.
#[derive(Clone, Copy, PartialEq, Eq, Structural, Debug)]
pub struct Runner {
    pub pc: u64,
    /// 0: the step starts; 1: a read's value is due; 2: a poll or wait reads
    /// again after a spin; 3: a command wait's interrupt status is due.
    pub phase: u8,
    pub saved: u32,
    pub budget: u64,
    pub cmd_timed_out: bool,
    pub cmd_error: bool,
    pub finished: Option<bool>,
}

/// The runner at the start of a program.
pub open spec fn runner_start() -> Runner {
    Runner { pc: 0, phase: 0, saved: 0, budget: 0, cmd_timed_out: false, cmd_error: false, finished: None }
}

/// Whether a polled value keeps the poll going.
pub open spec fn busy(v: u32, mask: u32, value: u32, busy_when_equal: bool) -> bool {
    ((v & mask) == value) == busy_when_equal
}

/// One step of the runner on `prog`, given the value of the last read:
/// the runner after it, and what it asks for.
pub open spec fn run_step(prog: Seq<Instr>, r: Runner, input: u32) -> (Runner, Mmio) {
    let next = Runner { pc: (r.pc + 1) as u64, phase: 0, ..r };
    if r.finished is Some {
        (r, Mmio::Done { ok: r.finished.unwrap() })
    } else if r.pc >= prog.len() {
        (Runner { finished: Some(true), ..r }, Mmio::Done { ok: true })
    } else {
        match prog[r.pc as int] {
            Instr::Load { addr } => if r.phase == 0 {
                (Runner { phase: 1, ..r }, Mmio::Read32 { addr })
            } else {
                (Runner { saved: input, ..next }, Mmio::Nothing)
            },
            Instr::StoreSaved { addr, and_mask, or_mask } => {
                let v = (r.saved & and_mask) | or_mask;
                (Runner { saved: v, ..next }, Mmio::Write32 { addr, value: v })
            },
            Instr::Write32 { addr, value } => (next, Mmio::Write32 { addr, value }),
            Instr::Write16 { addr, value } => (next, Mmio::Write16 { addr, value }),
            Instr::Write8 { addr, value } => (next, Mmio::Write8 { addr, value }),
            Instr::Write64 { addr, value } => (next, Mmio::Write64 { addr, value }),
            Instr::Zero { addr, len } => (next, Mmio::Zero { addr, len }),
            Instr::Spin { cycles } => (next, Mmio::Spin { cycles }),
            Instr::Fence => (next, Mmio::Fence),
            Instr::SkipIf { mask, value, equal, count } =>
                if ((r.saved & mask) == value) == equal && r.pc + 1 + count <= u64::MAX {
                    (Runner { pc: (r.pc + 1 + count) as u64, phase: 0, ..r }, Mmio::Nothing)
                } else {
                    (next, Mmio::Nothing)
                },
            Instr::FailIf { mask, value } => if r.saved & mask == value {
                (Runner { finished: Some(false), ..r }, Mmio::Done { ok: false })
            } else {
                (next, Mmio::Nothing)
            },
            Instr::Poll { addr, mask, value, busy_when_equal, bounded, budget, cycles, fatal } =>
                if r.phase == 0 {
                    (Runner { phase: 1, budget, ..r }, Mmio::Read32 { addr })
                } else if r.phase == 2 {
                    (Runner { phase: 1, ..r }, Mmio::Read32 { addr })
                } else if busy(input, mask, value, busy_when_equal) && (!bounded || r.budget > 0) {
                    (Runner { phase: 2, budget: if bounded { (r.budget - 1) as u64 } else { r.budget }, ..r }, Mmio::Spin { cycles })
                } else if bounded && r.budget == 0 && fatal {
                    (Runner { finished: Some(false), ..r }, Mmio::Done { ok: false })
                } else {
                    (next, Mmio::Nothing)
                },
            Instr::WaitCommand { ci, is, error_mask, budget, cycles } =>
                if r.phase == 0 {
                    (Runner { phase: 1, budget, cmd_timed_out: false, cmd_error: false, ..r }, Mmio::Read32 { addr: ci })
                } else if r.phase == 2 {
                    (Runner { phase: 1, ..r }, Mmio::Read32 { addr: ci })
                } else if r.phase == 1 {
                    if input & 1 == 0 || r.budget == 0 {
                        (Runner { cmd_timed_out: r.budget == 0, ..next }, Mmio::Nothing)
                    } else {
                        (Runner { phase: 3, ..r }, Mmio::Read32 { addr: is })
                    }
                } else if input & error_mask != 0 {
                    (Runner { cmd_error: true, cmd_timed_out: false, ..next }, Mmio::Write32 { addr: is, value: input })
                } else {
                    (Runner { phase: 2, budget: (r.budget - 1) as u64, ..r }, Mmio::Spin { cycles })
                },
            Instr::WaitWhileSet { addr, error_addr, error_mask, cycles } =>
                if r.phase == 0 || r.phase == 2 {
                    (Runner { phase: 1, ..r }, Mmio::Read32 { addr })
                } else if r.phase == 1 {
                    if input & 1 == 0 {
                        (next, Mmio::Nothing)
                    } else {
                        (Runner { phase: 3, ..r }, Mmio::Read32 { addr: error_addr })
                    }
                } else if input & error_mask != 0 {
                    (next, Mmio::Nothing)
                } else {
                    (Runner { phase: 2, ..r }, Mmio::Spin { cycles })
                },
            Instr::FailIfCommandFailed { tfd } =>
                if r.phase == 0 {
                    if r.cmd_timed_out {
                        (Runner { finished: Some(false), ..r }, Mmio::Done { ok: false })
                    } else if r.cmd_error {
                        (Runner { phase: 1, ..r }, Mmio::Read32 { addr: tfd })
                    } else {
                        (next, Mmio::Nothing)
                    }
                } else {
                    (Runner { finished: Some(false), ..r }, Mmio::Done { ok: false })
                },
        }
    }
}

/// Whether the runner is in a state a run can reach: phases match the step.
pub open spec fn runner_ok(prog: Seq<Instr>, r: Runner) -> bool {
    &&& r.phase <= 3
    &&& r.pc < prog.len() ==> (match prog[r.pc as int] {
        Instr::Load { .. } => r.phase <= 1,
        Instr::Poll { .. } => r.phase <= 2,
        Instr::WaitCommand { budget, .. } => r.phase == 3 ==> r.budget > 0,
        Instr::FailIfCommandFailed { .. } => r.phase <= 1,
        Instr::WaitWhileSet { .. } => true,
        _ => r.phase == 0,
    })
}

impl Runner {
    pub fn new() -> (r: Self)
        ensures
            r == runner_start(),
    {
        Runner { pc: 0, phase: 0, saved: 0, budget: 0, cmd_timed_out: false, cmd_error: false, finished: None }
    }

    /// Runs one step of `prog`; `input` is the value of the read asked for
    /// last (ignored after any other request).
    pub fn step(&mut self, prog: &[Instr], input: u32) -> (a: Mmio)
        requires
            runner_ok(prog@, *old(self)),
        ensures
            (*final(self), a) == run_step(prog@, *old(self), input),
            runner_ok(prog@, *final(self)),
    {
        let r = *self;
        let next = Runner { pc: if r.pc < u64::MAX { r.pc + 1 } else { r.pc }, phase: 0, ..r };
        if let Some(ok) = r.finished {
            return Mmio::Done { ok };
        }
        if r.pc >= prog.len() as u64 {
            self.finished = Some(true);
            return Mmio::Done { ok: true };
        }
        let ins = prog[r.pc as usize];
        match ins {
            Instr::Load { addr } => {
                if r.phase == 0 {
                    self.phase = 1;
                    Mmio::Read32 { addr }
                } else {
                    *self = Runner { saved: input, ..next };
                    Mmio::Nothing
                }
            },
            Instr::StoreSaved { addr, and_mask, or_mask } => {
                let v = (r.saved & and_mask) | or_mask;
                *self = Runner { saved: v, ..next };
                Mmio::Write32 { addr, value: v }
            },
            Instr::Write32 { addr, value } => {
                *self = next;
                Mmio::Write32 { addr, value }
            },
            Instr::Write16 { addr, value } => {
                *self = next;
                Mmio::Write16 { addr, value }
            },
            Instr::Write8 { addr, value } => {
                *self = next;
                Mmio::Write8 { addr, value }
            },
            Instr::Write64 { addr, value } => {
                *self = next;
                Mmio::Write64 { addr, value }
            },
            Instr::Zero { addr, len } => {
                *self = next;
                Mmio::Zero { addr, len }
            },
            Instr::Spin { cycles } => {
                *self = next;
                Mmio::Spin { cycles }
            },
            Instr::Fence => {
                *self = next;
                Mmio::Fence
            },
            Instr::SkipIf { mask, value, equal, count } => {
                if ((r.saved & mask) == value) == equal && count <= u64::MAX - 1 - r.pc {
                    *self = Runner { pc: r.pc + 1 + count, phase: 0, ..r };
                } else {
                    *self = next;
                }
                Mmio::Nothing
            },
            Instr::FailIf { mask, value } => {
                if r.saved & mask == value {
                    self.finished = Some(false);
                    Mmio::Done { ok: false }
                } else {
                    *self = next;
                    Mmio::Nothing
                }
            },
            Instr::Poll { addr, mask, value, busy_when_equal, bounded, budget, cycles, fatal } => {
                if r.phase == 0 {
                    self.phase = 1;
                    self.budget = budget;
                    Mmio::Read32 { addr }
                } else if r.phase == 2 {
                    self.phase = 1;
                    Mmio::Read32 { addr }
                } else if ((input & mask) == value) == busy_when_equal && (!bounded || r.budget > 0) {
                    self.phase = 2;
                    if bounded {
                        self.budget = r.budget - 1;
                    }
                    Mmio::Spin { cycles }
                } else if bounded && r.budget == 0 && fatal {
                    self.finished = Some(false);
                    Mmio::Done { ok: false }
                } else {
                    *self = next;
                    Mmio::Nothing
                }
            },
            Instr::WaitCommand { ci, is, error_mask, budget, cycles } => {
                if r.phase == 0 {
                    self.phase = 1;
                    self.budget = budget;
                    self.cmd_timed_out = false;
                    self.cmd_error = false;
                    Mmio::Read32 { addr: ci }
                } else if r.phase == 2 {
                    self.phase = 1;
                    Mmio::Read32 { addr: ci }
                } else if r.phase == 1 {
                    if input & 1 == 0 || r.budget == 0 {
                        *self = Runner { cmd_timed_out: r.budget == 0, ..next };
                        Mmio::Nothing
                    } else {
                        self.phase = 3;
                        Mmio::Read32 { addr: is }
                    }
                } else if input & error_mask != 0 {
                    *self = Runner { cmd_error: true, cmd_timed_out: false, ..next };
                    Mmio::Write32 { addr: is, value: input }
                } else {
                    self.phase = 2;
                    self.budget = r.budget - 1;
                    Mmio::Spin { cycles }
                }
            },
            Instr::WaitWhileSet { addr, error_addr, error_mask, cycles } => {
                if r.phase == 0 || r.phase == 2 {
                    self.phase = 1;
                    Mmio::Read32 { addr }
                } else if r.phase == 1 {
                    if input & 1 == 0 {
                        *self = next;
                        Mmio::Nothing
                    } else {
                        self.phase = 3;
                        Mmio::Read32 { addr: error_addr }
                    }
                } else if input & error_mask != 0 {
                    *self = next;
                    Mmio::Nothing
                } else {
                    self.phase = 2;
                    Mmio::Spin { cycles }
                }
            },
            Instr::FailIfCommandFailed { tfd } => {
                if r.phase == 0 {
                    if r.cmd_timed_out {
                        self.finished = Some(false);
                        Mmio::Done { ok: false }
                    } else if r.cmd_error {
                        self.phase = 1;
                        Mmio::Read32 { addr: tfd }
                    } else {
                        *self = next;
                        Mmio::Nothing
                    }
                } else {
                    self.finished = Some(false);
                    Mmio::Done { ok: false }
                }
            },
        }
    }
}

} // verus!
