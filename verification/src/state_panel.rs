use vstd::prelude::*;

verus! {

/// What the emulator reports about its execution.
#[derive(Clone, Copy, PartialEq, Eq, Structural, Debug)]
pub enum EmuStatus {
    Paused,
    BreakPoint,
    Halted,
    UnknownInstruction,
}

/// The label shown for the emulator: `Running` while the run loop is active,
/// otherwise the emulator's own status.
pub open spec fn status_text(running: bool, status: EmuStatus) -> Seq<char> {
    if running {
        "Running"@
    } else {
        match status {
            EmuStatus::Paused => "Paused"@,
            EmuStatus::BreakPoint => "Breakpoint"@,
            EmuStatus::Halted => "Halted"@,
            EmuStatus::UnknownInstruction => "Unknown Instruction"@,
        }
    }
}

/// The label shown for the emulator, as [`status_text`] says.
pub fn status_label(running: bool, status: EmuStatus) -> (label: &'static str)
    ensures
        label@ == status_text(running, status),
{
    if running {
        "Running"
    } else {
        match status {
            EmuStatus::Paused => "Paused",
            EmuStatus::BreakPoint => "Breakpoint",
            EmuStatus::Halted => "Halted",
            EmuStatus::UnknownInstruction => "Unknown Instruction",
        }
    }
}

/// The last status and register values seen, shown while the emulator is busy.
pub struct StatePanel {
    last_status: &'static str,
    last_regs: [u16; 8],
    last_iregs: [u16; 6],
}

pub struct StatePanelView {
    pub status: Seq<char>,
    pub regs: Seq<u16>,
    pub iregs: Seq<u16>,
}

impl View for StatePanel {
    type V = StatePanelView;

    closed spec fn view(&self) -> StatePanelView {
        StatePanelView { status: self.last_status@, regs: self.last_regs@, iregs: self.last_iregs@ }
    }
}

impl Default for StatePanel {
    fn default() -> (p: Self)
        ensures
            p@.status == "Paused"@,
            p@.regs == Seq::new(8, |i: int| 0u16),
            p@.iregs == Seq::new(6, |i: int| 0u16),
    {
        let p = StatePanel { last_status: "Paused", last_regs: [0; 8], last_iregs: [0; 6] };
        assert(p@.regs =~= Seq::new(8, |i: int| 0u16));
        assert(p@.iregs =~= Seq::new(6, |i: int| 0u16));
        p
    }
}

impl StatePanel {
    /// Records the status seen in this frame.
    pub fn update_status(&mut self, running: bool, status: EmuStatus)
        ensures
            final(self)@.status == status_text(running, status),
            final(self)@.regs == old(self)@.regs,
            final(self)@.iregs == old(self)@.iregs,
    {
        self.last_status = status_label(running, status);
    }

    /// Records the register values seen in this frame.
    pub fn record_registers(&mut self, regs: [u16; 8], iregs: [u16; 6])
        ensures
            final(self)@.regs == regs@,
            final(self)@.iregs == iregs@,
            final(self)@.status == old(self)@.status,
    {
        self.last_regs = regs;
        self.last_iregs = iregs;
    }

    /// The status label last recorded.
    pub fn status(&self) -> (s: &'static str)
        ensures
            s@ == self@.status,
    {
        self.last_status
    }

    /// The general registers last recorded.
    pub fn last_regs(&self) -> (r: [u16; 8])
        ensures
            r@ == self@.regs,
    {
        self.last_regs
    }

    /// The internal registers last recorded.
    pub fn last_iregs(&self) -> (r: [u16; 6])
        ensures
            r@ == self@.iregs,
    {
        self.last_iregs
    }
}

} // verus!
