//! The ADS1256 driver: register codes, and its procedures as a machine that says
//! what to do on the bus and is told what came of it.

use crate::packing::{decode_i24, i24_value};
use vstd::prelude::*;

verus! {

pub const REG_STATUS: u8 = 0x00;

pub const REG_MUX: u8 = 0x01;

pub const REG_ADCON: u8 = 0x02;

pub const REG_DRATE: u8 = 0x03;

pub const CMD_RDATA: u8 = 0x01;

pub const CMD_SDATAC: u8 = 0x0F;

pub const CMD_RREG: u8 = 0x10;

pub const CMD_WREG: u8 = 0x50;

pub const CMD_SELFCAL: u8 = 0xF0;

pub const CMD_SYNC: u8 = 0xFC;

pub const CMD_WAKEUP: u8 = 0x00;

pub const CMD_RESET: u8 = 0xFE;

/// Differential input AIN0-AIN1.
pub const MUX_DIFF_CH0: u8 = 0x01;

/// Differential input AIN2-AIN3.
pub const MUX_DIFF_CH1: u8 = 0x23;

pub const STATUS_DEFAULT: u8 = 0x00;

pub const ADCON_DEFAULT: u8 = 0x00;

pub const DRATE_DEFAULT: u8 = 0xB0;

/// How long a conversion is waited for, in milliseconds.
pub const READY_TIMEOUT_MS: u32 = 200;

/// How often a register is read back before it counts as not written.
pub const VERIFY_ATTEMPTS: u8 = 12;

// ---------------------------------------------------------------------------
// Register codes
// ---------------------------------------------------------------------------

/// The gains of the converter.
pub open spec fn is_gain(pga: u8) -> bool {
    pga == 1 || pga == 2 || pga == 4 || pga == 8 || pga == 16 || pga == 32 || pga == 64
}

/// Two to the power of a gain code.
pub open spec fn gain_of_code(code: u8) -> int
    decreases code,
{
    if code == 0 {
        1
    } else {
        2 * gain_of_code((code - 1) as u8)
    }
}

/// The gain bits of the ADCON register: the power of two that the gain is, 0 for
/// anything that is no gain.
pub open spec fn gain_code(pga: u8) -> u8 {
    if pga == 2 {
        1
    } else if pga == 4 {
        2
    } else if pga == 8 {
        3
    } else if pga == 16 {
        4
    } else if pga == 32 {
        5
    } else if pga == 64 {
        6
    } else {
        0
    }
}

/// The gain bits of the ADCON register for a gain.
pub fn encode_pga(pga: u8) -> (code: u8)
    ensures
        code == gain_code(pga),
{
    match pga {
        1 => 0,
        2 => 1,
        4 => 2,
        8 => 3,
        16 => 4,
        32 => 5,
        64 => 6,
        _ => 0,
    }
}

/// A gain is two to the power of its code.
pub proof fn law_gain_code_is_exponent(pga: u8)
    requires
        is_gain(pga),
    ensures
        gain_of_code(gain_code(pga)) == pga,
        gain_code(pga) <= 6,
{
    reveal_with_fuel(gain_of_code, 7);
}

/// The DRATE register for a sample rate, if the converter has that rate.
pub open spec fn rate_code(sps: u16) -> Option<u8> {
    if sps == 30000 {
        Some(0xF0u8)
    } else if sps == 15000 {
        Some(0xE0u8)
    } else if sps == 7500 {
        Some(0xD0u8)
    } else if sps == 3750 {
        Some(0xC0u8)
    } else if sps == 2000 {
        Some(0xB0u8)
    } else if sps == 1000 {
        Some(0xA1u8)
    } else if sps == 500 {
        Some(0x92u8)
    } else if sps == 100 {
        Some(0x82u8)
    } else if sps == 60 {
        Some(0x72u8)
    } else if sps == 50 {
        Some(0x63u8)
    } else if sps == 30 {
        Some(0x53u8)
    } else if sps == 25 {
        Some(0x43u8)
    } else if sps == 15 {
        Some(0x33u8)
    } else if sps == 10 {
        Some(0x20u8)
    } else if sps == 5 {
        Some(0x13u8)
    } else {
        None
    }
}

/// The DRATE register for a sample rate, if the converter has that rate.
pub fn drate_from_sps(sps: u16) -> (r: Option<u8>)
    ensures
        r == rate_code(sps),
{
    match sps {
        30000 => Some(0xF0),
        15000 => Some(0xE0),
        7500 => Some(0xD0),
        3750 => Some(0xC0),
        2000 => Some(0xB0),
        1000 => Some(0xA1),
        500 => Some(0x92),
        100 => Some(0x82),
        60 => Some(0x72),
        50 => Some(0x63),
        30 => Some(0x53),
        25 => Some(0x43),
        15 => Some(0x33),
        10 => Some(0x20),
        5 => Some(0x13),
        _ => None,
    }
}

/// Two rates have different codes, and a faster rate has a greater one.
pub proof fn law_rate_codes_in_order(a: u16, b: u16)
    requires
        rate_code(a) is Some,
        rate_code(b) is Some,
        a < b,
    ensures
        rate_code(a)->0 < rate_code(b)->0,
{
}

/// The rates of the converter, slowest first.
pub open spec fn rates() -> Seq<u16> {
    seq![5, 10, 15, 25, 30, 50, 60, 100, 500, 1000, 2000, 3750, 7500, 15000, 30000]
}

/// Just the rates of the converter have a code, and the high digit of the code counts them
/// from the slowest on.
pub proof fn law_rate_codes_count_the_rates(sps: u16)
    ensures
        rate_code(sps) is Some <==> rates().contains(sps),
        forall|k: int|
            #![trigger rates()[k]]
            0 <= k < 15 ==> rate_code(rates()[k]) is Some && rate_code(rates()[k])->0 / 16 == k
                + 1,
{
    let all = rates();
    assert(all[0] == 5 && all[1] == 10 && all[2] == 15 && all[3] == 25 && all[4] == 30);
    assert(all[5] == 50 && all[6] == 60 && all[7] == 100 && all[8] == 500 && all[9] == 1000);
    assert(all[10] == 2000 && all[11] == 3750 && all[12] == 7500 && all[13] == 15000);
    assert(all[14] == 30000);
}

/// What is no gain of the converter is written as gain 1, and a greater gain has a greater
/// code.
pub proof fn law_gain_codes_in_order(a: u8, b: u8)
    ensures
        !is_gain(a) ==> gain_code(a) == 0,
        is_gain(a) && is_gain(b) ==> (a < b <==> gain_code(a) < gain_code(b)),
{
}

// ---------------------------------------------------------------------------
// The bus
// ---------------------------------------------------------------------------

/// What is done while the chip is selected.
#[derive(Debug, Clone, Copy, PartialEq, Eq, Structural)]
pub enum Exchange {
    /// Send one command byte.
    Command(u8),
    /// Write a register.
    WriteRegister(u8, u8),
    /// Read a register.
    ReadRegister(u8),
    /// Read one conversion.
    ReadData,
    /// Take over the conversion that the chip may be putting out, and leave
    /// continuous reading.
    LeaveContinuous,
}

/// An exchange in terms of the bus: select the chip, read `read_first` bytes,
/// write, wait `gap_us`, read `read_after` bytes, deselect, wait `settle_us`.
pub struct Transfer {
    pub read_first: usize,
    pub write: Vec<u8>,
    pub gap_us: u32,
    pub read_after: usize,
    pub settle_us: u32,
}

impl Exchange {
    /// The bytes that are written.
    pub open spec fn written(self) -> Seq<u8> {
        match self {
            Exchange::Command(c) => seq![c],
            Exchange::WriteRegister(reg, value) => seq![CMD_WREG | reg, 0x00, value],
            Exchange::ReadRegister(reg) => seq![CMD_RREG | reg, 0x00],
            Exchange::ReadData => seq![CMD_RDATA],
            Exchange::LeaveContinuous => seq![CMD_SDATAC],
        }
    }

    /// The exchange in terms of the bus.
    pub fn transfer(self) -> (t: Transfer)
        ensures
            t.write@ == self.written(),
            t.read_first == if self == Exchange::LeaveContinuous {
                3int
            } else {
                0
            },
            t.read_after == match self {
                Exchange::ReadRegister(_) => 1int,
                Exchange::ReadData => 3,
                _ => 0,
            },
            t.gap_us == match self {
                Exchange::ReadRegister(_) => 10int,
                Exchange::ReadData => 7,
                _ => 0,
            },
            t.settle_us == match self {
                Exchange::WriteRegister(_, _) => 10int,
                Exchange::LeaveContinuous => 10,
                _ => 0,
            },
            t.read_after > 0 <==> self is ReadRegister || self is ReadData,
            t.read_after > 0 ==> t.gap_us >= 7,
            self is ReadData ==> t.read_after == 3,
            self is WriteRegister ==> t.settle_us >= 10,
    {
        match self {
            Exchange::Command(c) => Transfer {
                read_first: 0,
                write: vec![c],
                gap_us: 0,
                read_after: 0,
                settle_us: 0,
            },
            Exchange::WriteRegister(reg, value) => Transfer {
                read_first: 0,
                write: vec![CMD_WREG | reg, 0x00, value],
                gap_us: 0,
                read_after: 0,
                settle_us: 10,
            },
            Exchange::ReadRegister(reg) => Transfer {
                read_first: 0,
                write: vec![CMD_RREG | reg, 0x00],
                gap_us: 10,
                read_after: 1,
                settle_us: 0,
            },
            Exchange::ReadData => Transfer {
                read_first: 0,
                write: vec![CMD_RDATA],
                gap_us: 7,
                read_after: 3,
                settle_us: 0,
            },
            Exchange::LeaveContinuous => Transfer {
                read_first: 3,
                write: vec![CMD_SDATAC],
                gap_us: 0,
                read_after: 0,
                settle_us: 10,
            },
        }
    }
}

/// A register is written with its number added to 0x50, a zero and the value, and read with
/// its number added to 0x10 and a zero; everything else is one byte.
pub proof fn law_bytes_on_the_bus(e: Exchange)
    ensures
        match e {
            Exchange::WriteRegister(reg, value) => reg < 16 ==> e.written() == seq![
                (0x50 + reg) as u8,
                0u8,
                value,
            ],
            Exchange::ReadRegister(reg) => reg < 16 ==> e.written() == seq![
                (0x10 + reg) as u8,
                0u8,
            ],
            Exchange::Command(c) => e.written() == seq![c],
            Exchange::ReadData => e.written() == seq![0x01u8],
            Exchange::LeaveContinuous => e.written() == seq![0x0Fu8],
        },
{
    match e {
        Exchange::WriteRegister(reg, _) | Exchange::ReadRegister(reg) => {
            assert(reg < 16 ==> 0x50u8 | reg == 0x50 + reg && 0x10u8 | reg == 0x10 + reg)
                by (bit_vector);
        },
        _ => {},
    }
}

/// What the driver asks for.
#[derive(Debug, Clone, Copy, PartialEq, Eq, Structural)]
pub enum BusAction {
    /// Deselect the chip.
    Deselect,
    /// Wait, in microseconds.
    Pause(u32),
    /// Do an exchange.
    Exchange(Exchange),
    /// Wait for the data-ready line to be low, so many milliseconds at most.
    AwaitReady(u32),
    /// Nothing more: the procedure is over; whether it succeeded.
    Finished(bool),
}

/// What came of it.
#[derive(Debug, Clone, Copy)]
pub enum BusReply {
    /// It was done.
    Done,
    /// The register that was read.
    Register(u8),
    /// The conversion that was read.
    Data([u8; 3]),
    /// The timer when the data-ready line was found low, or `None` where it stayed
    /// high for too long.
    Ready(Option<u64>),
}

/// Whether a reply answers an action.
pub open spec fn answers(action: BusAction, reply: BusReply) -> bool {
    match action {
        BusAction::Deselect | BusAction::Pause(_) => reply is Done,
        BusAction::Exchange(Exchange::ReadRegister(_)) => reply is Register,
        BusAction::Exchange(Exchange::ReadData) => reply is Data,
        BusAction::Exchange(_) => reply is Done,
        BusAction::AwaitReady(_) => reply is Ready,
        BusAction::Finished(_) => false,
    }
}

// ---------------------------------------------------------------------------
// Procedures
// ---------------------------------------------------------------------------

/// One item of a procedure.
#[derive(Debug, Clone, Copy, PartialEq, Eq, Structural)]
pub enum Op {
    /// An action that cannot fail.
    Act(BusAction),
    /// Wait for a conversion; reset the chip once if none comes.
    Poll,
    /// The same, but carry on if none comes even then.
    PollTolerant,
    /// Write a register and read it back until it holds the value.
    Verify(u8, u8),
}

/// Where the driver stands within an item.
#[derive(Debug, Clone, Copy, PartialEq, Eq, Structural)]
pub enum Step {
    /// An action that cannot fail is under way.
    Acting,
    /// The first wait for a conversion is under way.
    Polling,
    /// An item of the reset sequence is under way.
    Resetting(u8),
    /// The register is being written for the first time.
    Writing,
    /// The register is being read back.
    Reading(u8),
    /// The register is being written again after this attempt.
    Rewriting(u8),
    /// The pause after this attempt is under way.
    Resting(u8),
}

/// Number of items of the reset sequence.
pub const RESET_ITEMS: u8 = 11;

/// The reset sequence: reset, wait for the chip, leave continuous reading, restore
/// the registers, calibrate, and wait twice.
pub open spec fn reset_item(k: u8) -> BusAction {
    if k == 0 {
        BusAction::Exchange(Exchange::Command(CMD_RESET))
    } else if k == 1 {
        BusAction::Pause(5000)
    } else if k == 2 {
        BusAction::AwaitReady(READY_TIMEOUT_MS)
    } else if k == 3 {
        BusAction::Exchange(Exchange::LeaveContinuous)
    } else if k == 4 {
        BusAction::Exchange(Exchange::WriteRegister(REG_STATUS, STATUS_DEFAULT))
    } else if k == 5 {
        BusAction::Exchange(Exchange::WriteRegister(REG_ADCON, ADCON_DEFAULT))
    } else if k == 6 {
        BusAction::Exchange(Exchange::WriteRegister(REG_DRATE, DRATE_DEFAULT))
    } else if k == 7 {
        BusAction::Exchange(Exchange::WriteRegister(REG_MUX, MUX_DIFF_CH0))
    } else if k == 8 {
        BusAction::Exchange(Exchange::Command(CMD_SELFCAL))
    } else {
        BusAction::AwaitReady(READY_TIMEOUT_MS)
    }
}

fn reset_action(k: u8) -> (r: BusAction)
    ensures
        r == reset_item(k),
{
    match k {
        0 => BusAction::Exchange(Exchange::Command(CMD_RESET)),
        1 => BusAction::Pause(5000),
        2 => BusAction::AwaitReady(READY_TIMEOUT_MS),
        3 => BusAction::Exchange(Exchange::LeaveContinuous),
        4 => BusAction::Exchange(Exchange::WriteRegister(REG_STATUS, STATUS_DEFAULT)),
        5 => BusAction::Exchange(Exchange::WriteRegister(REG_ADCON, ADCON_DEFAULT)),
        6 => BusAction::Exchange(Exchange::WriteRegister(REG_DRATE, DRATE_DEFAULT)),
        7 => BusAction::Exchange(Exchange::WriteRegister(REG_MUX, MUX_DIFF_CH0)),
        8 => BusAction::Exchange(Exchange::Command(CMD_SELFCAL)),
        _ => BusAction::AwaitReady(READY_TIMEOUT_MS),
    }
}

/// The step that an item starts with.
pub open spec fn first_step(op: Op) -> Step {
    match op {
        Op::Act(_) => Step::Acting,
        Op::Poll | Op::PollTolerant => Step::Polling,
        Op::Verify(_, _) => Step::Writing,
    }
}

/// Whether a step belongs to an item.
pub open spec fn step_of(op: Op, step: Step) -> bool {
    match op {
        Op::Act(_) => step is Acting,
        Op::Poll | Op::PollTolerant => step is Polling || (step matches Step::Resetting(k) && k
            < RESET_ITEMS),
        Op::Verify(_, _) => match step {
            Step::Writing => true,
            Step::Reading(a) => a < VERIFY_ATTEMPTS,
            Step::Rewriting(a) => a < VERIFY_ATTEMPTS && a % 4 == 3,
            Step::Resting(a) => a < VERIFY_ATTEMPTS,
            _ => false,
        },
    }
}

/// What a step asks for.
pub open spec fn step_action(op: Op, step: Step) -> BusAction {
    match step {
        Step::Acting => op->Act_0,
        Step::Polling => BusAction::AwaitReady(READY_TIMEOUT_MS),
        Step::Resetting(k) => reset_item(k),
        Step::Writing | Step::Rewriting(_) => BusAction::Exchange(
            Exchange::WriteRegister(op->Verify_0, op->Verify_1),
        ),
        Step::Reading(_) => BusAction::Exchange(Exchange::ReadRegister(op->Verify_0)),
        Step::Resting(_) => BusAction::Pause(50),
    }
}

/// What follows a reply.
#[derive(Debug, Clone, Copy, PartialEq, Eq, Structural)]
pub enum Flow {
    /// Another step of the same item.
    Go(Step),
    /// The item is done.
    Next,
    /// The item has failed.
    Fail,
}

/// What follows a reply to a step of an item.
pub open spec fn flow(op: Op, step: Step, reply: BusReply) -> Flow {
    match step {
        Step::Acting => Flow::Next,
        Step::Polling => if reply->Ready_0 is Some {
            Flow::Next
        } else {
            Flow::Go(Step::Resetting(0))
        },
        Step::Resetting(k) => if reply is Ready && reply->Ready_0 is None {
            if op is PollTolerant {
                Flow::Next
            } else {
                Flow::Fail
            }
        } else if k + 1 == RESET_ITEMS {
            Flow::Next
        } else {
            Flow::Go(Step::Resetting((k + 1) as u8))
        },
        Step::Writing => Flow::Go(Step::Reading(0)),
        Step::Reading(a) => if reply->Register_0 == op->Verify_1 {
            Flow::Next
        } else if a % 4 == 3 {
            Flow::Go(Step::Rewriting(a))
        } else {
            Flow::Go(Step::Resting(a))
        },
        Step::Rewriting(a) => Flow::Go(Step::Resting(a)),
        Step::Resting(a) => if a + 1 == VERIFY_ATTEMPTS {
            Flow::Fail
        } else {
            Flow::Go(Step::Reading((a + 1) as u8))
        },
    }
}

fn first_step_of(op: Op) -> (r: Step)
    ensures
        r == first_step(op),
        step_of(op, r),
{
    match op {
        Op::Act(_) => Step::Acting,
        Op::Poll | Op::PollTolerant => Step::Polling,
        Op::Verify(_, _) => Step::Writing,
    }
}

fn action_of(op: Op, step: Step) -> (r: BusAction)
    requires
        step_of(op, step),
    ensures
        r == step_action(op, step),
{
    match op {
        Op::Act(a) => a,
        Op::Poll | Op::PollTolerant => {
            if let Step::Resetting(k) = step {
                reset_action(k)
            } else {
                BusAction::AwaitReady(READY_TIMEOUT_MS)
            }
        },
        Op::Verify(reg, value) => match step {
            Step::Reading(_) => BusAction::Exchange(Exchange::ReadRegister(reg)),
            Step::Resting(_) => BusAction::Pause(50),
            _ => BusAction::Exchange(Exchange::WriteRegister(reg, value)),
        },
    }
}

fn flow_of(op: Op, step: Step, reply: BusReply) -> (r: Flow)
    requires
        step_of(op, step),
        answers(step_action(op, step), reply),
    ensures
        r == flow(op, step, reply),
        r matches Flow::Go(next) ==> step_of(op, next),
{
    match step {
        Step::Acting => Flow::Next,
        Step::Polling => match reply {
            BusReply::Ready(Some(_)) => Flow::Next,
            _ => Flow::Go(Step::Resetting(0)),
        },
        Step::Resetting(k) => {
            if let BusReply::Ready(None) = reply {
                return if op == Op::PollTolerant {
                    Flow::Next
                } else {
                    Flow::Fail
                };
            }
            if k + 1 == RESET_ITEMS {
                Flow::Next
            } else {
                Flow::Go(Step::Resetting(k + 1))
            }
        },
        Step::Writing => Flow::Go(Step::Reading(0)),
        Step::Reading(a) => match (op, reply) {
            (Op::Verify(_, value), BusReply::Register(actual)) => {
                if actual == value {
                    Flow::Next
                } else if a % 4 == 3 {
                    Flow::Go(Step::Rewriting(a))
                } else {
                    Flow::Go(Step::Resting(a))
                }
            },
            _ => Flow::Fail,
        },
        Step::Rewriting(a) => Flow::Go(Step::Resting(a)),
        Step::Resting(a) => {
            if a + 1 == VERIFY_ATTEMPTS {
                Flow::Fail
            } else {
                Flow::Go(Step::Reading(a + 1))
            }
        },
    }
}

// ---------------------------------------------------------------------------
// The driver
// ---------------------------------------------------------------------------

/// A procedure of the driver under way. Ask for the [`action`](Ads1256::action), do
/// it, hand the [`reply`](Ads1256::reply) in, and so on until it is finished.
pub struct Ads1256 {
    program: Vec<Op>,
    pos: usize,
    step: Step,
    /// Whether the procedure is over, and how it ended.
    over: Option<bool>,
    /// The timer at the last conversion that was waited for.
    tick: u64,
    /// The conversions that were read, in order.
    readings: Vec<i32>,
    /// The registers that were read outside of a check, in order.
    registers: Vec<u8>,
}

/// A procedure under way, as a value.
#[verifier::ext_equal]
pub ghost struct ProcedureView {
    pub program: Seq<Op>,
    pub pos: int,
    pub step: Step,
    pub over: Option<bool>,
    pub tick: u64,
    pub readings: Seq<i32>,
    pub registers: Seq<u8>,
}

impl ProcedureView {
    /// The item under way.
    pub open spec fn op(self) -> Op {
        self.program[self.pos]
    }

    /// A procedure at its start.
    pub open spec fn start(program: Seq<Op>) -> ProcedureView {
        ProcedureView {
            program,
            pos: 0,
            step: if program.len() > 0 {
                first_step(program[0])
            } else {
                Step::Acting
            },
            over: if program.len() > 0 {
                None
            } else {
                Some(true)
            },
            tick: 0,
            readings: seq![],
            registers: seq![],
        }
    }

    /// What is asked for.
    pub open spec fn action(self) -> BusAction {
        match self.over {
            Some(ok) => BusAction::Finished(ok),
            None => step_action(self.op(), self.step),
        }
    }

    pub open spec fn wf(self) -> bool {
        self.over is None ==> {
            &&& 0 <= self.pos < self.program.len()
            &&& step_of(self.op(), self.step)
        }
    }

    /// The state with what a reply brought kept.
    pub open spec fn record(self, reply: BusReply) -> ProcedureView {
        match reply {
            BusReply::Ready(Some(tick)) => ProcedureView { tick, ..self },
            BusReply::Data(raw) => ProcedureView {
                readings: self.readings.push(i24_value(raw@) as i32),
                ..self
            },
            BusReply::Register(value) => if self.op() is Act {
                ProcedureView { registers: self.registers.push(value), ..self }
            } else {
                self
            },
            _ => self,
        }
    }

    /// The state after a reply.
    pub open spec fn after(self, reply: BusReply) -> ProcedureView {
        let kept = self.record(reply);
        match flow(self.op(), self.step, reply) {
            Flow::Go(step) => ProcedureView { step, ..kept },
            Flow::Fail => ProcedureView { over: Some(false), ..kept },
            Flow::Next => if self.pos + 1 == self.program.len() {
                ProcedureView { over: Some(true), ..kept }
            } else {
                ProcedureView {
                    pos: self.pos + 1,
                    step: first_step(self.program[self.pos + 1]),
                    ..kept
                }
            },
        }
    }
}

impl View for Ads1256 {
    type V = ProcedureView;

    closed spec fn view(&self) -> ProcedureView {
        ProcedureView {
            program: self.program@,
            pos: self.pos as int,
            step: self.step,
            over: self.over,
            tick: self.tick,
            readings: self.readings@,
            registers: self.registers@,
        }
    }
}

impl Ads1256 {
    /// Starts a procedure.
    fn start(program: Vec<Op>) -> (d: Ads1256)
        ensures
            d@ == ProcedureView::start(program@),
            d@.wf(),
    {
        let step: Step = if program.len() > 0 {
            first_step_of(program[0])
        } else {
            Step::Acting
        };
        let over: Option<bool> = if program.len() > 0 {
            None
        } else {
            Some(true)
        };
        let d = Ads1256 {
            program,
            pos: 0,
            step,
            over,
            tick: 0,
            readings: Vec::new(),
            registers: Vec::new(),
        };
        assert(d@ =~= ProcedureView::start(program@));
        d
    }

    /// What is to be done.
    pub fn action(&self) -> (a: BusAction)
        requires
            self@.wf(),
        ensures
            a == self@.action(),
    {
        match self.over {
            Some(ok) => BusAction::Finished(ok),
            None => action_of(self.program[self.pos], self.step),
        }
    }

    /// Takes note of what came of the action.
    pub fn reply(&mut self, reply: BusReply)
        requires
            old(self)@.wf(),
            answers(old(self)@.action(), reply),
        ensures
            final(self)@.wf(),
            final(self)@ == old(self)@.after(reply),
    {
        let op: Op = self.program[self.pos];
        let next = flow_of(op, self.step, reply);
        match reply {
            BusReply::Ready(Some(tick)) => {
                self.tick = tick;
            },
            BusReply::Data(raw) => {
                self.readings.push(decode_i24(&raw));
            },
            BusReply::Register(value) => {
                if let Op::Act(_) = op {
                    self.registers.push(value);
                }
            },
            _ => {},
        }
        assert(self@ =~= old(self)@.record(reply));
        match next {
            Flow::Go(step) => {
                self.step = step;
            },
            Flow::Fail => {
                self.over = Some(false);
            },
            Flow::Next => {
                if self.pos == self.program.len() - 1 {
                    self.over = Some(true);
                } else {
                    self.pos = self.pos + 1;
                    self.step = first_step_of(self.program[self.pos]);
                }
            },
        }
        assert(self@ =~= old(self)@.after(reply));
    }

    /// The timer at the last conversion that was waited for, 0 if there was none.
    pub fn tick(&self) -> (r: u64)
        ensures
            r == self@.tick,
    {
        self.tick
    }

    /// The conversions that were read, in order.
    pub fn readings(&self) -> (r: &Vec<i32>)
        ensures
            r@ == self@.readings,
    {
        &self.readings
    }

    /// The registers that were read outside of a check, in order.
    pub fn registers(&self) -> (r: &Vec<u8>)
        ensures
            r@ == self@.registers,
    {
        &self.registers
    }
}

// ---------------------------------------------------------------------------
// The procedures of the driver
// ---------------------------------------------------------------------------

pub open spec fn command(c: u8) -> Op {
    Op::Act(BusAction::Exchange(Exchange::Command(c)))
}

pub open spec fn pause(us: u32) -> Op {
    Op::Act(BusAction::Pause(us))
}

pub open spec fn write_register(reg: u8, value: u8) -> Op {
    Op::Act(BusAction::Exchange(Exchange::WriteRegister(reg, value)))
}

pub open spec fn read_register(reg: u8) -> Op {
    Op::Act(BusAction::Exchange(Exchange::ReadRegister(reg)))
}

pub open spec fn read_data() -> Op {
    Op::Act(BusAction::Exchange(Exchange::ReadData))
}

pub open spec fn leave_continuous() -> Op {
    Op::Act(BusAction::Exchange(Exchange::LeaveContinuous))
}

/// Calibrate and wait for the chip.
pub open spec fn recalibrate() -> Seq<Op> {
    seq![command(CMD_SELFCAL), Op::Poll]
}

/// Wait for a conversion and read it.
pub open spec fn read_conversion() -> Seq<Op> {
    seq![Op::Poll, read_data()]
}

/// Throw three conversions away while the filter settles.
pub open spec fn settle() -> Seq<Op> {
    read_conversion() + read_conversion() + read_conversion()
}

/// Reset the chip, restore its registers and calibrate it.
pub open spec fn init_program() -> Seq<Op> {
    seq![
        Op::Act(BusAction::Deselect),
        pause(5000),
        Op::Poll,
        command(CMD_RESET),
        pause(5000),
        Op::Poll,
        leave_continuous(),
        write_register(REG_STATUS, STATUS_DEFAULT),
        write_register(REG_ADCON, ADCON_DEFAULT),
        write_register(REG_DRATE, DRATE_DEFAULT),
        write_register(REG_MUX, MUX_DIFF_CH0),
    ] + recalibrate()
}

/// Write a register until it holds the value, calibrate, and let the filter settle.
pub open spec fn change_program(reg: u8, value: u8) -> Seq<Op> {
    seq![Op::Verify(reg, value)] + recalibrate() + settle()
}

/// Set the gain, gain 1 for anything that is no gain.
pub open spec fn gain_program(pga: u8) -> Seq<Op> {
    change_program(REG_ADCON, gain_code(pga))
}

/// Set a sample rate of the converter.
pub open spec fn rate_program(sps: u16) -> Seq<Op> {
    change_program(REG_DRATE, rate_code(sps)->0)
}

/// Select an input, restart the conversion, and calibrate: without calibration the input
/// is not settled.
pub open spec fn select_channel(mux: u8) -> Seq<Op> {
    seq![
        write_register(REG_MUX, mux),
        command(CMD_SYNC),
        pause(4),
        command(CMD_WAKEUP),
        Op::PollTolerant,
        command(CMD_SELFCAL),
        Op::PollTolerant,
    ]
}

/// Set the chip up for one input.
pub open spec fn single_channel_program(mux: u8) -> Seq<Op> {
    init_program() + seq![write_register(REG_MUX, mux)] + recalibrate() + settle()
}

/// Read both inputs, one after the other.
pub open spec fn both_channels_program() -> Seq<Op> {
    select_channel(MUX_DIFF_CH0) + seq![read_data()] + select_channel(MUX_DIFF_CH1) + seq![
        read_data(),
    ]
}

impl Ads1256 {
    fn push_command(program: &mut Vec<Op>, c: u8)
        ensures
            final(program)@ == old(program)@.push(command(c)),
    {
        program.push(Op::Act(BusAction::Exchange(Exchange::Command(c))));
    }

    fn push_pause(program: &mut Vec<Op>, us: u32)
        ensures
            final(program)@ == old(program)@.push(pause(us)),
    {
        program.push(Op::Act(BusAction::Pause(us)));
    }

    fn push_write(program: &mut Vec<Op>, reg: u8, value: u8)
        ensures
            final(program)@ == old(program)@.push(write_register(reg, value)),
    {
        program.push(Op::Act(BusAction::Exchange(Exchange::WriteRegister(reg, value))));
    }

    fn push_recalibrate(program: &mut Vec<Op>)
        ensures
            final(program)@ == old(program)@ + recalibrate(),
    {
        Self::push_command(program, CMD_SELFCAL);
        program.push(Op::Poll);
        assert(program@ =~= old(program)@ + recalibrate());
    }

    fn push_read_conversion(program: &mut Vec<Op>)
        ensures
            final(program)@ == old(program)@ + read_conversion(),
    {
        program.push(Op::Poll);
        program.push(Op::Act(BusAction::Exchange(Exchange::ReadData)));
        assert(program@ =~= old(program)@ + read_conversion());
    }

    fn push_settle(program: &mut Vec<Op>)
        ensures
            final(program)@ == old(program)@ + settle(),
    {
        Self::push_read_conversion(program);
        Self::push_read_conversion(program);
        Self::push_read_conversion(program);
        assert(program@ =~= old(program)@ + settle());
    }

    fn push_init(program: &mut Vec<Op>)
        ensures
            final(program)@ == old(program)@ + init_program(),
    {
        program.push(Op::Act(BusAction::Deselect));
        Self::push_pause(program, 5000);
        program.push(Op::Poll);
        Self::push_command(program, CMD_RESET);
        Self::push_pause(program, 5000);
        program.push(Op::Poll);
        program.push(Op::Act(BusAction::Exchange(Exchange::LeaveContinuous)));
        Self::push_write(program, REG_STATUS, STATUS_DEFAULT);
        Self::push_write(program, REG_ADCON, ADCON_DEFAULT);
        Self::push_write(program, REG_DRATE, DRATE_DEFAULT);
        Self::push_write(program, REG_MUX, MUX_DIFF_CH0);
        Self::push_recalibrate(program);
        assert(program@ =~= old(program)@ + init_program());
    }

    fn push_select_channel(program: &mut Vec<Op>, mux: u8)
        ensures
            final(program)@ == old(program)@ + select_channel(mux),
    {
        Self::push_write(program, REG_MUX, mux);
        Self::push_command(program, CMD_SYNC);
        Self::push_pause(program, 4);
        Self::push_command(program, CMD_WAKEUP);
        program.push(Op::PollTolerant);
        Self::push_command(program, CMD_SELFCAL);
        program.push(Op::PollTolerant);
        assert(program@ =~= old(program)@ + select_channel(mux));
    }

    fn change(reg: u8, value: u8) -> (d: Ads1256)
        ensures
            d@.wf(),
            d@ == ProcedureView::start(change_program(reg, value)),
    {
        let mut program: Vec<Op> = Vec::new();
        program.push(Op::Verify(reg, value));
        Self::push_recalibrate(&mut program);
        Self::push_settle(&mut program);
        assert(program@ =~= change_program(reg, value));
        Self::start(program)
    }

    /// Makes sure that the chip listens to commands, whatever state it was left in.
    pub fn ensure_command_mode() -> (d: Ads1256)
        ensures
            d@.wf(),
            d@ == ProcedureView::start(seq![leave_continuous()]),
    {
        let mut program: Vec<Op> = Vec::new();
        program.push(Op::Act(BusAction::Exchange(Exchange::LeaveContinuous)));
        assert(program@ =~= seq![leave_continuous()]);
        Self::start(program)
    }

    /// Reads the key registers: STATUS, MUX, ADCON, DRATE.
    pub fn debug_registers() -> (d: Ads1256)
        ensures
            d@.wf(),
            d@ == ProcedureView::start(
                seq![
                    read_register(REG_STATUS),
                    read_register(REG_MUX),
                    read_register(REG_ADCON),
                    read_register(REG_DRATE),
                ],
            ),
    {
        let mut program: Vec<Op> = Vec::new();
        program.push(Op::Act(BusAction::Exchange(Exchange::ReadRegister(REG_STATUS))));
        program.push(Op::Act(BusAction::Exchange(Exchange::ReadRegister(REG_MUX))));
        program.push(Op::Act(BusAction::Exchange(Exchange::ReadRegister(REG_ADCON))));
        program.push(Op::Act(BusAction::Exchange(Exchange::ReadRegister(REG_DRATE))));
        assert(program@ =~= seq![
            read_register(REG_STATUS),
            read_register(REG_MUX),
            read_register(REG_ADCON),
            read_register(REG_DRATE),
        ]);
        Self::start(program)
    }

    /// Resets the chip, restores its registers and calibrates it.
    pub fn init() -> (d: Ads1256)
        ensures
            d@.wf(),
            d@ == ProcedureView::start(init_program()),
    {
        let mut program: Vec<Op> = Vec::new();
        Self::push_init(&mut program);
        assert(program@ =~= init_program());
        Self::start(program)
    }

    /// Sets the chip up for one differential input.
    pub fn init_single_channel(mux: u8) -> (d: Ads1256)
        ensures
            d@.wf(),
            d@ == ProcedureView::start(single_channel_program(mux)),
    {
        let mut program: Vec<Op> = Vec::new();
        Self::push_init(&mut program);
        Self::push_write(&mut program, REG_MUX, mux);
        Self::push_recalibrate(&mut program);
        Self::push_settle(&mut program);
        assert(program@ =~= single_channel_program(mux));
        Self::start(program)
    }

    /// Waits for a conversion and reads it.
    pub fn read_single_channel() -> (d: Ads1256)
        ensures
            d@.wf(),
            d@ == ProcedureView::start(read_conversion()),
    {
        let mut program: Vec<Op> = Vec::new();
        Self::push_read_conversion(&mut program);
        assert(program@ =~= read_conversion());
        Self::start(program)
    }

    /// Sets the gain; anything that is no gain of the converter sets gain 1.
    pub fn set_pga(pga: u8) -> (d: Ads1256)
        ensures
            d@.wf(),
            d@ == ProcedureView::start(gain_program(pga)),
    {
        Self::change(REG_ADCON, encode_pga(pga))
    }

    /// Sets the sample rate, if the converter has that rate.
    pub fn set_data_rate(sps: u16) -> (d: Option<Ads1256>)
        ensures
            d is Some <==> rate_code(sps) is Some,
            d matches Some(d) ==> d@.wf() && d@ == ProcedureView::start(rate_program(sps)),
    {
        match drate_from_sps(sps) {
            Some(code) => Some(Self::change(REG_DRATE, code)),
            None => None,
        }
    }

    /// Reads both differential inputs, one after the other.
    pub fn read_both_channels() -> (d: Ads1256)
        ensures
            d@.wf(),
            d@ == ProcedureView::start(both_channels_program()),
    {
        let mut program: Vec<Op> = Vec::new();
        Self::push_select_channel(&mut program, MUX_DIFF_CH0);
        program.push(Op::Act(BusAction::Exchange(Exchange::ReadData)));
        Self::push_select_channel(&mut program, MUX_DIFF_CH1);
        program.push(Op::Act(BusAction::Exchange(Exchange::ReadData)));
        assert(program@ =~= both_channels_program());
        Self::start(program)
    }
}

// ---------------------------------------------------------------------------
// What holds of every procedure
// ---------------------------------------------------------------------------

/// How many replies a step of an item takes at most until the item is over.
pub open spec fn replies_of_step(step: Step) -> int {
    match step {
        Step::Acting => 1,
        Step::Polling => 1 + RESET_ITEMS,
        Step::Resetting(k) => RESET_ITEMS - k,
        Step::Writing => 28,
        Step::Reading(a) => 2 * (VERIFY_ATTEMPTS - a) + 3 - a / 4,
        Step::Rewriting(a) => 2 * (VERIFY_ATTEMPTS - a - 1) + 3 - (a + 1) as int / 4 + 2,
        Step::Resting(a) => 2 * (VERIFY_ATTEMPTS - a - 1) + 3 - (a + 1) as int / 4 + 1,
    }
}

/// How many replies the items of a program take at most.
pub open spec fn replies_of(program: Seq<Op>) -> int
    decreases program.len(),
{
    if program.len() == 0 {
        0
    } else {
        replies_of_step(first_step(program[0])) + replies_of(program.skip(1))
    }
}

/// How many replies a procedure takes at most until it is over.
pub open spec fn replies_left(p: ProcedureView) -> int {
    if p.over is Some {
        0
    } else {
        replies_of_step(p.step) + replies_of(p.program.skip(p.pos + 1))
    }
}

proof fn lemma_replies_of_nonnegative(program: Seq<Op>)
    ensures
        replies_of(program) >= 0,
    decreases program.len(),
{
    if program.len() > 0 {
        lemma_replies_of_nonnegative(program.skip(1));
    }
}

/// Every procedure ends: each reply brings it closer to its end, whatever the chip
/// answers.
pub proof fn law_procedures_end(p: ProcedureView, reply: BusReply)
    requires
        p.wf(),
        p.over is None,
        answers(p.action(), reply),
    ensures
        p.after(reply).wf(),
        0 <= replies_left(p.after(reply)) < replies_left(p),
{
    let rest = p.program.skip(p.pos + 1);
    lemma_replies_of_nonnegative(rest);
    if flow(p.op(), p.step, reply) is Next && p.pos + 1 < p.program.len() {
        assert(rest[0] == p.program[p.pos + 1]);
        assert(rest.skip(1) =~= p.program.skip(p.pos + 2));
        lemma_replies_of_nonnegative(rest.skip(1));
    }
}

/// Whether a program calibrates, and waits for the chip, between items `i` and `j`.
pub open spec fn calibrates_between(program: Seq<Op>, i: int, j: int) -> bool {
    exists|k: int|
        i < k && k + 1 < j && #[trigger] program[k] == command(CMD_SELFCAL) && (program[k + 1]
            == Op::Poll || program[k + 1] == Op::PollTolerant)
}

/// Whether a program reads no conversion behind the choice of an input without having
/// calibrated in between.
pub open spec fn reads_calibrated(program: Seq<Op>) -> bool {
    forall|i: int, j: int, mux: u8|
        #![trigger program[i], program[j], write_register(REG_MUX, mux)]
        0 <= i < j < program.len() && program[i] == write_register(REG_MUX, mux) && program[j]
            == read_data() ==> calibrates_between(program, i, j)
}

/// After the choice of an input the chip is calibrated before a conversion is read.
pub proof fn law_chosen_input_is_calibrated(mux: u8)
    ensures
        reads_calibrated(single_channel_program(mux)),
        reads_calibrated(both_channels_program()),
{
    let p = single_channel_program(mux);
    assert(p.len() == 22);
    assert(p[11] == command(CMD_SELFCAL) && p[12] == Op::Poll);
    assert(p[14] == command(CMD_SELFCAL) && p[15] == Op::Poll);
    assert forall|i: int, j: int, m: u8|
        #![trigger p[i], p[j], write_register(REG_MUX, m)]
        0 <= i < j < p.len() && p[i] == write_register(REG_MUX, m) && p[j]
            == read_data() implies calibrates_between(p, i, j) by {
        assert(i == 10 || i == 13);
        assert(j == 17 || j == 19 || j == 21);
        assert(p[14] == command(CMD_SELFCAL));
    }
    let q = both_channels_program();
    assert(q.len() == 16);
    assert(q[5] == command(CMD_SELFCAL) && q[6] == Op::PollTolerant);
    assert(q[13] == command(CMD_SELFCAL) && q[14] == Op::PollTolerant);
    assert forall|i: int, j: int, m: u8|
        #![trigger q[i], q[j], write_register(REG_MUX, m)]
        0 <= i < j < q.len() && q[i] == write_register(REG_MUX, m) && q[j]
            == read_data() implies calibrates_between(q, i, j) by {
        assert(i == 0 || i == 8);
        assert(j == 7 || j == 15);
        assert(q[5] == command(CMD_SELFCAL));
        assert(q[13] == command(CMD_SELFCAL));
    }
}

/// Whether an item writes a register.
pub open spec fn writes_a_register(op: Op) -> bool {
    match op {
        Op::Verify(_, _) => true,
        Op::Act(BusAction::Exchange(Exchange::WriteRegister(_, _))) => true,
        _ => false,
    }
}

/// Whether an item sends a command byte.
pub open spec fn sends(op: Op, c: u8) -> bool {
    op == Op::Act(BusAction::Exchange(Exchange::Command(c)))
}

/// Whether an item waits for the chip.
pub open spec fn waits(op: Op) -> bool {
    op is Poll || op is PollTolerant
}

/// Whether an item reads a conversion.
pub open spec fn reads_a_conversion(op: Op) -> bool {
    op == Op::Act(BusAction::Exchange(Exchange::ReadData))
}

/// Whether, between items `i` and `j`, the self-calibration is started and the chip waited
/// for.
pub open spec fn calibrated_within(program: Seq<Op>, i: int, j: int) -> bool {
    exists|k: int| i < k && k + 1 < j && #[trigger] sends(program[k], 0xF0) && waits(
        program[k + 1],
    )
}

/// Whether no conversion is read behind the writing of a register, whichever it is, without
/// a calibration in between, and none without having been waited for just before.
pub open spec fn conversions_are_good(program: Seq<Op>) -> bool {
    &&& forall|i: int, j: int|
        #![trigger program[i], program[j]]
        0 <= i < j < program.len() && writes_a_register(program[i]) && reads_a_conversion(
            program[j],
        ) ==> calibrated_within(program, i, j)
    &&& forall|j: int|
        #![trigger program[j]]
        0 <= j < program.len() && reads_a_conversion(program[j]) ==> j > 0 && waits(
            program[j - 1],
        )
}

/// After a register was changed, the gain or the rate, the chip is calibrated and waited for
/// before a conversion is read; just three conversions are read, and nothing but this
/// register is written.
pub proof fn law_changed_register_is_calibrated(reg: u8, value: u8)
    ensures
        ({
            let p = change_program(reg, value);
            &&& p[0] == Op::Verify(reg, value)
            &&& conversions_are_good(p)
            &&& calibrates_between(p, 0, p.len() as int)
            &&& forall|j: int|
                #![trigger p[j]]
                0 < j < p.len() ==> !writes_a_register(p[j]) && (reads_a_conversion(p[j])
                    ==> calibrated_within(p, 0, j) && calibrates_between(p, 0, j))
            &&& p.filter(|op: Op| reads_a_conversion(op)).len() == 3
        }),
{
    let p = change_program(reg, value);
    assert(p.len() == 9);
    assert(p[0] == Op::Verify(reg, value));
    assert(p[1] == command(CMD_SELFCAL) && p[2] == Op::Poll);
    assert(p[3] == Op::Poll && p[4] == read_data() && p[5] == Op::Poll);
    assert(p[6] == read_data() && p[7] == Op::Poll && p[8] == read_data());
    assert(sends(p[1], 0xF0) && waits(p[2]));
    assert forall|j: int| 2 < j <= 9 implies calibrated_within(p, 0, j) && calibrates_between(
        p,
        0,
        j,
    ) by {
        assert(sends(p[1], 0xF0));
        assert(p[1] == command(CMD_SELFCAL));
    }
    let f = |op: Op| reads_a_conversion(op);
    lemma_filtered(p, f, 9);
    reveal_with_fuel(passing, 10);
}

/// A gain is set in register 2, as the exponent that it is of two, and a rate in register 3,
/// as its code; the chip is calibrated and waited for before a conversion is read.
pub proof fn law_gain_and_rate_are_set(pga: u8, sps: u16)
    requires
        rates().contains(sps),
    ensures
        exists|code: u8|
            gain_program(pga)[0] == #[trigger] verified(2, code) && gain_of_code(code) == if is_gain(
                pga,
            ) {
                pga as int
            } else {
                1
            },
        rate_program(sps)[0] == verified(3, rate_code(sps)->0),
        conversions_are_good(gain_program(pga)),
        conversions_are_good(rate_program(sps)),
        calibrated_within(gain_program(pga), 0, gain_program(pga).len() as int),
        calibrated_within(rate_program(sps), 0, rate_program(sps).len() as int),
{
    let code = gain_code(pga);
    law_changed_register_is_calibrated(2, code);
    law_changed_register_is_calibrated(3, rate_code(sps)->0);
    reveal_with_fuel(gain_of_code, 7);
    assert(gain_program(pga)[0] == verified(2, code));
    assert(sends(gain_program(pga)[1], 0xF0));
    assert(sends(rate_program(sps)[1], 0xF0));
}

/// The item that writes a register until it holds a value.
pub open spec fn verified(reg: u8, value: u8) -> Op {
    Op::Verify(reg, value)
}

/// A filter keeps as many items as pass it.
proof fn lemma_filtered(p: Seq<Op>, f: spec_fn(Op) -> bool, n: int)
    requires
        0 <= n <= p.len(),
    ensures
        p.take(n).filter(f).len() == passing(p, f, n),
        n == p.len() ==> p.filter(f).len() == passing(p, f, n),
    decreases n,
{
    reveal(Seq::filter);
    if n > 0 {
        lemma_filtered(p, f, n - 1);
        assert(p.take(n).drop_last() =~= p.take(n - 1));
        assert(p.take(n).last() == p[n - 1]);
    }
    if n == p.len() {
        assert(p.take(n) =~= p);
    }
}

/// How many of the first `n` items pass a filter.
spec fn passing(p: Seq<Op>, f: spec_fn(Op) -> bool, n: int) -> int
    decreases n,
{
    if n <= 0 {
        0
    } else {
        passing(p, f, n - 1) + if f(p[n - 1]) {
            1int
        } else {
            0
        }
    }
}

/// No procedure reads a conversion behind the writing of a register without a calibration in
/// between, nor without having waited for it.
pub proof fn law_conversions_are_good(mux: u8)
    ensures
        conversions_are_good(read_conversion()),
        conversions_are_good(init_program()),
        conversions_are_good(single_channel_program(mux)),
        conversions_are_good(both_channels_program()),
{
    let p = single_channel_program(mux);
    assert(p.len() == 22);
    assert(sends(p[14], 0xF0) && waits(p[15]));
    assert(p.subrange(0, 13) =~= init_program());
    assert(p[13] == write_register(REG_MUX, mux));
    assert(p[16] == Op::Poll && p[17] == read_data() && p[18] == Op::Poll);
    assert(p[19] == read_data() && p[20] == Op::Poll && p[21] == read_data());
    let q = both_channels_program();
    assert(q.len() == 16);
    assert(sends(q[5], 0xF0) && waits(q[6]) && reads_a_conversion(q[7]));
    assert(sends(q[13], 0xF0) && waits(q[14]) && reads_a_conversion(q[15]));
    assert(q[0] == write_register(REG_MUX, MUX_DIFF_CH0));
    assert(q[8] == write_register(REG_MUX, MUX_DIFF_CH1));
    assert(init_program()[11] == command(CMD_SELFCAL));
}

/// Reading both inputs, the first conversion is that of the first input and the second that
/// of the second: each is read behind the choice of its own input, the conversion having
/// been restarted in between.
pub proof fn law_both_inputs_are_read_in_order()
    ensures
        ({
            let p = both_channels_program();
            &&& p.filter(|op: Op| reads_a_conversion(op)).len() == 2
            &&& forall|j: int|
                #![trigger p[j]]
                0 <= j < p.len() && reads_a_conversion(p[j]) ==> {
                    let mux = if j == p.len() - 1 {
                        0x23u8
                    } else {
                        0x01
                    };
                    &&& j >= 7 && p[j - 7] == Op::Act(
                        BusAction::Exchange(Exchange::WriteRegister(0x01, mux)),
                    )
                    &&& forall|i: int|
                        #![trigger p[i]]
                        j - 7 < i < j ==> !writes_a_register(p[i])
                    &&& sends(p[j - 6], 0xFC) && p[j - 5] == Op::Act(BusAction::Pause(4)) && sends(
                        p[j - 4],
                        0x00,
                    )
                }
        }),
{
    let p = both_channels_program();
    assert(p.len() == 16);
    let s = select_channel(MUX_DIFF_CH0);
    let t = select_channel(MUX_DIFF_CH1);
    assert(p.subrange(0, 7) =~= s);
    assert(p.subrange(8, 15) =~= t);
    assert(forall|i: int| 0 <= i < 7 ==> #[trigger] p[i] == s[i]);
    assert(forall|i: int| 8 <= i < 15 ==> #[trigger] p[i] == t[i - 8]);
    assert(p[7] == read_data() && p[15] == read_data());
    let f = |op: Op| reads_a_conversion(op);
    lemma_filtered(p, f, 16);
    reveal_with_fuel(passing, 17);
}

/// Setting the chip up resets it, waits for it and takes it out of continuous reading before
/// any register is written; then all four registers are written, each once, and the chip is
/// calibrated.
pub proof fn law_set_up_restores_the_registers()
    ensures
        ({
            let p = init_program();
            &&& p[0] == Op::Act(BusAction::Deselect) && p[1] == Op::Act(BusAction::Pause(5000))
            &&& p[2] is Poll
            &&& sends(p[3], 0xFE) && p[4] == Op::Act(BusAction::Pause(5000)) && p[5] is Poll
            &&& p[6] == Op::Act(BusAction::Exchange(Exchange::LeaveContinuous))
            &&& forall|i: int|
                #![trigger p[i]]
                0 <= i < p.len() ==> (writes_a_register(p[i]) <==> 7 <= i < 11)
            &&& forall|reg: u8|
                #![trigger power_up_value(reg)]
                reg < 4 ==> p.contains(
                    Op::Act(
                        BusAction::Exchange(Exchange::WriteRegister(reg, power_up_value(reg))),
                    ),
                )
            &&& sends(p[11], 0xF0) && p[12] is Poll && p.len() == 13
        }),
{
    let p = init_program();
    assert(p[7] == write_register(REG_STATUS, STATUS_DEFAULT));
    assert(p[8] == write_register(REG_ADCON, ADCON_DEFAULT));
    assert(p[9] == write_register(REG_DRATE, DRATE_DEFAULT));
    assert(p[10] == write_register(REG_MUX, MUX_DIFF_CH0));
}

/// What the registers hold after the chip was set up: the first input, gain 1, 2000 samples
/// per second.
pub open spec fn power_up_value(reg: u8) -> u8 {
    if reg == 3 {
        0xB0
    } else if reg == 1 {
        0x01
    } else {
        0x00
    }
}

/// The registers after a set-up are those of gain 1 and of 2000 samples per second.
pub proof fn law_power_up_values()
    ensures
        power_up_value(REG_ADCON) == gain_code(1),
        rate_code(2000) == Some(power_up_value(REG_DRATE)),
{
}

/// The reset sequence starts with the reset, writes the four registers that setting the chip
/// up writes, with the same values, and only once the chip was waited for and taken out of
/// continuous reading; it ends with a calibration and two waits.
pub proof fn law_reset_restores_the_registers(k: u8)
    requires
        k < RESET_ITEMS,
    ensures
        RESET_ITEMS == 11,
        k == 0 <==> reset_item(k) == BusAction::Exchange(Exchange::Command(0xFE)),
        k == 8 <==> reset_item(k) == BusAction::Exchange(Exchange::Command(0xF0)),
        k == 1 ==> reset_item(k) == BusAction::Pause(5000),
        k == 3 ==> reset_item(k) == BusAction::Exchange(Exchange::LeaveContinuous),
        reset_item(k) is AwaitReady <==> k == 2 || k == 9 || k == 10,
        4 <= k < 8 <==> exists|reg: u8|
            reg < 4 && reset_item(k) == BusAction::Exchange(
                Exchange::WriteRegister(reg, #[trigger] power_up_value(reg)),
            ),
        4 <= k < 8 ==> Op::Act(reset_item(k)) == init_program()[k + 3],
{
    if k == 4 {
        assert(reset_item(k) == BusAction::Exchange(
            Exchange::WriteRegister(0, power_up_value(0)),
        ));
    } else if k == 5 {
        assert(reset_item(k) == BusAction::Exchange(
            Exchange::WriteRegister(2, power_up_value(2)),
        ));
    } else if k == 6 {
        assert(reset_item(k) == BusAction::Exchange(
            Exchange::WriteRegister(3, power_up_value(3)),
        ));
    } else if k == 7 {
        assert(reset_item(k) == BusAction::Exchange(
            Exchange::WriteRegister(1, power_up_value(1)),
        ));
    }
}

/// A register that is checked is given up only after it was read back twelve times with
/// another value; until then it is read again after a pause.
pub proof fn law_verify_tries_twelve_times(op: Op, attempt: u8)
    requires
        op is Verify,
        attempt < 12,
    ensures
        first_step(op) == Step::Writing,
        flow(op, Step::Writing, BusReply::Done) == Flow::Go(Step::Reading(0)),
        flow(op, Step::Rewriting(attempt), BusReply::Done) == Flow::Go(Step::Resting(attempt)),
        attempt < 11 ==> flow(op, Step::Resting(attempt), BusReply::Done) == Flow::Go(
            Step::Reading((attempt + 1) as u8),
        ),
        attempt == 11 ==> flow(op, Step::Resting(attempt), BusReply::Done) is Fail,
        forall|value: u8|
            (#[trigger] flow(op, Step::Reading(attempt), BusReply::Register(value)) is Next)
                <==> value == op->Verify_1,
        forall|step: Step, reply: BusReply|
            step_of(op, step) && answers(step_action(op, step), reply) && #[trigger] flow(
                op,
                step,
                reply,
            ) is Fail ==> step == Step::Resting(11),
{
}

/// A checked register is written with the value of the item and read back from the same
/// register.
pub proof fn law_verify_writes_and_reads_the_register(reg: u8, value: u8, attempt: u8)
    ensures
        step_action(Op::Verify(reg, value), Step::Writing) == BusAction::Exchange(
            Exchange::WriteRegister(reg, value),
        ),
        step_action(Op::Verify(reg, value), Step::Rewriting(attempt)) == BusAction::Exchange(
            Exchange::WriteRegister(reg, value),
        ),
        step_action(Op::Verify(reg, value), Step::Reading(attempt)) == BusAction::Exchange(
            Exchange::ReadRegister(reg),
        ),
        step_action(Op::Verify(reg, value), Step::Resting(attempt)) == BusAction::Pause(50),
{
}

/// A procedure starts with its first item and with nothing read; one without items is over and
/// has succeeded.
pub proof fn law_procedure_starts(program: Seq<Op>)
    ensures
        ({
            let p = ProcedureView::start(program);
            &&& p.wf() && p.program == program && p.pos == 0
            &&& p.readings.len() == 0 && p.registers.len() == 0 && p.tick == 0
            &&& program.len() > 0 ==> p.over is None && p.step == first_step(program[0])
            &&& program.len() == 0 ==> p.over == Some(true)
            &&& program.len() > 0 && waits(program[0]) ==> p.action() == BusAction::AwaitReady(200)
        }),
{
}

/// The items of a procedure are done one after the other, none left out; it succeeds only
/// behind the last of them, and fails only where an item fails.
pub proof fn law_items_in_order(p: ProcedureView, reply: BusReply)
    requires
        p.wf(),
        p.over is None,
        answers(p.action(), reply),
    ensures
        ({
            let q = p.after(reply);
            &&& q.program == p.program
            &&& q.pos == p.pos || q.pos == p.pos + 1 && q.step == first_step(p.program[q.pos])
            &&& q.over == Some(true) ==> p.pos == p.program.len() - 1 && flow(
                p.op(),
                p.step,
                reply,
            ) is Next
            &&& q.over == Some(false) <==> flow(p.op(), p.step, reply) is Fail
            &&& q.over is None && q.pos == p.pos ==> flow(p.op(), p.step, reply) == Flow::Go(
                q.step,
            )
        }),
{
}

/// What the chip answers is kept: a conversion as the signed number that its three bytes
/// are, highest first, behind those before; the timer of the last wait that succeeded; and
/// the registers that were not read for a check.
pub proof fn law_replies_are_kept(p: ProcedureView, reply: BusReply)
    requires
        p.wf(),
        p.over is None,
        answers(p.action(), reply),
    ensures
        ({
            let q = p.after(reply);
            &&& match reply {
                BusReply::Data(raw) => {
                    let v = q.readings.last() as int;
                    &&& q.readings.drop_last() == p.readings && q.readings.len() > 0
                    &&& -0x80_0000 <= v < 0x80_0000
                    &&& v == 0x1_0000 * raw@[0] + 0x100 * raw@[1] + raw@[2] || v == 0x1_0000
                        * raw@[0] + 0x100 * raw@[1] + raw@[2] - 0x100_0000
                },
                _ => q.readings == p.readings,
            }
            &&& match reply {
                BusReply::Ready(Some(tick)) => q.tick == tick,
                _ => q.tick == p.tick,
            }
            &&& match reply {
                BusReply::Register(value) => if p.op() is Verify {
                    q.registers == p.registers
                } else {
                    q.registers == p.registers.push(value)
                },
                _ => q.registers == p.registers,
            }
        }),
{
    if let BusReply::Data(raw) = reply {
        assert(raw@.len() == 3);
        assert(p.readings.push(i24_value(raw@) as i32).drop_last() =~= p.readings);
    }
}

/// A register that is checked counts as written only once it was read back with
/// the value.
pub proof fn law_verify_needs_match(op: Op, step: Step, reply: BusReply)
    requires
        op is Verify,
        step_of(op, step),
        answers(step_action(op, step), reply),
        flow(op, step, reply) is Next,
    ensures
        reply == BusReply::Register(op->Verify_1),
{
}

/// The register is written anew after every fourth attempt that found another
/// value, and at no other time.
pub proof fn law_verify_rewrites_every_fourth(op: Op, attempt: u8, actual: u8)
    requires
        op is Verify,
        attempt < VERIFY_ATTEMPTS,
        actual != op->Verify_1,
    ensures
        flow(op, Step::Reading(attempt), BusReply::Register(actual)) == Flow::Go(
            if attempt % 4 == 3 {
                Step::Rewriting(attempt)
            } else {
                Step::Resting(attempt)
            },
        ),
{
}

/// A chip that has gone silent is reset once; a wait that fails after the reset
/// fails the procedure, except where channels are being switched.
pub proof fn law_silent_chip_is_reset_once(op: Op, k: u8)
    requires
        op is Poll || op is PollTolerant,
        k < RESET_ITEMS,
        reset_item(k) is AwaitReady,
    ensures
        flow(op, Step::Polling, BusReply::Ready(None)) == Flow::Go(Step::Resetting(0)),
        flow(op, Step::Resetting(k), BusReply::Ready(None)) == if op is PollTolerant {
            Flow::Next
        } else {
            Flow::Fail
        },
{
}

} // verus!
