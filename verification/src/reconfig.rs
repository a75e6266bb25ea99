//! Changing the converter settings while samples are being captured: the
//! peripherals are taken from the interrupt, the change is made, and they are
//! given back.

use crate::ads1256::{gain_code, rate_code, Exchange, ADCON_DEFAULT, DRATE_DEFAULT};
use crate::protocol::Command;
use vstd::prelude::*;

verus! {

/// The settings that samples are captured under.
#[derive(Debug, Clone, Copy, PartialEq, Eq, Structural)]
pub struct Settings {
    pub sample_rate: u16,
    pub pga: u8,
}

impl Settings {
    /// The settings before the converter has been set up.
    pub fn new() -> (r: Settings)
        ensures
            r == (Settings { sample_rate: 2000, pga: 1 }),
    {
        Settings { sample_rate: 2000, pga: 1 }
    }

    /// The settings that the converter is set up with.
    pub fn after_init() -> (r: Settings)
        ensures
            r == (Settings { sample_rate: 2000, pga: 1 }),
            rate_code(r.sample_rate) == Some(DRATE_DEFAULT),
            gain_code(r.pga) == ADCON_DEFAULT,
    {
        Settings { sample_rate: 2000, pga: 1 }
    }

    /// Whether a command asks for what is set already.
    pub open spec fn has(self, cmd: Command) -> bool {
        match cmd {
            Command::SetPga(pga) => self.pga == pga,
            Command::SetDataRate(rate) => self.sample_rate == rate.0,
        }
    }

    /// The settings with what a command asks for.
    pub open spec fn with(self, cmd: Command) -> Settings {
        match cmd {
            Command::SetPga(pga) => Settings { pga, ..self },
            Command::SetDataRate(rate) => Settings { sample_rate: rate.0, ..self },
        }
    }
}

/// Where a change stands.
#[derive(Debug, Clone, Copy, PartialEq, Eq, Structural)]
pub enum Stage {
    /// Waiting for a command.
    Idle,
    /// Taking the peripherals from the interrupt.
    Taking(Command),
    /// Bringing the chip into command mode.
    Preparing(Command),
    /// Making the change.
    Applying(Command),
    /// Giving the peripherals back to the interrupt.
    GivingBack,
}

/// What is to be done.
#[derive(Debug, Clone, Copy, PartialEq, Eq, Structural)]
pub enum ReconfigAction {
    /// Wait for a command.
    AwaitCommand,
    /// Take the peripherals from the interrupt.
    TakePeripherals,
    /// Run the procedure that brings the chip into command mode.
    EnsureCommandMode,
    /// Run the procedure that sets the gain.
    SetPga(u8),
    /// Run the procedure that sets the sample rate.
    SetDataRate(u16),
    /// Give the peripherals back to the interrupt.
    GiveBack,
}

/// What has been done.
#[derive(Debug, Clone, Copy, PartialEq, Eq, Structural)]
pub enum ReconfigEvent {
    /// A command has come.
    Command(Command),
    /// The peripherals have been taken.
    Taken,
    /// The chip was brought into command mode.
    Prepared,
    /// The procedure is over; whether it succeeded.
    Applied(bool),
    /// The peripherals have been given back.
    GivenBack,
}

/// Whether an event is one that the stage waits for.
pub open spec fn awaits(stage: Stage, event: ReconfigEvent) -> bool {
    match stage {
        Stage::Idle => event is Command,
        Stage::Taking(_) => event is Taken,
        Stage::Preparing(_) => event is Prepared,
        Stage::Applying(_) => event is Applied,
        Stage::GivingBack => event is GivenBack,
    }
}

/// The task that changes settings.
#[derive(Debug, Clone, Copy, PartialEq, Eq, Structural)]
pub struct Reconfig {
    pub stage: Stage,
    pub settings: Settings,
    /// Set while captured samples may be under old settings.
    pub in_progress: bool,
}

impl Reconfig {
    /// The flag is up exactly while a change is under way.
    pub open spec fn wf(self) -> bool {
        self.in_progress == (self.stage != Stage::Idle)
    }

    /// The state after an event.
    pub open spec fn after(self, event: ReconfigEvent) -> Reconfig {
        match (self.stage, event) {
            (Stage::Idle, ReconfigEvent::Command(c)) => Reconfig {
                stage: Stage::Taking(c),
                in_progress: true,
                ..self
            },
            (Stage::Taking(c), _) => Reconfig { stage: Stage::Preparing(c), ..self },
            (Stage::Preparing(c), _) => Reconfig {
                stage: if self.settings.has(c) {
                    Stage::GivingBack
                } else {
                    Stage::Applying(c)
                },
                ..self
            },
            (Stage::Applying(c), ReconfigEvent::Applied(ok)) => Reconfig {
                stage: Stage::GivingBack,
                settings: if ok {
                    self.settings.with(c)
                } else {
                    self.settings
                },
                ..self
            },
            (_, _) => Reconfig { stage: Stage::Idle, in_progress: false, ..self },
        }
    }

    /// What the stage asks for.
    pub open spec fn asks(self) -> ReconfigAction {
        match self.stage {
            Stage::Idle => ReconfigAction::AwaitCommand,
            Stage::Taking(_) => ReconfigAction::TakePeripherals,
            Stage::Preparing(_) => ReconfigAction::EnsureCommandMode,
            Stage::Applying(Command::SetPga(pga)) => ReconfigAction::SetPga(pga),
            Stage::Applying(Command::SetDataRate(rate)) => ReconfigAction::SetDataRate(rate.0),
            Stage::GivingBack => ReconfigAction::GiveBack,
        }
    }

    /// A task that waits for its first command.
    pub fn new(settings: Settings) -> (r: Reconfig)
        ensures
            r.wf(),
            r == (Reconfig { stage: Stage::Idle, settings, in_progress: false }),
    {
        Reconfig { stage: Stage::Idle, settings, in_progress: false }
    }

    /// What is to be done.
    pub fn action(&self) -> (a: ReconfigAction)
        ensures
            a == self.asks(),
    {
        match self.stage {
            Stage::Idle => ReconfigAction::AwaitCommand,
            Stage::Taking(_) => ReconfigAction::TakePeripherals,
            Stage::Preparing(_) => ReconfigAction::EnsureCommandMode,
            Stage::Applying(cmd) => match cmd {
                Command::SetPga(pga) => ReconfigAction::SetPga(pga),
                Command::SetDataRate(rate) => ReconfigAction::SetDataRate(rate.0),
            },
            Stage::GivingBack => ReconfigAction::GiveBack,
        }
    }

    /// Takes note of what was done.
    pub fn step(&mut self, event: ReconfigEvent)
        requires
            old(self).wf(),
            awaits(old(self).stage, event),
        ensures
            final(self).wf(),
            *final(self) == old(self).after(event),
    {
        match self.stage {
            Stage::Idle => {
                if let ReconfigEvent::Command(c) = event {
                    self.in_progress = true;
                    self.stage = Stage::Taking(c);
                }
            },
            Stage::Taking(c) => {
                self.stage = Stage::Preparing(c);
            },
            Stage::Preparing(c) => {
                let same: bool = match c {
                    Command::SetPga(pga) => self.settings.pga == pga,
                    Command::SetDataRate(rate) => self.settings.sample_rate == rate.0,
                };
                self.stage = if same {
                    Stage::GivingBack
                } else {
                    Stage::Applying(c)
                };
            },
            Stage::Applying(c) => {
                if let ReconfigEvent::Applied(true) = event {
                    match c {
                        Command::SetPga(pga) => {
                            self.settings.pga = pga;
                        },
                        Command::SetDataRate(rate) => {
                            self.settings.sample_rate = rate.0;
                        },
                    }
                }
                self.stage = Stage::GivingBack;
            },
            Stage::GivingBack => {
                self.in_progress = false;
                self.stage = Stage::Idle;
            },
        }
    }
}

/// The exchange that is due before the interrupt is switched on again: a
/// conversion that nobody has fetched holds the data-ready line low, and no edge
/// would follow.
pub fn give_back_exchange(drdy_low: bool) -> (r: Option<Exchange>)
    ensures
        r == if drdy_low {
            Some(Exchange::ReadData)
        } else {
            None
        },
{
    if drdy_low {
        Some(Exchange::ReadData)
    } else {
        None
    }
}

/// A command sets the one thing that it is about, and leaves the other as it is; asked for what
/// is set already, it sets nothing.
pub proof fn law_command_sets_one_thing(s: Settings, cmd: Command)
    ensures
        s.with(cmd).has(cmd),
        s.has(cmd) <==> s.with(cmd) == s,
        cmd matches Command::SetPga(pga) ==> s.with(cmd).pga == pga && s.with(cmd).sample_rate
            == s.sample_rate,
        cmd matches Command::SetDataRate(rate) ==> s.with(cmd).sample_rate == rate.0 && s.with(
            cmd,
        ).pga == s.pga,
{
}

/// The settings change only when a procedure has succeeded, and then as its command says; the
/// chip is changed only once the peripherals were taken and it is in command mode, and only
/// for a command that asks for something else than is set.
pub proof fn law_settings_follow_the_chip(task: Reconfig, event: ReconfigEvent)
    requires
        task.wf(),
        awaits(task.stage, event),
    ensures
        ({
            let next = task.after(event);
            &&& next.wf()
            &&& next.settings != task.settings ==> event == ReconfigEvent::Applied(true)
            &&& event == ReconfigEvent::Applied(true) ==> match task.asks() {
                ReconfigAction::SetPga(pga) => next.settings.pga == pga
                    && next.settings.sample_rate == task.settings.sample_rate,
                ReconfigAction::SetDataRate(rate) => next.settings.sample_rate == rate
                    && next.settings.pga == task.settings.pga,
                _ => false,
            }
            &&& next.asks() matches ReconfigAction::SetPga(pga) ==> event == ReconfigEvent::Prepared
                && pga != task.settings.pga
            &&& next.asks() matches ReconfigAction::SetDataRate(rate) ==> event
                == ReconfigEvent::Prepared && rate != task.settings.sample_rate
            &&& next.asks() == ReconfigAction::EnsureCommandMode <==> event == ReconfigEvent::Taken
            &&& next.asks() == ReconfigAction::TakePeripherals <==> event is Command
            &&& next.asks() == ReconfigAction::AwaitCommand <==> event == ReconfigEvent::GivenBack
        }),
{
}

/// Whatever a change leads to, the peripherals are given back and the flag is
/// lowered: a command that is taken up is over after four events, or five where
/// something had to be changed.
pub proof fn law_change_always_completes(task: Reconfig, cmd: Command, ok: bool)
    requires
        task.wf(),
        task.stage == Stage::Idle,
    ensures
        ({
            let taken = task.after(ReconfigEvent::Command(cmd)).after(ReconfigEvent::Taken);
            let prepared = taken.after(ReconfigEvent::Prepared);
            let applied = if task.settings.has(cmd) {
                prepared
            } else {
                prepared.after(ReconfigEvent::Applied(ok))
            };
            let done = applied.after(ReconfigEvent::GivenBack);
            &&& taken.in_progress && prepared.in_progress && applied.in_progress
            &&& applied.asks() == ReconfigAction::GiveBack
            &&& done.stage == Stage::Idle
            &&& !done.in_progress
            &&& done.settings == if ok || task.settings.has(cmd) {
                task.settings.with(cmd)
            } else {
                task.settings
            }
        }),
{
}

} // verus!
