use vibrometer::ads1256::{
    drate_from_sps, encode_pga, Ads1256, BusAction, BusReply, Exchange, CMD_RESET, CMD_SELFCAL,
    CMD_SYNC, CMD_WAKEUP, DRATE_DEFAULT, MUX_DIFF_CH0, MUX_DIFF_CH1, REG_ADCON, REG_DRATE, REG_MUX, REG_STATUS,
};
use vibrometer::protocol::Command;
use vibrometer::reconfig::{
    give_back_exchange, Reconfig, ReconfigAction, ReconfigEvent, Settings, Stage,
};
use vibrometer::types::SampleRateHz;

/// A converter as the driver sees it.
struct Chip {
    registers: [u8; 4],
    /// Writes that are lost before one is kept.
    deaf: usize,
    /// Waits that are left without a conversion.
    silent: usize,
    next: u8,
    commands: Vec<u8>,
    writes: usize,
}

impl Chip {
    fn new() -> Chip {
        Chip { registers: [0xAA; 4], deaf: 0, silent: 0, next: 1, commands: vec![], writes: 0 }
    }

    fn run(&mut self, mut p: Ads1256) -> (bool, Ads1256) {
        for _ in 0..1000 {
            let reply = match p.action() {
                BusAction::Finished(ok) => return (ok, p),
                BusAction::Deselect | BusAction::Pause(_) => BusReply::Done,
                BusAction::AwaitReady(_) => {
                    if self.silent > 0 {
                        self.silent -= 1;
                        BusReply::Ready(None)
                    } else {
                        BusReply::Ready(Some(1000 + self.next as u64))
                    }
                }
                BusAction::Exchange(e) => match e {
                    Exchange::Command(c) => {
                        self.commands.push(c);
                        BusReply::Done
                    }
                    Exchange::WriteRegister(r, v) => {
                        self.writes += 1;
                        if self.deaf > 0 {
                            self.deaf -= 1;
                        } else {
                            self.registers[r as usize] = v;
                        }
                        BusReply::Done
                    }
                    Exchange::ReadRegister(r) => BusReply::Register(self.registers[r as usize]),
                    Exchange::ReadData => {
                        self.next += 1;
                        BusReply::Data([0, 0, self.next])
                    }
                    Exchange::LeaveContinuous => BusReply::Done,
                },
            };
            p.reply(reply);
        }
        panic!("the procedure does not end");
    }
}

#[test]
fn codes_of_gains_and_rates() {
    let gains = [1u8, 2, 4, 8, 16, 32, 64];
    for (code, &g) in gains.iter().enumerate() {
        assert_eq!(encode_pga(g) as usize, code);
    }
    assert_eq!(encode_pga(3), 0);
    assert_eq!(encode_pga(128), 0);
    assert_eq!(drate_from_sps(30000), Some(0xF0));
    assert_eq!(drate_from_sps(2000), Some(0xB0));
    assert_eq!(drate_from_sps(500), Some(0x92));
    assert_eq!(drate_from_sps(5), Some(0x13));
    assert_eq!(drate_from_sps(2500), None);
}

#[test]
fn exchanges_on_the_bus() {
    let t = Exchange::WriteRegister(REG_DRATE, 0xD0).transfer();
    assert_eq!((t.write, t.settle_us, t.read_after), (vec![0x53, 0, 0xD0], 10, 0));
    let t = Exchange::ReadRegister(REG_ADCON).transfer();
    assert_eq!((t.write, t.gap_us, t.read_after), (vec![0x12, 0], 10, 1));
    let t = Exchange::ReadData.transfer();
    assert_eq!((t.write, t.gap_us, t.read_after), (vec![0x01], 7, 3));
    let t = Exchange::LeaveContinuous.transfer();
    assert_eq!((t.read_first, t.write), (3, vec![0x0F]));
    let t = Exchange::Command(CMD_SELFCAL).transfer();
    assert_eq!((t.read_first, t.write, t.settle_us), (0, vec![0xF0], 0));
}

#[test]
fn set_up_for_one_input() {
    let mut chip = Chip::new();
    let (ok, p) = chip.run(Ads1256::init_single_channel(MUX_DIFF_CH0));
    assert!(ok);
    assert_eq!(chip.registers[REG_STATUS as usize], 0);
    assert_eq!(chip.registers[REG_MUX as usize], 0x01);
    assert_eq!(chip.registers[REG_ADCON as usize], 0);
    assert_eq!(chip.registers[REG_DRATE as usize], DRATE_DEFAULT);
    assert_eq!(chip.commands, vec![CMD_RESET, CMD_SELFCAL, CMD_SELFCAL]);
    assert_eq!(p.readings().len(), 3);
    let (ok, p) = chip.run(Ads1256::debug_registers());
    assert!(ok);
    assert_eq!(p.registers(), &vec![0x00, 0x01, 0x00, 0xB0]);
    let (ok, _) = chip.run(Ads1256::init());
    assert!(ok);
    let (ok, _) = chip.run(Ads1256::ensure_command_mode());
    assert!(ok);
}

#[test]
fn conversions_are_read() {
    let mut chip = Chip::new();
    let (ok, p) = chip.run(Ads1256::read_single_channel());
    assert!(ok);
    assert_eq!((p.readings().clone(), p.tick()), (vec![2], 1001));
    let (ok, p) = chip.run(Ads1256::read_both_channels());
    assert!(ok);
    assert_eq!(p.readings(), &vec![3, 4]);
    let once = [CMD_SYNC, CMD_WAKEUP, CMD_SELFCAL];
    assert_eq!(chip.commands, [once, once].concat());
    assert_eq!(chip.registers[REG_MUX as usize], MUX_DIFF_CH1);
}

#[test]
fn changes_are_checked() {
    let mut chip = Chip::new();
    let (ok, p) = chip.run(Ads1256::set_pga(16));
    assert!(ok);
    assert_eq!(chip.registers[REG_ADCON as usize], 4);
    assert_eq!((chip.writes, p.readings().len(), p.registers().len()), (1, 3, 0));
    assert!(Ads1256::set_data_rate(1234).is_none());
    // A write that is lost is done anew after four looks.
    let mut chip = Chip::new();
    chip.deaf = 1;
    let (ok, _) = chip.run(Ads1256::set_data_rate(7500).unwrap());
    assert!(ok);
    assert_eq!((chip.registers[REG_DRATE as usize], chip.writes), (0xD0, 2));
    // A register that cannot be written fails the change.
    let mut chip = Chip::new();
    chip.deaf = 100;
    let (ok, p) = chip.run(Ads1256::set_data_rate(7500).unwrap());
    assert!(!ok);
    assert_eq!((chip.writes, p.readings().len()), (4, 0));
}

#[test]
fn silent_chip_is_reset_once() {
    let mut chip = Chip::new();
    chip.silent = 1;
    let (ok, _) = chip.run(Ads1256::read_single_channel());
    assert!(ok);
    assert_eq!(chip.commands, vec![CMD_RESET, CMD_SELFCAL]);
    assert_eq!(chip.registers[REG_DRATE as usize], DRATE_DEFAULT);
    let mut chip = Chip::new();
    chip.silent = 2;
    let (ok, p) = chip.run(Ads1256::read_single_channel());
    assert!(!ok);
    assert!(p.readings().is_empty());
    // Switching channels carries on.
    let mut chip = Chip::new();
    chip.silent = 2;
    let (ok, p) = chip.run(Ads1256::read_both_channels());
    assert!(ok);
    assert_eq!(p.readings().len(), 2);
}

fn change(task: &mut Reconfig, cmd: Command, ok: bool) -> Vec<ReconfigAction> {
    let mut seen: Vec<ReconfigAction> = Vec::new();
    assert_eq!(task.action(), ReconfigAction::AwaitCommand);
    task.step(ReconfigEvent::Command(cmd));
    while task.stage != Stage::Idle {
        assert!(task.in_progress);
        let a = task.action();
        seen.push(a);
        task.step(match a {
            ReconfigAction::TakePeripherals => ReconfigEvent::Taken,
            ReconfigAction::EnsureCommandMode => ReconfigEvent::Prepared,
            ReconfigAction::GiveBack => ReconfigEvent::GivenBack,
            _ => ReconfigEvent::Applied(ok),
        });
    }
    assert!(!task.in_progress);
    seen
}

#[test]
fn changes_always_give_the_peripherals_back() {
    assert_eq!(Settings::new(), Settings { sample_rate: 2000, pga: 1 });
    let mut task = Reconfig::new(Settings::after_init());
    assert_eq!(task.settings, Settings { sample_rate: 2000, pga: 1 });
    let seen = change(&mut task, Command::SetDataRate(SampleRateHz(7500)), true);
    assert_eq!(
        seen,
        vec![
            ReconfigAction::TakePeripherals,
            ReconfigAction::EnsureCommandMode,
            ReconfigAction::SetDataRate(7500),
            ReconfigAction::GiveBack,
        ]
    );
    assert_eq!(task.settings.sample_rate, 7500);
    let seen = change(&mut task, Command::SetPga(8), false);
    assert_eq!(seen[2], ReconfigAction::SetPga(8));
    assert_eq!(task.settings.pga, 1);
    let seen = change(&mut task, Command::SetPga(1), true);
    assert_eq!(seen.len(), 3);
    assert_eq!(give_back_exchange(true), Some(Exchange::ReadData));
    assert_eq!(give_back_exchange(false), None);
}
