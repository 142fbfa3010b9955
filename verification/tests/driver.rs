//! The state machine: waits, faults and events out of turn.

use epaper7in3f::epaper::{MAX_DELAY_MS, POLLING_MS};
use epaper7in3f::{Action, Color, EPaper7In3F, Error, Event, Level, Line, Program, Step};

/// A bench that records what the driver asks for. Its panel is read busy
/// `busy_reads` times in each wait before it is read idle, and the action
/// with the index `fault_at.0` fails with the code `fault_at.1`.
struct Bench {
    busy_reads: u32,
    fault_at: Option<(usize, i32)>,
    log: Vec<Action>,
    busy_left: u32,
}

impl Bench {
    fn new(busy_reads: u32, fault_at: Option<(usize, i32)>) -> Bench {
        Bench { busy_reads, fault_at, log: Vec::new(), busy_left: busy_reads }
    }

    fn perform(&mut self, action: Action) -> Event {
        let index = self.log.len();
        let event = match self.fault_at {
            Some((at, code)) if at == index => Event::Failed(code),
            _ => match action {
                Action::ReadBusy => {
                    if self.busy_left > 0 {
                        self.busy_left -= 1;
                        Event::Sampled(Level::Low)
                    } else {
                        self.busy_left = self.busy_reads;
                        Event::Sampled(Level::High)
                    }
                }
                _ => Event::Done,
            },
        };
        self.log.push(action);
        event
    }

    fn run(&mut self, driver: &mut EPaper7In3F, first: Step) -> Result<(), Error> {
        let mut step = first;
        loop {
            match step {
                Step::Finished(result) => return result,
                Step::Perform(action) => {
                    let event = self.perform(action);
                    step = driver.advance(event);
                }
            }
        }
    }

    fn delays(&self) -> Vec<u32> {
        let mut found = Vec::new();
        for action in &self.log {
            if let Action::DelayMs(ms) = action {
                found.push(*ms);
            }
        }
        found
    }

    fn reads(&self) -> usize {
        self.log.iter().filter(|action| **action == Action::ReadBusy).count()
    }
}

fn wait_only() -> Program {
    let mut program = Program::new();
    program.wait_for_idle();
    program
}

fn refresh_only() -> Program {
    let mut program = Program::new();
    program.display_frame();
    program
}

#[test]
fn the_wait_uses_the_panels_timing() {
    assert_eq!(POLLING_MS, 10);
    assert_eq!(MAX_DELAY_MS, 500_000);
}

#[test]
fn a_new_driver_is_idle() {
    let mut driver = EPaper7In3F::new();
    assert_eq!(driver.advance(Event::Done), Step::Finished(Ok(())));
    assert_eq!(driver.advance(Event::Sampled(Level::Low)), Step::Finished(Ok(())));
    assert_eq!(driver.advance(Event::Failed(5)), Step::Finished(Ok(())));
}

#[test]
fn wait_for_idle_returns_at_once_when_the_panel_is_idle() {
    let mut driver = EPaper7In3F::new();
    let mut bench = Bench::new(0, None);
    let first = driver.start(wait_only());
    assert_eq!(first, Step::Perform(Action::ReadBusy));
    assert_eq!(bench.run(&mut driver, first), Ok(()));
    assert_eq!(bench.log, vec![Action::ReadBusy]);
}

#[test]
fn wait_for_idle_polls_every_ten_milliseconds() {
    let mut driver = EPaper7In3F::new();
    let mut bench = Bench::new(3, None);
    let first = driver.start(wait_only());
    assert_eq!(bench.run(&mut driver, first), Ok(()));
    assert_eq!(
        bench.log,
        vec![
            Action::ReadBusy,
            Action::DelayMs(10),
            Action::ReadBusy,
            Action::DelayMs(10),
            Action::ReadBusy,
            Action::DelayMs(10),
            Action::ReadBusy,
        ]
    );
    assert_eq!(bench.delays().iter().sum::<u32>(), 3 * 10);
}

#[test]
fn wait_for_idle_succeeds_after_the_last_poll_within_the_bound() {
    let mut driver = EPaper7In3F::new();
    let mut bench = Bench::new(49_999, None);
    let first = driver.start(wait_only());
    assert_eq!(bench.run(&mut driver, first), Ok(()));
    assert_eq!(bench.reads(), 50_000);
    assert_eq!(bench.delays().len(), 49_999);
    assert_eq!(bench.delays().iter().sum::<u32>(), 499_990);
}

#[test]
fn wait_for_idle_times_out_on_a_stuck_panel() {
    let mut driver = EPaper7In3F::new();
    let mut bench = Bench::new(u32::MAX, None);
    let first = driver.start(wait_only());
    assert_eq!(bench.run(&mut driver, first), Err(Error::Timeout));

    // 50 000 looks at the line, each followed by a pause of 10 ms; the
    // timeout comes after the last pause, without another look.
    assert_eq!(bench.reads(), 50_000);
    let delays = bench.delays();
    assert_eq!(delays.len(), 50_000);
    assert!(delays.iter().all(|ms| *ms == 10));
    assert_eq!(delays.iter().sum::<u32>(), 500_000);
    assert_eq!(bench.log.last(), Some(&Action::DelayMs(10)));

    // The driver is idle again and keeps the result.
    assert_eq!(driver.advance(Event::Sampled(Level::High)), Step::Finished(Err(Error::Timeout)));
}

#[test]
fn each_wait_counts_its_own_time() {
    let mut program = Program::new();
    program.wait_for_idle();
    program.wait_for_idle();
    let mut driver = EPaper7In3F::new();
    let mut bench = Bench::new(30_000, None);
    let first = driver.start(program);

    // Two waits of 300 s each stay under the bound of 500 s.
    assert_eq!(bench.run(&mut driver, first), Ok(()));
    assert_eq!(bench.delays().len(), 60_000);
}

#[test]
fn a_timeout_stops_the_rest_of_the_program() {
    let mut program = Program::new();
    program.send_cmd(0x04);
    program.wait_for_idle();
    program.send_cmd(0x12);
    let mut driver = EPaper7In3F::new();
    let mut bench = Bench::new(u32::MAX, None);
    let first = driver.start(program);
    assert_eq!(bench.run(&mut driver, first), Err(Error::Timeout));
    assert!(!bench.log.contains(&Action::Write(vec![0x12])));
    assert_eq!(bench.log.len(), 4 + 2 * 50_000);
}

#[test]
fn a_fault_in_any_phase_of_the_refresh_stops_it() {
    let mut ready = Bench::new(0, None);
    let mut driver = EPaper7In3F::new();
    let first = driver.start(refresh_only());
    assert_eq!(ready.run(&mut driver, first), Ok(()));
    let whole = ready.log;
    assert_eq!(whole.len(), 4 + 1 + 3 * (8 + 1));

    for at in 0..whole.len() {
        let code = 0x107 + at as i32;
        let mut bench = Bench::new(0, Some((at, code)));
        let mut driver = EPaper7In3F::new();
        let first = driver.start(refresh_only());
        assert_eq!(bench.run(&mut driver, first), Err(Error::SpiError(code)), "fault at {}", at);

        // Everything up to the failed action was asked for, nothing after it.
        assert_eq!(bench.log[..], whole[..at + 1], "fault at {}", at);

        // The driver stays finished with the same error.
        assert_eq!(driver.advance(Event::Done), Step::Finished(Err(Error::SpiError(code))));
        assert_eq!(
            driver.advance(Event::Sampled(Level::High)),
            Step::Finished(Err(Error::SpiError(code)))
        );
    }
}

#[test]
fn a_failed_bus_write_skips_the_later_phases() {
    // The write of the refresh command 0x12 is the 17th action of the cycle.
    let mut bench = Bench::new(0, Some((16, -1)));
    let mut driver = EPaper7In3F::new();
    let first = driver.start(refresh_only());
    assert_eq!(bench.run(&mut driver, first), Err(Error::SpiError(-1)));
    assert_eq!(bench.log.last(), Some(&Action::Write(vec![0x12])));
    assert!(bench.log.contains(&Action::Write(vec![0x04])));
    assert!(bench.log.contains(&Action::Write(vec![0x06])));
    assert!(!bench.log.contains(&Action::Write(vec![0x02])));
}

#[test]
fn a_fault_while_waiting_ends_the_operation() {
    // The look at the busy line fails.
    let mut bench = Bench::new(5, Some((0, 42)));
    let mut driver = EPaper7In3F::new();
    let first = driver.start(wait_only());
    assert_eq!(bench.run(&mut driver, first), Err(Error::SpiError(42)));
    assert_eq!(bench.log, vec![Action::ReadBusy]);

    // The pause fails.
    let mut bench = Bench::new(5, Some((1, 43)));
    let mut driver = EPaper7In3F::new();
    let first = driver.start(wait_only());
    assert_eq!(bench.run(&mut driver, first), Err(Error::SpiError(43)));
    assert_eq!(bench.log, vec![Action::ReadBusy, Action::DelayMs(10)]);
}

#[test]
fn a_fault_in_init_is_handed_on_unchanged() {
    for code in [i32::MIN, -1, 1, 0x103, i32::MAX] {
        let mut bench = Bench::new(0, Some((2, code)));
        let mut driver = EPaper7In3F::new();
        let first = driver.init();
        assert_eq!(bench.run(&mut driver, first), Err(Error::SpiError(code)));
        assert_eq!(
            bench.log,
            vec![
                Action::Drive(Line::Reset, Level::High),
                Action::DelayMs(50),
                Action::Drive(Line::Reset, Level::Low),
            ]
        );
    }
}

#[test]
fn an_event_out_of_turn_repeats_the_action() {
    let mut program = Program::new();
    program.send_cmd(0x04);
    program.wait_for_idle();
    let mut driver = EPaper7In3F::new();

    // A reading in answer to an output action.
    let first = driver.start(program);
    assert_eq!(first, Step::Perform(Action::Drive(Line::DataCommand, Level::Low)));
    assert_eq!(
        driver.advance(Event::Sampled(Level::High)),
        Step::Perform(Action::Drive(Line::DataCommand, Level::Low))
    );
    assert_eq!(
        driver.advance(Event::Sampled(Level::Low)),
        Step::Perform(Action::Drive(Line::DataCommand, Level::Low))
    );
    assert_eq!(
        driver.advance(Event::Done),
        Step::Perform(Action::Drive(Line::ChipSelect, Level::Low))
    );
    assert_eq!(driver.advance(Event::Done), Step::Perform(Action::Write(vec![0x04])));
    assert_eq!(
        driver.advance(Event::Sampled(Level::High)),
        Step::Perform(Action::Write(vec![0x04]))
    );
    assert_eq!(
        driver.advance(Event::Done),
        Step::Perform(Action::Drive(Line::ChipSelect, Level::High))
    );

    // `Done` in answer to a look at the busy line.
    assert_eq!(driver.advance(Event::Done), Step::Perform(Action::ReadBusy));
    assert_eq!(driver.advance(Event::Done), Step::Perform(Action::ReadBusy));
    assert_eq!(driver.advance(Event::Sampled(Level::Low)), Step::Perform(Action::DelayMs(10)));

    // A reading in answer to the pause.
    assert_eq!(driver.advance(Event::Sampled(Level::High)), Step::Perform(Action::DelayMs(10)));
    assert_eq!(driver.advance(Event::Done), Step::Perform(Action::ReadBusy));
    assert_eq!(driver.advance(Event::Sampled(Level::High)), Step::Finished(Ok(())));
}

#[test]
fn starting_an_operation_replaces_the_one_in_progress() {
    let mut driver = EPaper7In3F::new();
    assert_eq!(driver.init(), Step::Perform(Action::Drive(Line::Reset, Level::High)));
    assert_eq!(driver.advance(Event::Done), Step::Perform(Action::DelayMs(50)));

    let first = driver._clear(Color::Red);
    assert_eq!(first, Step::Perform(Action::Drive(Line::DataCommand, Level::Low)));
    assert_eq!(
        driver.advance(Event::Done),
        Step::Perform(Action::Drive(Line::ChipSelect, Level::Low))
    );
    assert_eq!(driver.advance(Event::Done), Step::Perform(Action::Write(vec![0x10])));
}

#[test]
fn an_operation_can_follow_a_failed_one() {
    let mut driver = EPaper7In3F::new();
    let mut bench = Bench::new(0, Some((0, 9)));
    let first = driver.init();
    assert_eq!(bench.run(&mut driver, first), Err(Error::SpiError(9)));

    let mut bench = Bench::new(2, None);
    let first = driver.init();
    assert_eq!(bench.run(&mut driver, first), Ok(()));
    assert_eq!(bench.reads(), 2 * 3);
    assert_eq!(driver.advance(Event::Done), Step::Finished(Ok(())));
}

#[test]
fn the_refresh_waits_after_each_phase_for_a_busy_panel() {
    let mut driver = EPaper7In3F::new();
    let mut bench = Bench::new(2, None);
    let first = driver.start(refresh_only());
    assert_eq!(bench.run(&mut driver, first), Ok(()));

    let poll = [
        Action::ReadBusy,
        Action::DelayMs(10),
        Action::ReadBusy,
        Action::DelayMs(10),
        Action::ReadBusy,
    ];
    let log = &bench.log;
    assert_eq!(log[2], Action::Write(vec![0x04]));
    assert_eq!(log[4..9], poll[..]);
    assert_eq!(log[11], Action::Write(vec![0x06]));
    assert_eq!(log[15], Action::Write(vec![0x6F, 0x1F, 0x17, 0x49]));
    assert_eq!(log[17..22], poll[..]);
    assert_eq!(log[24], Action::Write(vec![0x12]));
    assert_eq!(log[28], Action::Write(vec![0x00]));
    assert_eq!(log[30..35], poll[..]);
    assert_eq!(log[37], Action::Write(vec![0x02]));
    assert_eq!(log[41], Action::Write(vec![0x00]));
    assert_eq!(log[43..48], poll[..]);
    assert_eq!(log.len(), 48);
}
