//! The driver: a state machine that walks a program, one action at a time.
//!
//! An operation such as [`EPaper7In3F::init`] loads its program and hands
//! out the first action. The caller performs it and reports the outcome to
//! [`EPaper7In3F::advance`], which hands out the next action, until the
//! operation is finished. The first fault ends the operation, and so does a
//! panel that stays busy for too long.

use vstd::prelude::*;
use crate::color::Color;
use crate::error::Error;
use crate::geometry::{EPD_7IN3F_HEIGHT, FRAME_BYTES, ROW_BYTES};
use crate::program::{
    command_ops, command_with_data_ops, data_ops, fill_rows_ops, frame_rows_ops, init_registers,
    init_table, lemma_fill_rows_ops, refresh_ops, repeated, reset_ops, table_ops, transaction,
    OpView, Program, DATA_START_TRANSMISSION, DEEP_SLEEP, POWER_ON,
};
use crate::protocol::{Action, ActionView, Event, Level, Step, StepView};

verus! {

/// Milliseconds between two looks at the busy line.
pub const POLLING_MS: u32 = 10;

/// Milliseconds after which a wait for idle gives up.
pub const MAX_DELAY_MS: u32 = 500_000;

/// Milliseconds that the panel is left to settle after its reset.
pub const SETTLE_MS: u32 = 30;

/// Bands of the test pattern.
pub const BANDS: usize = 7;

/// Rows of each band of the test pattern but the last.
pub const BAND_ROWS: usize = EPD_7IN3F_HEIGHT / BANDS;

/// Rows of the last band: it takes, besides its own share, the rows that an
/// even split leaves over, so that the pattern fills the frame.
pub const LAST_BAND_ROWS: usize = BAND_ROWS + EPD_7IN3F_HEIGHT % BANDS;

/// The state of the driver as a mathematical value.
pub enum DriverView {
    /// No operation is in progress; the last one ended with this result.
    Idle(Result<(), Error>),
    /// The action was handed out and its outcome is awaited; `rest` are the
    /// steps that follow.
    Output { action: ActionView, rest: Seq<OpView> },
    /// In a wait for idle: a reading of the busy line is awaited.
    Sampling { waited_ms: nat, rest: Seq<OpView> },
    /// In a wait for idle: the pause before the next reading is awaited.
    Backoff { waited_ms: nat, rest: Seq<OpView> },
}

/// The state in which the first of `ops` is under way, and the step that was
/// handed out for it. With no steps left the operation ends in success.
pub open spec fn begin(ops: Seq<OpView>) -> (DriverView, StepView) {
    if ops.len() == 0 {
        (DriverView::Idle(Ok(())), StepView::Finished(Ok(())))
    } else if ops[0] is WaitIdle {
        (
            DriverView::Sampling { waited_ms: 0, rest: ops.drop_first() },
            StepView::Perform(ActionView::ReadBusy),
        )
    } else {
        (
            DriverView::Output { action: ops[0].action(), rest: ops.drop_first() },
            StepView::Perform(ops[0].action()),
        )
    }
}

/// The state in which an operation has ended with `result`, and the step that
/// says so.
pub open spec fn end(result: Result<(), Error>) -> (DriverView, StepView) {
    (DriverView::Idle(result), StepView::Finished(result))
}

/// What the driver does on an event: the state it moves to and the step it
/// hands out.
///
/// - A fault ends the operation in progress with the platform's code.
/// - `Done` after an output action moves on to the next step.
/// - In a wait, a high reading moves on; a low reading asks for a pause of
///   [`POLLING_MS`], after which the time waited has grown by as much and
///   either has reached [`MAX_DELAY_MS`], a timeout, or the line is read again.
/// - An event that does not answer the action awaited changes nothing: the
///   action is handed out again.
/// - An idle driver stays idle and repeats the result of its last operation.
pub open spec fn transition(state: DriverView, event: Event) -> (DriverView, StepView) {
    match state {
        DriverView::Idle(result) => end(result),
        DriverView::Output { action, rest } => match event {
            Event::Done => begin(rest),
            Event::Failed(code) => end(Err(Error::SpiError(code))),
            Event::Sampled(_) => (state, StepView::Perform(action)),
        },
        DriverView::Sampling { waited_ms, rest } => match event {
            Event::Sampled(Level::High) => begin(rest),
            Event::Sampled(Level::Low) => (
                DriverView::Backoff { waited_ms, rest },
                StepView::Perform(ActionView::DelayMs(POLLING_MS)),
            ),
            Event::Failed(code) => end(Err(Error::SpiError(code))),
            Event::Done => (state, StepView::Perform(ActionView::ReadBusy)),
        },
        DriverView::Backoff { waited_ms, rest } => match event {
            Event::Done => if waited_ms + POLLING_MS >= MAX_DELAY_MS {
                end(Err(Error::Timeout))
            } else {
                (
                    DriverView::Sampling { waited_ms: waited_ms + POLLING_MS as nat, rest },
                    StepView::Perform(ActionView::ReadBusy),
                )
            },
            Event::Failed(code) => end(Err(Error::SpiError(code))),
            Event::Sampled(_) => (state, StepView::Perform(ActionView::DelayMs(POLLING_MS))),
        },
    }
}

/// The program that brings the panel up: the reset pulse, a wait for idle,
/// a pause for the panel to settle, the register table, power on and a last
/// wait for idle.
pub open spec fn init_ops() -> Seq<OpView> {
    reset_ops() + seq![OpView::WaitIdle, OpView::DelayMs(SETTLE_MS)] + table_ops(init_table())
        + command_ops(POWER_ON) + seq![OpView::WaitIdle]
}

/// The program that paints the whole panel in one colour and shows it.
pub open spec fn clear_ops(color: Color) -> Seq<OpView> {
    command_ops(DATA_START_TRANSMISSION) + fill_rows_ops(color.fill(), EPD_7IN3F_HEIGHT as nat)
        + refresh_ops()
}

/// The colours of the bands of the test pattern, from the top.
pub open spec fn band_colors() -> Seq<Color> {
    seq![
        Color::White,
        Color::Black,
        Color::Blue,
        Color::Green,
        Color::Red,
        Color::Yellow,
        Color::White,
    ]
}

/// The rows of band `band` of the test pattern.
pub open spec fn band_rows(band: int) -> nat {
    if band == BANDS - 1 {
        LAST_BAND_ROWS as nat
    } else {
        BAND_ROWS as nat
    }
}

/// The band of the test pattern in which row `row` of the frame lies.
pub open spec fn row_band(row: int) -> int {
    if row / (BAND_ROWS as int) < BANDS - 1 {
        row / (BAND_ROWS as int)
    } else {
        BANDS - 1
    }
}

/// The rows of the first `bands` bands of the test pattern together.
pub open spec fn rows_above(bands: int) -> int {
    if bands == BANDS {
        EPD_7IN3F_HEIGHT as int
    } else {
        bands * BAND_ROWS
    }
}

/// One band for each of `colors`, from the top, each as high as its place in
/// the pattern says.
pub open spec fn bands_ops(colors: Seq<Color>) -> Seq<OpView>
    decreases colors.len(),
{
    if colors.len() == 0 {
        Seq::empty()
    } else {
        bands_ops(colors.drop_last()) + fill_rows_ops(
            colors.last().fill(),
            band_rows(colors.len() - 1),
        )
    }
}

/// The program that paints the test pattern of seven bands over the whole
/// frame and shows it.
pub open spec fn blocks_ops() -> Seq<OpView> {
    command_ops(DATA_START_TRANSMISSION) + bands_ops(band_colors()) + refresh_ops()
}

/// Bands from the top are exactly the rows above the next band, one data
/// transaction for each row, and each row is written in the colour of the band
/// in which it lies.
pub proof fn lemma_bands_ops(colors: Seq<Color>)
    requires
        colors.len() <= BANDS,
    ensures
        bands_ops(colors).len() == 4 * rows_above(colors.len() as int),
        forall|row: int|
            0 <= row < rows_above(colors.len() as int) ==> #[trigger] transaction(
                bands_ops(colors),
                row,
            ) == data_ops(repeated(colors[row_band(row)].fill(), ROW_BYTES as nat)),
    decreases colors.len(),
{
    if colors.len() > 0 {
        let band = colors.len() - 1;
        let above = rows_above(band);
        let before = bands_ops(colors.drop_last());
        let last = fill_rows_ops(colors.last().fill(), band_rows(band));
        lemma_bands_ops(colors.drop_last());
        lemma_fill_rows_ops(colors.last().fill(), band_rows(band));
        let rows = rows_above(colors.len() as int);
        assert(rows == above + band_rows(band));
        assert forall|row: int| 0 <= row < rows implies #[trigger] transaction(
            bands_ops(colors),
            row,
        ) == data_ops(repeated(colors[row_band(row)].fill(), ROW_BYTES as nat)) by {
            if row < above {
                assert(row_band(row) < band);
                assert(colors.drop_last()[row_band(row)] == colors[row_band(row)]);
                assert(transaction(before + last, row) =~= transaction(before, row));
            } else {
                assert(row_band(row) == band);
                assert(transaction(before + last, row) =~= transaction(last, row - above));
            }
        }
    }
}

/// The test pattern covers the frame: it is one data transaction for every
/// row of the panel, from the top, and row `row` is written in the colour of
/// its band. The rows below the sixth band are all of the last colour.
pub proof fn lemma_blocks_cover_frame()
    ensures
        bands_ops(band_colors()).len() == 4 * EPD_7IN3F_HEIGHT,
        forall|row: int|
            0 <= row < EPD_7IN3F_HEIGHT ==> #[trigger] transaction(bands_ops(band_colors()), row)
                == data_ops(repeated(band_colors()[row_band(row)].fill(), ROW_BYTES as nat)),
{
    lemma_bands_ops(band_colors());
}

/// The program that sends a whole frame, row by row from the top, and shows
/// it.
pub open spec fn image_ops(frame: Seq<u8>) -> Seq<OpView> {
    command_ops(DATA_START_TRANSMISSION) + frame_rows_ops(frame, EPD_7IN3F_HEIGHT as nat)
        + refresh_ops()
}

/// The program that puts the panel into deep sleep. No wait follows: a
/// sleeping panel no longer answers on the busy line.
pub open spec fn deep_sleep_ops() -> Seq<OpView> {
    command_with_data_ops(DEEP_SLEEP, seq![0xA5u8])
}

/// Where the driver stands in its program.
#[derive(Clone, Copy)]
enum Stage {
    /// Nothing is in progress.
    Idle(Result<(), Error>),
    /// The action of the step at this index was handed out.
    Output(usize),
    /// In the wait at this index, with the milliseconds waited so far: a
    /// reading was asked for.
    Sampling(usize, u32),
    /// In the wait at this index: a pause was asked for.
    Backoff(usize, u32),
}

/// The driver of one panel.
pub struct EPaper7In3F {
    program: Program,
    stage: Stage,
}

impl View for EPaper7In3F {
    type V = DriverView;

    closed spec fn view(&self) -> DriverView {
        let ops = self.program@;
        match self.stage {
            Stage::Idle(result) => DriverView::Idle(result),
            Stage::Output(pc) => DriverView::Output {
                action: ops[pc as int].action(),
                rest: ops.subrange(pc + 1, ops.len() as int),
            },
            Stage::Sampling(pc, waited_ms) => DriverView::Sampling {
                waited_ms: waited_ms as nat,
                rest: ops.subrange(pc + 1, ops.len() as int),
            },
            Stage::Backoff(pc, waited_ms) => DriverView::Backoff {
                waited_ms: waited_ms as nat,
                rest: ops.subrange(pc + 1, ops.len() as int),
            },
        }
    }
}

impl EPaper7In3F {
    #[verifier::type_invariant]
    spec fn inv(self) -> bool {
        let ops = self.program@;
        match self.stage {
            Stage::Idle(_) => true,
            Stage::Output(pc) => pc < ops.len() && !(ops[pc as int] is WaitIdle),
            Stage::Sampling(pc, waited_ms) | Stage::Backoff(pc, waited_ms) => {
                &&& pc < ops.len()
                &&& ops[pc as int] is WaitIdle
                &&& waited_ms < MAX_DELAY_MS
            },
        }
    }

    /// Creates a driver with no operation in progress.
    pub fn new() -> (driver: EPaper7In3F)
        ensures
            driver@ == DriverView::Idle(Ok(())),
    {
        EPaper7In3F { program: Program::new(), stage: Stage::Idle(Ok(())) }
    }

    /// Takes up the step at `pc`, or ends the operation if the program has
    /// no such step.
    fn enter(&mut self, pc: usize) -> (step: Step)
        requires
            pc <= old(self).program@.len(),
        ensures
            final(self).program == old(self).program,
            (final(self)@, step@) == begin(
                old(self).program@.subrange(pc as int, old(self).program@.len() as int),
            ),
    {
        let ghost ops = self.program@;
        let ghost ahead = ops.subrange(pc as int, ops.len() as int);
        if pc == self.program.len() {
            self.stage = Stage::Idle(Ok(()));
            Step::Finished(Ok(()))
        } else {
            assert(ahead[0] == ops[pc as int]);
            assert(ahead.drop_first() =~= ops.subrange(pc + 1, ops.len() as int));
            if self.program.waits_at(pc) {
                self.stage = Stage::Sampling(pc, 0);
                Step::Perform(Action::ReadBusy)
            } else {
                self.stage = Stage::Output(pc);
                Step::Perform(self.program.action_at(pc))
            }
        }
    }

    /// Ends the operation in progress with `result`.
    fn finish(&mut self, result: Result<(), Error>) -> (step: Step)
        ensures
            (final(self)@, step@) == end(result),
    {
        self.stage = Stage::Idle(result);
        Step::Finished(result)
    }

    /// Starts to walk `program`, in place of whatever was in progress, and
    /// hands out its first action.
    pub fn start(&mut self, program: Program) -> (step: Step)
        ensures
            (final(self)@, step@) == begin(program@),
    {
        self.stage = Stage::Idle(Ok(()));
        self.program = program;
        assert(program@.subrange(0, program@.len() as int) =~= program@);
        self.enter(0)
    }

    /// Starts to bring the panel up and hands out the first action.
    pub fn init(&mut self) -> (step: Step)
        ensures
            (final(self)@, step@) == begin(init_ops()),
    {
        let mut program = Program::new();
        program.reset();
        program.wait_for_idle();
        program.delay_ms(SETTLE_MS);
        program.send_registers(&init_registers());
        program.send_cmd(POWER_ON);
        program.wait_for_idle();
        assert(program@ =~= init_ops());
        self.start(program)
    }

    /// Starts to paint the whole panel in `color` and hands out the first
    /// action.
    pub fn _clear(&mut self, color: Color) -> (step: Step)
        ensures
            (final(self)@, step@) == begin(clear_ops(color)),
    {
        let mut program = Program::new();
        program.send_cmd(DATA_START_TRANSMISSION);
        program.fill_rows(color.fill_byte(), EPD_7IN3F_HEIGHT);
        program.display_frame();
        self.start(program)
    }

    /// Starts to draw the seven colour blocks on the screen and hands out the
    /// first action. The bands cover the whole frame: each is [`BAND_ROWS`]
    /// rows high but the last, which takes the [`LAST_BAND_ROWS`] rows that
    /// are left.
    pub fn show_seven_color_blocks(&mut self) -> (step: Step)
        ensures
            (final(self)@, step@) == begin(blocks_ops()),
    {
        let mut program = Program::new();
        program.send_cmd(DATA_START_TRANSMISSION);

        let color_list: [Color; BANDS] = [
            Color::White,
            Color::Black,
            Color::Blue,
            Color::Green,
            Color::Red,
            Color::Yellow,
            Color::White,
        ];
        assert(color_list@ =~= band_colors());
        let mut i: usize = 0;
        while i < BANDS
            invariant
                i <= BANDS,
                color_list@ == band_colors(),
                program@ == command_ops(DATA_START_TRANSMISSION) + bands_ops(
                    band_colors().take(i as int),
                ),
            decreases BANDS - i,
        {
            proof {
                assert(band_colors().take(i + 1).drop_last() =~= band_colors().take(i as int));
                assert(band_colors().take(i + 1).last() == band_colors()[i as int]);
            }
            let rows: usize = if i + 1 == BANDS {
                LAST_BAND_ROWS
            } else {
                BAND_ROWS
            };
            program.fill_rows(color_list[i].fill_byte(), rows);
            i += 1;
        }
        assert(band_colors().take(BANDS as int) =~= band_colors());
        program.display_frame();
        self.start(program)
    }

    /// Starts to send a whole frame and to show it, and hands out the first
    /// action. A frame holds [`FRAME_BYTES`] bytes, two pixels in each, row
    /// by row from the top. A buffer of any other length is refused: nothing
    /// is started and the driver stays as it was.
    pub fn show_image(&mut self, frame: &[u8]) -> (step: Option<Step>)
        ensures
            frame@.len() != FRAME_BYTES ==> step is None && final(self)@ == old(self)@,
            frame@.len() == FRAME_BYTES ==> step is Some && (final(self)@, step->0@) == begin(
                image_ops(frame@),
            ),
    {
        let mut program = Program::new();
        program.send_cmd(DATA_START_TRANSMISSION);
        if !program.frame_rows(frame) {
            return None;
        }
        program.display_frame();
        Some(self.start(program))
    }

    /// Starts to put the display in deep sleep mode and hands out the first
    /// action.
    pub fn _deep_sleep(&mut self) -> (step: Step)
        ensures
            (final(self)@, step@) == begin(deep_sleep_ops()),
    {
        let magic: [u8; 1] = [0xA5];
        assert(magic@ =~= seq![0xA5u8]);
        let mut program = Program::new();
        program.send_cmd_with_data(DEEP_SLEEP, &magic);
        self.start(program)
    }

    /// Takes the outcome of the action handed out last and hands out the
    /// next step.
    pub fn advance(&mut self, event: Event) -> (step: Step)
        ensures
            (final(self)@, step@) == transition(old(self)@, event),
    {
        proof {
            use_type_invariant(&*self);
            self.program.lemma_len_bounded();
        }
        match self.stage {
            Stage::Idle(result) => Step::Finished(result),
            Stage::Output(pc) => match event {
                Event::Done => self.enter(pc + 1),
                Event::Failed(code) => self.finish(Err(Error::SpiError(code))),
                Event::Sampled(_) => Step::Perform(self.program.action_at(pc)),
            },
            Stage::Sampling(pc, waited_ms) => match event {
                Event::Sampled(Level::High) => self.enter(pc + 1),
                Event::Sampled(Level::Low) => {
                    self.stage = Stage::Backoff(pc, waited_ms);
                    Step::Perform(Action::DelayMs(POLLING_MS))
                },
                Event::Failed(code) => self.finish(Err(Error::SpiError(code))),
                Event::Done => Step::Perform(Action::ReadBusy),
            },
            Stage::Backoff(pc, waited_ms) => match event {
                Event::Done => {
                    let accum_ms: u32 = waited_ms + POLLING_MS;
                    if accum_ms >= MAX_DELAY_MS {
                        self.finish(Err(Error::Timeout))
                    } else {
                        self.stage = Stage::Sampling(pc, accum_ms);
                        Step::Perform(Action::ReadBusy)
                    }
                },
                Event::Failed(code) => self.finish(Err(Error::SpiError(code))),
                Event::Sampled(_) => Step::Perform(Action::DelayMs(POLLING_MS)),
            },
        }
    }
}

} // verus!
