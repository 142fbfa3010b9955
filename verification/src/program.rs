//! Programs: the command sequences of the panel's protocol, as data.
//!
//! A program is a list of steps. A step sets a control line, writes bytes to
//! the bus, lets time pass, or waits until the panel reports idle. The
//! functions here build the sequences that the protocol is made of; the
//! driver walks a program step by step.

use vstd::prelude::*;
use vstd::slice::{slice_subrange, slice_to_vec};
use crate::geometry::{EPD_7IN3F_HEIGHT, FRAME_BYTES, ROW_BYTES};
use crate::protocol::{Action, ActionView, Level, Line};

verus! {

/// Opcode: switch the panel's power off.
pub const POWER_OFF: u8 = 0x02;

/// Opcode: switch the panel's power on.
pub const POWER_ON: u8 = 0x04;

/// Opcode: booster soft start, the timing register that a refresh sets anew.
pub const BOOSTER_SOFT_START: u8 = 0x06;

/// Opcode: deep sleep.
pub const DEEP_SLEEP: u8 = 0x07;

/// Opcode: start of the transmission of frame data.
pub const DATA_START_TRANSMISSION: u8 = 0x10;

/// Opcode: redraw the panel from the frame data it holds.
pub const DISPLAY_REFRESH: u8 = 0x12;

/// One step of a program, as a mathematical value.
pub enum OpView {
    /// Set a control line to a level.
    Drive(Line, Level),
    /// Write the bytes to the bus as one transaction.
    Write(Seq<u8>),
    /// Let the given number of milliseconds pass.
    DelayMs(u32),
    /// Poll the busy line until the panel reports idle.
    WaitIdle,
}

impl OpView {
    /// The action with which the step begins. For every step but a wait it is
    /// the whole step.
    pub open spec fn action(self) -> ActionView {
        match self {
            OpView::Drive(line, level) => ActionView::Drive(line, level),
            OpView::Write(bytes) => ActionView::Write(bytes),
            OpView::DelayMs(ms) => ActionView::DelayMs(ms),
            OpView::WaitIdle => ActionView::ReadBusy,
        }
    }
}

/// `len` copies of `byte`.
pub open spec fn repeated(byte: u8, len: nat) -> Seq<u8> {
    Seq::new(len, |i: int| byte)
}

/// The reset pulse: high for 50 ms, low for 20 ms, high for 50 ms.
pub open spec fn reset_ops() -> Seq<OpView> {
    seq![
        OpView::Drive(Line::Reset, Level::High),
        OpView::DelayMs(50),
        OpView::Drive(Line::Reset, Level::Low),
        OpView::DelayMs(20),
        OpView::Drive(Line::Reset, Level::High),
        OpView::DelayMs(50),
    ]
}

/// One command byte: data/command low, then the byte between chip select
/// low and high.
pub open spec fn command_ops(command: u8) -> Seq<OpView> {
    seq![
        OpView::Drive(Line::DataCommand, Level::Low),
        OpView::Drive(Line::ChipSelect, Level::Low),
        OpView::Write(seq![command]),
        OpView::Drive(Line::ChipSelect, Level::High),
    ]
}

/// One data transaction: data/command high, then all the bytes in one write
/// between chip select low and high.
pub open spec fn data_ops(data: Seq<u8>) -> Seq<OpView> {
    seq![
        OpView::Drive(Line::DataCommand, Level::High),
        OpView::Drive(Line::ChipSelect, Level::Low),
        OpView::Write(data),
        OpView::Drive(Line::ChipSelect, Level::High),
    ]
}

/// A command followed by its parameter bytes.
pub open spec fn command_with_data_ops(command: u8, data: Seq<u8>) -> Seq<OpView> {
    command_ops(command) + data_ops(data)
}

/// The parameter bytes of the booster soft start register.
pub open spec fn booster_timing() -> Seq<u8> {
    seq![0x6Fu8, 0x1Fu8, 0x17u8, 0x49u8]
}

/// The refresh cycle: power on, set the booster timing anew, redraw, power
/// off, with a wait for idle after each of the four.
pub open spec fn refresh_ops() -> Seq<OpView> {
    command_ops(POWER_ON) + seq![OpView::WaitIdle]
        + command_with_data_ops(BOOSTER_SOFT_START, booster_timing()) + seq![OpView::WaitIdle]
        + command_with_data_ops(DISPLAY_REFRESH, seq![0x00u8]) + seq![OpView::WaitIdle]
        + command_with_data_ops(POWER_OFF, seq![0x00u8]) + seq![OpView::WaitIdle]
}

/// `rows` data transactions, each one row of the byte `byte`.
pub open spec fn fill_rows_ops(byte: u8, rows: nat) -> Seq<OpView>
    decreases rows,
{
    if rows == 0 {
        Seq::empty()
    } else {
        fill_rows_ops(byte, (rows - 1) as nat) + data_ops(repeated(byte, ROW_BYTES as nat))
    }
}

/// Row `row` of a frame.
pub open spec fn frame_row(frame: Seq<u8>, row: nat) -> Seq<u8> {
    frame.subrange(row * ROW_BYTES, (row + 1) * ROW_BYTES)
}

/// The first `rows` rows of a frame from the top, one data transaction each.
pub open spec fn frame_rows_ops(frame: Seq<u8>, rows: nat) -> Seq<OpView>
    decreases rows,
{
    if rows == 0 {
        Seq::empty()
    } else {
        frame_rows_ops(frame, (rows - 1) as nat) + data_ops(frame_row(frame, (rows - 1) as nat))
    }
}

/// The registers that are set when the panel is brought up, in order, each
/// with its parameter bytes. The values are those that the panel's maker
/// prescribes.
pub open spec fn init_table() -> Seq<(u8, Seq<u8>)> {
    seq![
        (0xAAu8, seq![0x49u8, 0x55u8, 0x20u8, 0x08u8, 0x09u8, 0x18u8]),
        (0x01u8, seq![0x3Fu8]),
        (0x00u8, seq![0x5Fu8, 0x69u8]),
        (0x03u8, seq![0x00u8, 0x54u8, 0x00u8, 0x44u8]),
        (0x05u8, seq![0x40u8, 0x1Fu8, 0x1Fu8, 0x2Cu8]),
        (0x06u8, seq![0x6Fu8, 0x1Fu8, 0x17u8, 0x49u8]),
        (0x08u8, seq![0x6Fu8, 0x1Fu8, 0x1Fu8, 0x22u8]),
        (0x30u8, seq![0x03u8]),
        (0x50u8, seq![0x3Fu8]),
        (0x60u8, seq![0x02u8, 0x00u8]),
        (0x61u8, seq![0x03u8, 0x20u8, 0x01u8, 0xE0u8]),
        (0x84u8, seq![0x01u8]),
        (0xE3u8, seq![0x2Fu8]),
    ]
}

/// A table of registers as a mathematical value.
pub open spec fn registers_view(table: Seq<(u8, Vec<u8>)>) -> Seq<(u8, Seq<u8>)> {
    table.map_values(|register: (u8, Vec<u8>)| (register.0, register.1@))
}

/// The registers of a table in order, each sent as a command with its
/// parameter bytes.
pub open spec fn table_ops(table: Seq<(u8, Seq<u8>)>) -> Seq<OpView>
    decreases table.len(),
{
    if table.len() == 0 {
        Seq::empty()
    } else {
        table_ops(table.drop_last()) + command_with_data_ops(table.last().0, table.last().1)
    }
}

/// Returns the registers that are set when the panel is brought up.
pub fn init_registers() -> (table: Vec<(u8, Vec<u8>)>)
    ensures
        registers_view(table@) == init_table(),
{
    let mut table: Vec<(u8, Vec<u8>)> = Vec::new();
    table.push((0xAA, vec![0x49, 0x55, 0x20, 0x08, 0x09, 0x18]));
    table.push((0x01, vec![0x3F]));
    table.push((0x00, vec![0x5F, 0x69]));
    table.push((0x03, vec![0x00, 0x54, 0x00, 0x44]));
    table.push((0x05, vec![0x40, 0x1F, 0x1F, 0x2C]));
    table.push((0x06, vec![0x6F, 0x1F, 0x17, 0x49]));
    table.push((0x08, vec![0x6F, 0x1F, 0x1F, 0x22]));
    table.push((0x30, vec![0x03]));
    table.push((0x50, vec![0x3F]));
    table.push((0x60, vec![0x02, 0x00]));
    table.push((0x61, vec![0x03, 0x20, 0x01, 0xE0]));
    table.push((0x84, vec![0x01]));
    table.push((0xE3, vec![0x2F]));
    assert(registers_view(table@) =~~= init_table());
    table
}

/// The four steps of transaction `index` in a sequence that is made of data
/// transactions.
pub open spec fn transaction(ops: Seq<OpView>, index: int) -> Seq<OpView> {
    ops.subrange(4 * index, 4 * index + 4)
}

/// The eight steps of register `index` in a sequence that is made of commands
/// with data.
pub open spec fn register_ops(ops: Seq<OpView>, index: int) -> Seq<OpView> {
    ops.subrange(8 * index, 8 * index + 8)
}

/// A fill of `rows` rows is exactly `rows` data transactions, and each of
/// them writes one row of the byte.
pub proof fn lemma_fill_rows_ops(byte: u8, rows: nat)
    ensures
        fill_rows_ops(byte, rows).len() == 4 * rows,
        forall|row: int|
            0 <= row < rows ==> #[trigger] transaction(fill_rows_ops(byte, rows), row) == data_ops(
                repeated(byte, ROW_BYTES as nat),
            ),
    decreases rows,
{
    if rows > 0 {
        let before = fill_rows_ops(byte, (rows - 1) as nat);
        let last = data_ops(repeated(byte, ROW_BYTES as nat));
        lemma_fill_rows_ops(byte, (rows - 1) as nat);
        assert forall|row: int| 0 <= row < rows implies #[trigger] transaction(
            fill_rows_ops(byte, rows),
            row,
        ) == last by {
            if row < rows - 1 {
                assert(transaction(before + last, row) =~= transaction(before, row));
            } else {
                assert(transaction(before + last, row) =~= last);
            }
        }
    }
}

/// The rows of a frame are sent from the top, each as one data transaction
/// that writes the bytes of that row.
pub proof fn lemma_frame_rows_ops(frame: Seq<u8>, rows: nat)
    ensures
        frame_rows_ops(frame, rows).len() == 4 * rows,
        forall|row: int|
            0 <= row < rows ==> #[trigger] transaction(frame_rows_ops(frame, rows), row)
                == data_ops(frame_row(frame, row as nat)),
    decreases rows,
{
    if rows > 0 {
        let before = frame_rows_ops(frame, (rows - 1) as nat);
        let last = data_ops(frame_row(frame, (rows - 1) as nat));
        lemma_frame_rows_ops(frame, (rows - 1) as nat);
        assert forall|row: int| 0 <= row < rows implies #[trigger] transaction(
            frame_rows_ops(frame, rows),
            row,
        ) == data_ops(frame_row(frame, row as nat)) by {
            if row < rows - 1 {
                assert(transaction(before + last, row) =~= transaction(before, row));
            } else {
                assert(transaction(before + last, row) =~= last);
            }
        }
    }
}

/// The registers of a table are sent in the table's order, each as its
/// command followed by its parameter bytes.
pub proof fn lemma_table_ops(table: Seq<(u8, Seq<u8>)>)
    ensures
        table_ops(table).len() == 8 * table.len(),
        forall|index: int|
            0 <= index < table.len() ==> #[trigger] register_ops(table_ops(table), index)
                == command_with_data_ops(table[index].0, table[index].1),
    decreases table.len(),
{
    if table.len() > 0 {
        let before = table_ops(table.drop_last());
        let last = command_with_data_ops(table.last().0, table.last().1);
        lemma_table_ops(table.drop_last());
        assert forall|index: int| 0 <= index < table.len() implies #[trigger] register_ops(
            table_ops(table),
            index,
        ) == command_with_data_ops(table[index].0, table[index].1) by {
            if index < table.len() - 1 {
                assert(register_ops(before + last, index) =~= register_ops(before, index));
                assert(table.drop_last()[index] == table[index]);
            } else {
                assert(register_ops(before + last, index) =~= last);
            }
        }
    }
}

/// A step as it is stored. A row of one byte is kept as the byte and a count.
enum Op {
    Drive(Line, Level),
    Write(Vec<u8>),
    Fill(u8, usize),
    DelayMs(u32),
    WaitIdle,
}

impl View for Op {
    type V = OpView;

    closed spec fn view(&self) -> OpView {
        match *self {
            Op::Drive(line, level) => OpView::Drive(line, level),
            Op::Write(bytes) => OpView::Write(bytes@),
            Op::Fill(byte, len) => OpView::Write(repeated(byte, len as nat)),
            Op::DelayMs(ms) => OpView::DelayMs(ms),
            Op::WaitIdle => OpView::WaitIdle,
        }
    }
}

/// Builds a vector of `len` copies of `byte`.
fn repeat(byte: u8, len: usize) -> (bytes: Vec<u8>)
    ensures
        bytes@ == repeated(byte, len as nat),
{
    let mut bytes: Vec<u8> = Vec::with_capacity(len);
    let mut i: usize = 0;
    while i < len
        invariant
            i <= len,
            bytes@ == repeated(byte, i as nat),
        decreases len - i,
    {
        bytes.push(byte);
        i += 1;
    }
    bytes
}

/// A list of steps for the driver to walk.
pub struct Program {
    ops: Vec<Op>,
}

impl View for Program {
    type V = Seq<OpView>;

    closed spec fn view(&self) -> Seq<OpView> {
        self.ops@.map_values(|op: Op| op@)
    }
}

impl Program {
    /// Creates a program without steps.
    pub fn new() -> (program: Program)
        ensures
            program@ == Seq::<OpView>::empty(),
    {
        Program { ops: Vec::new() }
    }

    /// Returns the number of steps.
    pub fn len(&self) -> (len: usize)
        ensures
            len == self@.len(),
    {
        self.ops.len()
    }

    /// The steps of a program can be counted in a `usize`.
    pub proof fn lemma_len_bounded(&self)
        ensures
            self@.len() <= usize::MAX,
    {
        assert(self.ops.len() == self.ops@.len());
    }

    /// Tells whether step `index` is a wait for idle.
    pub(crate) fn waits_at(&self, index: usize) -> (waits: bool)
        requires
            index < self@.len(),
        ensures
            waits == (self@[index as int] is WaitIdle),
    {
        match &self.ops[index] {
            Op::WaitIdle => true,
            _ => false,
        }
    }

    /// Returns the action with which step `index` begins.
    pub(crate) fn action_at(&self, index: usize) -> (action: Action)
        requires
            index < self@.len(),
        ensures
            action@ == self@[index as int].action(),
    {
        match &self.ops[index] {
            Op::Drive(line, level) => Action::Drive(*line, *level),
            Op::Write(bytes) => Action::Write(slice_to_vec(bytes.as_slice())),
            Op::Fill(byte, len) => Action::Write(repeat(*byte, *len)),
            Op::DelayMs(ms) => Action::DelayMs(*ms),
            Op::WaitIdle => Action::ReadBusy,
        }
    }

    fn push(&mut self, op: Op)
        ensures
            final(self)@ == old(self)@.push(op@),
    {
        self.ops.push(op);
        assert(self@ =~= old(self)@.push(op@));
    }

    /// Appends a step that sets a control line.
    pub fn drive(&mut self, line: Line, level: Level)
        ensures
            final(self)@ == old(self)@.push(OpView::Drive(line, level)),
    {
        self.push(Op::Drive(line, level));
    }

    /// Appends a bare write to the bus, without the lines that frame it.
    pub fn write(&mut self, bytes: &[u8])
        ensures
            final(self)@ == old(self)@.push(OpView::Write(bytes@)),
    {
        self.push(Op::Write(slice_to_vec(bytes)));
    }

    /// Appends a delay.
    pub fn delay_ms(&mut self, ms: u32)
        ensures
            final(self)@ == old(self)@.push(OpView::DelayMs(ms)),
    {
        self.push(Op::DelayMs(ms));
    }

    /// Appends a wait until the panel reports idle.
    pub fn wait_for_idle(&mut self)
        ensures
            final(self)@ == old(self)@.push(OpView::WaitIdle),
    {
        self.push(Op::WaitIdle);
    }

    /// Appends the reset pulse.
    pub fn reset(&mut self)
        ensures
            final(self)@ == old(self)@ + reset_ops(),
    {
        self.drive(Line::Reset, Level::High);
        self.delay_ms(50);
        self.drive(Line::Reset, Level::Low);
        self.delay_ms(20);
        self.drive(Line::Reset, Level::High);
        self.delay_ms(50);
    }

    /// Appends a command byte with its framing.
    pub fn send_cmd(&mut self, command: u8)
        ensures
            final(self)@ == old(self)@ + command_ops(command),
    {
        // Data/command low: the next byte is a command.
        self.drive(Line::DataCommand, Level::Low);
        self.drive(Line::ChipSelect, Level::Low);
        self.push(Op::Fill(command, 1));
        self.drive(Line::ChipSelect, Level::High);
        assert(repeated(command, 1) =~= seq![command]);
    }

    /// Appends a data transaction with its framing.
    pub fn send_data(&mut self, data: &[u8])
        ensures
            final(self)@ == old(self)@ + data_ops(data@),
    {
        // Data/command high: the next bytes are data.
        self.drive(Line::DataCommand, Level::High);
        self.drive(Line::ChipSelect, Level::Low);
        self.write(data);
        self.drive(Line::ChipSelect, Level::High);
    }

    /// Appends a data transaction of `len` copies of `byte`.
    pub fn send_repeated(&mut self, byte: u8, len: usize)
        ensures
            final(self)@ == old(self)@ + data_ops(repeated(byte, len as nat)),
    {
        self.drive(Line::DataCommand, Level::High);
        self.drive(Line::ChipSelect, Level::Low);
        self.push(Op::Fill(byte, len));
        self.drive(Line::ChipSelect, Level::High);
    }

    /// Appends a command followed by its parameter bytes.
    pub fn send_cmd_with_data(&mut self, command: u8, data: &[u8])
        ensures
            final(self)@ == old(self)@ + command_with_data_ops(command, data@),
    {
        self.send_cmd(command);
        self.send_data(data);
    }

    /// Appends the registers of `table` in order, each as a command with its
    /// parameter bytes.
    pub fn send_registers(&mut self, table: &Vec<(u8, Vec<u8>)>)
        ensures
            final(self)@ == old(self)@ + table_ops(registers_view(table@)),
    {
        let ghost registers = registers_view(table@);
        let mut i: usize = 0;
        while i < table.len()
            invariant
                i <= table.len(),
                registers == registers_view(table@),
                self@ == old(self)@ + table_ops(registers.take(i as int)),
            decreases table.len() - i,
        {
            proof {
                assert(registers.take(i + 1).drop_last() =~= registers.take(i as int));
                assert(registers.take(i + 1).last() == registers[i as int]);
            }
            self.send_cmd_with_data(table[i].0, table[i].1.as_slice());
            i += 1;
        }
        assert(registers.take(i as int) =~= registers);
    }

    /// Appends `rows` rows of the byte `byte`.
    pub fn fill_rows(&mut self, byte: u8, rows: usize)
        ensures
            final(self)@ == old(self)@ + fill_rows_ops(byte, rows as nat),
    {
        let mut row: usize = 0;
        while row < rows
            invariant
                row <= rows,
                self@ == old(self)@ + fill_rows_ops(byte, row as nat),
            decreases rows - row,
        {
            self.send_repeated(byte, ROW_BYTES);
            row += 1;
        }
    }

    /// Appends the rows of a whole frame, from the top, each as one data
    /// transaction. A frame holds [`FRAME_BYTES`] bytes; for a buffer of any
    /// other length nothing is appended and the answer is `false`.
    pub fn frame_rows(&mut self, frame: &[u8]) -> (accepted: bool)
        ensures
            accepted == (frame@.len() == FRAME_BYTES),
            accepted ==> final(self)@ == old(self)@ + frame_rows_ops(
                frame@,
                EPD_7IN3F_HEIGHT as nat,
            ),
            !accepted ==> final(self)@ == old(self)@,
    {
        if frame.len() != FRAME_BYTES {
            return false;
        }
        let mut row: usize = 0;
        while row < EPD_7IN3F_HEIGHT
            invariant
                row <= EPD_7IN3F_HEIGHT,
                frame@.len() == FRAME_BYTES,
                self@ == old(self)@ + frame_rows_ops(frame@, row as nat),
            decreases EPD_7IN3F_HEIGHT - row,
        {
            let offset: usize = row * ROW_BYTES;
            self.send_data(slice_subrange(frame, offset, offset + ROW_BYTES));
            row += 1;
        }
        true
    }

    /// Appends the refresh cycle, which makes the panel show the frame data
    /// it was sent: power on, booster timing, refresh, power off, each
    /// followed by a wait for idle.
    pub fn display_frame(&mut self)
        ensures
            final(self)@ == old(self)@ + refresh_ops(),
    {
        // Power on the display.
        self.send_cmd(POWER_ON);
        self.wait_for_idle();

        // Second setting of the booster timing.
        let timing: [u8; 4] = [0x6F, 0x1F, 0x17, 0x49];
        assert(timing@ =~= booster_timing());
        self.send_cmd_with_data(BOOSTER_SOFT_START, &timing);
        self.wait_for_idle();

        // Refresh the display.
        let zero: [u8; 1] = [0x00];
        assert(zero@ =~= seq![0x00u8]);
        self.send_cmd_with_data(DISPLAY_REFRESH, &zero);
        self.wait_for_idle();

        // Power off the display.
        self.send_cmd_with_data(POWER_OFF, &zero);
        self.wait_for_idle();
    }
}

} // verus!
