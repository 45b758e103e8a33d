//! Minimal UC8179 (GD7965) driver for the Seeed Studio XIAO 7.5" ePaper panel.
//!
//! The driver's decisions live here: which bytes go out, with the data/command
//! line in which state, in what order, and how long to wait on the busy line.
//! Each operation is a list of [`BusOp`]s; the code that owns the SPI bus and
//! the GPIO pins performs them one after another and stops at the first one
//! that fails. A pin operation that fails is a pin error, a bus operation that
//! fails a bus error. Busy waits run on [`BusyWait`].
use vstd::prelude::*;
use crate::framebuffer::{Framebuffer, FB_SIZE, ROW_BYTES, HEIGHT, WIDTH, on_panel};

verus! {

pub const CMD_PANEL_SETTING: u8 = 0x00;
pub const CMD_POWER_SETTING: u8 = 0x01;
pub const CMD_POWER_ON: u8 = 0x04;
pub const CMD_DISPLAY_REFRESH: u8 = 0x12;
pub const CMD_WRITE_RAM_NEW: u8 = 0x13;
pub const CMD_VCOM_INTERVAL: u8 = 0x50;
pub const CMD_TCON: u8 = 0x60;
pub const CMD_RESOLUTION: u8 = 0x61;
pub const CMD_PARTIAL_OUT: u8 = 0x92;
/// Undocumented register that the reference init sequence writes.
pub const CMD_0X15: u8 = 0x15;

/// Busy-wait limits of the three waits the driver performs.
pub const RESET_TIMEOUT_MS: u32 = 5000;
pub const POWER_ON_TIMEOUT_MS: u32 = 10000;
pub const REFRESH_TIMEOUT_MS: u32 = 30000;

/// One step on the panel's bus.
pub enum BusOp {
    /// Data/command line low: the next bytes are a command.
    DcLow,
    /// Data/command line high: the next bytes are data.
    DcHigh,
    /// Chip select asserted.
    CsLow,
    /// Chip select released.
    CsHigh,
    /// Reset line low.
    RstLow,
    /// Reset line high.
    RstHigh,
    /// SPI write of these bytes.
    Write(Vec<u8>),
    /// SPI flush.
    Flush,
    /// Pause for this many milliseconds.
    DelayMs(u32),
    /// Wait for the busy line, under this label, for at most this many milliseconds.
    WaitBusy(&'static str, u32),
}

/// What a [`BusOp`] is, with its payload as a sequence.
pub ghost enum Signal {
    DcLow,
    DcHigh,
    CsLow,
    CsHigh,
    RstLow,
    RstHigh,
    Write(Seq<u8>),
    Flush,
    DelayMs(u32),
    WaitBusy(Seq<char>, u32),
}

impl View for BusOp {
    type V = Signal;

    open spec fn view(&self) -> Signal {
        match self {
            BusOp::DcLow => Signal::DcLow,
            BusOp::DcHigh => Signal::DcHigh,
            BusOp::CsLow => Signal::CsLow,
            BusOp::CsHigh => Signal::CsHigh,
            BusOp::RstLow => Signal::RstLow,
            BusOp::RstHigh => Signal::RstHigh,
            BusOp::Write(v) => Signal::Write(v@),
            BusOp::Flush => Signal::Flush,
            BusOp::DelayMs(ms) => Signal::DelayMs(*ms),
            BusOp::WaitBusy(label, ms) => Signal::WaitBusy(label@, *ms),
        }
    }
}

/// The signals of a list of operations.
pub open spec fn signals(ops: Seq<BusOp>) -> Seq<Signal> {
    ops.map_values(|o: BusOp| o@)
}

/// A command byte: DC low, CS low, the byte, flush, CS high.
pub open spec fn cmd_signals(c: u8) -> Seq<Signal> {
    seq![Signal::DcLow, Signal::CsLow, Signal::Write(seq![c]), Signal::Flush, Signal::CsHigh]
}

/// A data block: DC high, CS low, the bytes, flush, CS high.
pub open spec fn data_signals(d: Seq<u8>) -> Seq<Signal> {
    seq![Signal::DcHigh, Signal::CsLow, Signal::Write(d), Signal::Flush, Signal::CsHigh]
}

pub open spec fn cmd_with_signals(c: u8, d: Seq<u8>) -> Seq<Signal> {
    cmd_signals(c) + data_signals(d)
}

/// Hardware reset: reset low for 10 ms, then high and 20 ms to settle.
pub open spec fn reset_signals() -> Seq<Signal> {
    seq![Signal::RstLow, Signal::DelayMs(10), Signal::RstHigh, Signal::DelayMs(20)]
}

/// The panel's init sequence, sent before every refresh:
/// power setting, power on, busy wait, panel setting, resolution, 0x15,
/// VCOM interval, TCON.
pub open spec fn init_sequence_signals() -> Seq<Signal> {
    cmd_with_signals(CMD_POWER_SETTING, seq![0x07u8, 0x07u8, 0x3fu8, 0x3fu8]) + cmd_signals(
        CMD_POWER_ON,
    ) + seq![Signal::WaitBusy("power-on"@, POWER_ON_TIMEOUT_MS)] + cmd_with_signals(
        CMD_PANEL_SETTING,
        seq![0x1fu8],
    ) + cmd_with_signals(CMD_RESOLUTION, seq![0x03u8, 0x20u8, 0x01u8, 0xE0u8]) + cmd_with_signals(
        CMD_0X15,
        seq![0x00u8],
    ) + cmd_with_signals(CMD_VCOM_INTERVAL, seq![0x21u8, 0x07u8]) + cmd_with_signals(
        CMD_TCON,
        seq![0x22u8],
    )
}

/// Power-up: hardware reset, then wait for the panel to come out of it.
pub open spec fn init_signals() -> Seq<Signal> {
    reset_signals() + seq![Signal::WaitBusy("reset"@, RESET_TIMEOUT_MS)]
}

/// Row `r` of a framebuffer's bytes.
pub open spec fn row_bytes(fb: Seq<u8>, r: int) -> Seq<u8> {
    fb.subrange(r * ROW_BYTES, r * ROW_BYTES + ROW_BYTES)
}

/// The framebuffer goes out one row at a time, each row written and flushed.
pub open spec fn row_transfer_signals(fb: Seq<u8>) -> Seq<Signal> {
    Seq::new(
        2 * HEIGHT as nat,
        |i: int|
            if i % 2 == 0 {
                Signal::Write(row_bytes(fb, i / 2))
            } else {
                Signal::Flush
            },
    )
}

/// A refresh: the "write RAM" command, every row of the framebuffer as data
/// under one chip select, the init sequence, "partial out", "display refresh",
/// and the wait for the refresh to end.
pub open spec fn flush_signals(fb: Seq<u8>) -> Seq<Signal> {
    cmd_signals(CMD_WRITE_RAM_NEW) + seq![Signal::DcHigh, Signal::CsLow] + row_transfer_signals(fb)
        + seq![Signal::CsHigh] + init_sequence_signals() + cmd_signals(CMD_PARTIAL_OUT)
        + cmd_signals(CMD_DISPLAY_REFRESH) + seq![
        Signal::WaitBusy("refresh"@, REFRESH_TIMEOUT_MS),
    ]
}

/// The bytes that a list of signals writes on the bus, in order.
pub open spec fn written_bytes(sigs: Seq<Signal>) -> Seq<u8>
    decreases sigs.len(),
{
    if sigs.len() == 0 {
        Seq::empty()
    } else {
        written_bytes(sigs.drop_last()) + match sigs.last() {
            Signal::Write(d) => d,
            _ => Seq::empty(),
        }
    }
}

proof fn lemma_written_bytes_append(a: Seq<Signal>, b: Seq<Signal>)
    ensures
        written_bytes(a + b) == written_bytes(a) + written_bytes(b),
    decreases b.len(),
{
    if b.len() == 0 {
        assert(a + b =~= a);
        assert(written_bytes(a) + written_bytes(b) =~= written_bytes(a));
    } else {
        lemma_written_bytes_append(a, b.drop_last());
        assert((a + b).drop_last() =~= a + b.drop_last());
        assert((a + b).last() == b.last());
        let tail = match b.last() {
            Signal::Write(d) => d,
            _ => Seq::<u8>::empty(),
        };
        assert(written_bytes(a) + written_bytes(b.drop_last()) + tail =~= written_bytes(a) + (
        written_bytes(b.drop_last()) + tail));
    }
}

proof fn lemma_transfer_prefix(fb: Seq<u8>, k: int)
    requires
        fb.len() == FB_SIZE,
        0 <= k <= HEIGHT,
    ensures
        written_bytes(row_transfer_signals(fb).take(2 * k)) == fb.take(k * ROW_BYTES),
    decreases k,
{
    let t = row_transfer_signals(fb);
    if k == 0 {
        assert(t.take(0) =~= Seq::<Signal>::empty());
        assert(fb.take(0) =~= Seq::<u8>::empty());
    } else {
        let j = k - 1;
        lemma_transfer_prefix(fb, j);
        let pair = seq![Signal::Write(row_bytes(fb, j)), Signal::Flush];
        assert(t.take(2 * j + 2) =~= t.take(2 * j) + pair);
        lemma_written_bytes_append(t.take(2 * j), pair);
        assert(written_bytes(pair) =~= row_bytes(fb, j)) by {
            assert(pair.drop_last() =~= seq![Signal::Write(row_bytes(fb, j))]);
            assert(pair.drop_last().drop_last() =~= Seq::<Signal>::empty());
            let one = pair.drop_last();
            assert(one.last() == Signal::Write(row_bytes(fb, j)));
            assert(written_bytes(one) == written_bytes(one.drop_last()) + row_bytes(fb, j));
            assert(written_bytes(one) =~= row_bytes(fb, j));
            assert(pair.last() == Signal::Flush);
            assert(written_bytes(pair) == written_bytes(one) + Seq::<u8>::empty());
        }
        assert(j * 100 + 100 == k * 100);
        assert(fb.take(j * ROW_BYTES) + row_bytes(fb, j) =~= fb.take(k * ROW_BYTES));
    }
}

/// The init sequence, signal by signal: each command byte (power setting
/// 0x01, power on 0x04, panel setting 0x00, resolution 0x61, 0x15, VCOM
/// interval 0x50, TCON 0x60) goes out with the DC line low, each parameter
/// block with DC high, each under its own chip select, and the panel is
/// waited on for up to 10 s right after power on.
pub proof fn law_init_sequence_framing()
    ensures
        init_sequence_signals() == seq![
            Signal::DcLow, Signal::CsLow, Signal::Write(seq![0x01u8]), Signal::Flush, Signal::CsHigh,
            Signal::DcHigh, Signal::CsLow, Signal::Write(seq![0x07u8, 0x07u8, 0x3fu8, 0x3fu8]), Signal::Flush, Signal::CsHigh,
            Signal::DcLow, Signal::CsLow, Signal::Write(seq![0x04u8]), Signal::Flush, Signal::CsHigh,
            Signal::WaitBusy("power-on"@, 10000u32),
            Signal::DcLow, Signal::CsLow, Signal::Write(seq![0x00u8]), Signal::Flush, Signal::CsHigh,
            Signal::DcHigh, Signal::CsLow, Signal::Write(seq![0x1fu8]), Signal::Flush, Signal::CsHigh,
            Signal::DcLow, Signal::CsLow, Signal::Write(seq![0x61u8]), Signal::Flush, Signal::CsHigh,
            Signal::DcHigh, Signal::CsLow, Signal::Write(seq![0x03u8, 0x20u8, 0x01u8, 0xE0u8]), Signal::Flush, Signal::CsHigh,
            Signal::DcLow, Signal::CsLow, Signal::Write(seq![0x15u8]), Signal::Flush, Signal::CsHigh,
            Signal::DcHigh, Signal::CsLow, Signal::Write(seq![0x00u8]), Signal::Flush, Signal::CsHigh,
            Signal::DcLow, Signal::CsLow, Signal::Write(seq![0x50u8]), Signal::Flush, Signal::CsHigh,
            Signal::DcHigh, Signal::CsLow, Signal::Write(seq![0x21u8, 0x07u8]), Signal::Flush, Signal::CsHigh,
            Signal::DcLow, Signal::CsLow, Signal::Write(seq![0x60u8]), Signal::Flush, Signal::CsHigh,
            Signal::DcHigh, Signal::CsLow, Signal::Write(seq![0x22u8]), Signal::Flush, Signal::CsHigh,
        ],
{
    assert(init_sequence_signals() =~= seq![
        Signal::DcLow, Signal::CsLow, Signal::Write(seq![0x01u8]), Signal::Flush, Signal::CsHigh,
        Signal::DcHigh, Signal::CsLow, Signal::Write(seq![0x07u8, 0x07u8, 0x3fu8, 0x3fu8]), Signal::Flush, Signal::CsHigh,
        Signal::DcLow, Signal::CsLow, Signal::Write(seq![0x04u8]), Signal::Flush, Signal::CsHigh,
        Signal::WaitBusy("power-on"@, 10000u32),
        Signal::DcLow, Signal::CsLow, Signal::Write(seq![0x00u8]), Signal::Flush, Signal::CsHigh,
        Signal::DcHigh, Signal::CsLow, Signal::Write(seq![0x1fu8]), Signal::Flush, Signal::CsHigh,
        Signal::DcLow, Signal::CsLow, Signal::Write(seq![0x61u8]), Signal::Flush, Signal::CsHigh,
        Signal::DcHigh, Signal::CsLow, Signal::Write(seq![0x03u8, 0x20u8, 0x01u8, 0xE0u8]), Signal::Flush, Signal::CsHigh,
        Signal::DcLow, Signal::CsLow, Signal::Write(seq![0x15u8]), Signal::Flush, Signal::CsHigh,
        Signal::DcHigh, Signal::CsLow, Signal::Write(seq![0x00u8]), Signal::Flush, Signal::CsHigh,
        Signal::DcLow, Signal::CsLow, Signal::Write(seq![0x50u8]), Signal::Flush, Signal::CsHigh,
        Signal::DcHigh, Signal::CsLow, Signal::Write(seq![0x21u8, 0x07u8]), Signal::Flush, Signal::CsHigh,
        Signal::DcLow, Signal::CsLow, Signal::Write(seq![0x60u8]), Signal::Flush, Signal::CsHigh,
        Signal::DcHigh, Signal::CsLow, Signal::Write(seq![0x22u8]), Signal::Flush, Signal::CsHigh,
    ]);
}

/// A hardware reset holds the reset line low for 10 ms, releases it and
/// waits 20 ms; power-up then waits up to 5 s for the panel.
pub proof fn law_reset_framing()
    ensures
        reset_signals() == seq![Signal::RstLow, Signal::DelayMs(10u32), Signal::RstHigh, Signal::DelayMs(20u32)],
        init_signals() == seq![
            Signal::RstLow,
            Signal::DelayMs(10u32),
            Signal::RstHigh,
            Signal::DelayMs(20u32),
            Signal::WaitBusy("reset"@, 5000u32),
        ],
{
    assert(init_signals() =~= seq![
        Signal::RstLow,
        Signal::DelayMs(10u32),
        Signal::RstHigh,
        Signal::DelayMs(20u32),
        Signal::WaitBusy("reset"@, 5000u32),
    ]);
}

/// A refresh, signal by signal around the framebuffer rows: the command
/// 0x13 (write RAM) with DC low under its own chip select, then DC high and
/// chip select for the rows, each row written and flushed, chip select
/// released; then the init sequence, the command 0x92 (partial out), the
/// command 0x12 (display refresh), each with DC low under its own chip
/// select, and a wait of up to 30 s for the refresh.
pub proof fn law_flush_framing(fb: Seq<u8>)
    requires
        fb.len() == FB_SIZE,
    ensures
        flush_signals(fb).len() == 1045,
        flush_signals(fb).take(7) == seq![
            Signal::DcLow, Signal::CsLow, Signal::Write(seq![0x13u8]), Signal::Flush, Signal::CsHigh,
            Signal::DcHigh, Signal::CsLow,
        ],
        forall|r: int| 0 <= r < 480 ==> #[trigger] flush_signals(fb)[7 + 2 * r] == Signal::Write(fb.subrange(r * 100, r * 100 + 100))
            && flush_signals(fb)[7 + 2 * r + 1] == Signal::Flush,
        flush_signals(fb)[967] == Signal::CsHigh,
        flush_signals(fb).subrange(968, 1034) == init_sequence_signals(),
        flush_signals(fb).skip(1034) == seq![
            Signal::DcLow, Signal::CsLow, Signal::Write(seq![0x92u8]), Signal::Flush, Signal::CsHigh,
            Signal::DcLow, Signal::CsLow, Signal::Write(seq![0x12u8]), Signal::Flush, Signal::CsHigh,
            Signal::WaitBusy("refresh"@, 30000u32),
        ],
{
    let f = flush_signals(fb);
    let head = cmd_signals(CMD_WRITE_RAM_NEW) + seq![Signal::DcHigh, Signal::CsLow];
    let t = row_transfer_signals(fb);
    let pre = head + t + seq![Signal::CsHigh];
    let init = init_sequence_signals();
    let tail = cmd_signals(CMD_PARTIAL_OUT) + cmd_signals(CMD_DISPLAY_REFRESH) + seq![
        Signal::WaitBusy("refresh"@, REFRESH_TIMEOUT_MS),
    ];
    assert(init.len() == 66);
    assert(f =~= pre + init + tail);
    assert(pre.len() == 968);
    assert(f.take(7) =~= head) by {
        assert((pre + init + tail).take(7) =~= head);
    }
    assert(head =~= seq![
        Signal::DcLow, Signal::CsLow, Signal::Write(seq![0x13u8]), Signal::Flush, Signal::CsHigh,
        Signal::DcHigh, Signal::CsLow,
    ]);
    assert forall|r: int| 0 <= r < 480 implies #[trigger] f[7 + 2 * r] == Signal::Write(fb.subrange(r * 100, r * 100 + 100))
        && f[7 + 2 * r + 1] == Signal::Flush by {
        assert(f[7 + 2 * r] == pre[7 + 2 * r]);
        assert(f[7 + 2 * r + 1] == pre[7 + 2 * r + 1]);
        assert(pre[7 + 2 * r] == t[2 * r]);
        assert(pre[7 + 2 * r + 1] == t[2 * r + 1]);
        assert((2 * r) % 2 == 0 && (2 * r) / 2 == r);
        assert((2 * r + 1) % 2 == 1 && (2 * r + 1) / 2 == r);
    }
    assert(f[967] == pre[967]);
    assert(f.subrange(968, 1034) =~= init);
    assert(f.skip(1034) =~= tail);
    assert(tail =~= seq![
        Signal::DcLow, Signal::CsLow, Signal::Write(seq![0x92u8]), Signal::Flush, Signal::CsHigh,
        Signal::DcLow, Signal::CsLow, Signal::Write(seq![0x12u8]), Signal::Flush, Signal::CsHigh,
        Signal::WaitBusy("refresh"@, 30000u32),
    ]);
}

/// A refresh sends every byte of the framebuffer to the panel's RAM, in
/// order, and nothing else: the data written between the "write RAM" command
/// and the release of chip select is exactly the framebuffer.
pub proof fn law_flush_sends_framebuffer(fb: Seq<u8>)
    requires
        fb.len() == FB_SIZE,
    ensures
        flush_signals(fb).subrange(5, 7) == seq![Signal::DcHigh, Signal::CsLow],
        flush_signals(fb)[7 + 2 * HEIGHT] == Signal::CsHigh,
        written_bytes(flush_signals(fb).subrange(7, 7 + 2 * HEIGHT)) == fb,
{
    let t = row_transfer_signals(fb);
    let head = cmd_signals(CMD_WRITE_RAM_NEW) + seq![Signal::DcHigh, Signal::CsLow];
    assert(head.len() == 7);
    assert(flush_signals(fb).subrange(7, 7 + 2 * HEIGHT) =~= t);
    assert(flush_signals(fb).subrange(5, 7) =~= seq![Signal::DcHigh, Signal::CsLow]);
    lemma_transfer_prefix(fb, HEIGHT as int);
    assert(t.take(2 * HEIGHT) =~= t);
    assert(fb.take(HEIGHT * ROW_BYTES) =~= fb);
}

/// Appends the operations of `more` to `ops`.
fn append_ops(ops: &mut Vec<BusOp>, more: Vec<BusOp>)
    ensures
        signals(final(ops)@) == signals(old(ops)@) + signals(more@),
{
    let ghost added = more@;
    let mut more = more;
    ops.append(&mut more);
    assert(ops@ =~= old(ops)@ + added);
    assert(signals(ops@) =~= signals(old(ops)@) + signals(added));
}

/// A command byte.
pub fn cmd(c: u8) -> (ops: Vec<BusOp>)
    ensures
        signals(ops@) == cmd_signals(c),
{
    let payload = vec![c];
    assert(payload@ =~= seq![c]);
    let ops = vec![BusOp::DcLow, BusOp::CsLow, BusOp::Write(payload), BusOp::Flush, BusOp::CsHigh];
    assert(signals(ops@) =~= cmd_signals(c));
    ops
}

/// A block of data bytes.
pub fn data(d: Vec<u8>) -> (ops: Vec<BusOp>)
    ensures
        signals(ops@) == data_signals(d@),
{
    let payload = d;
    let ops = vec![BusOp::DcHigh, BusOp::CsLow, BusOp::Write(payload), BusOp::Flush, BusOp::CsHigh];
    assert(signals(ops@) =~= data_signals(d@));
    ops
}

/// A command byte followed by its data.
pub fn cmd_with(c: u8, d: Vec<u8>) -> (ops: Vec<BusOp>)
    ensures
        signals(ops@) == cmd_with_signals(c, d@),
{
    let mut ops = cmd(c);
    append_ops(&mut ops, data(d));
    ops
}

/// Hardware reset.
pub fn reset() -> (ops: Vec<BusOp>)
    ensures
        signals(ops@) == reset_signals(),
{
    let ops = vec![BusOp::RstLow, BusOp::DelayMs(10), BusOp::RstHigh, BusOp::DelayMs(20)];
    assert(signals(ops@) =~= reset_signals());
    ops
}

/// The init sequence sent before every refresh.
pub fn send_init_sequence() -> (ops: Vec<BusOp>)
    ensures
        signals(ops@) == init_sequence_signals(),
{
    let power = vec![0x07u8, 0x07, 0x3f, 0x3f];
    assert(power@ =~= seq![0x07u8, 0x07u8, 0x3fu8, 0x3fu8]);
    let panel = vec![0x1fu8];
    assert(panel@ =~= seq![0x1fu8]);
    let resolution = vec![0x03u8, 0x20, 0x01, 0xE0];
    assert(resolution@ =~= seq![0x03u8, 0x20u8, 0x01u8, 0xE0u8]);
    let reg15 = vec![0x00u8];
    assert(reg15@ =~= seq![0x00u8]);
    let vcom = vec![0x21u8, 0x07];
    assert(vcom@ =~= seq![0x21u8, 0x07u8]);
    let tcon = vec![0x22u8];
    assert(tcon@ =~= seq![0x22u8]);
    let mut ops = cmd_with(CMD_POWER_SETTING, power);
    append_ops(&mut ops, cmd(CMD_POWER_ON));
    append_ops(&mut ops, vec![BusOp::WaitBusy("power-on", POWER_ON_TIMEOUT_MS)]);
    append_ops(&mut ops, cmd_with(CMD_PANEL_SETTING, panel));
    append_ops(&mut ops, cmd_with(CMD_RESOLUTION, resolution));
    append_ops(&mut ops, cmd_with(CMD_0X15, reg15));
    append_ops(&mut ops, cmd_with(CMD_VCOM_INTERVAL, vcom));
    append_ops(&mut ops, cmd_with(CMD_TCON, tcon));
    ops
}

/// Power-up of the panel.
pub fn init() -> (ops: Vec<BusOp>)
    ensures
        signals(ops@) == init_signals(),
{
    let mut ops = reset();
    append_ops(&mut ops, vec![BusOp::WaitBusy("reset", RESET_TIMEOUT_MS)]);
    ops
}

/// Sends the framebuffer to the panel and refreshes it.
pub fn flush(fb: &Framebuffer) -> (ops: Vec<BusOp>)
    requires
        fb.wf(),
    ensures
        signals(ops@) == flush_signals(fb@),
{
    let bytes = fb.bytes();
    let mut ops = cmd(CMD_WRITE_RAM_NEW);
    append_ops(&mut ops, vec![BusOp::DcHigh, BusOp::CsLow]);
    let ghost head = signals(ops@);
    let mut transfer: Vec<BusOp> = Vec::new();
    let mut r: usize = 0;
    while r < HEIGHT as usize
        invariant
            r <= HEIGHT,
            bytes@ == fb@,
            bytes@.len() == FB_SIZE,
            transfer@.len() == 2 * r,
            signals(transfer@) =~= row_transfer_signals(fb@).take(2 * r as int),
        decreases HEIGHT - r,
    {
        let start = r * ROW_BYTES;
        let row = vstd::slice::slice_to_vec(
            vstd::slice::slice_subrange(bytes.as_slice(), start, start + ROW_BYTES),
        );
        let ghost prev = transfer@;
        assert(row@ == row_bytes(fb@, r as int));
        transfer.push(BusOp::Write(row));
        transfer.push(BusOp::Flush);
        proof {
            let n = 2 * r as int;
            assert(transfer@.len() == n + 2);
            assert forall|k: int| 0 <= k < n + 2 implies signals(transfer@)[k]
                == row_transfer_signals(fb@)[k] by {
                if k < n {
                    assert(transfer@[k] == prev[k]);
                    assert(signals(prev)[k] == row_transfer_signals(fb@).take(n)[k]);
                } else if k == n {
                    assert(transfer@[k] == BusOp::Write(row));
                } else {
                    assert(transfer@[k] == BusOp::Flush);
                }
            }
        }
        r = r + 1;
    }
    assert(row_transfer_signals(fb@).take(2 * HEIGHT as int) =~= row_transfer_signals(fb@));
    append_ops(&mut ops, transfer);
    append_ops(&mut ops, vec![BusOp::CsHigh]);
    append_ops(&mut ops, send_init_sequence());
    append_ops(&mut ops, cmd(CMD_PARTIAL_OUT));
    append_ops(&mut ops, cmd(CMD_DISPLAY_REFRESH));
    append_ops(&mut ops, vec![BusOp::WaitBusy("refresh", REFRESH_TIMEOUT_MS)]);
    assert(signals(ops@) =~= flush_signals(fb@));
    ops
}

/// The initial pause of a busy wait, before the first poll.
pub const BUSY_FIRST_DELAY_MS: u32 = 10;

/// The pause between two polls of a low busy line.
pub const BUSY_POLL_DELAY_MS: u32 = 100;

/// What to do after a poll of the busy line.
pub enum BusyStep {
    /// The line is high: the panel is ready, after this many milliseconds.
    Ready(u32),
    /// The line is low: pause this many milliseconds and poll again.
    Delay(u32),
    /// The line is low: pause this many milliseconds, then give up; the
    /// second number is the time waited in all.
    DelayThenTimeout(u32, u32),
    /// The wait is over already.
    Done,
}

/// A busy wait in progress. The line is LOW while the panel is busy and HIGH
/// when it is ready. The wait starts with a pause of `BUSY_FIRST_DELAY_MS`,
/// then polls the line; while it is low it pauses `BUSY_POLL_DELAY_MS` and
/// counts that time, and it gives up once the count reaches the timeout.
/// A line that cannot be read counts as low.
pub struct BusyWait {
    elapsed: u32,
    timeout_ms: u32,
    done: bool,
}

impl BusyWait {
    /// Milliseconds counted so far.
    pub closed spec fn spec_elapsed(&self) -> u32 {
        self.elapsed
    }

    pub closed spec fn spec_timeout(&self) -> u32 {
        self.timeout_ms
    }

    pub closed spec fn spec_done(&self) -> bool {
        self.done
    }

    /// While a wait is on, its count is below its timeout, or it has just begun.
    pub closed spec fn wf(&self) -> bool {
        &&& self.timeout_ms <= u32::MAX - BUSY_POLL_DELAY_MS
        &&& !self.done ==> (self.elapsed == BUSY_FIRST_DELAY_MS || self.elapsed < self.timeout_ms)
        &&& self.elapsed >= BUSY_FIRST_DELAY_MS
        &&& (self.elapsed - BUSY_FIRST_DELAY_MS) % (BUSY_POLL_DELAY_MS as int) == 0
        &&& self.elapsed < self.timeout_ms + BUSY_POLL_DELAY_MS || self.elapsed
            <= BUSY_FIRST_DELAY_MS + BUSY_POLL_DELAY_MS
    }

    /// A busy wait never counts more than one poll interval past its timeout
    /// (or past its first poll, when the timeout is shorter than the first
    /// pause), and its count is the first pause plus whole poll intervals.
    pub proof fn law_wait_is_bounded(&self)
        requires
            self.wf(),
        ensures
            self.spec_elapsed() < self.spec_timeout() + BUSY_POLL_DELAY_MS || self.spec_elapsed()
                <= BUSY_FIRST_DELAY_MS + BUSY_POLL_DELAY_MS,
            (self.spec_elapsed() - BUSY_FIRST_DELAY_MS) % (BUSY_POLL_DELAY_MS as int) == 0,
            !self.spec_done() ==> self.spec_elapsed() == BUSY_FIRST_DELAY_MS || self.spec_elapsed()
                < self.spec_timeout(),
    {
    }

    /// A wait that has done its first pause and is about to poll.
    pub fn new(timeout_ms: u32) -> (w: BusyWait)
        requires
            timeout_ms <= u32::MAX - BUSY_POLL_DELAY_MS,
        ensures
            w.wf(),
            w.spec_elapsed() == BUSY_FIRST_DELAY_MS,
            w.spec_timeout() == timeout_ms,
            !w.spec_done(),
    {
        BusyWait { elapsed: BUSY_FIRST_DELAY_MS, timeout_ms, done: false }
    }

    /// Milliseconds counted so far.
    pub fn elapsed(&self) -> (e: u32)
        ensures
            e == self.spec_elapsed(),
    {
        self.elapsed
    }

    /// Whether the wait is over.
    pub fn is_done(&self) -> (d: bool)
        ensures
            d == self.spec_done(),
    {
        self.done
    }

    /// The next step, given whether the busy line read low.
    pub fn poll(&mut self, busy_low: bool) -> (step: BusyStep)
        requires
            old(self).wf(),
        ensures
            final(self).wf(),
            final(self).spec_timeout() == old(self).spec_timeout(),
            old(self).spec_done() ==> step is Done && *final(self) == *old(self),
            !old(self).spec_done() && !busy_low ==> step == BusyStep::Ready(old(self).spec_elapsed())
                && final(self).spec_done() && final(self).spec_elapsed() == old(self).spec_elapsed(),
            !old(self).spec_done() && busy_low ==> final(self).spec_elapsed() == old(self).spec_elapsed() + BUSY_POLL_DELAY_MS,
            !old(self).spec_done() && busy_low && final(self).spec_elapsed() < old(self).spec_timeout() ==> step == BusyStep::Delay(BUSY_POLL_DELAY_MS) && !final(self).spec_done(),
            !old(self).spec_done() && busy_low && final(self).spec_elapsed() >= old(self).spec_timeout() ==> step == BusyStep::DelayThenTimeout(
                BUSY_POLL_DELAY_MS,
                final(self).spec_elapsed(),
            ) && final(self).spec_done(),
    {
        if self.done {
            return BusyStep::Done;
        }
        if !busy_low {
            self.done = true;
            return BusyStep::Ready(self.elapsed);
        }
        self.elapsed = self.elapsed + BUSY_POLL_DELAY_MS;
        if self.elapsed >= self.timeout_ms {
            self.done = true;
            BusyStep::DelayThenTimeout(BUSY_POLL_DELAY_MS, self.elapsed)
        } else {
            BusyStep::Delay(BUSY_POLL_DELAY_MS)
        }
    }
}

/// Where the panel's pixels lie: a rectangle at the origin.
pub struct PanelBounds {
    pub x: i32,
    pub y: i32,
    pub width: u32,
    pub height: u32,
}

/// The panel driver: the bus and the pins, and the framebuffer that is drawn
/// into and sent on `flush`.
pub struct Uc8179<SPI, CS, DC, RST, BUSY, DELAY> {
    pub spi: SPI,
    pub cs: CS,
    pub dc: DC,
    pub rst: RST,
    pub busy: BUSY,
    pub delay: DELAY,
    pub fb: Framebuffer,
}

impl<SPI, CS, DC, RST, BUSY, DELAY> Uc8179<SPI, CS, DC, RST, BUSY, DELAY> {
    pub fn new(
        spi: SPI,
        cs: CS,
        dc: DC,
        rst: RST,
        busy: BUSY,
        delay: DELAY,
        fb: Framebuffer,
    ) -> (d: Self)
        ensures
            d.fb == fb,
            d.spi == spi,
            d.cs == cs,
            d.dc == dc,
            d.rst == rst,
            d.busy == busy,
            d.delay == delay,
    {
        Uc8179 { spi, cs, dc, rst, busy, delay, fb }
    }

    /// The framebuffer.
    pub fn framebuffer(&self) -> (fb: &Framebuffer)
        ensures
            *fb == self.fb,
    {
        &self.fb
    }

    /// Paints the framebuffer white.
    pub fn clear_white(&mut self)
        requires
            old(self).fb.wf(),
        ensures
            final(self).fb.wf(),
            final(self).fb@ == Seq::new(FB_SIZE as nat, |i: int| 0xFFu8),
            forall|x: int, y: int| on_panel(x, y) ==> !final(self).fb.black(x, y),
    {
        self.fb.clear_white();
    }

    /// Sets one pixel of the framebuffer; a pixel off the panel is ignored.
    pub fn set_pixel(&mut self, x: u32, y: u32, black: bool)
        requires
            old(self).fb.wf(),
        ensures
            final(self).fb.wf(),
            final(self).fb@ == crate::framebuffer::with_pixel(
                old(self).fb@,
                x as int,
                y as int,
                black,
            ),
    {
        self.fb.set_pixel(x, y, black);
    }

    /// Draws one pixel at signed coordinates (`on` is black); a pixel with a
    /// negative coordinate, or off the panel, is ignored.
    pub fn draw_point(&mut self, x: i32, y: i32, on: bool)
        requires
            old(self).fb.wf(),
        ensures
            final(self).fb.wf(),
            final(self).fb@ == crate::framebuffer::with_pixel(
                old(self).fb@,
                x as int,
                y as int,
                on,
            ),
    {
        self.fb.draw_point(x, y, on);
    }

    /// The operations that send the framebuffer and refresh the panel.
    pub fn flush_ops(&self) -> (ops: Vec<BusOp>)
        requires
            self.fb.wf(),
        ensures
            signals(ops@) == flush_signals(self.fb@),
    {
        flush(&self.fb)
    }

    /// The panel's extent: origin, `WIDTH` by `HEIGHT`.
    pub fn bounding_box(&self) -> (b: PanelBounds)
        ensures
            b.x == 0 && b.y == 0 && b.width == WIDTH && b.height == HEIGHT,
    {
        PanelBounds { x: 0, y: 0, width: WIDTH, height: HEIGHT }
    }
}

} // verus!
