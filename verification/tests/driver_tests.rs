use xiao_epaper::framebuffer::{Framebuffer, FB_SIZE, ROW_BYTES};
use xiao_epaper::uc8179::{
    cmd, cmd_with, data, flush, init, reset, send_init_sequence, BusOp, BusyStep, BusyWait, Uc8179,
};

fn describe(op: &BusOp) -> String {
    match op {
        BusOp::DcLow => "dc0".to_string(),
        BusOp::DcHigh => "dc1".to_string(),
        BusOp::CsLow => "cs0".to_string(),
        BusOp::CsHigh => "cs1".to_string(),
        BusOp::RstLow => "rst0".to_string(),
        BusOp::RstHigh => "rst1".to_string(),
        BusOp::Write(v) => format!("w{:02x?}", v),
        BusOp::Flush => "fl".to_string(),
        BusOp::DelayMs(ms) => format!("d{}", ms),
        BusOp::WaitBusy(label, ms) => format!("busy:{}:{}", label, ms),
    }
}

fn describe_all(ops: &[BusOp]) -> Vec<String> {
    ops.iter().map(describe).collect()
}

#[test]
fn command_byte_framing() {
    assert_eq!(describe_all(&cmd(0x12)), vec!["dc0", "cs0", "w[12]", "fl", "cs1"]);
}

#[test]
fn data_block_framing() {
    assert_eq!(describe_all(&data(vec![1, 2, 3])), vec!["dc1", "cs0", "w[01, 02, 03]", "fl", "cs1"]);
}

#[test]
fn command_with_data() {
    assert_eq!(
        describe_all(&cmd_with(0x50, vec![0x21, 0x07])),
        vec!["dc0", "cs0", "w[50]", "fl", "cs1", "dc1", "cs0", "w[21, 07]", "fl", "cs1"]
    );
}

#[test]
fn reset_and_init_sequences() {
    assert_eq!(describe_all(&reset()), vec!["rst0", "d10", "rst1", "d20"]);
    assert_eq!(describe_all(&init()), vec!["rst0", "d10", "rst1", "d20", "busy:reset:5000"]);
}

#[test]
fn panel_init_sequence() {
    let ops = describe_all(&send_init_sequence());
    let writes: Vec<&String> = ops.iter().filter(|s| s.starts_with('w') || s.starts_with("busy")).collect();
    assert_eq!(
        writes,
        vec![
            "w[01]", "w[07, 07, 3f, 3f]", "w[04]", "busy:power-on:10000", "w[00]", "w[1f]", "w[61]",
            "w[03, 20, 01, e0]", "w[15]", "w[00]", "w[50]", "w[21, 07]", "w[60]", "w[22]",
        ]
    );
    assert_eq!(ops.len(), 5 * 13 + 1);
}

#[test]
fn flush_sends_the_whole_framebuffer() {
    let bytes: Vec<u8> = (0..FB_SIZE).map(|i| (i % 251) as u8).collect();
    let fb = Framebuffer::from_bytes(bytes.clone()).unwrap();
    let ops = flush(&fb);
    let names = describe_all(&ops);
    assert_eq!(&names[..7], &["dc0", "cs0", "w[13]", "fl", "cs1", "dc1", "cs0"]);
    assert_eq!(names[7 + 960], "cs1");
    let mut sent = Vec::new();
    for (i, op) in ops[7..7 + 960].iter().enumerate() {
        match op {
            BusOp::Write(v) => {
                assert_eq!(i % 2, 0);
                assert_eq!(v.len(), ROW_BYTES);
                sent.extend_from_slice(v);
            }
            BusOp::Flush => assert_eq!(i % 2, 1),
            other => panic!("unexpected {}", describe(other)),
        }
    }
    assert_eq!(sent, bytes);
    let tail = &names[names.len() - 11..];
    assert_eq!(tail, &["dc0", "cs0", "w[92]", "fl", "cs1", "dc0", "cs0", "w[12]", "fl", "cs1", "busy:refresh:30000"]);
    assert_eq!(ops.len(), 7 + 960 + 1 + 66 + 10 + 1);
}

#[test]
fn driver_flush_uses_its_framebuffer() {
    let mut d = Uc8179::new((), (), (), (), (), (), Framebuffer::new());
    d.clear_white();
    d.set_pixel(0, 0, true);
    d.draw_point(-3, 2, true);
    let ops = d.flush_ops();
    match &ops[7] {
        BusOp::Write(v) => {
            assert_eq!(v[0], 0x7F);
            assert_eq!(v[1], 0xFF);
        }
        other => panic!("unexpected {}", describe(other)),
    }
    let b = d.bounding_box();
    assert_eq!((b.x, b.y, b.width, b.height), (0, 0, 800, 480));
}

#[test]
fn busy_wait_ready_at_once() {
    let mut w = BusyWait::new(5000);
    assert_eq!(w.elapsed(), 10);
    assert!(matches!(w.poll(false), BusyStep::Ready(10)));
    assert!(w.is_done());
    assert!(matches!(w.poll(true), BusyStep::Done));
}

#[test]
fn busy_wait_ready_after_polls() {
    let mut w = BusyWait::new(5000);
    assert!(matches!(w.poll(true), BusyStep::Delay(100)));
    assert!(matches!(w.poll(true), BusyStep::Delay(100)));
    assert!(matches!(w.poll(false), BusyStep::Ready(210)));
}

#[test]
fn busy_wait_times_out() {
    let mut w = BusyWait::new(5000);
    let mut delays = 0;
    loop {
        match w.poll(true) {
            BusyStep::Delay(100) => delays += 1,
            BusyStep::DelayThenTimeout(100, elapsed) => {
                assert_eq!(elapsed, 5010);
                break;
            }
            _ => panic!("unexpected step"),
        }
    }
    assert_eq!(delays, 49);
    assert!(w.is_done());
}

#[test]
fn busy_wait_short_timeout() {
    let mut w = BusyWait::new(5);
    assert!(matches!(w.poll(true), BusyStep::DelayThenTimeout(100, 110)));
}
