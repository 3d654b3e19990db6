use buitenzorg::ai;
use buitenzorg::interrupts::TickCounter;
use buitenzorg::ipc::Channel;
use buitenzorg::keyboard::{self, KeyQueue};
use buitenzorg::net::{self, Stack};
use buitenzorg::script::{self, Lang};
use buitenzorg::vmm::Vmm;

#[test]
fn internet_checksum_of_an_ipv4_header() {
    let header = [
        0x45u8, 0x00, 0x00, 0x73, 0x00, 0x00, 0x40, 0x00, 0x40, 0x11, 0x00, 0x00, 0xc0, 0xa8, 0x00, 0x01, 0xc0, 0xa8,
        0x00, 0xc7,
    ];
    assert_eq!(net::checksum16(&header), 0xb861);
    let mut with = header;
    with[10] = 0xb8;
    with[11] = 0x61;
    assert_eq!(net::checksum16(&with), 0);
    assert_eq!(net::checksum16(&[0x01]), 0xFEFF);
}

#[test]
fn ping_over_loopback_is_answered() {
    let mut s = Stack::init([10, 0, 2, 15]);
    assert_eq!(s.counters(), (0, 0));
    s.send_ping([10, 0, 2, 15], 0x42, 1);
    let handled = s.poll();
    assert_eq!(handled, 2);
    assert_eq!(s.counters(), (1, 0));
    assert_eq!(s.poll(), 0);
}

#[test]
fn nano_guest_runs_and_snapshots_restore() {
    let mut vmm = Vmm::new();
    let mut ticks = TickCounter::new();
    ticks.tick();
    let (console, restored) = vmm.selftest(&ticks);
    assert!(restored);
    assert!(console.starts_with("NanoOS v0.1 (guest) boot di atas Buitenzorg VMM\n"));
    assert!(console.contains("  hitung 1..10 = 55"));
    assert!(console.ends_with("NanoOS halted. sampai jumpa.\n"));
    assert!(vmm.start("tidak-ada", &ticks).is_err());
}

#[test]
fn polyglot_demos_print_fibonacci() {
    let js = script::run(Lang::Js, script::demo_source(Lang::Js));
    assert_eq!(js.error, None);
    assert_eq!(js.lines, vec!["js: fib(10) = 55", "js: sum fib(0..9) = 88"]);
    let ts = script::run(Lang::Ts, script::demo_source(Lang::Ts));
    assert_eq!(ts.lines, vec!["ts: fib(10) = 55", "ts: sum fib(0..9) = 88"]);
    let py = script::run(Lang::Python, script::demo_source(Lang::Python));
    assert_eq!(py.lines, vec!["py: fib(10) = 55", "py: sum fib(0..9) = 88"]);
}

#[test]
fn script_errors_are_reported() {
    let bad = script::run(Lang::Js, "let x = ;");
    assert!(bad.lines.is_empty());
    assert!(bad.error.is_some());
    let ok = script::run(Lang::Python, "x = 6\nprint(\"x = \" + str(x * 7))\n");
    assert_eq!(ok.lines, vec!["x = 42"]);
}

#[test]
fn local_model_completes_deterministically() {
    let a = ai::llm_complete("kernel ", 20);
    let b = ai::llm_complete("kernel ", 20);
    assert_eq!(a, b);
    assert!(a.starts_with("kernel "));
    assert_eq!(a.chars().count(), 27);
    let (text, edges, _sum) = ai::selftest();
    assert!(text.starts_with("kernel "));
    assert!(edges > 0);
}

#[test]
fn channel_is_first_in_first_out() {
    let mut c = Channel::new();
    assert!(c.try_send(17));
    assert!(c.try_send(19));
    assert_eq!(c.try_recv(), Some(17));
    assert_eq!(c.try_recv(), Some(19));
    assert_eq!(c.try_recv(), None);
    let mut k = KeyQueue::new();
    keyboard::push(&mut k, 'a');
    keyboard::push(&mut k, 'b');
    assert_eq!(keyboard::pop(&mut k), Some('a'));
    assert_eq!(keyboard::pop(&mut k), Some('b'));
    assert_eq!(keyboard::pop(&mut k), None);
}
