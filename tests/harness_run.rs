use blog_os::harness::{
    test_runner, FatalStrategy, HarnessAction, HarnessEvent, Phase, QemuExitCode, TestCase,
    TestHarness, Testable,
};
use blog_os::vga_buffer::{Buffer, Color, ColorCode, Writer, BUFFER_HEIGHT};
use std::cell::RefCell;
use volatile::Volatile;

fn ram_writer() -> Writer {
    let buffer = Box::leak(Box::new(Buffer {
        chars: core::array::from_fn(|_| core::array::from_fn(|_| Volatile::new(0x0e20))),
    }));
    Writer::new(buffer, ColorCode::new(Color::Yellow, Color::Black))
}

fn row_text(w: &Writer, row: usize) -> String {
    let mut s = String::new();
    for col in 0..80 {
        s.push(w.read_char(row, col).ascii_character as char);
    }
    s.trim_end().to_string()
}

struct Logged<'a> {
    tag: &'static str,
    log: &'a RefCell<Vec<&'static str>>,
}

impl<'a> Testable for Logged<'a> {
    fn run(&self) {
        self.log.borrow_mut().push(self.tag);
    }
}

fn case<'a>(name: &'static str, log: &'a RefCell<Vec<&'static str>>) -> TestCase<Logged<'a>> {
    TestCase { name, case: Logged { tag: name, log } }
}

#[test]
fn exit_codes_are_distinct_and_map_to_host_status() {
    assert_eq!(QemuExitCode::Success.value(), 0x10);
    assert_eq!(QemuExitCode::Failed.value(), 0x11);
    assert_ne!(QemuExitCode::Success.value(), QemuExitCode::Failed.value());
    assert_eq!(QemuExitCode::Success.host_status(), 0x21);
    assert_eq!(QemuExitCode::Failed.host_status(), 0x23);
}

#[test]
fn fatal_strategies() {
    assert_eq!(FatalStrategy::Halt.exit_code(), None);
    assert_eq!(FatalStrategy::SignalFailure.exit_code(), Some(QemuExitCode::Failed));
}

#[test]
fn second_of_three_fatal_stops_the_run() {
    let mut h = TestHarness::new(3);
    assert_eq!(
        h.step(HarnessEvent::Start),
        vec![HarnessAction::Announce(3), HarnessAction::Run(0)]
    );
    assert_eq!(
        h.step(HarnessEvent::Passed),
        vec![HarnessAction::ReportOk(0), HarnessAction::Run(1)]
    );
    assert_eq!(
        h.step(HarnessEvent::Fatal),
        vec![HarnessAction::ReportFailed(1), HarnessAction::Exit(QemuExitCode::Failed)]
    );
    assert_eq!(h.phase, Phase::Finished);
    assert_eq!(h.step(HarnessEvent::Passed), vec![]);
    assert_eq!(h.step(HarnessEvent::Start), vec![]);
}

#[test]
fn all_passing_cases_signal_success_once() {
    let mut h = TestHarness::new(2);
    let mut all = h.step(HarnessEvent::Start);
    all.extend(h.step(HarnessEvent::Passed));
    all.extend(h.step(HarnessEvent::Passed));
    all.extend(h.step(HarnessEvent::Passed));
    assert_eq!(
        all,
        vec![
            HarnessAction::Announce(2),
            HarnessAction::Run(0),
            HarnessAction::ReportOk(0),
            HarnessAction::Run(1),
            HarnessAction::ReportOk(1),
            HarnessAction::Exit(QemuExitCode::Success),
        ]
    );
}

#[test]
fn no_cases_signal_success_at_once() {
    let mut h = TestHarness::new(0);
    assert_eq!(
        h.step(HarnessEvent::Start),
        vec![HarnessAction::Announce(0), HarnessAction::Exit(QemuExitCode::Success)]
    );
}

#[test]
fn events_out_of_order_are_ignored() {
    let mut h = TestHarness::new(2);
    assert_eq!(h.step(HarnessEvent::Passed), vec![]);
    assert_eq!(h.step(HarnessEvent::Fatal), vec![]);
    assert_eq!(h.phase, Phase::Ready);
}

#[test]
fn runner_reports_each_case_in_order() {
    let log = RefCell::new(Vec::new());
    let cases = [case("first", &log), case("second", &log), case("third", &log)];
    let mut w = ram_writer();
    let code = test_runner(&cases, &mut w);
    assert_eq!(code, QemuExitCode::Success);
    assert_eq!(*log.borrow(), vec!["first", "second", "third"]);
    let bottom = BUFFER_HEIGHT - 1;
    assert_eq!(row_text(&w, bottom - 4), "Running 3 tests");
    assert_eq!(row_text(&w, bottom - 3), "first... [ok]");
    assert_eq!(row_text(&w, bottom - 2), "second... [ok]");
    assert_eq!(row_text(&w, bottom - 1), "third... [ok]");
    assert_eq!(row_text(&w, bottom), "");
}

#[test]
fn runner_with_no_cases() {
    let cases: [TestCase<Logged>; 0] = [];
    let mut w = ram_writer();
    assert_eq!(test_runner(&cases, &mut w), QemuExitCode::Success);
    assert_eq!(row_text(&w, BUFFER_HEIGHT - 2), "Running 0 tests");
}
