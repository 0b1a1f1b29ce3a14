//! Self-test harness: exit codes for the host, and the decisions of a test
//! run, case by case.
use vstd::prelude::*;
use vstd::string::StringSliceAdditionalSpecFns;
use crate::vga_buffer::{decimal, lemma_write_bytes_append, Writer};

verus! {

/// The value written to the host's exit port.
#[derive(Clone, Copy, Debug, PartialEq, Eq, Structural)]
pub enum QemuExitCode {
    Success,
    Failed,
}

impl QemuExitCode {
    pub open spec fn spec_value(self) -> u32 {
        match self {
            QemuExitCode::Success => 0x10,
            QemuExitCode::Failed => 0x11,
        }
    }

    /// The word written to the exit port.
    pub fn value(self) -> (r: u32)
        ensures
            r == self.spec_value(),
    {
        match self {
            QemuExitCode::Success => 0x10,
            QemuExitCode::Failed => 0x11,
        }
    }

    /// The host's exit status: the word shifted left by one, with the low bit set.
    pub open spec fn spec_host_status(self) -> u32 {
        ((self.spec_value() << 1u32) | 1u32) as u32
    }

    pub fn host_status(self) -> (r: u32)
        ensures
            r == self.spec_host_status(),
    {
        (self.value() << 1) | 1
    }
}

/// The two exit codes differ, and the host sees 0x21 for success and 0x23 for
/// failure.
pub proof fn lemma_exit_codes()
    ensures
        QemuExitCode::Success.spec_value() != QemuExitCode::Failed.spec_value(),
        QemuExitCode::Success.spec_host_status() == 0x21,
        QemuExitCode::Failed.spec_host_status() == 0x23,
{
    assert(((0x10u32 << 1u32) | 1u32) == 0x21u32) by (bit_vector);
    assert(((0x11u32 << 1u32) | 1u32) == 0x23u32) by (bit_vector);
}

/// What to do on an unrecoverable condition, chosen once for the build.
#[derive(Clone, Copy, Debug, PartialEq, Eq, Structural)]
pub enum FatalStrategy {
    /// Print the diagnostic and idle forever.
    Halt,
    /// Print a failure marker and the diagnostic, signal failure to the host,
    /// then idle forever.
    SignalFailure,
}

impl FatalStrategy {
    /// The exit code to signal, if any.
    pub fn exit_code(self) -> (r: Option<QemuExitCode>)
        ensures
            self == FatalStrategy::Halt ==> r == None::<QemuExitCode>,
            self == FatalStrategy::SignalFailure ==> r == Some(QemuExitCode::Failed),
    {
        match self {
            FatalStrategy::Halt => None,
            FatalStrategy::SignalFailure => Some(QemuExitCode::Failed),
        }
    }
}

/// What the driver of a test run reports back after each action.
#[derive(Clone, Copy, Debug, PartialEq, Eq, Structural)]
pub enum HarnessEvent {
    /// The run begins.
    Start,
    /// The case that was started returned normally.
    Passed,
    /// The case that was started hit a fatal condition.
    Fatal,
}

/// What the driver of a test run is to do next, in order.
#[derive(Clone, Copy, Debug, PartialEq, Eq, Structural)]
pub enum HarnessAction {
    /// Print how many cases there are.
    Announce(usize),
    /// Print the name of case `i`, then run it.
    Run(usize),
    /// Print the pass marker of case `i`.
    ReportOk(usize),
    /// Print the failure marker of case `i`.
    ReportFailed(usize),
    /// Signal the host and stop.
    Exit(QemuExitCode),
}

#[derive(Clone, Copy, Debug, PartialEq, Eq, Structural)]
pub enum Phase {
    Ready,
    Running,
    Finished,
}

/// The state of a run over `total` registered cases, run in registration order.
#[derive(Clone, Copy, Debug, PartialEq, Eq, Structural)]
pub struct TestHarness {
    pub total: usize,
    /// The case that runs now, while `phase` is `Running`.
    pub current: usize,
    pub phase: Phase,
}

impl TestHarness {
    /// While running, the current case is a registered one.
    pub open spec fn wf(self) -> bool {
        self.phase == Phase::Running ==> self.current < self.total
    }

    /// The next state and the actions, for one event.
    pub open spec fn spec_step(self, event: HarnessEvent) -> (TestHarness, Seq<HarnessAction>) {
        match (self.phase, event) {
            (Phase::Ready, HarnessEvent::Start) => if self.total == 0 {
                (
                    TestHarness { phase: Phase::Finished, ..self },
                    seq![HarnessAction::Announce(0), HarnessAction::Exit(QemuExitCode::Success)],
                )
            } else {
                (
                    TestHarness { current: 0, phase: Phase::Running, ..self },
                    seq![HarnessAction::Announce(self.total), HarnessAction::Run(0)],
                )
            },
            (Phase::Running, HarnessEvent::Passed) => if self.current + 1 < self.total {
                (
                    TestHarness { current: (self.current + 1) as usize, ..self },
                    seq![
                        HarnessAction::ReportOk(self.current),
                        HarnessAction::Run((self.current + 1) as usize),
                    ],
                )
            } else {
                (
                    TestHarness { phase: Phase::Finished, ..self },
                    seq![
                        HarnessAction::ReportOk(self.current),
                        HarnessAction::Exit(QemuExitCode::Success),
                    ],
                )
            },
            (Phase::Running, HarnessEvent::Fatal) => (
                TestHarness { phase: Phase::Finished, ..self },
                seq![
                    HarnessAction::ReportFailed(self.current),
                    HarnessAction::Exit(QemuExitCode::Failed),
                ],
            ),
            _ => (self, Seq::empty()),
        }
    }

    /// The state and all actions after a sequence of events.
    pub open spec fn spec_run(self, events: Seq<HarnessEvent>) -> (TestHarness, Seq<HarnessAction>)
        decreases events.len(),
    {
        if events.len() == 0 {
            (self, Seq::empty())
        } else {
            let (h, acts) = self.spec_run(events.drop_last());
            let (h2, more) = h.spec_step(events.last());
            (h2, acts + more)
        }
    }

    pub open spec fn new_spec(total: usize) -> TestHarness {
        TestHarness { total, current: 0, phase: Phase::Ready }
    }

    pub fn new(total: usize) -> (r: TestHarness)
        ensures
            r == TestHarness::new_spec(total),
    {
        TestHarness { total, current: 0, phase: Phase::Ready }
    }

    /// Takes one event and gives the actions to perform, in order. Events that
    /// do not fit the state (a second start, anything after the end) change
    /// nothing and ask for nothing.
    pub fn step(&mut self, event: HarnessEvent) -> (r: Vec<HarnessAction>)
        requires
            old(self).wf(),
        ensures
            final(self).wf(),
            (*final(self), r@) == old(self).spec_step(event),
    {
        let mut acts: Vec<HarnessAction> = Vec::new();
        match (self.phase, event) {
            (Phase::Ready, HarnessEvent::Start) => {
                if self.total == 0 {
                    self.phase = Phase::Finished;
                    acts.push(HarnessAction::Announce(0));
                    acts.push(HarnessAction::Exit(QemuExitCode::Success));
                } else {
                    self.current = 0;
                    self.phase = Phase::Running;
                    acts.push(HarnessAction::Announce(self.total));
                    acts.push(HarnessAction::Run(0));
                }
            },
            (Phase::Running, HarnessEvent::Passed) => {
                acts.push(HarnessAction::ReportOk(self.current));
                if self.current + 1 < self.total {
                    self.current = self.current + 1;
                    acts.push(HarnessAction::Run(self.current));
                } else {
                    self.phase = Phase::Finished;
                    acts.push(HarnessAction::Exit(QemuExitCode::Success));
                }
            },
            (Phase::Running, HarnessEvent::Fatal) => {
                self.phase = Phase::Finished;
                acts.push(HarnessAction::ReportFailed(self.current));
                acts.push(HarnessAction::Exit(QemuExitCode::Failed));
            },
            _ => {},
        }
        assert(acts@ =~= old(self).spec_step(event).1);
        acts
    }
}

/// A unit of self-test work: it either returns (the case passed) or never
/// comes back (a fatal condition).
pub trait Testable {
    fn run(&self);
}

/// A registered self-test: the name to report, bound to its work.
pub struct TestCase<T> {
    pub name: &'static str,
    pub case: T,
}

/// The names of the registered cases, in registration order.
pub open spec fn case_names<T>(tests: Seq<TestCase<T>>) -> Seq<Seq<u8>> {
    Seq::new(tests.len(), |i: int| tests[i].name.spec_bytes())
}

/// What is printed for one action; `names` gives the name of each case.
pub open spec fn action_text(a: HarnessAction, names: Seq<Seq<u8>>) -> Seq<u8> {
    match a {
        HarnessAction::Announce(n) => "Running ".spec_bytes() + decimal(n as nat)
            + " tests\n".spec_bytes(),
        HarnessAction::Run(i) => names[i as int] + "... ".spec_bytes(),
        HarnessAction::ReportOk(_) => "[ok]\n".spec_bytes(),
        HarnessAction::ReportFailed(_) => "[failed]\n".spec_bytes(),
        HarnessAction::Exit(_) => Seq::empty(),
    }
}

/// What is printed for a sequence of actions, one after the other.
pub open spec fn report_text(acts: Seq<HarnessAction>, names: Seq<Seq<u8>>) -> Seq<u8>
    decreases acts.len(),
{
    if acts.len() == 0 {
        Seq::empty()
    } else {
        report_text(acts.drop_last(), names) + action_text(acts.last(), names)
    }
}

/// The code of the last exit action, if there is one.
pub open spec fn exit_of(acts: Seq<HarnessAction>) -> Option<QemuExitCode>
    decreases acts.len(),
{
    if acts.len() == 0 {
        None
    } else {
        match acts.last() {
            HarnessAction::Exit(code) => Some(code),
            _ => exit_of(acts.drop_last()),
        }
    }
}

/// The lines for the cases that passed, with their names in order.
pub open spec fn passed_lines(names: Seq<Seq<u8>>) -> Seq<u8>
    decreases names.len(),
{
    if names.len() == 0 {
        Seq::empty()
    } else {
        passed_lines(names.drop_last()) + names.last() + "... ".spec_bytes() + "[ok]\n".spec_bytes()
    }
}

/// What a run over `total` cases that all pass prints: the count, then each
/// name with its pass marker.
pub open spec fn run_report(total: nat, names: Seq<Seq<u8>>) -> Seq<u8> {
    "Running ".spec_bytes() + decimal(total) + " tests\n".spec_bytes() + passed_lines(names)
}

proof fn lemma_report_text_append(a: Seq<HarnessAction>, b: Seq<HarnessAction>, names: Seq<Seq<u8>>)
    ensures
        report_text(a + b, names) == report_text(a, names) + report_text(b, names),
    decreases b.len(),
{
    if b.len() == 0 {
        assert(a + b =~= a);
        assert(report_text(a, names) + Seq::<u8>::empty() =~= report_text(a, names));
    } else {
        assert((a + b).drop_last() =~= a + b.drop_last());
        assert((a + b).last() == b.last());
        lemma_report_text_append(a, b.drop_last(), names);
        assert(report_text(a, names) + report_text(b.drop_last(), names) + action_text(b.last(), names)
            =~= report_text(a, names) + (report_text(b.drop_last(), names) + action_text(b.last(), names)));
    }
}

proof fn lemma_exit_of_pair(a: HarnessAction, b: HarnessAction)
    ensures
        exit_of(seq![a, b]) == match b {
            HarnessAction::Exit(c) => Some(c),
            _ => match a {
                HarnessAction::Exit(c) => Some(c),
                _ => None,
            },
        },
{
    reveal_with_fuel(exit_of, 3);
    assert(seq![a, b].drop_last() =~= seq![a]);
    assert(seq![a].drop_last() =~= Seq::<HarnessAction>::empty());
}

proof fn lemma_report_text_single(a: HarnessAction, names: Seq<Seq<u8>>)
    ensures
        report_text(seq![a], names) == action_text(a, names),
{
    reveal_with_fuel(report_text, 2);
    assert(seq![a].drop_last() =~= Seq::<HarnessAction>::empty());
    assert(seq![a].last() == a);
    assert(Seq::<u8>::empty() + action_text(a, names) =~= action_text(a, names));
}

/// The text of an announcement followed by `k` passed cases is the count line
/// followed by the first `k` pass lines.
proof fn lemma_passed_text(total: usize, k: nat, names: Seq<Seq<u8>>)
    requires
        k <= names.len(),
        k <= usize::MAX,
    ensures
        report_text(seq![HarnessAction::Announce(total)] + passed_cases(k), names) == "Running ".spec_bytes()
            + decimal(total as nat) + " tests\n".spec_bytes() + passed_lines(names.take(k as int)),
    decreases k,
{
    let head = seq![HarnessAction::Announce(total)];
    let count_line = "Running ".spec_bytes() + decimal(total as nat) + " tests\n".spec_bytes();
    if k == 0 {
        assert(head + passed_cases(0) =~= head);
        lemma_report_text_single(HarnessAction::Announce(total), names);
        assert(names.take(0) =~= Seq::<Seq<u8>>::empty());
        assert(passed_lines(names.take(0)) == Seq::<u8>::empty());
        assert(count_line + Seq::<u8>::empty() =~= count_line);
    } else {
        let k1 = (k - 1) as nat;
        lemma_passed_text(total, k1, names);
        let pair = seq![HarnessAction::Run(k1 as usize), HarnessAction::ReportOk(k1 as usize)];
        assert(head + passed_cases(k) =~= (head + passed_cases(k1)) + pair);
        lemma_report_text_append(head + passed_cases(k1), pair, names);
        assert(pair.drop_last() =~= seq![HarnessAction::Run(k1 as usize)]);
        assert(pair.last() == HarnessAction::ReportOk(k1 as usize));
        lemma_report_text_single(HarnessAction::Run(k1 as usize), names);
        assert(report_text(pair, names) == report_text(pair.drop_last(), names) + action_text(
            pair.last(),
            names,
        ));
        assert(report_text(pair, names) =~= names[k1 as int] + "... ".spec_bytes() + "[ok]\n".spec_bytes());
        assert(names.take(k as int).drop_last() =~= names.take(k1 as int));
        assert(count_line + passed_lines(names.take(k1 as int)) + (names[k1 as int] + "... ".spec_bytes()
            + "[ok]\n".spec_bytes()) =~= count_line + passed_lines(names.take(k as int)));
    }
}

/// Performs the actions in order through `out`: prints what each asks for and
/// runs the cases it names. Gives the code of the exit action, if any.
fn perform<T: Testable>(acts: &Vec<HarnessAction>, tests: &[TestCase<T>], out: &mut Writer) -> (r: Option<
    QemuExitCode,
>)
    requires
        forall|j: int|
            0 <= j < acts@.len() ==> match #[trigger] acts@[j] {
                HarnessAction::Run(i) => i < tests@.len(),
                _ => true,
            },
    ensures
        final(out)@ == old(out)@.write_bytes(report_text(acts@, case_names(tests@))),
        r == exit_of(acts@),
{
    let ghost names = case_names(tests@);
    let ghost start = out@;
    let mut result: Option<QemuExitCode> = None;
    let mut j: usize = 0;
    while j < acts.len()
        invariant
            j <= acts@.len(),
            names == case_names(tests@),
            forall|j: int|
                0 <= j < acts@.len() ==> match #[trigger] acts@[j] {
                    HarnessAction::Run(i) => i < tests@.len(),
                    _ => true,
                },
            out@ == start.write_bytes(report_text(acts@.take(j as int), names)),
            result == exit_of(acts@.take(j as int)),
        decreases acts@.len() - j,
    {
        let ghost before = out@;
        let action = acts[j];
        match action {
            HarnessAction::Announce(n) => {
                out.write_string("Running ");
                out.write_decimal(n);
                out.write_string(" tests\n");
                proof {
                    lemma_write_bytes_append(before, "Running ".spec_bytes(), decimal(n as nat));
                    lemma_write_bytes_append(
                        before,
                        "Running ".spec_bytes() + decimal(n as nat),
                        " tests\n".spec_bytes(),
                    );
                }
            },
            HarnessAction::Run(i) => {
                let test = &tests[i];
                out.write_string(test.name);
                out.write_string("... ");
                test.case.run();
                proof {
                    lemma_write_bytes_append(before, names[i as int], "... ".spec_bytes());
                }
            },
            HarnessAction::ReportOk(_) => {
                out.write_string("[ok]\n");
            },
            HarnessAction::ReportFailed(_) => {
                out.write_string("[failed]\n");
            },
            HarnessAction::Exit(code) => {
                result = Some(code);
                assert(before.write_bytes(Seq::empty()) == before);
            },
        }
        proof {
            let prev = report_text(acts@.take(j as int), names);
            assert(acts@.take(j + 1).drop_last() =~= acts@.take(j as int));
            assert(acts@.take(j + 1).last() == action);
            lemma_write_bytes_append(start, prev, action_text(action, names));
        }
        j += 1;
    }
    assert(acts@.take(j as int) =~= acts@);
    result
}

/// Runs the registered cases through a `TestHarness`, printing through `out`
/// what its actions ask for: the count, then for each case its name before it
/// runs and the pass marker after it returns. A case that never returns ends
/// the run there (see `FatalStrategy`). When every case returns, the printed
/// text is that of the harness's whole run, and the result is the code that
/// signals success.
pub fn test_runner<T: Testable>(tests: &[TestCase<T>], out: &mut Writer) -> (r: QemuExitCode)
    ensures
        r == QemuExitCode::Success,
        final(out)@ == old(out)@.write_bytes(
            report_text(
                TestHarness::new_spec(tests@.len() as usize).spec_run(
                    passing_events(tests@.len() as nat),
                ).1,
                case_names(tests@),
            ),
        ),
        final(out)@ == old(out)@.write_bytes(run_report(tests@.len() as nat, case_names(tests@))),
{
    let n = tests.len();
    let ghost names = case_names(tests@);
    let ghost start = out@;
    let mut harness = TestHarness::new(n);
    let acts = harness.step(HarnessEvent::Start);
    proof {
        let evs = passing_events(0);
        assert(evs =~= seq![HarnessEvent::Start]);
        assert(evs.drop_last() =~= Seq::<HarnessEvent>::empty());
        assert(TestHarness::new_spec(n).spec_run(evs.drop_last()) == (
            TestHarness::new_spec(n),
            Seq::<HarnessAction>::empty(),
        ));
        assert(evs.last() == HarnessEvent::Start);
        assert(Seq::<HarnessAction>::empty() + acts@ =~= acts@);
        lemma_exit_of_pair(acts@[0], acts@[1]);
        assert(acts@ =~= seq![acts@[0], acts@[1]]);
    }
    let mut outcome = perform(&acts, tests, out);
    let ghost mut trace = acts@;
    let mut i: usize = 0;
    while outcome.is_none()
        invariant
            n == tests@.len(),
            names == case_names(tests@),
            i <= n,
            (harness, trace) == TestHarness::new_spec(n).spec_run(passing_events(i as nat)),
            i < n ==> outcome is None && harness == (TestHarness {
                total: n,
                current: i,
                phase: Phase::Running,
            }),
            i == n ==> outcome == Some(QemuExitCode::Success),
            out@ == start.write_bytes(report_text(trace, names)),
        decreases n - i,
    {
        let acts = harness.step(HarnessEvent::Passed);
        proof {
            lemma_exit_of_pair(acts@[0], acts@[1]);
            assert(acts@ =~= seq![acts@[0], acts@[1]]);
        }
        let o = perform(&acts, tests, out);
        proof {
            let evs = passing_events((i + 1) as nat);
            assert(evs.drop_last() =~= passing_events(i as nat));
            assert(evs.last() == HarnessEvent::Passed);
            lemma_report_text_append(trace, acts@, names);
            lemma_write_bytes_append(start, report_text(trace, names), report_text(acts@, names));
            trace = trace + acts@;
        }
        outcome = o;
        i += 1;
    }
    proof {
        lemma_all_cases_pass(n);
        lemma_passed_text(n, n as nat, names);
        let all = seq![HarnessAction::Announce(n)] + passed_cases(n as nat);
        lemma_report_text_append(all, seq![HarnessAction::Exit(QemuExitCode::Success)], names);
        let ex = seq![HarnessAction::Exit(QemuExitCode::Success)];
        lemma_report_text_single(HarnessAction::Exit(QemuExitCode::Success), names);
        assert(names.take(n as int) =~= names);
        assert(report_text(all, names) + Seq::<u8>::empty() =~= report_text(all, names));
    }
    match outcome {
        Some(code) => code,
        None => QemuExitCode::Failed,
    }
}

/// A start followed by `k` passes.
pub open spec fn passing_events(k: nat) -> Seq<HarnessEvent> {
    seq![HarnessEvent::Start] + Seq::new(k, |i: int| HarnessEvent::Passed)
}

/// Cases `0..k`, each run and then reported as passed.
pub open spec fn passed_cases(k: nat) -> Seq<HarnessAction> {
    Seq::new(
        2 * k,
        |j: int|
            if j % 2 == 0 {
                HarnessAction::Run((j / 2) as usize)
            } else {
                HarnessAction::ReportOk((j / 2) as usize)
            },
    )
}

proof fn lemma_run_passing_prefix(total: usize, k: nat)
    requires
        k < total,
    ensures
        TestHarness::new_spec(total).spec_run(passing_events(k)) == (
            TestHarness { total, current: k as usize, phase: Phase::Running },
            seq![HarnessAction::Announce(total)] + passed_cases(k) + seq![HarnessAction::Run(k as usize)],
        ),
    decreases k,
{
    let start = TestHarness::new_spec(total);
    let evs = passing_events(k);
    if k == 0 {
        assert(evs.drop_last() =~= Seq::<HarnessEvent>::empty());
        assert(start.spec_run(evs.drop_last()) == (start, Seq::<HarnessAction>::empty()));
        assert(evs.last() == HarnessEvent::Start);
        assert(Seq::<HarnessAction>::empty() + start.spec_step(HarnessEvent::Start).1 =~= seq![
            HarnessAction::Announce(total)] + passed_cases(0) + seq![HarnessAction::Run(0)]);
    } else {
        assert(evs.drop_last() =~= passing_events((k - 1) as nat));
        assert(evs.last() == HarnessEvent::Passed);
        lemma_run_passing_prefix(total, (k - 1) as nat);
        let (h, acts) = start.spec_run(evs.drop_last());
        let (h2, more) = h.spec_step(HarnessEvent::Passed);
        assert(acts + more =~= seq![HarnessAction::Announce(total)] + passed_cases(k) + seq![
            HarnessAction::Run(k as usize)]);
    }
}

proof fn lemma_run_append(h: TestHarness, a: Seq<HarnessEvent>, b: Seq<HarnessEvent>)
    ensures
        h.spec_run(a + b) == ({
            let (h1, x) = h.spec_run(a);
            let (h2, y) = h1.spec_run(b);
            (h2, x + y)
        }),
    decreases b.len(),
{
    if b.len() == 0 {
        assert(a + b =~= a);
        let (h1, x) = h.spec_run(a);
        assert(x + Seq::<HarnessAction>::empty() =~= x);
    } else {
        assert((a + b).drop_last() =~= a + b.drop_last());
        assert((a + b).last() == b.last());
        lemma_run_append(h, a, b.drop_last());
        let (h1, x) = h.spec_run(a);
        let (hm, ym) = h1.spec_run(b.drop_last());
        let (h2, z) = hm.spec_step(b.last());
        assert(x + ym + z =~= x + (ym + z));
    }
}

proof fn lemma_run_after_finish(h: TestHarness, events: Seq<HarnessEvent>)
    requires
        h.phase == Phase::Finished,
    ensures
        h.spec_run(events) == (h, Seq::<HarnessAction>::empty()),
    decreases events.len(),
{
    if events.len() > 0 {
        lemma_run_after_finish(h, events.drop_last());
        assert(Seq::<HarnessAction>::empty() + Seq::<HarnessAction>::empty() =~= Seq::<
            HarnessAction,
        >::empty());
    }
}

/// When every case passes, the run announces the count, then runs and reports
/// each case in registration order, and signals success exactly once, at the
/// very end.
pub proof fn lemma_all_cases_pass(total: usize)
    ensures
        ({
            let (h, acts) = TestHarness::new_spec(total).spec_run(passing_events(total as nat));
            &&& h.phase == Phase::Finished
            &&& acts == seq![HarnessAction::Announce(total)] + passed_cases(total as nat) + seq![
                HarnessAction::Exit(QemuExitCode::Success)]
            &&& forall|j: int| 0 <= j < acts.len() - 1 ==> !(#[trigger] acts[j] is Exit)
        }),
{
    let start = TestHarness::new_spec(total);
    let evs = passing_events(total as nat);
    let expected = seq![HarnessAction::Announce(total)] + passed_cases(total as nat) + seq![
        HarnessAction::Exit(QemuExitCode::Success)];
    if total == 0 {
        assert(evs.drop_last() =~= Seq::<HarnessEvent>::empty());
        assert(start.spec_run(evs.drop_last()) == (start, Seq::<HarnessAction>::empty()));
        assert(evs.last() == HarnessEvent::Start);
        assert(Seq::<HarnessAction>::empty() + start.spec_step(HarnessEvent::Start).1 =~= expected);
    } else {
        let k = (total - 1) as nat;
        assert(evs.drop_last() =~= passing_events(k));
        assert(evs.last() == HarnessEvent::Passed);
        lemma_run_passing_prefix(total, k);
        let (h, acts) = start.spec_run(evs.drop_last());
        let (h2, more) = h.spec_step(HarnessEvent::Passed);
        assert(acts + more =~= expected);
    }
    assert forall|j: int| 0 <= j < expected.len() - 1 implies !(#[trigger] expected[j] is Exit) by {
        if j > 0 {
            assert(expected[j] == passed_cases(total as nat)[j - 1]);
        }
    }
}

/// When case `k` is the first to hit a fatal condition, the cases before it
/// run and pass in order, case `k` runs and is reported failed, failure is
/// signalled, and nothing runs after it, whatever events follow.
pub proof fn lemma_first_fatal_stops(total: usize, k: usize, rest: Seq<HarnessEvent>)
    requires
        k < total,
    ensures
        ({
            let events = passing_events(k as nat) + seq![HarnessEvent::Fatal] + rest;
            let (h, acts) = TestHarness::new_spec(total).spec_run(events);
            &&& h.phase == Phase::Finished
            &&& acts == seq![HarnessAction::Announce(total)] + passed_cases(k as nat) + seq![
                HarnessAction::Run(k),
                HarnessAction::ReportFailed(k),
                HarnessAction::Exit(QemuExitCode::Failed),
            ]
        }),
{
    let start = TestHarness::new_spec(total);
    let pre = passing_events(k as nat) + seq![HarnessEvent::Fatal];
    lemma_run_passing_prefix(total, k as nat);
    assert(pre.drop_last() =~= passing_events(k as nat));
    let (h, acts) = start.spec_run(pre.drop_last());
    let (h2, more) = h.spec_step(HarnessEvent::Fatal);
    lemma_run_append(start, pre, rest);
    lemma_run_after_finish(h2, rest);
    assert(acts + more + Seq::<HarnessAction>::empty() =~= seq![HarnessAction::Announce(total)]
        + passed_cases(k as nat) + seq![
        HarnessAction::Run(k),
        HarnessAction::ReportFailed(k),
        HarnessAction::Exit(QemuExitCode::Failed),
    ]);
}

} // verus!
