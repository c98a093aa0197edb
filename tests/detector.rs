use tectonic_io::detector::{job_step, JobStep, PassDetector, PassVerdict};
use tectonic_io::memory::MemoryProvider;
use tectonic_io::provider::{IoProvider, OpenResult, OutputHandle, StatusLog};
use tectonic_io::stack::IoStack;

#[test]
fn unchanged_rewrite_converges() {
    let mut d = PassDetector::new(5);
    d.record_read("toc.aux", Some(b"C1".to_vec()));
    d.record_write("toc.aux", b"C1".to_vec());
    assert_eq!(d.finish_pass(), PassVerdict::Converged);
    assert_eq!(d.completed(), 1);
}

#[test]
fn changed_rewrite_needs_another_pass() {
    let mut d = PassDetector::new(5);
    d.record_read("toc.aux", Some(b"C1".to_vec()));
    d.record_write("toc.aux", b"C2".to_vec());
    assert!(d.current_pass_diverged());
    assert_eq!(d.finish_pass(), PassVerdict::NeedsAnotherPass);
}

#[test]
fn missing_file_never_written_is_stable() {
    let mut d = PassDetector::new(5);
    d.record_read("doc.bbl", None);
    d.record_write("doc.log", b"log".to_vec());
    assert_eq!(d.finish_pass(), PassVerdict::Converged);
}

#[test]
fn missing_file_then_written_needs_another_pass() {
    let mut d = PassDetector::new(5);
    d.record_read("doc.aux", None);
    d.record_write("doc.aux", b"\\relax".to_vec());
    assert_eq!(d.finish_pass(), PassVerdict::NeedsAnotherPass);
}

#[test]
fn last_write_counts() {
    let mut d = PassDetector::new(5);
    d.record_read("toc.aux", Some(b"C1".to_vec()));
    d.record_write("toc.aux", b"C2".to_vec());
    d.record_write("toc.aux", b"C1".to_vec());
    assert_eq!(d.finish_pass(), PassVerdict::Converged);
}

#[test]
fn records_are_cleared_between_passes() {
    let mut d = PassDetector::new(5);
    d.record_read("toc.aux", Some(b"C1".to_vec()));
    d.record_write("toc.aux", b"C2".to_vec());
    assert_eq!(d.finish_pass(), PassVerdict::NeedsAnotherPass);
    d.record_read("toc.aux", Some(b"C2".to_vec()));
    d.record_write("toc.aux", b"C2".to_vec());
    assert_eq!(d.finish_pass(), PassVerdict::Converged);
    assert_eq!(d.completed(), 2);
}

#[test]
fn ceiling_gives_inconclusive_and_finishes_with_warning() {
    let max = 3;
    let mut d = PassDetector::new(max);
    let mut verdicts = Vec::new();
    let mut steps = 0;
    loop {
        let n = d.completed() as u8;
        d.record_read("a.aux", Some(vec![n]));
        d.record_write("a.aux", vec![n + 1]);
        let v = d.finish_pass();
        verdicts.push(v);
        steps += 1;
        if job_step(v) != JobStep::RunAnotherPass {
            break;
        }
    }
    assert_eq!(steps, 3);
    assert_eq!(
        verdicts,
        vec![
            PassVerdict::NeedsAnotherPass,
            PassVerdict::NeedsAnotherPass,
            PassVerdict::Inconclusive
        ]
    );
    assert_eq!(job_step(PassVerdict::Inconclusive), JobStep::FinishWithWarning);
}

#[test]
fn job_steps() {
    assert_eq!(job_step(PassVerdict::Converged), JobStep::Finish);
    assert_eq!(job_step(PassVerdict::NeedsAnotherPass), JobStep::RunAnotherPass);
    assert_eq!(job_step(PassVerdict::Inconclusive), JobStep::FinishWithWarning);
}

#[test]
fn aborted_pass_is_inconclusive() {
    let mut d = PassDetector::new(5);
    d.record_read("toc.aux", Some(b"C1".to_vec()));
    d.record_write("toc.aux", b"C1".to_vec());
    assert_eq!(d.abort_pass(), PassVerdict::Inconclusive);
    assert_eq!(d.completed(), 0);
    assert!(!d.current_pass_diverged());
}

#[test]
fn observing_a_stack() {
    let mut p0 = MemoryProvider::new(false, true);
    p0.add_file("toc.aux", b"C1".to_vec());
    let mut stack = IoStack::new(vec![p0]);
    let mut status = StatusLog::new();
    let mut d = PassDetector::new(5);

    let r = stack.input_open_name("toc.aux", &mut status);
    d.observe_input("toc.aux", &r);
    let missing = stack.input_open_name("doc.bbl", &mut status);
    d.observe_input("doc.bbl", &missing);

    let mut out: OutputHandle = match stack.output_open_name("toc.aux") {
        OpenResult::Success(h) => h,
        _ => panic!("expected a handle"),
    };
    out.write(b"C2");
    d.observe_output(&out);
    assert_eq!(d.finish_pass(), PassVerdict::NeedsAnotherPass);

    let mut same = OutputHandle::new(String::from("toc.aux"));
    same.write(b"C1");
    let r = stack.input_open_name("toc.aux", &mut status);
    d.observe_input("toc.aux", &r);
    d.observe_output(&same);
    assert_eq!(d.finish_pass(), PassVerdict::Converged);
}
