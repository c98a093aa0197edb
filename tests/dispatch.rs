use tectonic_io::errors::{DefinitelySame, Error, ErrorKind};
use tectonic_io::memory::{path_escapes, MemoryProvider};
use tectonic_io::provider::{IoProvider, MessageKind, OpenResult, StatusBackend, StatusLog};
use tectonic_io::stack::IoStack;

fn provider_with(name: &str, data: &[u8], sandboxed: bool) -> MemoryProvider {
    let mut p = MemoryProvider::new(sandboxed, false);
    p.add_file(name, data.to_vec());
    p
}

fn input_data(r: &OpenResult<tectonic_io::provider::InputHandle>) -> Option<Vec<u8>> {
    match r {
        OpenResult::Success(h) => Some(h.data().clone()),
        _ => None,
    }
}

#[test]
fn first_success_is_returned_and_later_providers_are_not_asked() {
    let p0 = provider_with("a.tex", b"first", false);
    let p1 = provider_with("a.tex", b"second", false);
    let mut stack = IoStack::new(vec![p0, p1]);
    let mut status = StatusLog::new();
    let r = stack.input_open_name("a.tex", &mut status);
    assert_eq!(input_data(&r), Some(b"first".to_vec()));
    let items = stack.into_items();
    assert_eq!(items[0].lookups(), 1);
    assert_eq!(items[1].lookups(), 0);
}

#[test]
fn first_error_is_returned_and_later_providers_are_not_asked() {
    let p0 = MemoryProvider::new(true, false);
    let p1 = provider_with("/etc/passwd", b"root", false);
    let mut stack = IoStack::new(vec![p0, p1]);
    let mut status = StatusLog::new();
    let r = stack.input_open_name("/etc/passwd", &mut status);
    assert!(matches!(r, OpenResult::Error(_)));
    assert_eq!(stack.items()[1].lookups(), 0);
}

#[test]
fn all_not_available_gives_not_available() {
    let p0 = provider_with("a.tex", b"A", false);
    let p1 = provider_with("b.tex", b"B", false);
    let mut stack = IoStack::new(vec![p0, p1]);
    let mut status = StatusLog::new();
    assert!(stack.input_open_name("c.tex", &mut status).is_not_available());
    assert!(stack.input_open_format("plain.fmt", &mut status).is_not_available());
    assert!(stack.input_open_primary(&mut status).is_not_available());
    assert!(stack.output_open_name("out.log").is_not_available());
    assert!(stack.output_open_stdout().is_not_available());
    assert_eq!(stack.items()[0].lookups(), 5);
    assert_eq!(stack.items()[1].lookups(), 5);
    assert!(status.entries.is_empty());
}

#[test]
fn empty_stack_gives_not_available() {
    let mut stack: IoStack<MemoryProvider> = IoStack::new(Vec::new());
    let mut status = StatusLog::new();
    status.report(MessageKind::Note, "before");
    assert!(stack.input_open_name("a.tex", &mut status).is_not_available());
    assert_eq!(status.entries, vec![(MessageKind::Note, String::from("before"))]);
    assert!(stack.output_open_stdout().is_not_available());
}

#[test]
fn forbidden_path_is_not_masked_by_later_file() {
    let p0 = MemoryProvider::new(true, false);
    let p1 = provider_with("../secret", b"top secret", false);
    let mut stack = IoStack::new(vec![p0, p1]);
    let mut status = StatusLog::new();
    match stack.input_open_name("../secret", &mut status) {
        OpenResult::Error(e) => {
            let expected = Error::from_kind(ErrorKind::PathForbidden(String::from("../secret")));
            assert_eq!(e.messages(), expected.messages());
            assert_eq!(e.messages(), vec![String::from("access to the path ../secret is forbidden")]);
        }
        _ => panic!("expected the forbidden-path error"),
    }
}

#[test]
fn later_provider_serves_when_earlier_has_no_file() {
    let p0 = provider_with("a.tex", b"A", false);
    let p1 = provider_with("b.tex", b"B", false);
    let mut stack = IoStack::new(vec![p0, p1]);
    let mut status = StatusLog::new();
    let r = stack.input_open_name("b.tex", &mut status);
    assert_eq!(input_data(&r), Some(b"B".to_vec()));
}

#[test]
fn shadow_law_first_provider_content_wins() {
    let p0 = provider_with("a.tex", b"X", false);
    let p1 = provider_with("a.tex", b"Y", false);
    let mut stack = IoStack::new(vec![p0, p1]);
    let mut status = StatusLog::new();
    match stack.input_open_name("a.tex", &mut status) {
        OpenResult::Success(h) => {
            assert_eq!(h.name(), "a.tex");
            assert_eq!(h.data(), &b"X".to_vec());
        }
        _ => panic!("expected a handle"),
    }
}

#[test]
fn later_entry_shadows_earlier_within_a_provider() {
    let mut p = MemoryProvider::new(false, false);
    p.add_file("a.tex", b"old".to_vec());
    p.add_file("a.tex", b"new".to_vec());
    let mut status = StatusLog::new();
    let r = p.input_open_name("a.tex", &mut status);
    assert_eq!(input_data(&r), Some(b"new".to_vec()));
}

#[test]
fn primary_and_format_inputs() {
    let mut p = MemoryProvider::new(false, false);
    p.add_file("main.tex", b"\\input x".to_vec());
    p.add_format("plain.fmt", b"FMT".to_vec());
    p.set_primary("main.tex");
    let mut stack = IoStack::new(vec![MemoryProvider::new(false, false), p]);
    let mut status = StatusLog::new();
    let r = stack.input_open_primary(&mut status);
    assert_eq!(input_data(&r), Some(b"\\input x".to_vec()));
    let f = stack.input_open_format("plain.fmt", &mut status);
    assert_eq!(input_data(&f), Some(b"FMT".to_vec()));
    // formats and named inputs are separate namespaces
    assert!(stack.input_open_name("plain.fmt", &mut status).is_not_available());
}

#[test]
fn outputs_come_from_first_writable_provider() {
    let p0 = MemoryProvider::new(false, false);
    let p1 = MemoryProvider::new(true, true);
    let mut stack = IoStack::new(vec![p0, p1]);
    match stack.output_open_name("doc.aux") {
        OpenResult::Success(mut h) => {
            assert_eq!(h.name(), "doc.aux");
            assert!(h.data().is_empty());
            h.write(b"ab");
            h.write(b"c");
            assert_eq!(h.data(), &b"abc".to_vec());
        }
        _ => panic!("expected a handle"),
    }
    match stack.output_open_stdout() {
        OpenResult::Success(h) => assert_eq!(h.name(), ""),
        _ => panic!("expected a handle"),
    }
    assert!(matches!(stack.output_open_name("../x.log"), OpenResult::Error(_)));
}

#[test]
fn sandbox_escape_detection() {
    assert!(path_escapes("/abs"));
    assert!(path_escapes(".."));
    assert!(path_escapes("../a"));
    assert!(path_escapes("a/../b"));
    assert!(path_escapes("a/.."));
    assert!(!path_escapes("a..b"));
    assert!(!path_escapes("..a/b"));
    assert!(!path_escapes("a/b.tex"));
    assert!(!path_escapes(""));
    assert!(!path_escapes("./a"));
}

#[test]
fn open_error_results_compare_weakly() {
    let a: Result<(), Error> = Err(Error::msg(String::from("x")));
    let b: Result<(), Error> = Err(Error::msg(String::from("x")));
    assert!(a.definitely_same(&b));
}

#[test]
fn status_log_keeps_messages_in_order() {
    let mut log = StatusLog::new();
    log.report(MessageKind::Warning, "cache miss");
    log.report(MessageKind::Note, "fetched");
    assert_eq!(
        log.entries,
        vec![
            (MessageKind::Warning, String::from("cache miss")),
            (MessageKind::Note, String::from("fetched")),
        ]
    );
}
