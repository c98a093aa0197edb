use tectonic_io::errors::{chain_err, decimal, DefinitelySame, Error, ErrorKind, ForeignKind};

#[test]
fn context_rendering_has_two_lines() {
    let io = Error::from_kind(ErrorKind::Foreign(
        ForeignKind::Io,
        String::from("No such file or directory (os error 2)"),
    ));
    let e = io.chain_err(String::from("while opening input foo.tex"));
    let lines = e.render_lines();
    assert_eq!(lines.len(), 2);
    assert_eq!(lines[0], "error: while opening input foo.tex");
    assert_eq!(lines[1], "caused by: No such file or directory (os error 2)");
    assert!(lines[0].contains("while opening input foo.tex"));
    assert!(lines[1].contains("No such file or directory"));
}

#[test]
fn messages_outermost_first() {
    let e = Error::from_kind(ErrorKind::NotSeekable)
        .chain_err(String::from("reading the format"))
        .chain_err(String::from("loading the engine"));
    assert_eq!(
        e.messages(),
        vec![
            String::from("loading the engine"),
            String::from("reading the format"),
            String::from("this stream is not seekable"),
        ]
    );
    assert_eq!(
        e.render_lines(),
        vec![
            String::from("error: loading the engine"),
            String::from("caused by: reading the format"),
            String::from("caused by: this stream is not seekable"),
        ]
    );
    let c = e.cause().unwrap();
    assert_eq!(c.messages().len(), 2);
    assert!(c.cause().unwrap().cause().is_none());
}

#[test]
fn kind_messages() {
    assert_eq!(ErrorKind::BadLength(10, 7).message(), "expected length 10; found 7");
    assert_eq!(ErrorKind::BadLength(0, 123456).message(), "expected length 0; found 123456");
    assert_eq!(ErrorKind::NotSeekable.message(), "this stream is not seekable");
    assert_eq!(
        ErrorKind::NotSizeable.message(),
        "the size of this stream cannot be determined"
    );
    assert_eq!(
        ErrorKind::PathForbidden(String::from("/etc/passwd")).message(),
        "access to the path /etc/passwd is forbidden"
    );
    assert_eq!(
        ErrorKind::Foreign(ForeignKind::Zip, String::from("invalid Zip archive")).message(),
        "invalid Zip archive"
    );
    assert_eq!(ErrorKind::Msg(String::from("hello")).message(), "hello");
}

#[test]
fn decimal_text() {
    assert_eq!(decimal(0), "0");
    assert_eq!(decimal(9), "9");
    assert_eq!(decimal(10), "10");
    assert_eq!(decimal(907), "907");
    assert_eq!(decimal(usize::MAX), usize::MAX.to_string());
}

#[test]
fn single_error_renders_one_line() {
    let e = Error::from_kind(ErrorKind::BadLength(4, 2));
    assert_eq!(e.render_lines(), vec![String::from("error: expected length 4; found 2")]);
    assert!(e.cause().is_none());
}

#[test]
fn same_message_errors_are_definitely_same() {
    let a = Error::msg(String::from("something broke"));
    let b = Error::msg(String::from("something broke")).chain_err(String::from("ignored"));
    let b = b.cause().unwrap();
    assert!(a.definitely_same(b));
    let c = Error::msg(String::from("something broke"))
        .chain_err(String::from("outer"));
    let d = Error::from_kind(ErrorKind::NotSeekable).chain_err(String::from("outer"));
    assert!(c.definitely_same(&d));
}

#[test]
fn different_or_non_message_errors_are_not_definitely_same() {
    let a = Error::msg(String::from("one"));
    let b = Error::msg(String::from("two"));
    assert!(!a.definitely_same(&b));
    let n1 = Error::from_kind(ErrorKind::NotSeekable);
    let n2 = Error::from_kind(ErrorKind::NotSeekable);
    assert!(!n1.definitely_same(&n2));
    assert!(!ErrorKind::NotSizeable.definitely_same(&ErrorKind::NotSizeable));
}

#[test]
fn error_and_ok_are_never_definitely_same() {
    let ok: Result<(), Error> = Ok(());
    let err: Result<(), Error> = Err(Error::msg(String::from("x")));
    assert!(!ok.definitely_same(&err));
    assert!(!err.definitely_same(&ok));
    let ok2: Result<(), Error> = Ok(());
    assert!(ok.definitely_same(&ok2));
}

#[test]
fn chain_err_on_results() {
    let ok: Result<u8, Error> = Ok(5);
    assert!(matches!(chain_err(ok, String::from("ctx")), Ok(5)));
    let bad: Result<u8, Error> = Err(Error::from_kind(ErrorKind::NotSizeable));
    match chain_err(bad, String::from("while sizing")) {
        Err(e) => assert_eq!(
            e.messages(),
            vec![
                String::from("while sizing"),
                String::from("the size of this stream cannot be determined"),
            ]
        ),
        Ok(_) => panic!("expected an error"),
    }
}
