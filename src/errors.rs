//! The error type used throughout the I/O layer: a kind, an optional chained
//! cause, a line-per-cause rendering, and a weak equivalence for tests.
use vstd::prelude::*;

verus! {

/// The outside library that produced a foreign failure.
#[derive(Clone, Copy, Debug, PartialEq, Eq, Structural)]
pub enum ForeignKind {
    AppDirs,
    Flate2,
    Hyper,
    Io,
    Nul,
    ParseInt,
    TomlDe,
    Utf8,
    Zip,
}

/// What went wrong, without its causes.
pub enum ErrorKind {
    /// A plain message, usually context added while propagating a failure.
    Msg(String),
    /// An item was not of the expected length (expected, observed).
    BadLength(usize, usize),
    NotSeekable,
    NotSizeable,
    /// Access to the path is forbidden.
    PathForbidden(String),
    /// A failure reported by an outside library, with its rendered message.
    Foreign(ForeignKind, String),
}

/// The mathematical content of an `ErrorKind`.
pub ghost enum KindView {
    Msg(Seq<char>),
    BadLength(usize, usize),
    NotSeekable,
    NotSizeable,
    PathForbidden(Seq<char>),
    Foreign(ForeignKind, Seq<char>),
}

impl View for ErrorKind {
    type V = KindView;

    open spec fn view(&self) -> KindView {
        match self {
            ErrorKind::Msg(s) => KindView::Msg(s@),
            ErrorKind::BadLength(e, o) => KindView::BadLength(*e, *o),
            ErrorKind::NotSeekable => KindView::NotSeekable,
            ErrorKind::NotSizeable => KindView::NotSizeable,
            ErrorKind::PathForbidden(p) => KindView::PathForbidden(p@),
            ErrorKind::Foreign(f, s) => KindView::Foreign(*f, s@),
        }
    }
}

/// The decimal text of a single digit.
pub open spec fn digit_text(d: nat) -> Seq<char> {
    if d == 0 { "0"@ }
    else if d == 1 { "1"@ }
    else if d == 2 { "2"@ }
    else if d == 3 { "3"@ }
    else if d == 4 { "4"@ }
    else if d == 5 { "5"@ }
    else if d == 6 { "6"@ }
    else if d == 7 { "7"@ }
    else if d == 8 { "8"@ }
    else { "9"@ }
}

/// The decimal text of a natural number, without leading zeros.
pub open spec fn decimal_text(n: nat) -> Seq<char>
    decreases n,
{
    if n < 10 {
        digit_text(n)
    } else {
        decimal_text(n / 10) + digit_text(n % 10)
    }
}

/// The one-line message of a kind.
pub open spec fn kind_message(k: KindView) -> Seq<char> {
    match k {
        KindView::Msg(s) => s,
        KindView::BadLength(e, o) => "expected length "@ + decimal_text(e as nat) + "; found "@
            + decimal_text(o as nat),
        KindView::NotSeekable => "this stream is not seekable"@,
        KindView::NotSizeable => "the size of this stream cannot be determined"@,
        KindView::PathForbidden(p) => "access to the path "@ + p + " is forbidden"@,
        KindView::Foreign(_, s) => s,
    }
}

fn digit(d: usize) -> (r: &'static str)
    requires
        d < 10,
    ensures
        r@ == digit_text(d as nat),
{
    if d == 0 { "0" }
    else if d == 1 { "1" }
    else if d == 2 { "2" }
    else if d == 3 { "3" }
    else if d == 4 { "4" }
    else if d == 5 { "5" }
    else if d == 6 { "6" }
    else if d == 7 { "7" }
    else if d == 8 { "8" }
    else { "9" }
}

/// Writes `n` in decimal.
pub fn decimal(n: usize) -> (r: String)
    ensures
        r@ == decimal_text(n as nat),
    decreases n,
{
    if n < 10 {
        String::from_str(digit(n))
    } else {
        let mut s = decimal(n / 10);
        s.append(digit(n % 10));
        s
    }
}

impl ErrorKind {
    /// The one-line message of this kind.
    pub fn message(&self) -> (r: String)
        ensures
            r@ == kind_message(self@),
    {
        match self {
            ErrorKind::Msg(s) => s.clone(),
            ErrorKind::BadLength(e, o) => {
                let mut r = String::from_str("expected length ");
                let es = decimal(*e);
                r.append(es.as_str());
                r.append("; found ");
                let os = decimal(*o);
                r.append(os.as_str());
                r
            },
            ErrorKind::NotSeekable => String::from_str("this stream is not seekable"),
            ErrorKind::NotSizeable => String::from_str(
                "the size of this stream cannot be determined",
            ),
            ErrorKind::PathForbidden(p) => {
                let mut r = String::from_str("access to the path ");
                r.append(p.as_str());
                r.append(" is forbidden");
                r
            },
            ErrorKind::Foreign(_, s) => s.clone(),
        }
    }
}

/// An error: a kind and, when it was raised while handling another error,
/// that error as its cause.
pub struct Error {
    kind: ErrorKind,
    cause: Option<Box<Error>>,
}

/// The kinds of an error chain, the outermost first.
pub closed spec fn chain_of(e: Error) -> Seq<KindView>
    decreases e,
{
    match e.cause {
        Some(c) => seq![e.kind@] + chain_of(*c),
        None => seq![e.kind@],
    }
}

impl View for Error {
    type V = Seq<KindView>;

    open spec fn view(&self) -> Seq<KindView> {
        chain_of(*self)
    }
}

/// The text of each string of a sequence.
pub open spec fn string_views(v: Seq<String>) -> Seq<Seq<char>> {
    v.map_values(|s: String| s@)
}

/// The message of each kind of a chain, in order.
pub open spec fn chain_messages(c: Seq<KindView>) -> Seq<Seq<char>> {
    c.map_values(|k: KindView| kind_message(k))
}

/// The prefix that the line at `i` of a rendered chain carries.
pub open spec fn line_prefix(i: int) -> Seq<char> {
    if i == 0 { "error: "@ } else { "caused by: "@ }
}

/// The rendering of a chain: the outermost message after `error: `, then
/// each cause after `caused by: `, one per line.
pub open spec fn rendered_lines(c: Seq<KindView>) -> Seq<Seq<char>> {
    Seq::new(c.len(), |i: int| line_prefix(i) + kind_message(c[i]))
}

proof fn lemma_chain_nonempty(e: Error)
    ensures
        chain_of(e).len() >= 1,
        chain_of(e)[0] == e.kind@,
{
}

impl Error {
    /// An error of the given kind, with no cause.
    pub fn from_kind(kind: ErrorKind) -> (r: Error)
        ensures
            r@ == seq![kind@],
    {
        Error { kind, cause: None }
    }

    /// An error with the given message, with no cause.
    pub fn msg(message: String) -> (r: Error)
        ensures
            r@ == seq![KindView::Msg(message@)],
    {
        Error { kind: ErrorKind::Msg(message), cause: None }
    }

    /// Wraps this error as the cause of a new error carrying `message` as
    /// its context.
    pub fn chain_err(self, message: String) -> (r: Error)
        ensures
            r@ == seq![KindView::Msg(message@)] + self@,
    {
        Error { kind: ErrorKind::Msg(message), cause: Some(Box::new(self)) }
    }

    /// The outermost kind of this error.
    pub fn kind(&self) -> (r: &ErrorKind)
        ensures
            r@ == self@[0],
    {
        proof { lemma_chain_nonempty(*self); }
        &self.kind
    }

    /// The error that caused this one, if any.
    pub fn cause(&self) -> (r: Option<&Error>)
        ensures
            self@.len() == 1 <==> r is None,
            r matches Some(c) ==> self@ == seq![self@[0]] + c@,
    {
        match &self.cause {
            Some(c) => {
                proof { lemma_chain_nonempty(**c); }
                Some(&**c)
            },
            None => None,
        }
    }

    /// The messages of this error and of each of its causes, the outermost
    /// first.
    pub fn messages(&self) -> (r: Vec<String>)
        ensures
            string_views(r@) == chain_messages(self@),
        decreases self,
    {
        let mut r: Vec<String> = Vec::new();
        let first = self.kind.message();
        r.push(first);
        match &self.cause {
            Some(c) => {
                let rest = c.messages();
                assert(self@ == seq![self.kind@] + c@);
                let mut i: usize = 0;
                while i < rest.len()
                    invariant
                        0 <= i <= rest@.len(),
                        r@.len() == 1 + i,
                        r@[0]@ == kind_message(self.kind@),
                        forall|j: int| 0 <= j < i ==> r@[1 + j] == rest@[j],
                    decreases rest@.len() - i,
                {
                    r.push(rest[i].clone());
                    i += 1;
                }
                assert forall|j: int| 0 <= j < rest@.len() implies r@[1 + j]@ == chain_messages(
                    c@,
                )[j] by {
                    assert(string_views(rest@)[j] == rest@[j]@);
                }
                assert(string_views(rest@).len() == rest@.len());
                assert(chain_messages(c@).len() == c@.len());
                assert forall|j: int| 0 <= j < r@.len() implies string_views(r@)[j]
                    == chain_messages(self@)[j] by {
                    assert(self@.len() == c@.len() + 1);
                    if j > 0 {
                        assert(self@[j] == c@[j - 1]);
                        assert(r@[j] == rest@[j - 1]);
                        assert(string_views(rest@)[j - 1] == rest@[j - 1]@);
                        assert(chain_messages(c@)[j - 1] == kind_message(c@[j - 1]));
                    } else {
                        assert(self@[0] == self.kind@);
                    }
                }
                assert(string_views(r@) =~= chain_messages(self@));
            },
            None => {
                assert(self@ == seq![self.kind@]);
                assert(string_views(r@) =~= chain_messages(self@));
            },
        }
        r
    }

    /// The rendering of this error: one line per error of the chain, the
    /// outermost first, after `error: `, and each cause after `caused by: `.
    pub fn render_lines(&self) -> (r: Vec<String>)
        ensures
            string_views(r@) == rendered_lines(self@),
    {
        let ms = self.messages();
        assert(self@.len() == ms@.len()) by {
            assert(string_views(ms@).len() == ms@.len());
            assert(chain_messages(self@).len() == self@.len());
        }
        let mut r: Vec<String> = Vec::new();
        let mut i: usize = 0;
        while i < ms.len()
            invariant
                0 <= i <= ms@.len(),
                ms@.len() == self@.len(),
                r@.len() == i,
                string_views(ms@) == chain_messages(self@),
                forall|j: int| 0 <= j < i ==> r@[j]@ == line_prefix(j) + kind_message(self@[j]),
            decreases ms@.len() - i,
        {
            let mut line = if i == 0 {
                String::from_str("error: ")
            } else {
                String::from_str("caused by: ")
            };
            assert(string_views(ms@)[i as int] == ms@[i as int]@);
            assert(chain_messages(self@)[i as int] == kind_message(self@[i as int]));
            line.append(ms[i].as_str());
            r.push(line);
            i += 1;
        }
        assert forall|j: int| 0 <= j < r@.len() implies string_views(r@)[j] == rendered_lines(
            self@,
        )[j] by {}
        assert(string_views(r@) =~= rendered_lines(self@));
        r
    }
}

/// Adds context to a failed result: an `Err` becomes an error carrying
/// `message` with the former error as its cause; an `Ok` is unchanged.
pub fn chain_err<T>(r: Result<T, Error>, message: String) -> (out: Result<T, Error>)
    ensures
        r is Ok ==> out == r,
        r matches Err(e) ==> (out matches Err(o) && o@ == seq![KindView::Msg(message@)] + e@),
{
    match r {
        Ok(v) => Ok(v),
        Err(e) => Err(e.chain_err(message)),
    }
}

/// Wrapping an error with a context message renders the context on the first
/// line and the wrapped error's own lines, as causes, after it.
pub proof fn lemma_context_rendering(e: Error, message: Seq<char>)
    ensures
        rendered_lines(seq![KindView::Msg(message)] + e@).len() == e@.len() + 1,
        rendered_lines(seq![KindView::Msg(message)] + e@)[0] == "error: "@ + message,
        forall|i: int| 0 <= i < e@.len() ==>
            #[trigger] rendered_lines(seq![KindView::Msg(message)] + e@)[i + 1]
                == "caused by: "@ + kind_message(e@[i]),
{
    let c = seq![KindView::Msg(message)] + e@;
    assert forall|i: int| 0 <= i < e@.len() implies
        #[trigger] rendered_lines(c)[i + 1] == "caused by: "@ + kind_message(e@[i]) by {
        assert(c[i + 1] == e@[i]);
    }
}

/// A weak equivalence: `definitely_same` is true only when two values are
/// known to be equivalent; false when they differ or when that cannot be told.
pub trait DefinitelySame: Sized {
    /// When two values are known to be equivalent.
    spec fn same_spec(&self, other: &Self) -> bool;

    fn definitely_same(&self, other: &Self) -> (r: bool)
        ensures
            r == self.same_spec(other),
    ;
}

/// Two kinds are definitely the same only when both are plain messages with
/// the same text.
pub open spec fn kinds_same(a: KindView, b: KindView) -> bool {
    match (a, b) {
        (KindView::Msg(s), KindView::Msg(o)) => s == o,
        _ => false,
    }
}

impl DefinitelySame for ErrorKind {
    open spec fn same_spec(&self, other: &Self) -> bool {
        kinds_same(self@, other@)
    }

    fn definitely_same(&self, other: &Self) -> (r: bool) {
        match (self, other) {
            (ErrorKind::Msg(s), ErrorKind::Msg(o)) => s.eq(o),
            _ => false,
        }
    }
}

impl DefinitelySame for Error {
    /// Only the outermost kinds are compared: causes may differ.
    open spec fn same_spec(&self, other: &Self) -> bool {
        kinds_same(self@[0], other@[0])
    }

    fn definitely_same(&self, other: &Self) -> (r: bool) {
        self.kind().definitely_same(other.kind())
    }
}

impl DefinitelySame for () {
    open spec fn same_spec(&self, other: &Self) -> bool {
        true
    }

    fn definitely_same(&self, _other: &Self) -> (r: bool) {
        true
    }
}

impl<T: DefinitelySame, E: DefinitelySame> DefinitelySame for Result<T, E> {
    open spec fn same_spec(&self, other: &Self) -> bool {
        match (self, other) {
            (Ok(a), Ok(b)) => a.same_spec(b),
            (Err(a), Err(b)) => a.same_spec(b),
            _ => false,
        }
    }

    fn definitely_same(&self, other: &Self) -> (r: bool) {
        match (self, other) {
            (Ok(a), Ok(b)) => a.definitely_same(b),
            (Err(a), Err(b)) => a.definitely_same(b),
            _ => false,
        }
    }
}

/// Two message errors with the same text are definitely the same, whatever
/// their causes.
pub proof fn lemma_same_messages_are_same(a: Error, b: Error)
    requires
        a@[0] matches KindView::Msg(s) && b@[0] matches KindView::Msg(t) && s == t,
    ensures
        a.same_spec(&b),
{
}

/// An error and a success are never definitely the same, in either order.
pub proof fn lemma_error_never_same_as_ok<T: DefinitelySame>(v: T, e: Error)
    ensures
        !Result::<T, Error>::Ok(v).same_spec(&Result::<T, Error>::Err(e)),
        !Result::<T, Error>::Err(e).same_spec(&Result::<T, Error>::Ok(v)),
{
}

} // verus!
