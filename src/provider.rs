//! What every backing store offers: the five open operations, their
//! three-way outcome, the handles they give out, and the status sink that
//! input operations may report to.
use vstd::prelude::*;
use crate::errors::{Error, KindView};

verus! {

/// The mathematical content of a handle: the file's name and its bytes.
pub ghost struct HandleView {
    pub name: Seq<char>,
    pub data: Seq<u8>,
}

/// A readable handle on a named input, owned by the caller.
pub struct InputHandle {
    name: String,
    data: Vec<u8>,
}

impl View for InputHandle {
    type V = HandleView;

    closed spec fn view(&self) -> HandleView {
        HandleView { name: self.name@, data: self.data@ }
    }
}

impl InputHandle {
    pub fn new(name: String, data: Vec<u8>) -> (r: InputHandle)
        ensures
            r@ == (HandleView { name: name@, data: data@ }),
    {
        InputHandle { name, data }
    }

    pub fn name(&self) -> (r: &String)
        ensures
            r@ == self@.name,
    {
        &self.name
    }

    /// The bytes that this handle reads.
    pub fn data(&self) -> (r: &Vec<u8>)
        ensures
            r@ == self@.data,
    {
        &self.data
    }
}

/// A writable handle on a named output, owned by the caller; it holds what
/// has been written to it.
pub struct OutputHandle {
    name: String,
    data: Vec<u8>,
}

impl View for OutputHandle {
    type V = HandleView;

    closed spec fn view(&self) -> HandleView {
        HandleView { name: self.name@, data: self.data@ }
    }
}

impl OutputHandle {
    /// A handle on `name` with nothing written yet.
    pub fn new(name: String) -> (r: OutputHandle)
        ensures
            r@ == (HandleView { name: name@, data: Seq::empty() }),
    {
        OutputHandle { name, data: Vec::new() }
    }

    /// Appends `bytes` to what was written.
    pub fn write(&mut self, bytes: &[u8])
        ensures
            final(self)@ == (HandleView { name: old(self)@.name, data: old(self)@.data + bytes@ }),
    {
        let mut i: usize = 0;
        let ghost d0 = self.data@;
        let ghost n0 = self.name@;
        while i < bytes.len()
            invariant
                0 <= i <= bytes@.len(),
                self.name@ == n0,
                self.data@ == d0 + bytes@.subrange(0, i as int),
            decreases bytes@.len() - i,
        {
            self.data.push(bytes[i]);
            i += 1;
            assert(self.data@ =~= d0 + bytes@.subrange(0, i as int));
        }
        assert(bytes@.subrange(0, bytes@.len() as int) =~= bytes@);
    }

    pub fn name(&self) -> (r: &String)
        ensures
            r@ == self@.name,
    {
        &self.name
    }

    /// The bytes written so far.
    pub fn data(&self) -> (r: &Vec<u8>)
        ensures
            r@ == self@.data,
    {
        &self.data
    }
}

/// The outcome of an open: a handle, no opinion, or a definitive failure.
pub enum OpenResult<T> {
    /// The handle was acquired; it now belongs to the caller.
    Success(T),
    /// This provider has no opinion; the next one should be asked.
    NotAvailable,
    /// A definitive failure, which must not be masked by later providers.
    Error(Error),
}

/// The mathematical content of an `OpenResult`.
pub ghost enum Opened<V> {
    Success(V),
    NotAvailable,
    Error(Seq<KindView>),
}

impl<T: View> View for OpenResult<T> {
    type V = Opened<T::V>;

    open spec fn view(&self) -> Opened<T::V> {
        match self {
            OpenResult::Success(h) => Opened::Success(h@),
            OpenResult::NotAvailable => Opened::NotAvailable,
            OpenResult::Error(e) => Opened::Error(e@),
        }
    }
}

impl<T> OpenResult<T> {
    pub fn is_not_available(&self) -> (r: bool)
        ensures
            r == (self is NotAvailable),
    {
        match self {
            OpenResult::NotAvailable => true,
            _ => false,
        }
    }
}

/// The severity of a status message.
#[derive(Clone, Copy, Debug, PartialEq, Eq, Structural)]
pub enum MessageKind {
    Note,
    Warning,
    Error,
}

/// A sink for diagnostics that providers may emit while opening inputs.
pub trait StatusBackend {
    /// The messages reported to this sink so far, the oldest first.
    spec fn reported(&self) -> Seq<(MessageKind, Seq<char>)>;

    /// Reports one message.
    fn report(&mut self, kind: MessageKind, message: &str)
        ensures
            final(self).reported() == old(self).reported().push((kind, message@)),
    ;
}

/// A status sink that keeps every message it is given, in order.
pub struct StatusLog {
    pub entries: Vec<(MessageKind, String)>,
}

impl StatusLog {
    pub fn new() -> (r: StatusLog)
        ensures
            r.entries@.len() == 0,
            r.reported() == Seq::<(MessageKind, Seq<char>)>::empty(),
    {
        let r = StatusLog { entries: Vec::new() };
        assert(entries_view(r.entries@) =~= Seq::empty());
        r
    }
}

/// The kind and text of each entry of a status log.
pub open spec fn entries_view(e: Seq<(MessageKind, String)>) -> Seq<(MessageKind, Seq<char>)> {
    e.map_values(|m: (MessageKind, String)| (m.0, m.1@))
}

impl StatusBackend for StatusLog {
    open spec fn reported(&self) -> Seq<(MessageKind, Seq<char>)> {
        entries_view(self.entries@)
    }

    fn report(&mut self, kind: MessageKind, message: &str) {
        self.entries.push((kind, String::from_str(message)));
        assert(entries_view(self.entries@) =~= entries_view(old(self).entries@).push(
            (kind, message@),
        ));
    }
}

/// A backing store. Each open operation answers with an outcome that is
/// determined by the provider's state before the call and by the name
/// asked for; a provider that serves nothing answers `NotAvailable` to all.
/// Each operation also relates the provider's state before the call to its
/// state after (`*_next`), and, for inputs, the messages of the status
/// sink before the call to those after.
pub trait IoProvider: Sized {
    spec fn output_name_outcome(&self, name: Seq<char>) -> Opened<HandleView>;

    spec fn output_stdout_outcome(&self) -> Opened<HandleView>;

    spec fn input_name_outcome(&self, name: Seq<char>) -> Opened<HandleView>;

    spec fn input_primary_outcome(&self) -> Opened<HandleView>;

    spec fn input_format_outcome(&self, name: Seq<char>) -> Opened<HandleView>;

    /// `next` is a state this provider may be in after opening the output `name`.
    spec fn output_name_next(&self, name: Seq<char>, next: Self) -> bool;

    /// `next` is a state this provider may be in after opening the standard output.
    spec fn output_stdout_next(&self, next: Self) -> bool;

    /// Opening the input `name` may take this provider to `next` and the
    /// messages of the status sink from `before` to `after`.
    spec fn input_name_next(
        &self,
        name: Seq<char>,
        next: Self,
        before: Seq<(MessageKind, Seq<char>)>,
        after: Seq<(MessageKind, Seq<char>)>,
    ) -> bool;

    /// Opening the primary input may take this provider to `next` and the
    /// status sink from `before` to `after`.
    spec fn input_primary_next(
        &self,
        next: Self,
        before: Seq<(MessageKind, Seq<char>)>,
        after: Seq<(MessageKind, Seq<char>)>,
    ) -> bool;

    /// Opening the format `name` may take this provider to `next` and the
    /// status sink from `before` to `after`.
    spec fn input_format_next(
        &self,
        name: Seq<char>,
        next: Self,
        before: Seq<(MessageKind, Seq<char>)>,
        after: Seq<(MessageKind, Seq<char>)>,
    ) -> bool;

    /// Opens a writable handle for the output `name`.
    fn output_open_name(&mut self, name: &str) -> (r: OpenResult<OutputHandle>)
        ensures
            r@ == old(self).output_name_outcome(name@),
            old(self).output_name_next(name@, *final(self)),
    ;

    /// Opens a writable handle bound to the standard output.
    fn output_open_stdout(&mut self) -> (r: OpenResult<OutputHandle>)
        ensures
            r@ == old(self).output_stdout_outcome(),
            old(self).output_stdout_next(*final(self)),
    ;

    /// Opens a readable handle for the input `name`.
    fn input_open_name<S: StatusBackend>(&mut self, name: &str, status: &mut S) -> (r:
        OpenResult<InputHandle>)
        ensures
            r@ == old(self).input_name_outcome(name@),
            old(self).input_name_next(name@, *final(self), old(status).reported(), final(status).reported()),
    ;

    /// Opens the input that this provider takes for the main document.
    fn input_open_primary<S: StatusBackend>(&mut self, status: &mut S) -> (r: OpenResult<
        InputHandle,
    >)
        ensures
            r@ == old(self).input_primary_outcome(),
            old(self).input_primary_next(*final(self), old(status).reported(), final(status).reported()),
    ;

    /// Opens the generated format resource `name`.
    fn input_open_format<S: StatusBackend>(&mut self, name: &str, status: &mut S) -> (r:
        OpenResult<InputHandle>)
        ensures
            r@ == old(self).input_format_outcome(name@),
            old(self).input_format_next(name@, *final(self), old(status).reported(), final(status).reported()),
    ;
}

} // verus!
