//! A provider that serves files held in memory: named inputs, format
//! resources and a primary input, with an optional sandbox that forbids
//! names escaping to a parent or the root directory.
use vstd::prelude::*;
use crate::errors::{Error, ErrorKind, KindView};
use crate::stack::{dispatch, input_name_outcomes, lemma_first_definitive_wins};
use crate::provider::{
    MessageKind, HandleView, InputHandle, IoProvider, OpenResult, Opened, OutputHandle, StatusBackend,
};

verus! {

/// The name and bytes of each entry of a file table.
pub open spec fn table_view(t: Seq<(String, Vec<u8>)>) -> Seq<(Seq<char>, Seq<u8>)> {
    t.map_values(|e: (String, Vec<u8>)| (e.0@, e.1@))
}

/// The bytes of `name` in a file table: those of its last entry of that
/// name, if there is one.
pub open spec fn lookup(t: Seq<(Seq<char>, Seq<u8>)>, name: Seq<char>) -> Option<Seq<u8>>
    decreases t.len(),
{
    if t.len() == 0 {
        None
    } else if t.last().0 == name {
        Some(t.last().1)
    } else {
        lookup(t.drop_last(), name)
    }
}

/// A `..` component starts at `i` in the path `s`.
pub open spec fn parent_component_at(s: Seq<char>, i: int) -> bool {
    &&& 0 <= i
    &&& i + 1 < s.len()
    &&& s[i] == '.'
    &&& s[i + 1] == '.'
    &&& (i == 0 || s[i - 1] == '/')
    &&& (i + 2 == s.len() || s[i + 2] == '/')
}

/// The path `s` is absolute or climbs to a parent directory.
pub open spec fn escapes(s: Seq<char>) -> bool {
    (s.len() > 0 && s[0] == '/') || exists|i: int| parent_component_at(s, i)
}

/// Whether `name` is absolute or has a `..` component.
pub fn path_escapes(name: &str) -> (r: bool)
    ensures
        r == escapes(name@),
{
    let n = name.unicode_len();
    if n > 0 && name.get_char(0) == '/' {
        return true;
    }
    let mut i: usize = 0;
    while n > 0 && i < n - 1
        invariant
            i <= n,
            n == name@.len(),
            forall|j: int| 0 <= j < i ==> !parent_component_at(name@, j),
            !(n > 0 && name@[0] == '/'),
        decreases n - i,
    {
        if name.get_char(i) == '.' && name.get_char(i + 1) == '.' {
            let starts = i == 0 || name.get_char(i - 1) == '/';
            let ends = i + 2 == n || name.get_char(i + 2) == '/';
            if starts && ends {
                assert(parent_component_at(name@, i as int));
                return true;
            }
        }
        i += 1;
    }
    assert forall|j: int| !parent_component_at(name@, j) by {
        if 0 <= j < i {
        }
    }
    false
}

pub(crate) fn copy_bytes(v: &Vec<u8>) -> (r: Vec<u8>)
    ensures
        r@ == v@,
{
    let mut r: Vec<u8> = Vec::new();
    let mut i: usize = 0;
    while i < v.len()
        invariant
            0 <= i <= v@.len(),
            r@ == v@.subrange(0, i as int),
        decreases v@.len() - i,
    {
        r.push(v[i]);
        i += 1;
        assert(r@ =~= v@.subrange(0, i as int));
    }
    assert(v@.subrange(0, v@.len() as int) =~= v@);
    r
}

/// The index of the last entry of `t` named `name`.
pub(crate) fn find(t: &Vec<(String, Vec<u8>)>, name: &String) -> (r: Option<usize>)
    ensures
        match r {
            Some(k) => k < t@.len() && lookup(table_view(t@), name@) == Some(t@[k as int].1@)
                && t@[k as int].0@ == name@,
            None => lookup(table_view(t@), name@) is None,
        },
{
    let mut j: usize = t.len();
    assert(t@.subrange(0, t@.len() as int) =~= t@);
    while j > 0
        invariant
            j <= t@.len(),
            lookup(table_view(t@), name@) == lookup(table_view(t@.subrange(0, j as int)), name@),
        decreases j,
    {
        let ghost pre = table_view(t@.subrange(0, j as int));
        assert(pre.last() == (t@[j - 1].0@, t@[j - 1].1@));
        if t[j - 1].0.eq(name) {
            return Some(j - 1);
        }
        assert(pre.drop_last() =~= table_view(t@.subrange(0, j - 1)));
        j -= 1;
    }
    assert(table_view(t@.subrange(0, 0)).len() == 0);
    None
}

/// Files held in memory.
pub struct MemoryProvider {
    files: Vec<(String, Vec<u8>)>,
    formats: Vec<(String, Vec<u8>)>,
    primary: Option<String>,
    sandboxed: bool,
    writable: bool,
    lookups: u64,
}

impl MemoryProvider {
    /// The named inputs, the oldest entry first.
    pub closed spec fn file_table(&self) -> Seq<(Seq<char>, Seq<u8>)> {
        table_view(self.files@)
    }

    /// The format resources, the oldest entry first.
    pub closed spec fn format_table(&self) -> Seq<(Seq<char>, Seq<u8>)> {
        table_view(self.formats@)
    }

    /// The name of the primary input, if one was set.
    pub closed spec fn primary_name(&self) -> Option<Seq<char>> {
        match self.primary {
            Some(p) => Some(p@),
            None => None,
        }
    }

    /// Whether names that escape the sandbox are refused.
    pub closed spec fn is_sandboxed(&self) -> bool {
        self.sandboxed
    }

    /// Whether outputs may be opened.
    pub closed spec fn is_writable(&self) -> bool {
        self.writable
    }

    /// How many open requests this provider has been asked.
    pub closed spec fn lookup_count(&self) -> nat {
        self.lookups as nat
    }

    /// `next` is this provider after answering one more request: the same
    /// files and settings, and the count one higher (it stops at the largest
    /// `u64`).
    pub open spec fn answered(&self, next: MemoryProvider) -> bool {
        &&& next.file_table() == self.file_table()
        &&& next.format_table() == self.format_table()
        &&& next.primary_name() == self.primary_name()
        &&& next.is_sandboxed() == self.is_sandboxed()
        &&& next.is_writable() == self.is_writable()
        &&& next.lookup_count() == if self.lookup_count() < u64::MAX {
            self.lookup_count() + 1
        } else {
            self.lookup_count()
        }
    }

    /// An empty provider.
    pub fn new(sandboxed: bool, writable: bool) -> (r: MemoryProvider)
        ensures
            r.file_table() == Seq::<(Seq<char>, Seq<u8>)>::empty(),
            r.format_table() == Seq::<(Seq<char>, Seq<u8>)>::empty(),
            r.primary_name() is None,
            r.is_sandboxed() == sandboxed,
            r.is_writable() == writable,
            r.lookup_count() == 0,
    {
        let r = MemoryProvider {
            files: Vec::new(),
            formats: Vec::new(),
            primary: None,
            sandboxed,
            writable,
            lookups: 0,
        };
        assert(table_view(r.files@) =~= Seq::empty());
        assert(table_view(r.formats@) =~= Seq::empty());
        r
    }

    /// Adds the input `name` with the bytes `data`; it shadows any earlier
    /// entry of that name.
    pub fn add_file(&mut self, name: &str, data: Vec<u8>)
        ensures
            final(self).file_table() == old(self).file_table().push((name@, data@)),
            final(self).format_table() == old(self).format_table(),
            final(self).primary_name() == old(self).primary_name(),
            final(self).is_sandboxed() == old(self).is_sandboxed(),
            final(self).is_writable() == old(self).is_writable(),
            final(self).lookup_count() == old(self).lookup_count(),
    {
        self.files.push((String::from_str(name), data));
        assert(table_view(self.files@) =~= table_view(old(self).files@).push((name@, data@)));
    }

    /// Adds the format resource `name` with the bytes `data`; it shadows any
    /// earlier entry of that name.
    pub fn add_format(&mut self, name: &str, data: Vec<u8>)
        ensures
            final(self).format_table() == old(self).format_table().push((name@, data@)),
            final(self).file_table() == old(self).file_table(),
            final(self).primary_name() == old(self).primary_name(),
            final(self).is_sandboxed() == old(self).is_sandboxed(),
            final(self).is_writable() == old(self).is_writable(),
            final(self).lookup_count() == old(self).lookup_count(),
    {
        self.formats.push((String::from_str(name), data));
        assert(table_view(self.formats@) =~= table_view(old(self).formats@).push((name@, data@)));
    }

    /// Makes the input `name` the primary input.
    pub fn set_primary(&mut self, name: &str)
        ensures
            final(self).primary_name() == Some(name@),
            final(self).file_table() == old(self).file_table(),
            final(self).format_table() == old(self).format_table(),
            final(self).is_sandboxed() == old(self).is_sandboxed(),
            final(self).is_writable() == old(self).is_writable(),
            final(self).lookup_count() == old(self).lookup_count(),
    {
        self.primary = Some(String::from_str(name));
    }

    /// How many open requests this provider has been asked (it stops
    /// counting at the largest `u64`).
    pub fn lookups(&self) -> (r: u64)
        ensures
            r == self.lookup_count(),
    {
        self.lookups
    }

    fn count_lookup(&mut self)
        ensures
            old(self).answered(*final(self)),
    {
        if self.lookups < u64::MAX {
            self.lookups = self.lookups + 1;
        }
    }

    fn open_in_table(t: &Vec<(String, Vec<u8>)>, name: &str) -> (r: OpenResult<InputHandle>)
        ensures
            r@ == match lookup(table_view(t@), name@) {
                Some(d) => Opened::Success(HandleView { name: name@, data: d }),
                None => Opened::NotAvailable,
            },
    {
        let key = String::from_str(name);
        match find(t, &key) {
            Some(k) => OpenResult::Success(InputHandle::new(key, copy_bytes(&t[k].1))),
            None => OpenResult::NotAvailable,
        }
    }
}

/// The failure that a sandboxed provider gives for a name that escapes.
pub open spec fn forbidden(name: Seq<char>) -> Opened<HandleView> {
    Opened::Error(seq![KindView::PathForbidden(name)])
}

impl IoProvider for MemoryProvider {
    open spec fn output_name_outcome(&self, name: Seq<char>) -> Opened<HandleView> {
        if self.is_sandboxed() && escapes(name) {
            forbidden(name)
        } else if self.is_writable() {
            Opened::Success(HandleView { name, data: Seq::empty() })
        } else {
            Opened::NotAvailable
        }
    }

    /// The standard output is a handle with an empty name.
    open spec fn output_stdout_outcome(&self) -> Opened<HandleView> {
        if self.is_writable() {
            Opened::Success(HandleView { name: Seq::empty(), data: Seq::empty() })
        } else {
            Opened::NotAvailable
        }
    }

    open spec fn input_name_outcome(&self, name: Seq<char>) -> Opened<HandleView> {
        if self.is_sandboxed() && escapes(name) {
            forbidden(name)
        } else {
            match lookup(self.file_table(), name) {
                Some(d) => Opened::Success(HandleView { name, data: d }),
                None => Opened::NotAvailable,
            }
        }
    }

    open spec fn input_primary_outcome(&self) -> Opened<HandleView> {
        match self.primary_name() {
            Some(p) => match lookup(self.file_table(), p) {
                Some(d) => Opened::Success(HandleView { name: p, data: d }),
                None => Opened::NotAvailable,
            },
            None => Opened::NotAvailable,
        }
    }

    open spec fn output_name_next(&self, name: Seq<char>, next: Self) -> bool {
        self.answered(next)
    }

    open spec fn output_stdout_next(&self, next: Self) -> bool {
        self.answered(next)
    }

    /// Nothing is reported to the status sink.
    open spec fn input_name_next(
        &self,
        name: Seq<char>,
        next: Self,
        before: Seq<(MessageKind, Seq<char>)>,
        after: Seq<(MessageKind, Seq<char>)>,
    ) -> bool {
        self.answered(next) && after == before
    }

    open spec fn input_primary_next(
        &self,
        next: Self,
        before: Seq<(MessageKind, Seq<char>)>,
        after: Seq<(MessageKind, Seq<char>)>,
    ) -> bool {
        self.answered(next) && after == before
    }

    open spec fn input_format_next(
        &self,
        name: Seq<char>,
        next: Self,
        before: Seq<(MessageKind, Seq<char>)>,
        after: Seq<(MessageKind, Seq<char>)>,
    ) -> bool {
        self.answered(next) && after == before
    }

    open spec fn input_format_outcome(&self, name: Seq<char>) -> Opened<HandleView> {
        match lookup(self.format_table(), name) {
            Some(d) => Opened::Success(HandleView { name, data: d }),
            None => Opened::NotAvailable,
        }
    }

    fn output_open_name(&mut self, name: &str) -> (r: OpenResult<OutputHandle>) {
        self.count_lookup();
        if self.sandboxed && path_escapes(name) {
            OpenResult::Error(Error::from_kind(ErrorKind::PathForbidden(String::from_str(name))))
        } else if self.writable {
            OpenResult::Success(OutputHandle::new(String::from_str(name)))
        } else {
            OpenResult::NotAvailable
        }
    }

    fn output_open_stdout(&mut self) -> (r: OpenResult<OutputHandle>) {
        self.count_lookup();
        if self.writable {
            OpenResult::Success(OutputHandle::new(String::new()))
        } else {
            OpenResult::NotAvailable
        }
    }

    fn input_open_name<S: StatusBackend>(&mut self, name: &str, _status: &mut S) -> (r:
        OpenResult<InputHandle>) {
        self.count_lookup();
        if self.sandboxed && path_escapes(name) {
            OpenResult::Error(Error::from_kind(ErrorKind::PathForbidden(String::from_str(name))))
        } else {
            MemoryProvider::open_in_table(&self.files, name)
        }
    }

    fn input_open_primary<S: StatusBackend>(&mut self, _status: &mut S) -> (r: OpenResult<
        InputHandle,
    >) {
        self.count_lookup();
        match &self.primary {
            Some(p) => MemoryProvider::open_in_table(&self.files, p.as_str()),
            None => OpenResult::NotAvailable,
        }
    }

    fn input_open_format<S: StatusBackend>(&mut self, name: &str, _status: &mut S) -> (r:
        OpenResult<InputHandle>) {
        self.count_lookup();
        MemoryProvider::open_in_table(&self.formats, name)
    }
}

/// Shadowing: when the first provider of a stack holds the input `name` and
/// does not forbid it, the stack serves that provider's bytes, whatever the
/// later providers hold.
pub proof fn lemma_first_provider_shadows(ps: Seq<MemoryProvider>, name: Seq<char>)
    requires
        ps.len() > 0,
        lookup(ps[0].file_table(), name) is Some,
        !(ps[0].is_sandboxed() && escapes(name)),
    ensures
        dispatch(input_name_outcomes(ps, name)) == Opened::Success(
            HandleView { name, data: lookup(ps[0].file_table(), name).unwrap() },
        ),
{
    let outs = input_name_outcomes(ps, name);
    let rest = outs.drop_first();
    assert(outs =~= seq![outs[0]] + rest);
    lemma_first_definitive_wins(outs[0], rest);
}

} // verus!
