//! A provider made of an ordered list of providers: each request goes to
//! them in order, and the first definitive answer is the answer.
use vstd::prelude::*;
use crate::provider::{
    MessageKind, HandleView, InputHandle, IoProvider, OpenResult, Opened, OutputHandle, StatusBackend,
};

verus! {

/// The answer of a stack whose providers answer `outs`, in order: the first
/// outcome that is not `NotAvailable`, or `NotAvailable` when there is none.
pub open spec fn dispatch<V>(outs: Seq<Opened<V>>) -> Opened<V>
    decreases outs.len(),
{
    if outs.len() == 0 {
        Opened::NotAvailable
    } else if outs[0] is NotAvailable {
        dispatch(outs.drop_first())
    } else {
        outs[0]
    }
}

/// The index of the provider that answers: the first whose outcome is not
/// `NotAvailable`, or the number of providers when there is none.
pub open spec fn answering_index<V>(outs: Seq<Opened<V>>) -> int
    decreases outs.len(),
{
    if outs.len() == 0 {
        0
    } else if outs[0] is NotAvailable {
        1 + answering_index(outs.drop_first())
    } else {
        0
    }
}

/// How many providers are asked: those up to and including the one that
/// answers, or all of them when none does.
pub open spec fn asked<V>(outs: Seq<Opened<V>>) -> int {
    if answering_index(outs) < outs.len() {
        answering_index(outs) + 1
    } else {
        outs.len() as int
    }
}

proof fn lemma_answering_index<V>(outs: Seq<Opened<V>>, i: int)
    requires
        0 <= i <= outs.len(),
        forall|j: int| 0 <= j < i ==> outs[j] is NotAvailable,
        i == outs.len() || !(outs[i] is NotAvailable),
    ensures
        answering_index(outs) == i,
    decreases i,
{
    if i > 0 {
        lemma_answering_index(outs.drop_first(), i - 1);
    }
}

/// The providers asked are exactly those up to the first definitive answer:
/// when provider `i` answers after answers of `NotAvailable` only, providers
/// `0..=i` are asked and none after; when none answers, all are asked.
pub proof fn lemma_asked_up_to_answer<V>(outs: Seq<Opened<V>>, i: int)
    requires
        0 <= i <= outs.len(),
        forall|j: int| 0 <= j < i ==> outs[j] is NotAvailable,
        i == outs.len() || !(outs[i] is NotAvailable),
    ensures
        i < outs.len() ==> asked(outs) == i + 1,
        i == outs.len() ==> asked(outs) == outs.len(),
{
    lemma_answering_index(outs, i);
}

/// What each of `ps` would answer to opening the output `name`.
pub open spec fn output_name_outcomes<P: IoProvider>(ps: Seq<P>, name: Seq<char>) -> Seq<
    Opened<HandleView>,
> {
    Seq::new(ps.len(), |i: int| ps[i].output_name_outcome(name))
}

/// What each of `ps` would answer to opening the standard output.
pub open spec fn output_stdout_outcomes<P: IoProvider>(ps: Seq<P>) -> Seq<Opened<HandleView>> {
    Seq::new(ps.len(), |i: int| ps[i].output_stdout_outcome())
}

/// What each of `ps` would answer to opening the input `name`.
pub open spec fn input_name_outcomes<P: IoProvider>(ps: Seq<P>, name: Seq<char>) -> Seq<
    Opened<HandleView>,
> {
    Seq::new(ps.len(), |i: int| ps[i].input_name_outcome(name))
}

/// What each of `ps` would answer to opening the primary input.
pub open spec fn input_primary_outcomes<P: IoProvider>(ps: Seq<P>) -> Seq<Opened<HandleView>> {
    Seq::new(ps.len(), |i: int| ps[i].input_primary_outcome())
}

/// What each of `ps` would answer to opening the format `name`.
pub open spec fn input_format_outcomes<P: IoProvider>(ps: Seq<P>, name: Seq<char>) -> Seq<
    Opened<HandleView>,
> {
    Seq::new(ps.len(), |i: int| ps[i].input_format_outcome(name))
}

/// `chain` runs the messages of the status sink from `before` to `after` through the
/// providers `ps[0..m]` opening the input `name`, each taking `ps[j]` to
/// `next[j]` and the sink from `chain[j]` to `chain[j + 1]`.
pub open spec fn input_name_chain<P: IoProvider>(
    ps: Seq<P>,
    next: Seq<P>,
    name: Seq<char>,
    m: int,
    chain: Seq<Seq<(MessageKind, Seq<char>)>>,
    before: Seq<(MessageKind, Seq<char>)>,
    after: Seq<(MessageKind, Seq<char>)>,
) -> bool {
    &&& chain.len() == m + 1
    &&& chain[0] == before
    &&& chain[m] == after
    &&& forall|j: int| 0 <= j < m ==> #[trigger] ps[j].input_name_next(name, next[j], chain[j], chain[j + 1])
}

/// As `input_name_chain`, for opening the primary input.
pub open spec fn input_primary_chain<P: IoProvider>(
    ps: Seq<P>,
    next: Seq<P>,
    m: int,
    chain: Seq<Seq<(MessageKind, Seq<char>)>>,
    before: Seq<(MessageKind, Seq<char>)>,
    after: Seq<(MessageKind, Seq<char>)>,
) -> bool {
    &&& chain.len() == m + 1
    &&& chain[0] == before
    &&& chain[m] == after
    &&& forall|j: int| 0 <= j < m ==> #[trigger] ps[j].input_primary_next(next[j], chain[j], chain[j + 1])
}

/// As `input_name_chain`, for opening the format `name`.
pub open spec fn input_format_chain<P: IoProvider>(
    ps: Seq<P>,
    next: Seq<P>,
    name: Seq<char>,
    m: int,
    chain: Seq<Seq<(MessageKind, Seq<char>)>>,
    before: Seq<(MessageKind, Seq<char>)>,
    after: Seq<(MessageKind, Seq<char>)>,
) -> bool {
    &&& chain.len() == m + 1
    &&& chain[0] == before
    &&& chain[m] == after
    &&& forall|j: int| 0 <= j < m ==> #[trigger] ps[j].input_format_next(name, next[j], chain[j], chain[j + 1])
}

/// Skipping answers of `NotAvailable` at the front does not change the
/// answer.
proof fn lemma_skip_not_available<V>(outs: Seq<Opened<V>>, i: int)
    requires
        0 <= i <= outs.len(),
        forall|j: int| 0 <= j < i ==> outs[j] is NotAvailable,
    ensures
        dispatch(outs) == dispatch(outs.subrange(i, outs.len() as int)),
    decreases i,
{
    if i > 0 {
        lemma_skip_not_available(outs.drop_first(), i - 1);
        assert(outs.drop_first().subrange(i - 1, outs.len() - 1) =~= outs.subrange(
            i,
            outs.len() as int,
        ));
    } else {
        assert(outs.subrange(0, outs.len() as int) =~= outs);
    }
}

/// The answer at `i`, after answers of `NotAvailable` only, is the answer.
proof fn lemma_answer_at<V>(outs: Seq<Opened<V>>, i: int)
    requires
        0 <= i < outs.len(),
        forall|j: int| 0 <= j < i ==> outs[j] is NotAvailable,
        !(outs[i] is NotAvailable),
    ensures
        dispatch(outs) == outs[i],
{
    lemma_skip_not_available(outs, i);
    assert(outs.subrange(i, outs.len() as int)[0] == outs[i]);
}

/// When the first provider gives a definitive answer (a handle or a
/// failure), that is the stack's answer, whatever the others would give.
pub proof fn lemma_first_definitive_wins<V>(first: Opened<V>, rest: Seq<Opened<V>>)
    requires
        !(first is NotAvailable),
    ensures
        dispatch(seq![first] + rest) == first,
{
    lemma_answer_at(seq![first] + rest, 0);
}

/// When every provider answers `NotAvailable`, so does the stack.
pub proof fn lemma_all_unavailable<V>(outs: Seq<Opened<V>>)
    requires
        forall|j: int| 0 <= j < outs.len() ==> outs[j] is NotAvailable,
    ensures
        dispatch(outs) == Opened::<V>::NotAvailable,
{
    lemma_skip_not_available(outs, outs.len() as int);
}

/// A failure from a provider that is asked before any other gives a
/// definitive answer is the stack's answer; a handle that a later provider
/// would give never masks it.
pub proof fn lemma_failure_not_masked<V>(outs: Seq<Opened<V>>, i: int)
    requires
        0 <= i < outs.len(),
        forall|j: int| 0 <= j < i ==> outs[j] is NotAvailable,
        outs[i] is Error,
    ensures
        dispatch(outs) == outs[i],
        dispatch(outs) is Error,
{
    lemma_answer_at(outs, i);
}

/// An ordered list of providers, the first asked first. The order is fixed
/// when the stack is made.
pub struct IoStack<P> {
    items: Vec<P>,
}

impl<P> View for IoStack<P> {
    type V = Seq<P>;

    closed spec fn view(&self) -> Seq<P> {
        self.items@
    }
}

impl<P: IoProvider> IoStack<P> {
    /// A stack that asks `items` in the order given.
    pub fn new(items: Vec<P>) -> (r: IoStack<P>)
        ensures
            r@ == items@,
    {
        IoStack { items }
    }

    /// The providers, the first asked first.
    pub fn items(&self) -> (r: &Vec<P>)
        ensures
            r@ == self@,
    {
        &self.items
    }

    /// Gives the providers back, in order.
    pub fn into_items(self) -> (r: Vec<P>)
        ensures
            r@ == self@,
    {
        self.items
    }
}

impl<P: IoProvider> IoProvider for IoStack<P> {
    open spec fn output_name_outcome(&self, name: Seq<char>) -> Opened<HandleView> {
        dispatch(output_name_outcomes(self@, name))
    }

    open spec fn output_stdout_outcome(&self) -> Opened<HandleView> {
        dispatch(output_stdout_outcomes(self@))
    }

    open spec fn input_name_outcome(&self, name: Seq<char>) -> Opened<HandleView> {
        dispatch(input_name_outcomes(self@, name))
    }

    open spec fn input_primary_outcome(&self) -> Opened<HandleView> {
        dispatch(input_primary_outcomes(self@))
    }

    open spec fn input_format_outcome(&self, name: Seq<char>) -> Opened<HandleView> {
        dispatch(input_format_outcomes(self@, name))
    }

    /// The providers up to the one that answers are asked, once each, in
    /// order; the later ones are left as they were, and none is added,
    /// removed or moved.
    open spec fn output_name_next(&self, name: Seq<char>, next: Self) -> bool {
        let m = asked(output_name_outcomes(self@, name));
        &&& next@.len() == self@.len()
        &&& forall|j: int| 0 <= j < m ==> #[trigger] self@[j].output_name_next(name, next@[j])
        &&& forall|j: int| m <= j < self@.len() ==> next@[j] == self@[j]
    }

    open spec fn output_stdout_next(&self, next: Self) -> bool {
        let m = asked(output_stdout_outcomes(self@));
        &&& next@.len() == self@.len()
        &&& forall|j: int| 0 <= j < m ==> #[trigger] self@[j].output_stdout_next(next@[j])
        &&& forall|j: int| m <= j < self@.len() ==> next@[j] == self@[j]
    }

    /// As for outputs; besides, the status sink is changed only by the
    /// providers asked, each handed the sink as the one before left it.
    open spec fn input_name_next(
        &self,
        name: Seq<char>,
        next: Self,
        before: Seq<(MessageKind, Seq<char>)>,
        after: Seq<(MessageKind, Seq<char>)>,
    ) -> bool {
        let m = asked(input_name_outcomes(self@, name));
        &&& next@.len() == self@.len()
        &&& forall|j: int| m <= j < self@.len() ==> next@[j] == self@[j]
        &&& exists|chain: Seq<Seq<(MessageKind, Seq<char>)>>| input_name_chain(self@, next@, name, m, chain, before, after)
    }

    open spec fn input_primary_next(
        &self,
        next: Self,
        before: Seq<(MessageKind, Seq<char>)>,
        after: Seq<(MessageKind, Seq<char>)>,
    ) -> bool {
        let m = asked(input_primary_outcomes(self@));
        &&& next@.len() == self@.len()
        &&& forall|j: int| m <= j < self@.len() ==> next@[j] == self@[j]
        &&& exists|chain: Seq<Seq<(MessageKind, Seq<char>)>>| input_primary_chain(self@, next@, m, chain, before, after)
    }

    open spec fn input_format_next(
        &self,
        name: Seq<char>,
        next: Self,
        before: Seq<(MessageKind, Seq<char>)>,
        after: Seq<(MessageKind, Seq<char>)>,
    ) -> bool {
        let m = asked(input_format_outcomes(self@, name));
        &&& next@.len() == self@.len()
        &&& forall|j: int| m <= j < self@.len() ==> next@[j] == self@[j]
        &&& exists|chain: Seq<Seq<(MessageKind, Seq<char>)>>| input_format_chain(self@, next@, name, m, chain, before, after)
    }

    fn output_open_name(&mut self, name: &str) -> (r: OpenResult<OutputHandle>) {
        let ghost outs = output_name_outcomes(self@, name@);
        let ghost ps = self.items@;
        let mut result: OpenResult<OutputHandle> = OpenResult::NotAvailable;
        let mut i: usize = 0;
        while i < self.items.len() && result.is_not_available()
            invariant
                0 <= i <= ps.len(),
                self.items@.len() == ps.len(),
                forall|j: int| i <= j < ps.len() ==> self.items@[j] == ps[j],
                forall|j: int| 0 <= j < i ==> #[trigger] ps[j].output_name_next(name@, self.items@[j]),
                outs == output_name_outcomes(ps, name@),
                result is NotAvailable ==> forall|j: int| 0 <= j < i ==> outs[j] is NotAvailable,
                !(result is NotAvailable) ==> result@ == dispatch(outs) && asked(outs) == i,
            decreases ps.len() - i,
        {
            let ghost expected = self.items@[i as int].output_name_outcome(name@);
            assert(outs[i as int] == expected);
            result = self.items[i].output_open_name(name);
            if !result.is_not_available() {
                proof {
                    lemma_answer_at(outs, i as int);
                    lemma_answering_index(outs, i as int);
                }
            }
            i += 1;
        }
        if result.is_not_available() {
            proof {
                lemma_all_unavailable(outs);
                lemma_answering_index(outs, outs.len() as int);
            }
        }
        result
    }

    fn output_open_stdout(&mut self) -> (r: OpenResult<OutputHandle>) {
        let ghost outs = output_stdout_outcomes(self@);
        let ghost ps = self.items@;
        let mut result: OpenResult<OutputHandle> = OpenResult::NotAvailable;
        let mut i: usize = 0;
        while i < self.items.len() && result.is_not_available()
            invariant
                0 <= i <= ps.len(),
                self.items@.len() == ps.len(),
                forall|j: int| i <= j < ps.len() ==> self.items@[j] == ps[j],
                forall|j: int| 0 <= j < i ==> #[trigger] ps[j].output_stdout_next(self.items@[j]),
                outs == output_stdout_outcomes(ps),
                result is NotAvailable ==> forall|j: int| 0 <= j < i ==> outs[j] is NotAvailable,
                !(result is NotAvailable) ==> result@ == dispatch(outs) && asked(outs) == i,
            decreases ps.len() - i,
        {
            let ghost expected = self.items@[i as int].output_stdout_outcome();
            assert(outs[i as int] == expected);
            result = self.items[i].output_open_stdout();
            if !result.is_not_available() {
                proof {
                    lemma_answer_at(outs, i as int);
                    lemma_answering_index(outs, i as int);
                }
            }
            i += 1;
        }
        if result.is_not_available() {
            proof {
                lemma_all_unavailable(outs);
                lemma_answering_index(outs, outs.len() as int);
            }
        }
        result
    }

    fn input_open_name<S: StatusBackend>(&mut self, name: &str, status: &mut S) -> (r: OpenResult<InputHandle>) {
        let ghost outs = input_name_outcomes(self@, name@);
        let ghost ps = self.items@;
        let ghost s0 = status.reported();
        let ghost mut chain: Seq<Seq<(MessageKind, Seq<char>)>> = seq![status.reported()];
        let mut result: OpenResult<InputHandle> = OpenResult::NotAvailable;
        let mut i: usize = 0;
        while i < self.items.len() && result.is_not_available()
            invariant
                0 <= i <= ps.len(),
                self.items@.len() == ps.len(),
                forall|j: int| i <= j < ps.len() ==> self.items@[j] == ps[j],
                chain.len() == i + 1,
                chain[0] == s0,
                chain[i as int] == status.reported(),
                forall|j: int| 0 <= j < i ==> #[trigger] ps[j].input_name_next(name@, self.items@[j], chain[j], chain[j + 1]),
                outs == input_name_outcomes(ps, name@),
                result is NotAvailable ==> forall|j: int| 0 <= j < i ==> outs[j] is NotAvailable,
                !(result is NotAvailable) ==> result@ == dispatch(outs) && asked(outs) == i,
            decreases ps.len() - i,
        {
            let ghost expected = self.items@[i as int].input_name_outcome(name@);
            assert(outs[i as int] == expected);
            result = self.items[i].input_open_name(name, status);
            proof {
                chain = chain.push(status.reported());
            }
            if !result.is_not_available() {
                proof {
                    lemma_answer_at(outs, i as int);
                    lemma_answering_index(outs, i as int);
                }
            }
            i += 1;
        }
        if result.is_not_available() {
            proof {
                lemma_all_unavailable(outs);
                lemma_answering_index(outs, outs.len() as int);
            }
        }
        assert(asked(outs) == i);
        assert(input_name_chain(ps, self.items@, name@, asked(outs), chain, s0, status.reported()));
        result
    }

    fn input_open_primary<S: StatusBackend>(&mut self, status: &mut S) -> (r: OpenResult<InputHandle>) {
        let ghost outs = input_primary_outcomes(self@);
        let ghost ps = self.items@;
        let ghost s0 = status.reported();
        let ghost mut chain: Seq<Seq<(MessageKind, Seq<char>)>> = seq![status.reported()];
        let mut result: OpenResult<InputHandle> = OpenResult::NotAvailable;
        let mut i: usize = 0;
        while i < self.items.len() && result.is_not_available()
            invariant
                0 <= i <= ps.len(),
                self.items@.len() == ps.len(),
                forall|j: int| i <= j < ps.len() ==> self.items@[j] == ps[j],
                chain.len() == i + 1,
                chain[0] == s0,
                chain[i as int] == status.reported(),
                forall|j: int| 0 <= j < i ==> #[trigger] ps[j].input_primary_next(self.items@[j], chain[j], chain[j + 1]),
                outs == input_primary_outcomes(ps),
                result is NotAvailable ==> forall|j: int| 0 <= j < i ==> outs[j] is NotAvailable,
                !(result is NotAvailable) ==> result@ == dispatch(outs) && asked(outs) == i,
            decreases ps.len() - i,
        {
            let ghost expected = self.items@[i as int].input_primary_outcome();
            assert(outs[i as int] == expected);
            result = self.items[i].input_open_primary(status);
            proof {
                chain = chain.push(status.reported());
            }
            if !result.is_not_available() {
                proof {
                    lemma_answer_at(outs, i as int);
                    lemma_answering_index(outs, i as int);
                }
            }
            i += 1;
        }
        if result.is_not_available() {
            proof {
                lemma_all_unavailable(outs);
                lemma_answering_index(outs, outs.len() as int);
            }
        }
        assert(asked(outs) == i);
        assert(input_primary_chain(ps, self.items@, asked(outs), chain, s0, status.reported()));
        result
    }

    fn input_open_format<S: StatusBackend>(&mut self, name: &str, status: &mut S) -> (r: OpenResult<InputHandle>) {
        let ghost outs = input_format_outcomes(self@, name@);
        let ghost ps = self.items@;
        let ghost s0 = status.reported();
        let ghost mut chain: Seq<Seq<(MessageKind, Seq<char>)>> = seq![status.reported()];
        let mut result: OpenResult<InputHandle> = OpenResult::NotAvailable;
        let mut i: usize = 0;
        while i < self.items.len() && result.is_not_available()
            invariant
                0 <= i <= ps.len(),
                self.items@.len() == ps.len(),
                forall|j: int| i <= j < ps.len() ==> self.items@[j] == ps[j],
                chain.len() == i + 1,
                chain[0] == s0,
                chain[i as int] == status.reported(),
                forall|j: int| 0 <= j < i ==> #[trigger] ps[j].input_format_next(name@, self.items@[j], chain[j], chain[j + 1]),
                outs == input_format_outcomes(ps, name@),
                result is NotAvailable ==> forall|j: int| 0 <= j < i ==> outs[j] is NotAvailable,
                !(result is NotAvailable) ==> result@ == dispatch(outs) && asked(outs) == i,
            decreases ps.len() - i,
        {
            let ghost expected = self.items@[i as int].input_format_outcome(name@);
            assert(outs[i as int] == expected);
            result = self.items[i].input_open_format(name, status);
            proof {
                chain = chain.push(status.reported());
            }
            if !result.is_not_available() {
                proof {
                    lemma_answer_at(outs, i as int);
                    lemma_answering_index(outs, i as int);
                }
            }
            i += 1;
        }
        if result.is_not_available() {
            proof {
                lemma_all_unavailable(outs);
                lemma_answering_index(outs, outs.len() as int);
            }
        }
        assert(asked(outs) == i);
        assert(input_format_chain(ps, self.items@, name@, asked(outs), chain, s0, status.reported()));
        result
    }
}

} // verus!
