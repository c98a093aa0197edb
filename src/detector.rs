//! Watches what one compilation pass reads and writes, and decides whether
//! another pass is needed for its outputs to settle.
use vstd::prelude::*;
use crate::memory::{copy_bytes, find, lookup, table_view};
use crate::provider::{InputHandle, OpenResult, OutputHandle};

verus! {

/// The verdict on a pass.
#[derive(Clone, Copy, Debug, PartialEq, Eq, Structural)]
pub enum PassVerdict {
    /// Nothing that was read changed: no further pass is needed.
    Converged,
    /// Something that was read changed: run one more pass.
    NeedsAnotherPass,
    /// The pass was cut short, or the pass limit was reached without
    /// convergence: the output stands as it is, with a warning.
    Inconclusive,
}

/// What the driver of a job does after a pass.
#[derive(Clone, Copy, Debug, PartialEq, Eq, Structural)]
pub enum JobStep {
    RunAnotherPass,
    Finish,
    /// Keep the last pass's output and warn that it did not converge.
    FinishWithWarning,
}

/// What each read saw: the name, and the bytes, or nothing for a file that
/// did not exist.
pub open spec fn reads_view(r: Seq<(String, Option<Vec<u8>>)>) -> Seq<(Seq<char>, Option<Seq<u8>>)> {
    r.map_values(|e: (String, Option<Vec<u8>>)| (e.0@, match e.1 {
        Some(d) => Some(d@),
        None => None,
    }))
}

/// The read at `i` saw something other than what its file holds at the end
/// of the pass: the pass wrote that file, last with other bytes.
pub open spec fn read_changed(
    reads: Seq<(Seq<char>, Option<Seq<u8>>)>,
    writes: Seq<(Seq<char>, Seq<u8>)>,
    i: int,
) -> bool {
    &&& 0 <= i < reads.len()
    &&& lookup(writes, reads[i].0) matches Some(c)
    &&& reads[i].1 != Some(c)
}

/// Some read of the pass saw content that the pass then changed.
///
/// Each read is compared with the content that its file holds at the end of
/// the same pass. A change that the pass before made is what this pass read,
/// so it counts only if this pass changes the file again; a file that the
/// pass read and did not write kept through the pass the content that was
/// read; and a file that was missing when read counts as changed only when
/// the pass then writes it.
pub open spec fn diverged(
    reads: Seq<(Seq<char>, Option<Seq<u8>>)>,
    writes: Seq<(Seq<char>, Seq<u8>)>,
) -> bool {
    exists|i: int| read_changed(reads, writes, i)
}

/// The verdict on a completed pass, given whether it diverged, how many
/// passes have completed with it, and the limit.
pub open spec fn verdict_of(diverged: bool, completed: nat, max_passes: nat) -> PassVerdict {
    if !diverged {
        PassVerdict::Converged
    } else if completed >= max_passes {
        PassVerdict::Inconclusive
    } else {
        PassVerdict::NeedsAnotherPass
    }
}

/// What the driver does on each verdict.
pub open spec fn step_of(v: PassVerdict) -> JobStep {
    match v {
        PassVerdict::Converged => JobStep::Finish,
        PassVerdict::NeedsAnotherPass => JobStep::RunAnotherPass,
        PassVerdict::Inconclusive => JobStep::FinishWithWarning,
    }
}

/// The driver's decision after a pass: only `NeedsAnotherPass` runs again,
/// and an inconclusive pass ends the job with its output, not a failure.
pub fn job_step(v: PassVerdict) -> (r: JobStep)
    ensures
        r == step_of(v),
{
    match v {
        PassVerdict::Converged => JobStep::Finish,
        PassVerdict::NeedsAnotherPass => JobStep::RunAnotherPass,
        PassVerdict::Inconclusive => JobStep::FinishWithWarning,
    }
}

fn bytes_equal(a: &Vec<u8>, b: &Vec<u8>) -> (r: bool)
    ensures
        r == (a@ == b@),
{
    if a.len() != b.len() {
        return false;
    }
    let mut i: usize = 0;
    while i < a.len()
        invariant
            a@.len() == b@.len(),
            0 <= i <= a@.len(),
            forall|j: int| 0 <= j < i ==> a@[j] == b@[j],
        decreases a@.len() - i,
    {
        if a[i] != b[i] {
            return false;
        }
        i += 1;
    }
    assert(a@ =~= b@);
    true
}

/// The state of a job across its passes: the passes completed, the limit,
/// and what the current pass has read and written so far.
pub struct PassDetector {
    max_passes: u64,
    completed: u64,
    reads: Vec<(String, Option<Vec<u8>>)>,
    writes: Vec<(String, Vec<u8>)>,
}

impl PassDetector {
    pub closed spec fn max_passes_spec(&self) -> nat {
        self.max_passes as nat
    }

    /// The passes completed so far.
    pub closed spec fn completed_spec(&self) -> nat {
        self.completed as nat
    }

    /// The reads of the current pass, in order.
    pub closed spec fn reads_spec(&self) -> Seq<(Seq<char>, Option<Seq<u8>>)> {
        reads_view(self.reads@)
    }

    /// The writes of the current pass, in order.
    pub closed spec fn writes_spec(&self) -> Seq<(Seq<char>, Seq<u8>)> {
        table_view(self.writes@)
    }

    /// Both counts fit in a `u64`.
    pub proof fn lemma_counts_fit(&self)
        ensures
            self.completed_spec() <= u64::MAX,
            self.max_passes_spec() <= u64::MAX,
    {
    }

    /// A job that will run at most `max_passes` passes; no pass has run.
    pub fn new(max_passes: u64) -> (r: PassDetector)
        ensures
            r.max_passes_spec() == max_passes,
            r.completed_spec() == 0,
            r.reads_spec() == Seq::<(Seq<char>, Option<Seq<u8>>)>::empty(),
            r.writes_spec() == Seq::<(Seq<char>, Seq<u8>)>::empty(),
    {
        let r = PassDetector { max_passes, completed: 0, reads: Vec::new(), writes: Vec::new() };
        assert(reads_view(r.reads@) =~= Seq::empty());
        assert(table_view(r.writes@) =~= Seq::empty());
        r
    }

    /// The passes completed so far.
    pub fn completed(&self) -> (r: u64)
        ensures
            r == self.completed_spec(),
    {
        self.completed
    }

    /// Notes that the current pass read `name` and saw `content` (nothing,
    /// for a file that did not exist).
    pub fn record_read(&mut self, name: &str, content: Option<Vec<u8>>)
        ensures
            final(self).reads_spec() == old(self).reads_spec().push(
                (
                    name@,
                    match content {
                        Some(d) => Some(d@),
                        None => None,
                    },
                ),
            ),
            final(self).writes_spec() == old(self).writes_spec(),
            final(self).completed_spec() == old(self).completed_spec(),
            final(self).max_passes_spec() == old(self).max_passes_spec(),
    {
        let ghost c = content;
        self.reads.push((String::from_str(name), content));
        assert(reads_view(self.reads@) =~= reads_view(old(self).reads@).push(
            (
                name@,
                match c {
                    Some(d) => Some(d@),
                    None => None,
                },
            ),
        ));
    }

    /// Notes that the current pass wrote `content` to `name`; a later write
    /// to the same name supersedes it.
    pub fn record_write(&mut self, name: &str, content: Vec<u8>)
        ensures
            final(self).writes_spec() == old(self).writes_spec().push((name@, content@)),
            final(self).reads_spec() == old(self).reads_spec(),
            final(self).completed_spec() == old(self).completed_spec(),
            final(self).max_passes_spec() == old(self).max_passes_spec(),
    {
        self.writes.push((String::from_str(name), content));
        assert(table_view(self.writes@) =~= table_view(old(self).writes@).push(
            (name@, content@),
        ));
    }

    /// Notes the outcome of opening the input `name` in the current pass: a
    /// handle is a read of its bytes, `NotAvailable` a read of a missing
    /// file, and a failure no read at all.
    pub fn observe_input(&mut self, name: &str, r: &OpenResult<InputHandle>)
        ensures
            match r {
                OpenResult::Success(h) => final(self).reads_spec() == old(self).reads_spec().push(
                    (name@, Some(h@.data)),
                ),
                OpenResult::NotAvailable => final(self).reads_spec() == old(
                    self,
                ).reads_spec().push((name@, None)),
                OpenResult::Error(_) => final(self).reads_spec() == old(self).reads_spec(),
            },
            final(self).writes_spec() == old(self).writes_spec(),
            final(self).completed_spec() == old(self).completed_spec(),
            final(self).max_passes_spec() == old(self).max_passes_spec(),
    {
        match r {
            OpenResult::Success(h) => self.record_read(name, Some(copy_bytes(h.data()))),
            OpenResult::NotAvailable => self.record_read(name, None),
            OpenResult::Error(_) => {},
        }
    }

    /// Notes the final content of an output of the current pass.
    pub fn observe_output(&mut self, h: &OutputHandle)
        ensures
            final(self).writes_spec() == old(self).writes_spec().push((h@.name, h@.data)),
            final(self).reads_spec() == old(self).reads_spec(),
            final(self).completed_spec() == old(self).completed_spec(),
            final(self).max_passes_spec() == old(self).max_passes_spec(),
    {
        self.record_write(h.name().as_str(), copy_bytes(h.data()));
    }

    /// Whether some read of the current pass saw content that the pass then
    /// changed.
    pub fn current_pass_diverged(&self) -> (r: bool)
        ensures
            r == diverged(self.reads_spec(), self.writes_spec()),
    {
        let ghost rs = self.reads_spec();
        let ghost ws = self.writes_spec();
        let mut i: usize = 0;
        while i < self.reads.len()
            invariant
                0 <= i <= self.reads@.len(),
                rs == reads_view(self.reads@),
                ws == table_view(self.writes@),
                forall|j: int| 0 <= j < i ==> !read_changed(rs, ws, j),
            decreases self.reads@.len() - i,
        {
            let entry = &self.reads[i];
            assert(rs[i as int].0 == entry.0@);
            match find(&self.writes, &entry.0) {
                Some(k) => {
                    let changed = match &entry.1 {
                        Some(seen) => !bytes_equal(seen, &self.writes[k].1),
                        None => true,
                    };
                    if changed {
                        assert(read_changed(rs, ws, i as int));
                        return true;
                    }
                },
                None => {},
            }
            i += 1;
        }
        false
    }

    /// Closes the current pass. The result is `Converged` if no file read in
    /// the pass was changed by it, else `NeedsAnotherPass` below the pass
    /// limit and `Inconclusive` at it. The pass's records are then cleared.
    pub fn finish_pass(&mut self) -> (v: PassVerdict)
        ensures
            final(self).completed_spec() == if old(self).completed_spec() < u64::MAX {
                old(self).completed_spec() + 1
            } else {
                old(self).completed_spec()
            },
            v == verdict_of(
                diverged(old(self).reads_spec(), old(self).writes_spec()),
                final(self).completed_spec(),
                old(self).max_passes_spec(),
            ),
            final(self).reads_spec() == Seq::<(Seq<char>, Option<Seq<u8>>)>::empty(),
            final(self).writes_spec() == Seq::<(Seq<char>, Seq<u8>)>::empty(),
            final(self).max_passes_spec() == old(self).max_passes_spec(),
    {
        let d = self.current_pass_diverged();
        if self.completed < u64::MAX {
            self.completed = self.completed + 1;
        }
        self.reads = Vec::new();
        self.writes = Vec::new();
        assert(reads_view(self.reads@) =~= Seq::empty());
        assert(table_view(self.writes@) =~= Seq::empty());
        if !d {
            PassVerdict::Converged
        } else if self.completed >= self.max_passes {
            PassVerdict::Inconclusive
        } else {
            PassVerdict::NeedsAnotherPass
        }
    }

    /// Ends a pass that was cut short: its records are discarded and never
    /// taken as convergence.
    pub fn abort_pass(&mut self) -> (v: PassVerdict)
        ensures
            v == PassVerdict::Inconclusive,
            final(self).completed_spec() == old(self).completed_spec(),
            final(self).reads_spec() == Seq::<(Seq<char>, Option<Seq<u8>>)>::empty(),
            final(self).writes_spec() == Seq::<(Seq<char>, Seq<u8>)>::empty(),
            final(self).max_passes_spec() == old(self).max_passes_spec(),
    {
        self.reads = Vec::new();
        self.writes = Vec::new();
        assert(reads_view(self.reads@) =~= Seq::empty());
        assert(table_view(self.writes@) =~= Seq::empty());
        PassVerdict::Inconclusive
    }
}

/// A pass that reads a file and then writes it has converged exactly when
/// it wrote the bytes that it read.
pub proof fn lemma_rewrite_converges_iff_unchanged(name: Seq<char>, read: Seq<u8>, written: Seq<u8>)
    ensures
        diverged(seq![(name, Some(read))], seq![(name, written)]) == (read != written),
{
    let rs = seq![(name, Some(read))];
    let ws = seq![(name, written)];
    assert(ws.drop_last().len() == 0);
    assert(lookup(ws, name) == Some(written));
    if read != written {
        assert(read_changed(rs, ws, 0));
    }
}

/// A file that was missing when read and that the pass did not write is no
/// reason for another pass.
pub proof fn lemma_missing_unwritten_is_stable(
    name: Seq<char>,
    writes: Seq<(Seq<char>, Seq<u8>)>,
)
    requires
        lookup(writes, name) is None,
    ensures
        !diverged(seq![(name, None::<Seq<u8>>)], writes),
{
}

/// Once the pass limit is reached the job ends, whatever the pass gave: it
/// never runs again, and a pass that did not converge ends it with a
/// warning rather than a failure.
pub proof fn lemma_ceiling_ends_job(d: bool, completed: nat, max_passes: nat)
    requires
        completed >= max_passes,
    ensures
        step_of(verdict_of(d, completed, max_passes)) != JobStep::RunAnotherPass,
        d ==> verdict_of(d, completed, max_passes) == PassVerdict::Inconclusive,
        d ==> step_of(verdict_of(d, completed, max_passes)) == JobStep::FinishWithWarning,
{
}

} // verus!
