//! Removing the stale images: which removal to ask for next, and what to
//! report once every removal has been tried.
//!
//! The executor removes nothing itself. It says which image is to be
//! removed next, is told how that went, and keeps the report. Whoever
//! drives it makes the removals, one at a time, in the order given.

use crate::images::{sizes_of, Image, ImageRecord};
use crate::size::{
    deserialize_size, lemma_total_bytes_fails_on, size_in_bytes, total_bytes, SizeFailure,
    SizeParseError,
};
use vstd::prelude::*;

verus! {

/// A removal that failed.
#[derive(Debug)]
pub struct DeletionFailure {
    pub id: String,
    pub cause: String,
}

/// A [`DeletionFailure`] with its texts as sequences of characters.
pub struct Failure {
    pub id: Seq<char>,
    pub cause: Seq<char>,
}

impl View for DeletionFailure {
    type V = Failure;

    open spec fn view(&self) -> Failure {
        Failure { id: self.id@, cause: self.cause@ }
    }
}

impl DeepView for DeletionFailure {
    type V = Failure;

    open spec fn deep_view(&self) -> Failure {
        self@
    }
}

/// What a run did, or in a dry run would have done.
#[derive(Debug)]
pub struct DeletionReport {
    /// The images removed, in the order of their removal.
    pub deleted_ids: Vec<String>,
    /// The bytes that the removed images took up.
    pub reclaimed: u128,
    /// The removals that failed, in the order they were tried.
    pub failures: Vec<DeletionFailure>,
}

/// A [`DeletionReport`] with its texts as sequences of characters.
pub struct Report {
    pub deleted_ids: Seq<Seq<char>>,
    pub reclaimed: nat,
    pub failures: Seq<Failure>,
}

impl View for DeletionReport {
    type V = Report;

    open spec fn view(&self) -> Report {
        Report {
            deleted_ids: self.deleted_ids.deep_view(),
            reclaimed: self.reclaimed as nat,
            failures: self.failures.deep_view(),
        }
    }
}

/// How one removal went.
#[derive(Debug)]
pub enum DeletionOutcome {
    Removed,
    Failed { cause: String },
}

/// A [`DeletionOutcome`] with its text as a sequence of characters.
pub enum Outcome {
    Removed,
    Failed { cause: Seq<char> },
}

impl View for DeletionOutcome {
    type V = Outcome;

    open spec fn view(&self) -> Outcome {
        match *self {
            DeletionOutcome::Removed => Outcome::Removed,
            DeletionOutcome::Failed { cause } => Outcome::Failed { cause: cause@ },
        }
    }
}

/// What is to be done next.
#[derive(Debug)]
pub enum Step {
    /// Remove the image with this identifier, by force if `force` is set,
    /// and tell the executor how it went.
    Remove { id: String, force: bool },
    /// Nothing is left to do: the report is complete.
    Finished,
}

/// A [`Step`] with its text as a sequence of characters.
pub enum Request {
    Remove { id: Seq<char>, force: bool },
    Finished,
}

impl View for Step {
    type V = Request;

    open spec fn view(&self) -> Request {
        match *self {
            Step::Remove { id, force } => Request::Remove { id: id@, force },
            Step::Finished => Request::Finished,
        }
    }
}

/// An image to remove and the bytes it takes up.
pub struct Target {
    pub id: Seq<char>,
    pub bytes: nat,
}

/// The state of a run.
pub struct Run {
    /// The images to remove, in the order of their removal.
    pub targets: Seq<Target>,
    /// How many of the targets have been dealt with.
    pub done: nat,
    pub dry_run: bool,
    pub force: bool,
    /// What has been done so far.
    pub report: Report,
}

/// The bytes that a size stands for, zero for a text that is no size.
pub open spec fn bytes_of(size: Seq<char>) -> nat {
    match size_in_bytes(size) {
        Ok(bytes) => bytes,
        Err(_) => 0,
    }
}

/// The images as targets of a removal.
pub open spec fn targets_of(images: Seq<Image>) -> Seq<Target> {
    Seq::new(images.len(), |i: int| Target { id: images[i].id, bytes: bytes_of(images[i].size) })
}

/// The identifiers of the targets, in their order.
pub open spec fn target_ids(targets: Seq<Target>) -> Seq<Seq<char>> {
    Seq::new(targets.len(), |i: int| targets[i].id)
}

/// The bytes that the targets take up together.
pub open spec fn target_bytes(targets: Seq<Target>) -> nat
    decreases targets.len(),
{
    if targets.len() == 0 {
        0
    } else {
        target_bytes(targets.drop_last()) + targets.last().bytes
    }
}

/// The report of a run that has done nothing.
pub open spec fn empty_report() -> Report {
    Report { deleted_ids: Seq::empty(), reclaimed: 0, failures: Seq::empty() }
}

/// The state in which a run begins. A dry run is complete at once: it
/// reports every target as removed and asks for no removal.
pub open spec fn begin(targets: Seq<Target>, dry_run: bool, force: bool) -> Run {
    if dry_run {
        Run {
            targets,
            done: targets.len(),
            dry_run,
            force,
            report: Report {
                deleted_ids: target_ids(targets),
                reclaimed: target_bytes(targets),
                failures: Seq::empty(),
            },
        }
    } else {
        Run { targets, done: 0, dry_run, force, report: empty_report() }
    }
}

/// What a run asks for next: the removal of the first target not yet dealt
/// with, or nothing once all are.
pub open spec fn request_of(run: Run) -> Request {
    if run.done < run.targets.len() {
        Request::Remove { id: run.targets[run.done as int].id, force: run.force }
    } else {
        Request::Finished
    }
}

/// The state of a run once the removal it asked for has gone as `outcome`
/// says. A removal that succeeded adds the image and its bytes to the
/// report; one that failed adds a failure, and the run goes on. A run that
/// asked for nothing stays as it is.
pub open spec fn advance(run: Run, outcome: Outcome) -> Run {
    if run.done < run.targets.len() {
        let target = run.targets[run.done as int];
        Run {
            done: run.done + 1,
            report: match outcome {
                Outcome::Removed => Report {
                    deleted_ids: run.report.deleted_ids.push(target.id),
                    reclaimed: run.report.reclaimed + target.bytes,
                    failures: run.report.failures,
                },
                Outcome::Failed { cause } => Report {
                    deleted_ids: run.report.deleted_ids,
                    reclaimed: run.report.reclaimed,
                    failures: run.report.failures.push(Failure { id: target.id, cause }),
                },
            },
            ..run
        }
    } else {
        run
    }
}

/// The state of a run after the removals it asked for have gone as the
/// `outcomes` say, one after the other.
pub open spec fn advance_all(run: Run, outcomes: Seq<Outcome>) -> Run
    decreases outcomes.len(),
{
    if outcomes.len() == 0 {
        run
    } else {
        advance(advance_all(run, outcomes.drop_last()), outcomes.last())
    }
}

/// Drives the removal of images, one at a time.
#[derive(Debug)]
pub struct DeletionExecutor {
    ids: Vec<String>,
    sizes: Vec<u64>,
    next: usize,
    dry_run: bool,
    force: bool,
    report: DeletionReport,
}

impl View for DeletionExecutor {
    type V = Run;

    closed spec fn view(&self) -> Run {
        Run {
            targets: Seq::new(
                self.ids@.len(),
                |i: int| Target { id: self.ids@[i]@, bytes: self.sizes@[i] as nat },
            ),
            done: self.next as nat,
            dry_run: self.dry_run,
            force: self.force,
            report: self.report@,
        }
    }
}

impl DeletionExecutor {
    /// The executor holds what it needs to go on.
    pub closed spec fn wf(&self) -> bool {
        &&& self.ids@.len() == self.sizes@.len()
        &&& self.next <= self.ids@.len()
        &&& self.report.reclaimed <= self.next * u64::MAX
    }

    /// Prepares the removal of `delete_set`. Every size is read before
    /// anything is removed, and one that cannot be read ends the run here.
    pub fn new(delete_set: &Vec<ImageRecord>, dry_run: bool, force: bool) -> (r: Result<
        DeletionExecutor,
        SizeParseError,
    >)
        ensures
            match r {
                Ok(executor) => {
                    &&& executor.wf()
                    &&& total_bytes(sizes_of(delete_set.deep_view())) is Ok
                    &&& executor@ == begin(targets_of(delete_set.deep_view()), dry_run, force)
                },
                Err(e) => total_bytes(sizes_of(delete_set.deep_view())) == Err::<
                    nat,
                    SizeFailure,
                >(e@),
            },
    {
        let ghost images = delete_set.deep_view();
        let ghost texts = sizes_of(images);
        let mut ids: Vec<String> = Vec::new();
        let mut sizes: Vec<u64> = Vec::new();
        let mut total: u128 = 0;
        let mut i: usize = 0;
        while i < delete_set.len()
            invariant
                i <= delete_set.len(),
                images == delete_set.deep_view(),
                texts == sizes_of(images),
                ids.len() == i,
                sizes.len() == i,
                forall|j: int| 0 <= j < i ==> (#[trigger] ids@[j])@ == images[j].id,
                forall|j: int|
                    0 <= j < i ==> bytes_of(images[j].size) == (#[trigger] sizes@[j]) as nat,
                total_bytes(texts.take(i as int)) == Ok::<nat, SizeFailure>(total as nat),
                total <= i * u64::MAX,
            decreases delete_set.len() - i,
        {
            proof {
                assert(texts.take(i + 1).drop_last() == texts.take(i as int));
            }
            match deserialize_size(delete_set[i].size.as_str()) {
                Ok(bytes) => {
                    total = total + bytes as u128;
                    sizes.push(bytes);
                    ids.push(delete_set[i].id.clone());
                },
                Err(e) => {
                    proof {
                        lemma_total_bytes_fails_on(texts, i + 1);
                    }
                    return Err(e);
                },
            }
            i = i + 1;
        }
        assert(texts.take(i as int) == texts);
        let ghost targets = targets_of(images);
        let ghost held = Seq::new(
            ids@.len(),
            |i: int| Target { id: ids@[i]@, bytes: sizes@[i] as nat },
        );
        assert(held =~= targets);
        if dry_run {
            let mut deleted_ids: Vec<String> = Vec::new();
            let mut k: usize = 0;
            while k < ids.len()
                invariant
                    k <= ids.len(),
                    deleted_ids.len() == k,
                    forall|j: int| 0 <= j < k ==> (#[trigger] deleted_ids@[j])@ == ids@[j]@,
                decreases ids.len() - k,
            {
                deleted_ids.push(ids[k].clone());
                k = k + 1;
            }
            proof {
                assert(deleted_ids.deep_view() =~= target_ids(targets));
                lemma_target_bytes(images);
            }
            let next = ids.len();
            let report = DeletionReport { deleted_ids, reclaimed: total, failures: Vec::new() };
            assert(report.failures.deep_view() =~= Seq::<Failure>::empty());
            Ok(DeletionExecutor { ids, sizes, next, dry_run, force, report })
        } else {
            let report = DeletionReport {
                deleted_ids: Vec::new(),
                reclaimed: 0,
                failures: Vec::new(),
            };
            assert(report.deleted_ids.deep_view() =~= Seq::<Seq<char>>::empty());
            assert(report.failures.deep_view() =~= Seq::<Failure>::empty());
            Ok(DeletionExecutor { ids, sizes, next: 0, dry_run, force, report })
        }
    }

    /// What is to be done next.
    pub fn next_step(&self) -> (r: Step)
        requires
            self.wf(),
        ensures
            r@ == request_of(self@),
    {
        if self.next < self.ids.len() {
            Step::Remove { id: self.ids[self.next].clone(), force: self.force }
        } else {
            Step::Finished
        }
    }

    /// Takes note of how the removal asked for went.
    pub fn record(&mut self, outcome: DeletionOutcome)
        requires
            old(self).wf(),
        ensures
            final(self).wf(),
            final(self)@ == advance(old(self)@, outcome@),
    {
        if self.next < self.ids.len() {
            let id = self.ids[self.next].clone();
            match outcome {
                DeletionOutcome::Removed => {
                    let ghost before = self.report.deleted_ids.deep_view();
                    self.report.deleted_ids.push(id);
                    self.report.reclaimed = self.report.reclaimed + self.sizes[self.next] as u128;
                    assert(self.report.deleted_ids.deep_view() =~= before.push(id@));
                },
                DeletionOutcome::Failed { cause } => {
                    let ghost before = self.report.failures.deep_view();
                    let failure = DeletionFailure { id, cause };
                    self.report.failures.push(failure);
                    assert(self.report.failures.deep_view() =~= before.push(failure@));
                },
            }
            self.next = self.next + 1;
        }
    }

    /// The report of what has been done so far.
    pub fn into_report(self) -> (r: DeletionReport)
        ensures
            r@ == self@.report,
    {
        self.report
    }
}

/// A dry run asks for no removal and changes nothing: its report is
/// complete from the start, says the same whether or not force is set, and
/// stays the same whatever the run is told afterwards. Two dry runs over
/// the same images therefore report the same.
pub proof fn lemma_dry_run_repeats(
    targets: Seq<Target>,
    force: bool,
    other_force: bool,
    outcomes: Seq<Outcome>,
)
    ensures
        request_of(begin(targets, true, force)) == Request::Finished,
        advance_all(begin(targets, true, force), outcomes) == begin(targets, true, force),
        begin(targets, true, force).report == begin(targets, true, other_force).report,
    decreases outcomes.len(),
{
    if outcomes.len() > 0 {
        lemma_dry_run_repeats(targets, force, other_force, outcomes.drop_last());
    }
}

/// Removals that all succeed, of the first `outcomes.len()` targets, leave
/// a report of exactly those targets and their bytes.
pub proof fn lemma_all_removed(targets: Seq<Target>, force: bool, outcomes: Seq<Outcome>)
    requires
        outcomes.len() <= targets.len(),
        forall|i: int| 0 <= i < outcomes.len() ==> outcomes[i] == Outcome::Removed,
    ensures
        advance_all(begin(targets, false, force), outcomes) == (Run {
            targets,
            done: outcomes.len(),
            dry_run: false,
            force,
            report: Report {
                deleted_ids: target_ids(targets.take(outcomes.len() as int)),
                reclaimed: target_bytes(targets.take(outcomes.len() as int)),
                failures: Seq::empty(),
            },
        }),
    decreases outcomes.len(),
{
    let k = outcomes.len() as int;
    if k == 0 {
        assert(target_ids(targets.take(0)) =~= Seq::<Seq<char>>::empty());
    } else {
        lemma_all_removed(targets, force, outcomes.drop_last());
        assert(targets.take(k).drop_last() == targets.take(k - 1));
        assert(target_ids(targets.take(k)) =~= target_ids(targets.take(k - 1)).push(
            targets[k - 1].id,
        ));
    }
}

/// A run in which every removal succeeds reports what the dry run over the
/// same images reports: the same images, in the same order, and the same
/// bytes, and no failure.
pub proof fn lemma_live_run_matches_dry_run(
    targets: Seq<Target>,
    force: bool,
    outcomes: Seq<Outcome>,
)
    requires
        outcomes.len() == targets.len(),
        forall|i: int| 0 <= i < outcomes.len() ==> outcomes[i] == Outcome::Removed,
    ensures
        advance_all(begin(targets, false, force), outcomes).report == begin(
            targets,
            true,
            force,
        ).report,
        request_of(advance_all(begin(targets, false, force), outcomes)) == Request::Finished,
{
    lemma_all_removed(targets, force, outcomes);
    assert(targets.take(targets.len() as int) == targets);
}

/// The bytes of the targets are the bytes that their sizes stand for
/// together.
pub proof fn lemma_target_bytes(images: Seq<Image>)
    requires
        total_bytes(sizes_of(images)) is Ok,
    ensures
        total_bytes(sizes_of(images)) == Ok::<nat, SizeFailure>(target_bytes(targets_of(images))),
    decreases images.len(),
{
    if images.len() > 0 {
        let front = images.drop_last();
        assert(sizes_of(images).drop_last() == sizes_of(front));
        assert(targets_of(images).drop_last() == targets_of(front));
        lemma_target_bytes(front);
    }
}

} // verus!
