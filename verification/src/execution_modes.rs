//! The ways to execute a plan, and what they have in common: the end of a run.
pub mod daemon;
pub mod live_monitor;

use crate::clock::{is_reading, now_millis};
use crate::records::{Iteration, Run};
use crate::text::{append_signed, law_signed_decimal_is_read_back, number, signed_decimal};
use vstd::prelude::*;
use vstd::string::*;

verus! {

/// How a plan is executed. `S` is the type of scenarios, which are only carried along here.
#[derive(Debug)]
pub enum ExecutionMode<'a, S> {
    Live,
    Observation(Vec<&'a S>),
    Daemon,
}

/// Where the end of a run stands.
#[derive(Debug)]
pub enum Finaliser {
    /// The run is being looked up.
    FindingRun { run_id: i32, stop_time: i64 },
    /// The run is being saved with its stop time.
    SavingRun { run_id: i32, stop_time: i64 },
    /// The iterations of the run are being looked up.
    FindingIterations { stop_time: i64 },
    /// An iteration is being saved with its stop time; `rest` are those still to come.
    SavingIteration { stop_time: i64, rest: Vec<Iteration> },
    /// Nothing is left to do.
    Finished,
}

/// How the last action went. `E` is an error of the database.
#[derive(Debug)]
pub enum FinaliseEvent<F, E> {
    RunFound(Option<Run<F>>),
    RunSaved,
    IterationsFound(Vec<Iteration>),
    IterationSaved,
    Failed(E),
}

/// What to do next.
#[derive(Debug)]
pub enum FinaliseAction<F, E> {
    /// Look up the run with this id.
    FindRun(i32),
    /// Save the run.
    SaveRun(Run<F>),
    /// Look up the iterations of the run with this id.
    FindIterations(i32),
    /// Save the iteration.
    SaveIteration(Iteration),
    /// Report success.
    Finish,
    /// Give up.
    Fail(FinaliseError<E>),
    /// Nothing: the event does not belong here.
    Ignore,
}

/// Why a run has no end.
#[derive(Debug)]
pub enum FinaliseError<E> {
    /// The database could not do what it was asked.
    Database(E),
    /// There is no run with this id.
    RunNotFound(i32),
}

/// A `Finaliser` with a sequence in place of the vector.
pub enum FinaliserView {
    FindingRun { run_id: i32, stop_time: i64 },
    SavingRun { run_id: i32, stop_time: i64 },
    FindingIterations { stop_time: i64 },
    SavingIteration { stop_time: i64, rest: Seq<Iteration> },
    Finished,
}

/// A `FinaliseEvent` with a sequence in place of the vector.
pub enum FinaliseEventView<F, E> {
    RunFound(Option<Run<F>>),
    RunSaved,
    IterationsFound(Seq<Iteration>),
    IterationSaved,
    Failed(E),
}

impl View for Finaliser {
    type V = FinaliserView;

    open spec fn view(&self) -> FinaliserView {
        match self {
            Finaliser::FindingRun { run_id, stop_time } => FinaliserView::FindingRun {
                run_id: *run_id,
                stop_time: *stop_time,
            },
            Finaliser::SavingRun { run_id, stop_time } => FinaliserView::SavingRun {
                run_id: *run_id,
                stop_time: *stop_time,
            },
            Finaliser::FindingIterations { stop_time } => FinaliserView::FindingIterations {
                stop_time: *stop_time,
            },
            Finaliser::SavingIteration { stop_time, rest } => FinaliserView::SavingIteration {
                stop_time: *stop_time,
                rest: rest@,
            },
            Finaliser::Finished => FinaliserView::Finished,
        }
    }
}

impl<F, E> View for FinaliseEvent<F, E> {
    type V = FinaliseEventView<F, E>;

    open spec fn view(&self) -> FinaliseEventView<F, E> {
        match self {
            FinaliseEvent::RunFound(found) => FinaliseEventView::RunFound(*found),
            FinaliseEvent::RunSaved => FinaliseEventView::RunSaved,
            FinaliseEvent::IterationsFound(found) => FinaliseEventView::IterationsFound(found@),
            FinaliseEvent::IterationSaved => FinaliseEventView::IterationSaved,
            FinaliseEvent::Failed(e) => FinaliseEventView::Failed(*e),
        }
    }
}

/// The run with its stop time set.
pub open spec fn stopped_run<F>(run: Run<F>, stop_time: i64) -> Run<F> {
    Run { stop_time: Some(stop_time), ..run }
}

/// The iteration with its stop time set.
pub open spec fn stopped_iteration(iteration: Iteration, stop_time: i64) -> Iteration {
    Iteration { stop_time: Some(stop_time), ..iteration }
}

/// Saves the first of the iterations that are left.
pub open spec fn next_save<F, E>(stop_time: i64, left: Seq<Iteration>) -> (
    FinaliserView,
    FinaliseAction<F, E>,
) {
    if left.len() == 0 {
        (FinaliserView::Finished, FinaliseAction::Finish)
    } else {
        (
            FinaliserView::SavingIteration { stop_time, rest: left.drop_first() },
            FinaliseAction::SaveIteration(stopped_iteration(left[0], stop_time)),
        )
    }
}

/// The next state and action: the run first, then its iterations one by one.
pub open spec fn finalise_step<F, E>(state: FinaliserView, event: FinaliseEventView<F, E>) -> (
    FinaliserView,
    FinaliseAction<F, E>,
) {
    match (state, event) {
        (
            FinaliserView::FindingRun { run_id, stop_time },
            FinaliseEventView::RunFound(found),
        ) => match found {
            Some(run) => (
                FinaliserView::SavingRun { run_id, stop_time },
                FinaliseAction::SaveRun(stopped_run(run, stop_time)),
            ),
            None => (
                FinaliserView::Finished,
                FinaliseAction::Fail(FinaliseError::RunNotFound(run_id)),
            ),
        },
        (FinaliserView::SavingRun { run_id, stop_time }, FinaliseEventView::RunSaved) => (
            FinaliserView::FindingIterations { stop_time },
            FinaliseAction::FindIterations(run_id),
        ),
        (
            FinaliserView::FindingIterations { stop_time },
            FinaliseEventView::IterationsFound(found),
        ) => next_save(stop_time, found),
        (
            FinaliserView::SavingIteration { stop_time, rest },
            FinaliseEventView::IterationSaved,
        ) => next_save(stop_time, rest),
        (FinaliserView::Finished, _) => (state, FinaliseAction::Ignore),
        (_, FinaliseEventView::Failed(e)) => (
            FinaliserView::Finished,
            FinaliseAction::Fail(FinaliseError::Database(e)),
        ),
        (_, _) => (state, FinaliseAction::Ignore),
    }
}

/// Begins to set the stop time of a run and of all its iterations.
pub fn finalise_run<F, E>(run_id: i32, stop_time: i64) -> (begun: (Finaliser, FinaliseAction<F, E>))
    ensures
        begun.0@ == (FinaliserView::FindingRun { run_id, stop_time }),
        begun.1 == FinaliseAction::<F, E>::FindRun(run_id),
{
    (Finaliser::FindingRun { run_id, stop_time }, FinaliseAction::FindRun(run_id))
}

/// Begins to set the stop time of a run and of all its iterations to the present time.
pub fn finalise_run_now<F, E>(run_id: i32) -> (begun: (Finaliser, FinaliseAction<F, E>))
    ensures
        begun.0@ is FindingRun,
        begun.0@->FindingRun_run_id == run_id,
        is_reading(begun.0@->FindingRun_stop_time),
        begun.1 == FinaliseAction::<F, E>::FindRun(run_id),
{
    finalise_run(run_id, now_millis())
}

impl Finaliser {
    /// Takes note of how the last action went and says what to do next.
    pub fn step<F, E>(self, event: FinaliseEvent<F, E>) -> (next: (Finaliser, FinaliseAction<F, E>))
        ensures
            (next.0@, next.1) == finalise_step(self@, event@),
    {
        match (self, event) {
            (
                Finaliser::FindingRun { run_id, stop_time },
                FinaliseEvent::RunFound(found),
            ) => match found {
                Some(run) => (
                    Finaliser::SavingRun { run_id, stop_time },
                    FinaliseAction::SaveRun(Run { stop_time: Some(stop_time), ..run }),
                ),
                None => (
                    Finaliser::Finished,
                    FinaliseAction::Fail(FinaliseError::RunNotFound(run_id)),
                ),
            },
            (Finaliser::SavingRun { run_id, stop_time }, FinaliseEvent::RunSaved) => (
                Finaliser::FindingIterations { stop_time },
                FinaliseAction::FindIterations(run_id),
            ),
            (
                Finaliser::FindingIterations { stop_time },
                FinaliseEvent::IterationsFound(found),
            ) => Finaliser::save_next(stop_time, found),
            (
                Finaliser::SavingIteration { stop_time, rest },
                FinaliseEvent::IterationSaved,
            ) => Finaliser::save_next(stop_time, rest),
            (Finaliser::Finished, _) => (Finaliser::Finished, FinaliseAction::Ignore),
            (_, FinaliseEvent::Failed(e)) => (
                Finaliser::Finished,
                FinaliseAction::Fail(FinaliseError::Database(e)),
            ),
            (state, _) => (state, FinaliseAction::Ignore),
        }
    }

    fn save_next<F, E>(stop_time: i64, left: Vec<Iteration>) -> (next: (
        Finaliser,
        FinaliseAction<F, E>,
    ))
        ensures
            (next.0@, next.1) == next_save::<F, E>(stop_time, left@),
    {
        if left.len() == 0 {
            return (Finaliser::Finished, FinaliseAction::Finish);
        }
        let mut rest = left;
        let first = rest.remove(0);
        assert(rest@ =~= left@.drop_first());
        (
            Finaliser::SavingIteration { stop_time, rest },
            FinaliseAction::SaveIteration(Iteration { stop_time: Some(stop_time), ..first }),
        )
    }
}

impl<E> FinaliseError<E> {
    /// What the error tells the user, over what the database says.
    pub open spec fn text(&self) -> Option<Seq<char>> {
        match self {
            FinaliseError::Database(_) => None,
            FinaliseError::RunNotFound(run_id) => Some(
                "Expected to find a run with id "@ + signed_decimal(*run_id as int),
            ),
        }
    }

    /// The message of the error, if it has more to say than the database.
    pub fn message(&self) -> (message: Option<String>)
        ensures
            match message {
                Some(m) => self.text() == Some(m@),
                None => self.text() is None,
            },
    {
        match self {
            FinaliseError::Database(_) => None,
            FinaliseError::RunNotFound(run_id) => {
                let mut text = "Expected to find a run with id ".to_string();
                append_signed(&mut text, *run_id);
                Some(text)
            },
        }
    }
}

/// The tables of the database, by the ids of their rows.
pub struct Store<F> {
    pub runs: Map<i32, Run<F>>,
    pub iterations: Map<i32, Iteration>,
}

impl<F> Store<F> {
    /// Every row is filed under its own id.
    pub open spec fn wf(&self) -> bool {
        &&& forall|id: i32| #[trigger] self.runs.contains_key(id) ==> self.runs[id].id == id
        &&& forall|id: i32| #[trigger]
            self.iterations.contains_key(id) ==> self.iterations[id].id == id
    }

    /// The sequence holds the iterations of the run and nothing else.
    pub open spec fn selects(&self, run_id: i32, found: Seq<Iteration>) -> bool {
        &&& forall|k: int|
            0 <= k < found.len() ==> {
                let it = #[trigger] found[k];
                self.iterations.contains_key(it.id) && self.iterations[it.id] == it && it.run_id
                    == run_id
            }
        &&& forall|id: i32|
            #![trigger self.iterations[id]]
            self.iterations.contains_key(id) && self.iterations[id].run_id == run_id
                ==> found.contains(self.iterations[id])
    }

    /// The store after the action, and its reply, where it has no trouble to do what it is asked
    /// and selects the iterations `found`.
    pub open spec fn perform<E>(
        self,
        action: FinaliseAction<F, E>,
        found: Seq<Iteration>,
    ) -> (Store<F>, FinaliseEventView<F, E>) {
        match action {
            FinaliseAction::FindRun(id) => (
                self,
                FinaliseEventView::RunFound(
                    if self.runs.contains_key(id) {
                        Some(self.runs[id])
                    } else {
                        None
                    },
                ),
            ),
            FinaliseAction::SaveRun(run) => (
                Store { runs: self.runs.insert(run.id, run), ..self },
                FinaliseEventView::RunSaved,
            ),
            FinaliseAction::FindIterations(_) => (self, FinaliseEventView::IterationsFound(found)),
            FinaliseAction::SaveIteration(it) => (
                Store { iterations: self.iterations.insert(it.id, it), ..self },
                FinaliseEventView::IterationSaved,
            ),
            _ => (self, FinaliseEventView::IterationSaved),
        }
    }

    /// The store with the stop time set in the run and in all its iterations, and otherwise as it
    /// is.
    pub open spec fn stopped(self, run_id: i32, stop_time: i64) -> Store<F> {
        Store {
            runs: self.runs.insert(run_id, stopped_run(self.runs[run_id], stop_time)),
            iterations: self.iterations.map_values(
                |it: Iteration|
                    if it.run_id == run_id {
                        stopped_iteration(it, stop_time)
                    } else {
                        it
                    },
            ),
        }
    }
}

/// The action that is due and the store after `n` actions, each done by the store and reported.
pub open spec fn carried_out<F, E>(
    state: FinaliserView,
    action: FinaliseAction<F, E>,
    store: Store<F>,
    found: Seq<Iteration>,
    n: nat,
) -> (FinaliseAction<F, E>, Store<F>)
    decreases n,
{
    if n == 0 {
        (action, store)
    } else {
        let (after, event) = store.perform(action, found);
        let (next, due) = finalise_step(state, event);
        carried_out(next, due, after, found, (n - 1) as nat)
    }
}

/// The iterations after those in `written` were saved with the stop time.
spec fn written(
    iterations: Map<i32, Iteration>,
    stop_time: i64,
    saved: Seq<Iteration>,
) -> Map<i32, Iteration>
    decreases saved.len(),
{
    if saved.len() == 0 {
        iterations
    } else {
        written(
            iterations.insert(saved[0].id, stopped_iteration(saved[0], stop_time)),
            stop_time,
            saved.drop_first(),
        )
    }
}

proof fn lemma_saves_carried_out<F, E>(
    stop_time: i64,
    left: Seq<Iteration>,
    store: Store<F>,
    found: Seq<Iteration>,
)
    ensures
        ({
            let (state, action) = next_save::<F, E>(stop_time, left);
            carried_out(state, action, store, found, left.len()) == (
                FinaliseAction::<F, E>::Finish,
                Store { iterations: written(store.iterations, stop_time, left), ..store },
            )
        }),
    decreases left.len(),
{
    let (state, action) = next_save::<F, E>(stop_time, left);
    if left.len() > 0 {
        let (after, event) = store.perform(action, found);
        assert(event == FinaliseEventView::<F, E>::IterationSaved);
        lemma_saves_carried_out::<F, E>(stop_time, left.drop_first(), after, found);
    }
}

proof fn lemma_written(iterations: Map<i32, Iteration>, stop_time: i64, saved: Seq<Iteration>)
    requires
        forall|k: int|
            0 <= k < saved.len() ==> {
                let it = #[trigger] saved[k];
                iterations.contains_key(it.id) && stopped_iteration(iterations[it.id], stop_time)
                    == stopped_iteration(it, stop_time)
            },
    ensures
        written(iterations, stop_time, saved).dom() == iterations.dom(),
        forall|id: i32| #[trigger]
            iterations.contains_key(id) ==> written(iterations, stop_time, saved)[id] == (if exists|
                k: int,
            |
                0 <= k < saved.len() && (#[trigger] saved[k]).id == id {
                stopped_iteration(iterations[id], stop_time)
            } else {
                iterations[id]
            }),
    decreases saved.len(),
{
    if saved.len() > 0 {
        let next = iterations.insert(saved[0].id, stopped_iteration(saved[0], stop_time));
        let rest = saved.drop_first();
        assert(iterations.contains_key(saved[0].id));
        assert(next.dom() =~= iterations.dom());
        assert forall|k: int| 0 <= k < rest.len() implies {
            let it = #[trigger] rest[k];
            next.contains_key(it.id) && stopped_iteration(next[it.id], stop_time)
                == stopped_iteration(it, stop_time)
        } by {
            assert(rest[k] == saved[k + 1]);
        }
        lemma_written(next, stop_time, rest);
        assert forall|id: i32| #[trigger] iterations.contains_key(id) implies written(
            iterations,
            stop_time,
            saved,
        )[id] == (if exists|k: int| 0 <= k < saved.len() && (#[trigger] saved[k]).id == id {
            stopped_iteration(iterations[id], stop_time)
        } else {
            iterations[id]
        }) by {
            assert(next.contains_key(id));
            if exists|k: int| 0 <= k < rest.len() && (#[trigger] rest[k]).id == id {
                let k = choose|k: int| 0 <= k < rest.len() && (#[trigger] rest[k]).id == id;
                assert(saved[k + 1].id == id);
                assert(next.contains_key(rest[k].id));
                assert(iterations.contains_key(saved[k + 1].id));
            } else if exists|k: int| 0 <= k < saved.len() && (#[trigger] saved[k]).id == id {
                let k = choose|k: int| 0 <= k < saved.len() && (#[trigger] saved[k]).id == id;
                if k > 0 {
                    assert(rest[k - 1].id == id);
                }
                assert(saved[0].id == id);
            } else {
                assert(saved[0].id != id);
            }
        }
    }
}

/// On a database without trouble, the end of a run sets the stop time of the run and of all its
/// iterations, leaves every other row as it is, and then reports success.
pub proof fn law_finalise_stops_run_and_iterations<F, E>(
    store: Store<F>,
    run_id: i32,
    stop_time: i64,
    found: Seq<Iteration>,
)
    requires
        store.wf(),
        store.runs.contains_key(run_id),
        store.selects(run_id, found),
    ensures
        carried_out(
            FinaliserView::FindingRun { run_id, stop_time },
            FinaliseAction::<F, E>::FindRun(run_id),
            store,
            found,
            found.len() + 3,
        ) == (FinaliseAction::<F, E>::Finish, store.stopped(run_id, stop_time)),
{
    let start = FinaliserView::FindingRun { run_id, stop_time };
    let find = FinaliseAction::<F, E>::FindRun(run_id);
    let n = found.len() + 3;
    let run = store.runs[run_id];
    let saving = FinaliserView::SavingRun { run_id, stop_time };
    let save = FinaliseAction::<F, E>::SaveRun(stopped_run(run, stop_time));
    assert(carried_out(start, find, store, found, n) == carried_out(
        saving,
        save,
        store,
        found,
        (n - 1) as nat,
    ));
    let store1 = Store { runs: store.runs.insert(run_id, stopped_run(run, stop_time)), ..store };
    let finding = FinaliserView::FindingIterations { stop_time };
    let list = FinaliseAction::<F, E>::FindIterations(run_id);
    assert(carried_out(saving, save, store, found, (n - 1) as nat) == carried_out(
        finding,
        list,
        store1,
        found,
        (n - 2) as nat,
    ));
    let (state, action) = next_save::<F, E>(stop_time, found);
    assert(carried_out(finding, list, store1, found, (n - 2) as nat) == carried_out(
        state,
        action,
        store1,
        found,
        found.len(),
    ));
    lemma_saves_carried_out::<F, E>(stop_time, found, store1, found);
    let after = written(store.iterations, stop_time, found);
    lemma_written(store.iterations, stop_time, found);
    let expected = store.stopped(run_id, stop_time).iterations;
    assert forall|id: i32| store.iterations.contains_key(id) implies #[trigger] after[id]
        == expected[id] by {
        let it = store.iterations[id];
        if it.run_id == run_id {
            assert(found.contains(it));
            let k = choose|k: int| 0 <= k < found.len() && found[k] == it;
            assert(found[k].id == id);
        } else if exists|k: int| 0 <= k < found.len() && (#[trigger] found[k]).id == id {
            let k = choose|k: int| 0 <= k < found.len() && (#[trigger] found[k]).id == id;
            assert(found[k].run_id == run_id);
        }
    }
    assert(after =~= expected);
}

/// Where there is no such run, nothing is written.
pub proof fn law_finalise_without_run_writes_nothing<F, E>(
    store: Store<F>,
    run_id: i32,
    stop_time: i64,
    found: Seq<Iteration>,
    n: nat,
)
    requires
        !store.runs.contains_key(run_id),
    ensures
        carried_out(
            FinaliserView::FindingRun { run_id, stop_time },
            FinaliseAction::<F, E>::FindRun(run_id),
            store,
            found,
            1,
        ) == (FinaliseAction::<F, E>::Fail(FinaliseError::RunNotFound(run_id)), store),
        carried_out(
            FinaliserView::FindingRun { run_id, stop_time },
            FinaliseAction::<F, E>::FindRun(run_id),
            store,
            found,
            n,
        ).1 == store,
{
    let start = FinaliserView::FindingRun { run_id, stop_time };
    let find = FinaliseAction::<F, E>::FindRun(run_id);
    let fail = FinaliseAction::<F, E>::Fail(FinaliseError::RunNotFound(run_id));
    reveal_with_fuel(carried_out, 2);
    if n > 0 {
        assert(carried_out(start, find, store, found, n) == carried_out(
            FinaliserView::Finished,
            fail,
            store,
            found,
            (n - 1) as nat,
        ));
        lemma_finished_writes_nothing(fail, store, found, (n - 1) as nat);
    }
}

proof fn lemma_finished_writes_nothing<F, E>(
    action: FinaliseAction<F, E>,
    store: Store<F>,
    found: Seq<Iteration>,
    n: nat,
)
    requires
        action is Fail || action is Ignore,
    ensures
        carried_out(FinaliserView::Finished, action, store, found, n).1 == store,
    decreases n,
{
    if n > 0 {
        lemma_finished_writes_nothing(
            FinaliseAction::<F, E>::Ignore,
            store,
            found,
            (n - 1) as nat,
        );
    }
}

/// The run that is found is saved with the stop time and with every other field as it was found.
/// Then the iterations of that run are looked up, and the first of them is saved with the stop time
/// and with every other field as it was found. The others are left to come in their order.
pub proof fn law_finalise_sets_nothing_but_stop_times<F, E>(
    run_id: i32,
    stop_time: i64,
    run: Run<F>,
    found: Seq<Iteration>,
)
    requires
        found.len() > 0,
    ensures
        ({
            let (s1, a1) = finalise_step::<F, E>(
                FinaliserView::FindingRun { run_id, stop_time },
                FinaliseEventView::RunFound(Some(run)),
            );
            let (s2, a2) = finalise_step::<F, E>(s1, FinaliseEventView::RunSaved);
            let (s3, a3) = finalise_step::<F, E>(s2, FinaliseEventView::IterationsFound(found));
            &&& a1 matches FinaliseAction::SaveRun(saved) && {
                &&& saved.stop_time == Some(stop_time)
                &&& saved.id == run.id
                &&& saved.is_live == run.is_live
                &&& saved.cpu_id == run.cpu_id
                &&& saved.region == run.region
                &&& saved.carbon_intensity == run.carbon_intensity
                &&& saved.start_time == run.start_time
            }
            &&& a2 == FinaliseAction::<F, E>::FindIterations(run_id)
            &&& a3 matches FinaliseAction::SaveIteration(saved) && {
                &&& saved.stop_time == Some(stop_time)
                &&& saved.id == found[0].id
                &&& saved.run_id == found[0].run_id
                &&& saved.scenario_name == found[0].scenario_name
                &&& saved.count == found[0].count
                &&& saved.start_time == found[0].start_time
            }
            &&& s3 == (FinaliserView::SavingIteration { stop_time, rest: found.skip(1) })
        }),
{
    assert(found.drop_first() =~= found.skip(1));
}

/// Each of the iterations that are left is saved in its turn, with the stop time and with every
/// other field as it was found, and when none is left success is reported.
pub proof fn law_finalise_saves_one_iteration_after_the_other<F, E>(
    stop_time: i64,
    rest: Seq<Iteration>,
)
    ensures
        ({
            let (next, action) = finalise_step::<F, E>(
                FinaliserView::SavingIteration { stop_time, rest },
                FinaliseEventView::IterationSaved,
            );
            &&& rest.len() == 0 ==> next == FinaliserView::Finished && action is Finish
            &&& rest.len() > 0 ==> next == (FinaliserView::SavingIteration {
                stop_time,
                rest: rest.skip(1),
            })
            &&& rest.len() > 0 ==> (action matches FinaliseAction::SaveIteration(saved) && {
                &&& saved.stop_time == Some(stop_time)
                &&& saved.id == rest[0].id
                &&& saved.run_id == rest[0].run_id
                &&& saved.scenario_name == rest[0].scenario_name
                &&& saved.count == rest[0].count
                &&& saved.start_time == rest[0].start_time
            })
        }),
        finalise_step::<F, E>(
            FinaliserView::FindingIterations { stop_time },
            FinaliseEventView::IterationsFound(rest),
        ) == finalise_step::<F, E>(
            FinaliserView::SavingIteration { stop_time, rest },
            FinaliseEventView::IterationSaved,
        ),
{
    if rest.len() > 0 {
        assert(rest.drop_first() =~= rest.skip(1));
    }
}

/// On a database without trouble, after the end of a run every iteration of the run has the stop
/// time, and its other fields are those that it had before. So it is with the run. Rows of other
/// runs are as they were, and no row was added or lost.
pub proof fn law_finalise_keeps_every_other_field<F, E>(
    store: Store<F>,
    run_id: i32,
    stop_time: i64,
    found: Seq<Iteration>,
)
    requires
        store.wf(),
        store.runs.contains_key(run_id),
        store.selects(run_id, found),
    ensures
        ({
            let (due, after) = carried_out(
                FinaliserView::FindingRun { run_id, stop_time },
                FinaliseAction::<F, E>::FindRun(run_id),
                store,
                found,
                found.len() + 3,
            );
            &&& due is Finish
            &&& forall|id: i32| #[trigger]
                after.runs.contains_key(id) <==> store.runs.contains_key(id)
            &&& forall|id: i32| #[trigger]
                after.iterations.contains_key(id) <==> store.iterations.contains_key(id)
            &&& after.runs[run_id].stop_time == Some(stop_time)
            &&& after.runs[run_id].id == store.runs[run_id].id
            &&& after.runs[run_id].is_live == store.runs[run_id].is_live
            &&& after.runs[run_id].cpu_id == store.runs[run_id].cpu_id
            &&& after.runs[run_id].region == store.runs[run_id].region
            &&& after.runs[run_id].carbon_intensity == store.runs[run_id].carbon_intensity
            &&& after.runs[run_id].start_time == store.runs[run_id].start_time
            &&& forall|id: i32|
                id != run_id && store.runs.contains_key(id) ==> #[trigger] after.runs[id]
                    == store.runs[id]
            &&& forall|id: i32|
                store.iterations.contains_key(id) && store.iterations[id].run_id == run_id ==> (
                #[trigger] after.iterations[id]).stop_time == Some(stop_time)
            &&& forall|id: i32|
                store.iterations.contains_key(id) && store.iterations[id].run_id != run_id ==> (
                #[trigger] after.iterations[id]).stop_time == store.iterations[id].stop_time
            &&& forall|id: i32|
                store.iterations.contains_key(id) ==> {
                    let it = #[trigger] after.iterations[id];
                    &&& it.id == store.iterations[id].id
                    &&& it.run_id == store.iterations[id].run_id
                    &&& it.scenario_name == store.iterations[id].scenario_name
                    &&& it.count == store.iterations[id].count
                    &&& it.start_time == store.iterations[id].start_time
                }
        }),
{
    law_finalise_stops_run_and_iterations::<F, E>(store, run_id, stop_time, found);
}

/// A run that is not there and a database that fails end the work with an error that names the run
/// or carries what the database said. What has ended does nothing more, and an event that does not
/// belong to the state changes nothing.
pub proof fn law_finalise_failures<F, E>(
    run_id: i32,
    stop_time: i64,
    rest: Seq<Iteration>,
    error: E,
    state: FinaliserView,
    event: FinaliseEventView<F, E>,
)
    ensures
        finalise_step::<F, E>(
            FinaliserView::FindingRun { run_id, stop_time },
            FinaliseEventView::RunFound(None),
        ) == (
            FinaliserView::Finished,
            FinaliseAction::<F, E>::Fail(FinaliseError::RunNotFound(run_id)),
        ),
        !(state is Finished) ==> finalise_step::<F, E>(state, FinaliseEventView::Failed(error)) == (
            FinaliserView::Finished,
            FinaliseAction::<F, E>::Fail(FinaliseError::Database(error)),
        ),
        finalise_step(FinaliserView::Finished, event) == (
            FinaliserView::Finished,
            FinaliseAction::<F, E>::Ignore,
        ),
        finalise_step(state, event).1 is Ignore ==> finalise_step(state, event).0 == state,
        finalise_step(state, event).1 is Ignore <==> match state {
            FinaliserView::FindingRun { .. } => !(event is RunFound || event is Failed),
            FinaliserView::SavingRun { .. } => !(event is RunSaved || event is Failed),
            FinaliserView::FindingIterations { .. } => !(event is IterationsFound
                || event is Failed),
            FinaliserView::SavingIteration { .. } => !(event is IterationSaved || event is Failed),
            FinaliserView::Finished => true,
        },
{
}

/// The error for a run that is not there names it: behind the words stands a text that is read back
/// as the id. An error of the database has no words of its own.
pub proof fn law_finalise_error_names_the_run<E>(run_id: i32, error: E)
    ensures
        FinaliseError::<E>::RunNotFound(run_id).text() matches Some(text) && {
            let words = "Expected to find a run with id "@;
            let id = text.skip(words.len() as int);
            &&& words.is_prefix_of(text)
            &&& run_id >= 0 ==> number(id) == run_id
            &&& run_id < 0 ==> id[0] == '-' && number(id.skip(1)) == -run_id
        },
        FinaliseError::Database(error).text() is None,
{
    let words = "Expected to find a run with id "@;
    law_signed_decimal_is_read_back(run_id as int);
    let text = words + signed_decimal(run_id as int);
    assert(text.skip(words.len() as int) =~= signed_decimal(run_id as int));
    assert(text.take(words.len() as int) =~= words);
}

/// The views of a finaliser and of its events show every field.
pub proof fn law_finaliser_views_show_every_field<F, E>(
    finaliser: Finaliser,
    event: FinaliseEvent<F, E>,
)
    ensures
        match finaliser {
            Finaliser::FindingRun { run_id, stop_time } => finaliser@ == (
            FinaliserView::FindingRun { run_id, stop_time }),
            Finaliser::SavingRun { run_id, stop_time } => finaliser@ == (FinaliserView::SavingRun {
                run_id,
                stop_time,
            }),
            Finaliser::FindingIterations { stop_time } => finaliser@ == (
            FinaliserView::FindingIterations { stop_time }),
            Finaliser::SavingIteration { stop_time, rest } => finaliser@ == (
            FinaliserView::SavingIteration { stop_time, rest: rest@ }),
            Finaliser::Finished => finaliser@ == FinaliserView::Finished,
        },
        match event {
            FinaliseEvent::RunFound(found) => event@ == FinaliseEventView::<F, E>::RunFound(found),
            FinaliseEvent::RunSaved => event@ == FinaliseEventView::<F, E>::RunSaved,
            FinaliseEvent::IterationsFound(found) => event@ == FinaliseEventView::<
                F,
                E,
            >::IterationsFound(found@),
            FinaliseEvent::IterationSaved => event@ == FinaliseEventView::<F, E>::IterationSaved,
            FinaliseEvent::Failed(error) => event@ == FinaliseEventView::<F, E>::Failed(error),
        },
{
}

} // verus!
