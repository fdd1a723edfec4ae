//! The iterations of an alignment: which points take part in each, and when to stop.
use crate::alignment::SolveError;
use crate::order::{is_nan, rank, rank_of_bits};
use crate::rows::{all_positions, all_within, law_picks_compose, positions, rows_at, select};
use crate::scalar::{
    count_of, functional, largest_of, less, less_of, one_of, ratio_of, times_of, whole_of, Scalar,
};
use crate::sort::{comes_before, is_stable_order, law_order_is_complete, stable_order};
use ndarray_rand::rand::seq::SliceRandom;
use ndarray_rand::rand::thread_rng;
use vstd::prelude::*;

verus! {

/// How many points take part in an iteration at most.
pub const DEFAULT_SAMPLE_SIZE: usize = 7200;

/// The iterations that the first alignment may take.
pub const INIT_ICP_MAX_ITERATIONS: usize = 20;

/// The iterations that the alignment of a hypothesis may take.
pub const SECOND_ICP_MAX_ITERATIONS: usize = 40;

/// The error below which an alignment has converged: fifteen thousandths.
pub fn tolerance<T: Scalar>() -> (r: T)
    ensures
        functional::<T>() ==> r == ratio_of::<T>(15, 1000),
{
    T::ratio(15, 1000)
}

/// The share of the pairs that is kept: all of them.
pub fn default_trim_percentage<T: Scalar>() -> (r: T)
    ensures
        functional::<T>() ==> r == one_of::<T>(),
{
    T::ratio(1, 1)
}

/// `chosen` holds items of `items` from places that are all different.
pub open spec fn chosen_from(chosen: Seq<usize>, items: Seq<usize>) -> bool {
    exists|places: Seq<int>|
        {
            &&& #[trigger] places.no_duplicates()
            &&& places.len() == chosen.len()
            &&& forall|i: int|
                0 <= i < chosen.len() ==> 0 <= (#[trigger] places[i]) < items.len() && chosen[i]
                    == items[places[i]]
        }
}

/// Calls `SliceRandom::choose_multiple` of the `rand` crate with the generator of this
/// thread, for fewer items than there are: as many items as asked for, each from a place
/// of its own. Which ones and in which order is left to chance.
#[verifier::external_body]
fn choose_multiple(items: &Vec<usize>, amount: usize) -> (chosen: Vec<usize>)
    requires
        amount < items@.len(),
    ensures
        chosen@.len() == amount,
        chosen_from(chosen@, items@),
{
    items.as_slice().choose_multiple(&mut thread_rng(), amount).cloned().collect()
}

/// `indices` are positions of `n_points` points, none of them twice: all in their
/// order where there are no more than `sample_size`, and `sample_size` of them
/// otherwise.
pub open spec fn is_sample(indices: Seq<usize>, n_points: nat, sample_size: nat) -> bool {
    &&& indices.no_duplicates()
    &&& all_within(indices, n_points as int)
    &&& if n_points <= sample_size {
        indices == positions(n_points)
    } else {
        indices.len() == sample_size
    }
}

/// The positions of the points that take part in an iteration: all of them, where
/// there are no more than `sample_size`, and otherwise `sample_size` of them picked at
/// random.
pub fn sample_indices(n_points: usize, sample_size: usize) -> (indices: Vec<usize>)
    ensures
        is_sample(indices@, n_points as nat, sample_size as nat),
{
    let all: Vec<usize> = all_positions(n_points);
    if n_points <= sample_size {
        all
    } else {
        let chosen: Vec<usize> = choose_multiple(&all, sample_size);
        proof {
            let places = choose|places: Seq<int>|
                {
                    &&& #[trigger] places.no_duplicates()
                    &&& places.len() == chosen@.len()
                    &&& forall|i: int|
                        0 <= i < chosen@.len() ==> 0 <= (#[trigger] places[i]) < all@.len()
                            && chosen@[i] == all@[places[i]]
                };
            assert forall|i: int| 0 <= i < chosen@.len() implies (#[trigger] chosen@[i])
                == places[i] && chosen@[i] < n_points by {
                assert(0 <= places[i] < all@.len());
            }
        }
        chosen
    }
}

/// Splits the nearest neighbours that were found for a sample, given as the position
/// of a target point and its distance: the target points themselves, their positions
/// and their distances.
pub fn find_closest_pairs_kdtree<P: Copy, T: Copy>(
    nearest: &Vec<(usize, T)>,
    target_pts: &Vec<P>,
) -> (r: (Vec<P>, Vec<usize>, Vec<T>))
    requires
        forall|i: int| 0 <= i < nearest@.len() ==> (#[trigger] nearest@[i]).0 < target_pts@.len(),
    ensures
        r.0@ == rows_at(target_pts@, r.1@),
        r.1@ == nearest@.map_values(|m: (usize, T)| m.0),
        r.2@ == nearest@.map_values(|m: (usize, T)| m.1),
{
    let mut closest_indices: Vec<usize> = Vec::new();
    let mut distances: Vec<T> = Vec::new();
    let mut i: usize = 0;
    while i < nearest.len()
        invariant
            i <= nearest@.len(),
            closest_indices@.len() == i,
            distances@.len() == i,
            forall|j: int| 0 <= j < i ==> #[trigger] closest_indices@[j] == nearest@[j].0,
            forall|j: int| 0 <= j < i ==> #[trigger] distances@[j] == nearest@[j].1,
        decreases nearest@.len() - i,
    {
        let (index, distance): (usize, T) = nearest[i];
        closest_indices.push(index);
        distances.push(distance);
        i += 1;
    }
    assert forall|j: int| 0 <= j < closest_indices@.len() implies (
    #[trigger] closest_indices@[j]) < target_pts@.len() by {
        assert(nearest@[j].0 < target_pts@.len());
    }
    let matched: Vec<P> = select(target_pts, &closest_indices);
    (matched, closest_indices, distances)
}

/// How many of `n` pairs are kept: the whole part of `n` times the share.
pub fn keep_count<T: Scalar>(n: usize, share: T) -> (r: usize)
    ensures
        functional::<T>() ==> r == whole_of(times_of(count_of(n), share)),
{
    T::from_count(n).times(share).to_count()
}

/// The ranks of distances that are given by their bit patterns.
pub open spec fn ranks_of(bits: Seq<u64>) -> Seq<i64> {
    Seq::new(bits.len(), |i: int| rank(bits[i]) as i64)
}

/// `kept` holds the positions of the `n` smallest distances, or of all where there are
/// fewer, by rising distance and among equal distances by rising position.
pub open spec fn keeps_closest(kept: Seq<usize>, bits: Seq<u64>, n: nat) -> bool {
    exists|order: Seq<usize>| #[trigger]
        is_stable_order(ranks_of(bits), order) && kept == order.take(
            (if n <= bits.len() {
                n
            } else {
                bits.len()
            }) as int,
        )
}

/// Drops the pairs that lie farthest apart: the positions of the `n_to_keep` smallest
/// distances, given by their bit patterns.
pub fn closest_indices(distance_bits: &Vec<u64>, n_to_keep: usize) -> (kept: Vec<usize>)
    requires
        forall|i: int| 0 <= i < distance_bits@.len() ==> !is_nan(#[trigger] distance_bits@[i]),
    ensures
        keeps_closest(kept@, distance_bits@, n_to_keep as nat),
        all_within(kept@, distance_bits@.len() as int),
{
    let mut keys: Vec<i64> = Vec::new();
    let mut i: usize = 0;
    while i < distance_bits.len()
        invariant
            i <= distance_bits@.len(),
            forall|j: int|
                0 <= j < distance_bits@.len() ==> !is_nan(#[trigger] distance_bits@[j]),
            keys@ == ranks_of(distance_bits@.take(i as int)),
        decreases distance_bits@.len() - i,
    {
        let key: i64 = rank_of_bits(distance_bits[i]).unwrap();
        keys.push(key);
        i += 1;
    }
    assert(distance_bits@.take(i as int) == distance_bits@);
    let order: Vec<usize> = stable_order(&keys);
    let n: usize = if n_to_keep <= order.len() {
        n_to_keep
    } else {
        order.len()
    };
    let mut kept: Vec<usize> = Vec::new();
    let mut j: usize = 0;
    while j < n
        invariant
            j <= n <= order@.len(),
            kept@ == order@.take(j as int),
        decreases n - j,
    {
        kept.push(order[j]);
        j += 1;
    }
    kept
}

/// No pair that is dropped lies closer together than one that is kept.
pub proof fn law_kept_are_closest(
    kept: Seq<usize>,
    bits: Seq<u64>,
    n: nat,
    inside: usize,
    outside: usize,
)
    requires
        keeps_closest(kept, bits, n),
        forall|i: int| 0 <= i < bits.len() ==> !is_nan(#[trigger] bits[i]),
        kept.contains(inside),
        !kept.contains(outside),
        outside < bits.len(),
    ensures
        rank(bits[inside as int]) <= rank(bits[outside as int]),
{
    let order = choose|order: Seq<usize>| #[trigger]
        is_stable_order(ranks_of(bits), order) && kept == order.take(
            (if n <= bits.len() {
                n
            } else {
                bits.len()
            }) as int,
        );
    law_order_is_complete(ranks_of(bits), order, outside);
    let p = choose|p: int| 0 <= p < kept.len() && kept[p] == inside;
    let q = choose|q: int| 0 <= q < order.len() && order[q] == outside;
    assert(order[p] == inside);
    if q < kept.len() {
        assert(kept[q] == outside);
    }
    assert(p < q);
    assert(comes_before(ranks_of(bits), order[p], order[q]));
    assert(!is_nan(bits[inside as int]) && !is_nan(bits[outside as int]));
}

/// The pairs that an iteration fits: source points, the target points matched to them
/// and the normals there, position by position.
pub struct Inliers<P> {
    pub sources: Vec<P>,
    pub targets: Vec<P>,
    pub normals: Vec<P>,
}

/// Picks the kept pairs out of the matches: `matched_indices` are the positions of the
/// matched target points in the target cloud, which the normals are listed by.
pub fn select_inliers<P: Copy>(
    sampled_sources: &Vec<P>,
    matched_targets: &Vec<P>,
    matched_indices: &Vec<usize>,
    target_normals: &Vec<P>,
    kept: &Vec<usize>,
) -> (inliers: Inliers<P>)
    requires
        sampled_sources@.len() == matched_targets@.len() == matched_indices@.len(),
        all_within(kept@, sampled_sources@.len() as int),
        all_within(matched_indices@, target_normals@.len() as int),
    ensures
        inliers.sources@ == rows_at(sampled_sources@, kept@),
        inliers.targets@ == rows_at(matched_targets@, kept@),
        inliers.normals@ == rows_at(rows_at(target_normals@, matched_indices@), kept@),
{
    let sources: Vec<P> = select(sampled_sources, kept);
    let targets: Vec<P> = select(matched_targets, kept);
    let global_indices: Vec<usize> = select(matched_indices, kept);
    proof {
        law_picks_compose(target_normals@, matched_indices@, kept@);
    }
    let normals: Vec<P> = select(target_normals, &global_indices);
    Inliers { sources, targets, normals }
}

/// Where an alignment stands.
#[derive(Clone, Copy, PartialEq, Eq, Structural, Debug)]
pub enum IcpStatus {
    /// Another iteration is due.
    Running,
    /// The error fell below the tolerance.
    Converged,
    /// The linear system of an iteration could not be solved.
    SolverFailed,
    /// All iterations have been made.
    Exhausted,
}

/// The state of an alignment between two iterations.
pub struct IcpState<M, T> {
    /// The transform found so far.
    pub transform: M,
    /// The error after the last iteration that was made, or the largest number.
    pub last_error: T,
    /// The number of iterations made, not counting one that ended the alignment early.
    pub iteration: usize,
    pub status: IcpStatus,
}

/// What an iteration came to.
pub enum IcpEvent<M, T> {
    /// The linear system could not be solved.
    SolverFailed { reason: SolveError },
    /// The transform was updated, and left this error.
    Stepped { transform: M, error: T },
}

/// The state before the first iteration.
pub open spec fn icp_initial<M, T: Scalar>(transform: M, max_iterations: usize) -> IcpState<M, T> {
    IcpState {
        transform,
        last_error: largest_of(),
        iteration: 0,
        status: if max_iterations == 0 {
            IcpStatus::Exhausted
        } else {
            IcpStatus::Running
        },
    }
}

/// The state after an iteration.
pub open spec fn icp_next<M, T: Scalar>(
    state: IcpState<M, T>,
    event: IcpEvent<M, T>,
    max_iterations: usize,
    tolerance: T,
) -> IcpState<M, T> {
    match event {
        IcpEvent::SolverFailed { .. } => IcpState { status: IcpStatus::SolverFailed, ..state },
        IcpEvent::Stepped { transform, error } => if less_of(error, tolerance) {
            IcpState {
                transform,
                last_error: error,
                iteration: state.iteration,
                status: IcpStatus::Converged,
            }
        } else {
            IcpState {
                transform,
                last_error: error,
                iteration: (state.iteration + 1) as usize,
                status: if state.iteration + 1 == max_iterations {
                    IcpStatus::Exhausted
                } else {
                    IcpStatus::Running
                },
            }
        },
    }
}

/// Starts an alignment.
pub fn icp_start<M, T: Scalar>(transform: M, max_iterations: usize) -> (state: IcpState<M, T>)
    ensures
        functional::<T>() ==> state == icp_initial::<M, T>(transform, max_iterations),
        state.iteration == 0,
        state.status is Running <==> max_iterations > 0,
{
    IcpState {
        transform,
        last_error: T::largest(),
        iteration: 0,
        status: if max_iterations == 0 {
            IcpStatus::Exhausted
        } else {
            IcpStatus::Running
        },
    }
}

/// Takes an iteration's outcome into account.
pub fn icp_advance<M, T: Scalar>(
    state: IcpState<M, T>,
    event: IcpEvent<M, T>,
    max_iterations: usize,
    tolerance: T,
) -> (next: IcpState<M, T>)
    requires
        state.status is Running,
        state.iteration < max_iterations,
    ensures
        functional::<T>() ==> next == icp_next(state, event, max_iterations, tolerance),
        state.iteration <= next.iteration <= max_iterations,
        next.status is Running ==> state.iteration < next.iteration < max_iterations,
{
    match event {
        IcpEvent::SolverFailed { .. } => IcpState {
            transform: state.transform,
            last_error: state.last_error,
            iteration: state.iteration,
            status: IcpStatus::SolverFailed,
        },
        IcpEvent::Stepped { transform, error } => if less(error, tolerance) {
            IcpState {
                transform,
                last_error: error,
                iteration: state.iteration,
                status: IcpStatus::Converged,
            }
        } else {
            IcpState {
                transform,
                last_error: error,
                iteration: state.iteration + 1,
                status: if state.iteration + 1 == max_iterations {
                    IcpStatus::Exhausted
                } else {
                    IcpStatus::Running
                },
            }
        },
    }
}

/// Whether the error of an iteration, counted from zero, is reported: the first one
/// and every fifth.
pub fn reports_progress(iteration: usize) -> (r: bool)
    requires
        iteration < usize::MAX,
    ensures
        r == ((iteration + 1) % 5 == 0 || iteration == 0),
{
    (iteration + 1) % 5 == 0 || iteration == 0
}

/// The state after a whole alignment whose iterations come to `events`: what follows
/// the event that ends it is not looked at.
pub open spec fn icp_run<M, T: Scalar>(
    state: IcpState<M, T>,
    events: Seq<IcpEvent<M, T>>,
    max_iterations: usize,
    tolerance: T,
) -> IcpState<M, T>
    decreases events.len(),
{
    if events.len() == 0 || !(state.status is Running) {
        state
    } else {
        icp_run(
            icp_next(state, events[0], max_iterations, tolerance),
            events.drop_first(),
            max_iterations,
            tolerance,
        )
    }
}

/// A state that an alignment of `max_iterations` can be in: it is running exactly
/// while iterations are left and none has ended it, and a converged one has an error
/// below the tolerance.
pub open spec fn icp_valid<M, T: Scalar>(
    state: IcpState<M, T>,
    max_iterations: usize,
    tolerance: T,
) -> bool {
    &&& state.iteration <= max_iterations
    &&& state.status is Running ==> state.iteration < max_iterations
    &&& state.status is Exhausted <==> state.iteration == max_iterations
    &&& state.status is Converged ==> less_of(state.last_error, tolerance)
}

/// Every alignment starts in a valid state, and every iteration leads to one.
pub proof fn law_states_stay_valid<M, T: Scalar>(
    transform: M,
    state: IcpState<M, T>,
    event: IcpEvent<M, T>,
    max_iterations: usize,
    tolerance: T,
)
    requires
        icp_valid(state, max_iterations, tolerance),
        state.status is Running,
    ensures
        icp_valid(icp_initial::<M, T>(transform, max_iterations), max_iterations, tolerance),
        icp_valid(
            icp_next(state, event, max_iterations, tolerance),
            max_iterations,
            tolerance,
        ),
{
}

/// An alignment ends: with an outcome for every iteration allowed, it is no longer
/// running, and its state is valid.
pub proof fn law_alignment_ends<M, T: Scalar>(
    state: IcpState<M, T>,
    events: Seq<IcpEvent<M, T>>,
    max_iterations: usize,
    tolerance: T,
)
    requires
        icp_valid(state, max_iterations, tolerance),
        events.len() >= max_iterations - state.iteration,
    ensures
        !(icp_run(state, events, max_iterations, tolerance).status is Running),
        icp_valid(
            icp_run(state, events, max_iterations, tolerance),
            max_iterations,
            tolerance,
        ),
    decreases events.len(),
{
    if events.len() > 0 && state.status is Running {
        let next = icp_next(state, events[0], max_iterations, tolerance);
        law_states_stay_valid(state.transform, state, events[0], max_iterations, tolerance);
        if next.status is Running {
            law_alignment_ends(next, events.drop_first(), max_iterations, tolerance);
        } else {
            assert(icp_run(next, events.drop_first(), max_iterations, tolerance) == next);
        }
    }
}

/// A system that cannot be solved ends the alignment with the transform and the error
/// of the iteration before, whatever would have followed.
pub proof fn law_failure_keeps_last_result<M, T: Scalar>(
    state: IcpState<M, T>,
    reason: SolveError,
    rest: Seq<IcpEvent<M, T>>,
    max_iterations: usize,
    tolerance: T,
)
    requires
        state.status is Running,
    ensures
        ({
            let end = icp_run(
                state,
                seq![IcpEvent::SolverFailed { reason }] + rest,
                max_iterations,
                tolerance,
            );
            &&& end.status is SolverFailed
            &&& end.transform == state.transform
            &&& end.last_error == state.last_error
        }),
{
    let events = seq![IcpEvent::<M, T>::SolverFailed { reason }] + rest;
    assert(events.drop_first() =~= rest);
    assert(icp_run(state, events, max_iterations, tolerance) == icp_run(
        icp_next(state, events[0], max_iterations, tolerance),
        rest,
        max_iterations,
        tolerance,
    ));
}

/// An error below the tolerance ends the alignment with the transform that led to it.
pub proof fn law_convergence_ends<M, T: Scalar>(
    state: IcpState<M, T>,
    transform: M,
    error: T,
    rest: Seq<IcpEvent<M, T>>,
    max_iterations: usize,
    tolerance: T,
)
    requires
        state.status is Running,
        less_of(error, tolerance),
    ensures
        ({
            let end = icp_run(
                state,
                seq![IcpEvent::Stepped { transform, error }] + rest,
                max_iterations,
                tolerance,
            );
            &&& end.status is Converged
            &&& end.transform == transform
            &&& end.last_error == error
        }),
{
    let events = seq![IcpEvent::<M, T>::Stepped { transform, error }] + rest;
    assert(events.drop_first() =~= rest);
    assert(icp_run(state, events, max_iterations, tolerance) == icp_run(
        icp_next(state, events[0], max_iterations, tolerance),
        rest,
        max_iterations,
        tolerance,
    ));
}

/// A run makes no iteration undone.
pub(crate) proof fn lemma_iterations_grow<M, T: Scalar>(
    state: IcpState<M, T>,
    events: Seq<IcpEvent<M, T>>,
    max_iterations: usize,
    tolerance: T,
)
    requires
        icp_valid(state, max_iterations, tolerance),
    ensures
        icp_valid(
            icp_run(state, events, max_iterations, tolerance),
            max_iterations,
            tolerance,
        ),
        state.iteration <= icp_run(state, events, max_iterations, tolerance).iteration,
    decreases events.len(),
{
    if events.len() > 0 && state.status is Running {
        let next = icp_next(state, events[0], max_iterations, tolerance);
        law_states_stay_valid(state.transform, state, events[0], max_iterations, tolerance);
        lemma_iterations_grow(next, events.drop_first(), max_iterations, tolerance);
    }
}

/// An alignment that neither converges nor completes an iteration leaves the initial
/// transform as it was, and its error is the largest number.
pub proof fn law_nothing_done_nothing_changed<M, T: Scalar>(
    transform: M,
    events: Seq<IcpEvent<M, T>>,
    max_iterations: usize,
    tolerance: T,
)
    ensures
        ({
            let initial = icp_initial::<M, T>(transform, max_iterations);
            let end = icp_run(initial, events, max_iterations, tolerance);
            end.iteration == 0 && !(end.status is Converged) ==> {
                &&& end.transform == transform
                &&& end.last_error == largest_of::<T>()
            }
        }),
{
    let initial = icp_initial::<M, T>(transform, max_iterations);
    if events.len() > 0 && initial.status is Running {
        let next = icp_next(initial, events[0], max_iterations, tolerance);
        let rest = events.drop_first();
        law_states_stay_valid(transform, initial, events[0], max_iterations, tolerance);
        lemma_iterations_grow(next, rest, max_iterations, tolerance);
        if !(next.status is Running) {
            assert(icp_run(next, rest, max_iterations, tolerance) == next);
        }
    }
}

/// An alignment that ended by itself, before the limit: it converged, or its system could
/// not be solved.
pub open spec fn ended_early<M, T>(state: IcpState<M, T>) -> bool {
    state.status is Converged || state.status is SolverFailed
}

/// A run that does not use up its limit leads to the same state under a larger one.
pub(crate) proof fn lemma_larger_limit<M, T: Scalar>(
    state: IcpState<M, T>,
    events: Seq<IcpEvent<M, T>>,
    small: usize,
    large: usize,
    tolerance: T,
)
    requires
        small <= large,
        state.iteration < small,
        !(icp_run(state, events, small, tolerance).status is Exhausted),
    ensures
        icp_run(state, events, large, tolerance) == icp_run(state, events, small, tolerance),
    decreases events.len(),
{
    if events.len() > 0 && state.status is Running {
        let next = icp_next(state, events[0], small, tolerance);
        let rest = events.drop_first();
        if next.status is Running {
            lemma_larger_limit(next, rest, small, large, tolerance);
        } else {
            assert(icp_run(next, rest, small, tolerance) == next);
            assert(icp_run(next, rest, large, tolerance) == next);
        }
    }
}

/// A run that converged, or failed, under one limit ends the same under any larger one.
pub proof fn law_larger_limit_ends_the_same<M, T: Scalar>(
    transform: M,
    events: Seq<IcpEvent<M, T>>,
    small: usize,
    large: usize,
    tolerance: T,
)
    requires
        small <= large,
        ended_early(icp_run(icp_initial(transform, small), events, small, tolerance)),
    ensures
        icp_run(icp_initial(transform, large), events, large, tolerance) == icp_run(
            icp_initial(transform, small),
            events,
            small,
            tolerance,
        ),
{
    if small > 0 {
        lemma_larger_limit(icp_initial(transform, small), events, small, large, tolerance);
    }
}

/// A run over two lists of events goes on with the second from where the first leads.
proof fn lemma_run_append<M, T: Scalar>(
    state: IcpState<M, T>,
    first: Seq<IcpEvent<M, T>>,
    second: Seq<IcpEvent<M, T>>,
    max_iterations: usize,
    tolerance: T,
)
    ensures
        icp_run(state, first + second, max_iterations, tolerance) == icp_run(
            icp_run(state, first, max_iterations, tolerance),
            second,
            max_iterations,
            tolerance,
        ),
    decreases first.len(),
{
    if first.len() == 0 {
        assert(first + second =~= second);
    } else if state.status is Running {
        assert((first + second).drop_first() =~= first.drop_first() + second);
        lemma_run_append(
            icp_next(state, first[0], max_iterations, tolerance),
            first.drop_first(),
            second,
            max_iterations,
            tolerance,
        );
    }
}

/// A run that uses up a limit is still running under a larger one.
proof fn lemma_limit_reached<M, T: Scalar>(
    state: IcpState<M, T>,
    events: Seq<IcpEvent<M, T>>,
    small: usize,
    large: usize,
    tolerance: T,
)
    requires
        small < large,
        state.iteration < small,
        state.status is Running,
        events.len() == small - state.iteration,
        icp_run(state, events, small, tolerance).status is Exhausted,
    ensures
        icp_run(state, events, large, tolerance) == (IcpState {
            status: IcpStatus::Running,
            ..icp_run(state, events, small, tolerance)
        }),
        icp_run(state, events, small, tolerance).iteration == small,
    decreases events.len(),
{
    let next = icp_next(state, events[0], small, tolerance);
    let wider = icp_next(state, events[0], large, tolerance);
    let rest = events.drop_first();
    if next.status is Running {
        lemma_limit_reached(next, rest, small, large, tolerance);
    } else {
        assert(icp_run(next, rest, small, tolerance) == next);
        assert(rest.len() == 0);
        assert(icp_run(wider, rest, large, tolerance) == wider);
    }
}

/// `later` is `state` after `shift` more iterations; the errors agree once an iteration
/// has been made.
pub open spec fn is_shifted<M, T>(
    later: IcpState<M, T>,
    state: IcpState<M, T>,
    shift: usize,
    error: T,
) -> bool {
    &&& later.transform == state.transform
    &&& later.status == state.status
    &&& later.iteration == shift + state.iteration
    &&& later.last_error == (if state.iteration > 0 || state.status is Converged {
        state.last_error
    } else {
        error
    })
}

/// States that are shifted lead to states that are shifted.
proof fn lemma_shifted_run<M, T: Scalar>(
    later: IcpState<M, T>,
    state: IcpState<M, T>,
    events: Seq<IcpEvent<M, T>>,
    shift: usize,
    limit: usize,
    error: T,
    tolerance: T,
)
    requires
        is_shifted(later, state, shift, error),
        shift + limit <= usize::MAX,
        state.status is Running ==> state.iteration < limit,
    ensures
        is_shifted(
            icp_run(later, events, (shift + limit) as usize, tolerance),
            icp_run(state, events, limit, tolerance),
            shift,
            error,
        ),
    decreases events.len(),
{
    if events.len() > 0 && state.status is Running {
        lemma_shifted_run(
            icp_next(later, events[0], (shift + limit) as usize, tolerance),
            icp_next(state, events[0], limit, tolerance),
            events.drop_first(),
            shift,
            limit,
            error,
            tolerance,
        );
    }
}

/// A run of `a` iterations that did not end early, followed by a run of `b` from where it
/// stopped, is a run of `a + b`: it leads to the same transform and ends in the same way,
/// and where the second run made an iteration, with the same error. In particular an error
/// that no longer changes does not end a run.
pub proof fn law_runs_compose<M, T: Scalar>(
    transform: M,
    first: Seq<IcpEvent<M, T>>,
    second: Seq<IcpEvent<M, T>>,
    a: usize,
    b: usize,
    tolerance: T,
)
    requires
        a + b <= usize::MAX,
        first.len() == a,
        icp_run(icp_initial(transform, a), first, a, tolerance).status is Exhausted,
    ensures
        ({
            let middle = icp_run(icp_initial(transform, a), first, a, tolerance);
            is_shifted(
                icp_run(
                    icp_initial(transform, (a + b) as usize),
                    first + second,
                    (a + b) as usize,
                    tolerance,
                ),
                icp_run(icp_initial(middle.transform, b), second, b, tolerance),
                a,
                middle.last_error,
            )
        }),
{
    let limit = (a + b) as usize;
    let middle = icp_run(icp_initial(transform, a), first, a, tolerance);
    let reached = icp_run(icp_initial(transform, limit), first, limit, tolerance);
    lemma_run_append(icp_initial(transform, limit), first, second, limit, tolerance);
    if a > 0 && b > 0 {
        lemma_limit_reached(icp_initial(transform, a), first, a, limit, tolerance);
    } else if b == 0 {
        lemma_iterations_grow(icp_initial(transform, a), first, a, tolerance);
    }
    assert(is_shifted(
        reached,
        icp_initial::<M, T>(middle.transform, b),
        a,
        middle.last_error,
    ));
    lemma_shifted_run(
        reached,
        icp_initial(middle.transform, b),
        second,
        a,
        b,
        middle.last_error,
        tolerance,
    );
}

/// A run over one more event goes on from where the run without it stands.
pub(crate) proof fn lemma_run_push<M, T: Scalar>(
    state: IcpState<M, T>,
    events: Seq<IcpEvent<M, T>>,
    event: IcpEvent<M, T>,
    max_iterations: usize,
    tolerance: T,
)
    ensures
        ({
            let before = icp_run(state, events, max_iterations, tolerance);
            icp_run(state, events.push(event), max_iterations, tolerance)
                == if before.status is Running {
                icp_next(before, event, max_iterations, tolerance)
            } else {
                before
            }
        }),
    decreases events.len(),
{
    let more = events.push(event);
    if state.status is Running {
        if events.len() == 0 {
            assert(more.drop_first() =~= Seq::empty());
            assert(icp_run(
                icp_next(state, event, max_iterations, tolerance),
                more.drop_first(),
                max_iterations,
                tolerance,
            ) == icp_next(state, event, max_iterations, tolerance));
        } else {
            let next = icp_next(state, events[0], max_iterations, tolerance);
            assert(more.drop_first() =~= events.drop_first().push(event));
            lemma_run_push(next, events.drop_first(), event, max_iterations, tolerance);
        }
    }
}

} // verus!
