//! The local embedding optimization: this node's position descends along
//! the error between measured latencies and distances in coordinate space,
//! with momentum and a learning rate that shrinks when the loss stalls.

use vstd::prelude::*;

use crate::aggregate::{copy_vector, coords};
use crate::embedding::{
    add_force, momentum_step, position_step, spec_force, spec_momentum, spec_moved, spec_zeros, zeros,
};
use crate::fixed::{spec_times, times, SCALE};
use crate::loss::{compute_loss, spec_loss};
use crate::probe::Probe;
use crate::sampling::{is_sample, lemma_sample, peer_views, sample_ids, select_peers, selected};
use crate::table::{lemma_position, Table};
use crate::types::ProbeParameters;
use crate::utils::{gen_random_vec, lemma_texts, texts};

verus! {

/// Where the descent stands: the least loss seen, the learning rate, for how
/// many steps the loss has not improved, and how many steps were taken.
#[derive(Clone, Copy, Debug)]
pub struct Schedule {
    pub min_loss: i64,
    pub lr: i64,
    pub patience: u64,
    pub iteration: u64,
}

impl Schedule {
    /// Whether another step is due: the steps are not used up, and the
    /// learning rate has not fallen below its floor.
    pub open spec fn proceeds(self, parameters: ProbeParameters) -> bool {
        self.iteration < parameters.max_iters && self.lr >= parameters.min_lr
    }

    /// The schedule after a step that ended at the given loss. A loss below
    /// the least seen becomes the least seen; any other counts against the
    /// patience, and once the patience is used up the learning rate is
    /// multiplied by the factor.
    pub open spec fn advanced(self, loss: i64, parameters: ProbeParameters) -> Schedule {
        let improved = loss < self.min_loss;
        let min_loss = if improved {
            loss
        } else {
            self.min_loss
        };
        let waited = if improved {
            0
        } else {
            self.patience + 1
        };
        if waited > parameters.patience {
            Schedule {
                min_loss,
                lr: spec_times(self.lr, parameters.factor),
                patience: 0,
                iteration: (self.iteration + 1) as u64,
            }
        } else {
            Schedule {
                min_loss,
                lr: self.lr,
                patience: waited as u64,
                iteration: (self.iteration + 1) as u64,
            }
        }
    }

    /// The schedule before the first step.
    pub fn start(parameters: &ProbeParameters) -> (r: Schedule)
        ensures
            r == (Schedule { min_loss: i64::MAX, lr: parameters.lr, patience: 0, iteration: 0 }),
    {
        Schedule { min_loss: i64::MAX, lr: parameters.lr, patience: 0, iteration: 0 }
    }

    /// Whether another step is due.
    pub fn is_due(&self, parameters: &ProbeParameters) -> (r: bool)
        ensures
            r == self.proceeds(*parameters),
    {
        self.iteration < parameters.max_iters && self.lr >= parameters.min_lr
    }

    /// Moves the schedule past a step that ended at the given loss.
    pub fn advance(&mut self, loss: i64, parameters: &ProbeParameters)
        requires
            old(self).patience <= old(self).iteration,
            old(self).iteration < parameters.max_iters,
        ensures
            *final(self) == old(self).advanced(loss, *parameters),
            final(self).patience <= final(self).iteration,
    {
        if loss < self.min_loss {
            self.min_loss = loss;
            self.patience = 0;
        } else {
            self.patience = self.patience + 1;
        }
        if self.patience > parameters.patience {
            self.lr = times(self.lr, parameters.factor);
            self.patience = 0;
        }
        self.iteration = self.iteration + 1;
    }
}

/// The force on this node and the number of peers that exert it.
pub struct Pull {
    pub force: Seq<i64>,
    pub k: nat,
}

/// The pull of the first `n` peers of a batch on this node at `x`: each
/// peer that has both a measured latency and a coordinate adds its force
/// and counts.
pub open spec fn pull_of(
    x: Seq<i64>,
    telemetry: &Table<i64>,
    resolved: &Table<Vec<i64>>,
    batch: Seq<Seq<char>>,
    eps: i64,
    n: nat,
) -> Pull
    decreases n,
{
    if n == 0 {
        Pull { force: Seq::new(x.len(), |i: int| 0i64), k: 0 }
    } else {
        let before = pull_of(x, telemetry, resolved, batch, eps, (n - 1) as nat);
        let id = batch[n - 1];
        if telemetry.has(id) && resolved.has(id) {
            Pull {
                force: spec_force(before.force, x, resolved.at(id)@, telemetry.at(id), eps),
                k: before.k + 1,
            }
        } else {
            before
        }
    }
}

/// A batch without a measured latency pulls nowhere, and no pull counts
/// more peers than the batch has.
pub proof fn lemma_pull(
    x: Seq<i64>,
    telemetry: &Table<i64>,
    resolved: &Table<Vec<i64>>,
    batch: Seq<Seq<char>>,
    eps: i64,
    n: nat,
)
    requires
        n <= batch.len(),
        resolved.wf(),
    ensures
        pull_of(x, telemetry, resolved, batch, eps, n).k <= n,
        (forall|j: int| 0 <= j < n ==> !telemetry.has(#[trigger] batch[j])) ==> pull_of(
            x,
            telemetry,
            resolved,
            batch,
            eps,
            n,
        ).k == 0,
        (forall|i: int|
            0 <= i < resolved.vals().len() ==> (#[trigger] resolved.vals()[i])@.len() == x.len())
            ==> pull_of(x, telemetry, resolved, batch, eps, n).force.len() == x.len(),
    decreases n,
{
    if n > 0 {
        lemma_pull(x, telemetry, resolved, batch, eps, (n - 1) as nat);
        if forall|j: int| 0 <= j < n ==> !telemetry.has(#[trigger] batch[j]) {
            assert(!telemetry.has(batch[n - 1]));
        }
        let id = batch[n - 1];
        if resolved.has(id) && (forall|i: int|
            0 <= i < resolved.vals().len() ==> (#[trigger] resolved.vals()[i])@.len() == x.len()) {
            let p = resolved.position(id);
            assert(0 <= p < resolved.ids().len());
            if resolved.ids().len() == resolved.vals().len() {
                assert(resolved.vals()[p]@.len() == x.len());
            }
        }
    }
}

/// The force that a batch of peers exerts on this node at `x`, and how many
/// of them exert one.
pub fn batch_force(
    x: &Vec<i64>,
    telemetry: &Table<i64>,
    resolved: &Table<Vec<i64>>,
    batch: &Vec<String>,
    eps: i64,
) -> (r: (Vec<i64>, u64))
    requires
        telemetry.wf(),
        resolved.wf(),
    ensures
        r.0@ == pull_of(x@, telemetry, resolved, texts(batch@), eps, batch@.len()).force,
        r.1 == pull_of(x@, telemetry, resolved, texts(batch@), eps, batch@.len()).k,
{
    let mut force: Vec<i64> = zeros(x.len());
    let mut k: u64 = 0;
    let mut j: usize = 0;
    proof {
        lemma_texts(batch@);
    }
    while j < batch.len()
        invariant
            j <= batch@.len(),
            telemetry.wf(),
            resolved.wf(),
            texts(batch@).len() == batch@.len(),
            force@ == pull_of(x@, telemetry, resolved, texts(batch@), eps, j as nat).force,
            k == pull_of(x@, telemetry, resolved, texts(batch@), eps, j as nat).k,
            k <= j,
        decreases batch@.len() - j,
    {
        let id: &String = &batch[j];
        assert(texts(batch@)[j as int] == id@);
        if let Some(t) = telemetry.find(id) {
            if let Some(q) = resolved.find(id) {
                proof {
                    lemma_position(telemetry, t as int);
                    lemma_position(resolved, q as int);
                }
                force = add_force(&force, x, resolved.value(q), *telemetry.value(t), eps);
                k = k + 1;
            }
        }
        j += 1;
    }
    (force, k)
}

/// Gives a coordinate to every peer of the batch that has a measured latency
/// and no coordinate yet: a random point of the unit cube. Coordinates that
/// are there stay as they are.
pub fn ensure_coordinates(
    resolved: &mut Table<Vec<i64>>,
    telemetry: &Table<i64>,
    batch: &Vec<String>,
    dim: usize,
)
    requires
        old(resolved).wf(),
        telemetry.wf(),
    ensures
        final(resolved).wf(),
        old(resolved).ids().len() <= final(resolved).ids().len(),
        forall|i: int|
            0 <= i < old(resolved).ids().len() ==> final(resolved).ids()[i] == old(resolved).ids()[i] && final(resolved).vals()[i] == old(resolved).vals()[i],
        forall|i: int|
            old(resolved).ids().len() <= i < final(resolved).ids().len() ==> {
                &&& texts(batch@).contains(#[trigger] final(resolved).ids()[i])
                &&& telemetry.has(final(resolved).ids()[i])
                &&& final(resolved).vals()[i]@.len() == dim
                &&& forall|c: int|
                    0 <= c < dim ==> 0 <= #[trigger] final(resolved).vals()[i]@[c] < SCALE
            },
        forall|j: int|
            0 <= j < batch@.len() && telemetry.has(#[trigger] batch@[j]@) ==> final(resolved).has(
                batch@[j]@,
            ),
        (forall|j: int|
            0 <= j < batch@.len() && telemetry.has(#[trigger] batch@[j]@) ==> old(resolved).has(
                batch@[j]@,
            )) ==> final(resolved).ids() == old(resolved).ids() && final(resolved).vals() == old(resolved).vals(),
{
    proof {
        lemma_texts(batch@);
    }
    let mut j: usize = 0;
    while j < batch.len()
        invariant
            j <= batch@.len(),
            telemetry.wf(),
            resolved.wf(),
            texts(batch@).len() == batch@.len(),
            old(resolved).ids().len() <= resolved.ids().len(),
            forall|i: int|
                0 <= i < old(resolved).ids().len() ==> resolved.ids()[i] == old(resolved).ids()[i]
                    && resolved.vals()[i] == old(resolved).vals()[i],
            forall|i: int|
                old(resolved).ids().len() <= i < resolved.ids().len() ==> {
                    &&& texts(batch@).contains(#[trigger] resolved.ids()[i])
                    &&& telemetry.has(resolved.ids()[i])
                    &&& resolved.vals()[i]@.len() == dim
                    &&& forall|c: int| 0 <= c < dim ==> 0 <= #[trigger] resolved.vals()[i]@[c] < SCALE
                },
            forall|i: int| 0 <= i < j && telemetry.has(#[trigger] batch@[i]@) ==> resolved.has(batch@[i]@),
            (forall|i: int|
                0 <= i < j && telemetry.has(#[trigger] batch@[i]@) ==> old(resolved).has(batch@[i]@))
                ==> resolved.ids() == old(resolved).ids() && resolved.vals() == old(resolved).vals(),
        decreases batch@.len() - j,
    {
        let id: &String = &batch[j];
        assert(texts(batch@)[j as int] == id@);
        if telemetry.contains_key(id) {
            if !resolved.contains_key(id) {
                let ghost held = resolved.ids();
                let fresh: Vec<i64> = gen_random_vec(dim);
                resolved.push(id.clone(), fresh);
                proof {
                    assert(resolved.ids()[held.len() as int] == id@);
                    assert forall|i: int| 0 <= i < j && telemetry.has(#[trigger] batch@[i]@) implies resolved.has(batch@[i]@) by {
                        let p = held.index_of(batch@[i]@);
                        assert(held.contains(batch@[i]@));
                        assert(resolved.ids()[p] == batch@[i]@);
                    }
                    assert(!old(resolved).has(id@)) by {
                        if old(resolved).has(id@) {
                            let p = old(resolved).ids().index_of(id@);
                            assert(held[p] == id@);
                        }
                    }
                }
            }
            assert(resolved.has(id@));
        }
        j += 1;
    }
}

/// Where a descent stands between two steps: this node's position, its
/// momentum, and the schedule.
pub struct Descent {
    pub x: Vec<i64>,
    pub m: Vec<i64>,
    pub schedule: Schedule,
}

/// What a descent holds, as plain values.
pub struct DescentView {
    pub x: Seq<i64>,
    pub m: Seq<i64>,
    pub schedule: Schedule,
}

impl View for Descent {
    type V = DescentView;

    open spec fn view(&self) -> DescentView {
        DescentView { x: self.x@, m: self.m@, schedule: self.schedule }
    }
}

/// One step of a descent under the pull of a batch. With `k` the number of
/// peers that pull and `f` their force: the momentum becomes
/// `m * beta + (f / k) * (1 - beta)`, the position `x + m * lr` with the new
/// momentum, and the schedule moves past the loss of the round's
/// coordinates. There is no step where nothing pulls.
pub open spec fn spec_step(d: DescentView, round: &Probe, batch: Seq<Seq<char>>) -> Option<
    DescentView,
> {
    let pull = pull_of(
        d.x,
        &round.telemetry,
        &round.resolved,
        batch,
        round.parameters.eps,
        batch.len(),
    );
    if pull.k == 0 {
        None
    } else {
        let m = spec_momentum(d.m, pull.force, pull.k as u64, round.parameters.beta);
        Some(
            DescentView {
                x: spec_moved(d.x, m, d.schedule.lr),
                m,
                schedule: d.schedule.advanced(
                    spec_loss(
                        round.encoded_public_key@,
                        &round.peers,
                        &round.telemetry,
                        &round.resolved,
                        round.parameters.eps,
                    ),
                    round.parameters,
                ),
            },
        )
    }
}

/// Takes one step of a descent under the pull of a batch of peers, or
/// none, with the result `false`, where no peer of the batch pulls.
pub fn descent_step(descent: &mut Descent, round: &Probe, batch: &Vec<String>) -> (stepped: bool)
    requires
        round.wf(),
        old(descent).schedule.patience <= old(descent).schedule.iteration,
        old(descent).schedule.iteration < round.parameters.max_iters,
    ensures
        match spec_step(old(descent)@, round, texts(batch@)) {
            None => !stepped && *final(descent) == *old(descent),
            Some(next) => stepped && final(descent)@ == next,
        },
        final(descent).schedule.patience <= final(descent).schedule.iteration,
{
    proof {
        lemma_texts(batch@);
        lemma_pull(
            descent.x@,
            &round.telemetry,
            &round.resolved,
            texts(batch@),
            round.parameters.eps,
            batch@.len(),
        );
    }
    let (force, k) = batch_force(
        &descent.x,
        &round.telemetry,
        &round.resolved,
        batch,
        round.parameters.eps,
    );
    if k == 0 {
        return false;
    }
    let loss: i64 = match compute_loss(
        &round.encoded_public_key,
        &round.peers,
        &round.telemetry,
        &round.resolved,
        round.parameters.eps,
    ) {
        Ok(loss) => loss,
        Err(_) => {
            return false;
        },
    };
    let m: Vec<i64> = momentum_step(&descent.m, &force, k, round.parameters.beta);
    let x: Vec<i64> = position_step(&descent.x, &m, descent.schedule.lr);
    descent.m = m;
    descent.x = x;
    descent.schedule.advance(loss, &round.parameters);
    true
}

/// Whether no online peer has a measured latency: then nothing pulls.
pub open spec fn no_signal(round: &Probe) -> bool {
    forall|i: int|
        0 <= i < round.peers.ids().len() && (#[trigger] peer_views(&round.peers)[i]).offline_cnt
            == 0 ==> !round.telemetry.has(peer_views(&round.peers)[i].id)
}

/// Every identifier selected among the first `n` peers is the identifier of
/// one of them, of the kind selected.
pub proof fn lemma_selected(views: Seq<crate::peer::PeerView>, n: nat, online: bool, id: Seq<char>)
    requires
        n <= views.len(),
        selected(views, n, online).contains(id),
    ensures
        exists|i: int| 0 <= i < n && (#[trigger] views[i]).id == id && (views[i].offline_cnt == 0) == online,
    decreases n,
{
    if n > 0 {
        let before = selected(views, (n - 1) as nat, online);
        if (views[n - 1].offline_cnt == 0) == online && views[n - 1].id == id {
            assert(views[n - 1].id == id);
        } else {
            let s = selected(views, n, online);
            let p = choose|p: int| 0 <= p < s.len() && s[p] == id;
            if (views[n - 1].offline_cnt == 0) == online {
                assert(s == before.push(views[n - 1].id));
                assert(p < before.len());
                assert(before[p] == id);
            }
            assert(before.contains(id));
            lemma_selected(views, (n - 1) as nat, online, id);
        }
    }
}

/// Moves this node's coordinate. Step by step, a random batch of online
/// peers pulls on the position, as `descent_step` says, while the schedule
/// lasts and as long as some peer of the batch has a measured latency. Peers
/// met without a coordinate get a random one. The position that results is
/// the end of such a course of steps, whatever was drawn (`descended`); it
/// enters the coordinates when the descent has ended. Nothing else of the
/// round changes; without a measured latency to an online peer nothing does.
pub fn optimize_position(round: &mut Probe)
    requires
        old(round).wf(),
    ensures
        final(round).wf(),
        final(round).encoded_public_key == old(round).encoded_public_key,
        final(round).parameters == old(round).parameters,
        final(round).telemetry == old(round).telemetry,
        final(round).peers == old(round).peers,
        final(round).pending_peer_ids == old(round).pending_peer_ids,
        final(round).status == old(round).status,
        descended(old(round), &final(round).resolved),
        position_moved(old(round), final(round)),
        old(round).resolved.ids().len() <= final(round).resolved.ids().len(),
        forall|i: int|
            0 <= i < old(round).resolved.ids().len() ==> #[trigger] final(round).resolved.ids()[i]
                == old(round).resolved.ids()[i],
        forall|i: int|
            0 <= i < old(round).resolved.ids().len() && old(round).resolved.ids()[i] != old(round).encoded_public_key@ ==> (#[trigger] final(round).resolved.vals()[i])@ == old(round).resolved.vals()[i]@,
        forall|i: int, c: int|
            old(round).resolved.ids().len() <= i < final(round).resolved.ids().len() && 0 <= c
                < final(round).parameters.dim_size ==> 0 <= #[trigger] final(round).resolved.vals()[i]@[c] < SCALE,
        no_signal(old(round)) ==> final(round).resolved.ids() == old(round).resolved.ids()
            && coords(&final(round).resolved) == coords(&old(round).resolved),
{
    let mut descent: Descent = begin_descent(round);
    let retained: Vec<String> = select_peers(&round.peers, true);
    let ghost start_len = round.resolved.ids().len();
    let ghost mine = round.resolved.position(round.encoded_public_key@);
    let ghost mut course: Seq<Taken> = Seq::empty();
    let ghost mut last_batch: Seq<Seq<char>> = Seq::empty();
    let mut going: bool = true;
    while going
        invariant
            round.wf(),
            old(round).wf(),
            round.encoded_public_key == old(round).encoded_public_key,
            round.parameters == old(round).parameters,
            round.telemetry == old(round).telemetry,
            round.peers == old(round).peers,
            round.pending_peer_ids == old(round).pending_peer_ids,
            round.status == old(round).status,
            start_len == old(round).resolved.ids().len(),
            start_len <= round.resolved.ids().len(),
            0 <= mine < start_len,
            mine == old(round).resolved.position(old(round).encoded_public_key@),
            round.resolved.ids()[mine] == round.encoded_public_key@,
            forall|i: int|
                0 <= i < start_len ==> round.resolved.ids()[i] == old(round).resolved.ids()[i]
                    && round.resolved.vals()[i] == old(round).resolved.vals()[i],
            forall|i: int, c: int|
                start_len <= i < round.resolved.ids().len() && 0 <= c
                    < round.parameters.dim_size ==> 0 <= #[trigger] round.resolved.vals()[i]@[c]
                    < SCALE,
            descent_fits(round, descent@),
            texts(retained@) == retained_ids(old(round)),
            is_course(old(round), course),
            descent@ == course_end(old(round), course),
            going ==> round.resolved == table_end(old(round), course),
            !going ==> stops(old(round), course, &round.resolved, last_batch),
            no_signal(old(round)) ==> round.resolved.ids() == old(round).resolved.ids()
                && round.resolved.vals() == old(round).resolved.vals() && descent.x@ == old(round).resolved.vals()[mine]@,
        decreases round.parameters.max_iters - descent.schedule.iteration + (if going { 1int } else { 0int }),
    {
        let ghost stood = descent@;
        let ghost was = *round;
        going = descent_turn(round, &mut descent, &retained);
        proof {
            assert(*round == at_table(old(round), round.resolved));
            assert(was == at_table(old(round), was.resolved));
            if stood.schedule.proceeds(was.parameters) {
                let batch = choose|batch: Seq<Seq<char>>| #[trigger]
                    turn_with(&was, stood, round, descent@, going, batch);
                assert(is_batch(old(round), batch));
                assert forall|i: int, c: int|
                    start_len <= i < round.resolved.ids().len() && 0 <= c
                        < round.parameters.dim_size implies 0 <= #[trigger] round.resolved.vals()[i]@[c]
                    < SCALE by {
                    if i < was.resolved.ids().len() {
                        assert(round.resolved.ids()[i] == was.resolved.ids()[i]);
                        assert(round.resolved.vals()[i] == was.resolved.vals()[i]);
                    } else {
                        assert(filled_entry(
                            &round.resolved,
                            &was.telemetry,
                            batch,
                            was.parameters.dim_size as nat,
                            i,
                        ));
                    }
                }
                if no_signal(old(round)) {
                    lemma_sample(retained_ids(old(round)), batch);
                    assert forall|j: int| 0 <= j < batch.len() implies !was.telemetry.has(
                        #[trigger] batch[j],
                    ) by {
                        assert(retained_ids(old(round)).contains(batch[j]));
                        assert(peer_views(&was.peers).len() == was.peers.ids().len());
                        lemma_selected(
                            peer_views(&was.peers),
                            was.peers.ids().len(),
                            true,
                            batch[j],
                        );
                    }
                    if round.resolved.ids().len() > was.resolved.ids().len() {
                        assert(filled_entry(
                            &round.resolved,
                            &was.telemetry,
                            batch,
                            was.parameters.dim_size as nat,
                            was.resolved.ids().len() as int,
                        ));
                        let id = round.resolved.ids()[was.resolved.ids().len() as int];
                        let j = choose|j: int| 0 <= j < batch.len() && batch[j] == id;
                        assert(!was.telemetry.has(batch[j]));
                    }
                    assert(round.resolved.ids() =~= was.resolved.ids());
                    assert(round.resolved.vals() =~= was.resolved.vals());
                    lemma_pull(
                        stood.x,
                        &round.telemetry,
                        &round.resolved,
                        batch,
                        round.parameters.eps,
                        batch.len(),
                    );
                }
                if going {
                    let taken = Taken { batch, table: round.resolved, after: descent@ };
                    let longer = course.push(taken);
                    assert forall|i: int| 0 <= i < longer.len() implies #[trigger] step_taken(
                        old(round),
                        longer,
                        i,
                    ) by {
                        if i < course.len() {
                            assert(step_taken(old(round), course, i));
                            assert(longer[i] == course[i]);
                            if i > 0 {
                                assert(longer[i - 1] == course[i - 1]);
                            }
                        } else {
                            assert(longer[i] == taken);
                            assert(step_before(old(round), longer, i) == stood);
                            assert(table_before(old(round), longer, i) == was.resolved);
                        }
                    }
                    course = longer;
                    assert(course[course.len() - 1] == taken);
                } else {
                    last_batch = batch;
                }
            }
        }
    }
    let ghost last = round.resolved;
    let ghost end = descent@;
    end_descent(round, descent);
    proof {
        if no_signal(old(round)) {
            assert(coords(&last)[mine] == last.vals()[mine]@);
            assert(coords(&round.resolved) =~= coords(&old(round).resolved));
        }
        assert(ends_course(old(round), &round.resolved, course, last, last_batch));
        assert forall|i: int|
            0 <= i < old(round).resolved.ids().len() && old(round).resolved.ids()[i] != old(round).encoded_public_key@ implies (#[trigger] round.resolved.vals()[i])@ == old(round).resolved.vals()[i]@ by {
            assert(coords(&round.resolved)[i] == round.resolved.vals()[i]@);
            assert(coords(&last)[i] == last.vals()[i]@);
        }
        assert forall|i: int, c: int|
            old(round).resolved.ids().len() <= i < round.resolved.ids().len() && 0 <= c
                < round.parameters.dim_size implies 0 <= #[trigger] round.resolved.vals()[i]@[c]
            < SCALE by {
            assert(coords(&round.resolved)[i] == round.resolved.vals()[i]@);
            assert(coords(&last)[i] == last.vals()[i]@);
        }
    }
}

/// Whether a descent fits a round: position and momentum have as many
/// components as the round's coordinates, and the schedule has counted no
/// more steps than it grants.
pub open spec fn descent_fits(round: &Probe, d: DescentView) -> bool {
    &&& d.x.len() == round.parameters.dim_size
    &&& d.m.len() == round.parameters.dim_size
    &&& d.schedule.patience <= d.schedule.iteration
    &&& d.schedule.iteration <= round.parameters.max_iters
}

/// Whether one turn of a descent, with the batch that was drawn in it, leads
/// from a round and a descent to the next: the batch can be drawn, the
/// coordinates are filled in for it, and the descent takes the step that
/// the batch pulls it to, or none where no peer of the batch pulls.
pub open spec fn turn_with(
    before: &Probe,
    stood: DescentView,
    after: &Probe,
    stands: DescentView,
    went: bool,
    batch: Seq<Seq<char>>,
) -> bool {
    &&& is_batch(before, batch)
    &&& filled(
        &before.resolved,
        &after.resolved,
        &before.telemetry,
        batch,
        before.parameters.dim_size as nat,
    )
    &&& spec_step(stood, after, batch) == if went {
        Some(stands)
    } else {
        None::<DescentView>
    }
    &&& !went ==> stands == stood
}

/// What one turn of a descent makes of a round and a descent. Where the
/// schedule asks for no further step, nothing changes and the turn did not
/// go. Otherwise it is a turn with some batch. Nothing but the coordinates
/// changes in the round.
pub open spec fn turn_taken(
    before: &Probe,
    stood: DescentView,
    after: &Probe,
    stands: DescentView,
    went: bool,
) -> bool {
    &&& after.encoded_public_key == before.encoded_public_key
    &&& after.parameters == before.parameters
    &&& after.telemetry == before.telemetry
    &&& after.peers == before.peers
    &&& after.pending_peer_ids == before.pending_peer_ids
    &&& after.status == before.status
    &&& if stood.schedule.proceeds(before.parameters) {
        exists|batch: Seq<Seq<char>>| #[trigger] turn_with(before, stood, after, stands, went, batch)
    } else {
        !went && stands == stood && after.resolved == before.resolved
    }
}

/// The descent of a round before its first step.
pub fn begin_descent(round: &Probe) -> (d: Descent)
    requires
        round.wf(),
    ensures
        d@ == descent_start(round),
        descent_fits(round, d@),
{
    let ghost me = round.resolved.position(round.encoded_public_key@);
    proof {
        assert(round.resolved.has(round.encoded_public_key@));
        assert(0 <= me < round.resolved.ids().len());
    }
    let start: Vec<i64> = match round.resolved.find(&round.encoded_public_key) {
        Some(i) => {
            proof {
                lemma_position(&round.resolved, i as int);
            }
            copy_vector(round.resolved.value(i))
        },
        None => Vec::new(),
    };
    let dim: usize = start.len();
    Descent { x: start, m: zeros(dim), schedule: Schedule::start(&round.parameters) }
}

/// Takes one turn of a descent: where the schedule asks for a step, a batch
/// of the online peers is drawn, the peers of the batch that have a
/// measured latency get a coordinate if they have none, and the descent
/// takes the step that the batch pulls it to. The result says whether a
/// step was taken; after a turn without one the descent has ended.
/// `retained` holds the online peers of the round.
pub fn descent_turn(round: &mut Probe, descent: &mut Descent, retained: &Vec<String>) -> (went: bool)
    requires
        old(round).wf(),
        descent_fits(old(round), old(descent)@),
        texts(retained@) == retained_ids(old(round)),
    ensures
        final(round).wf(),
        descent_fits(final(round), final(descent)@),
        turn_taken(old(round), old(descent)@, final(round), final(descent)@, went),
{
    if !descent.schedule.is_due(&round.parameters) {
        return false;
    }
    let dim: usize = descent.x.len();
    let batch: Vec<String> = sample_ids(retained, round.parameters.batch_size);
    let ghost held = round.resolved;
    let ghost mine = round.resolved.position(round.encoded_public_key@);
    proof {
        lemma_texts(batch@);
        lemma_texts(retained@);
        assert(round.resolved.has(round.encoded_public_key@));
        assert(0 <= mine < round.resolved.ids().len());
    }
    ensure_coordinates(&mut round.resolved, &round.telemetry, &batch, dim);
    proof {
        lemma_pull(
            descent.x@,
            &round.telemetry,
            &round.resolved,
            texts(batch@),
            round.parameters.eps,
            batch@.len(),
        );
        assert(round.resolved.has(round.encoded_public_key@)) by {
            assert(round.resolved.ids()[mine] == round.encoded_public_key@);
        }
        assert forall|i: int| 0 <= i < round.resolved.vals().len() implies (
        #[trigger] round.resolved.vals()[i])@.len() == dim by {
            if i < held.ids().len() {
                assert(round.resolved.vals()[i] == held.vals()[i]);
                assert(held.vals()[i]@.len() == dim);
            } else {
                assert(texts(batch@).contains(round.resolved.ids()[i]));
            }
        }
        assert(round.wf());
        assert(filled(&held, &round.resolved, &round.telemetry, texts(batch@), dim as nat)) by {
            assert forall|i: int|
                held.ids().len() <= i < round.resolved.ids().len() implies #[trigger] filled_entry(
                &round.resolved,
                &round.telemetry,
                texts(batch@),
                dim as nat,
                i,
            ) by {
                assert(texts(batch@).contains(round.resolved.ids()[i]));
            }
            assert forall|j: int|
                0 <= j < texts(batch@).len() && round.telemetry.has(
                    #[trigger] texts(batch@)[j],
                ) implies round.resolved.has(texts(batch@)[j]) by {
                assert(texts(batch@)[j] == batch@[j]@);
            }
        }
        assert(is_batch(old(round), texts(batch@)));
    }
    let went: bool = descent_step(descent, round, &batch);
    proof {
        assert(turn_with(old(round), old(descent)@, round, descent@, went, texts(batch@)));
    }
    went
}

/// Ends a descent: where it has led becomes this node's coordinate.
pub fn end_descent(round: &mut Probe, descent: Descent)
    requires
        old(round).wf(),
        descent.x@.len() == old(round).parameters.dim_size,
    ensures
        final(round).wf(),
        final(round).encoded_public_key == old(round).encoded_public_key,
        final(round).parameters == old(round).parameters,
        final(round).telemetry == old(round).telemetry,
        final(round).peers == old(round).peers,
        final(round).pending_peer_ids == old(round).pending_peer_ids,
        final(round).status == old(round).status,
        final(round).resolved.ids() == old(round).resolved.ids(),
        coords(&final(round).resolved) == coords(&old(round).resolved).update(
            old(round).resolved.position(old(round).encoded_public_key@),
            descent.x@,
        ),
{
    match round.resolved.find(&round.encoded_public_key) {
        Some(mine) => {
            proof {
                lemma_position(&round.resolved, mine as int);
            }
            let ghost held = round.resolved;
            round.resolved.set(mine, descent.x);
            proof {
                assert(round.resolved.has(round.encoded_public_key@)) by {
                    assert(round.resolved.ids()[mine as int] == round.encoded_public_key@);
                }
                assert(coords(&round.resolved) =~= coords(&held).update(
                    mine as int,
                    descent.x@,
                ));
            }
        },
        None => {},
    }
}

/// The descent before its first step: this node stands at its coordinate,
/// without momentum, at the configured learning rate.
pub open spec fn descent_start(round: &Probe) -> DescentView {
    DescentView {
        x: round.resolved.at(round.encoded_public_key@)@,
        m: spec_zeros(round.parameters.dim_size as nat),
        schedule: Schedule { min_loss: i64::MAX, lr: round.parameters.lr, patience: 0, iteration: 0 },
    }
}

/// The online peers of a round, in table order: those that batches are
/// drawn from.
pub open spec fn retained_ids(round: &Probe) -> Seq<Seq<char>> {
    selected(peer_views(&round.peers), round.peers.ids().len(), true)
}

/// Whether `batch` can be drawn in a round: up to `batch_size` of the online
/// peers, none of them twice.
pub open spec fn is_batch(round: &Probe, batch: Seq<Seq<char>>) -> bool {
    &&& is_sample(retained_ids(round), batch)
    &&& batch.len() == crate::optimize::limited(
        retained_ids(round).len(),
        round.parameters.batch_size,
    )
}

/// The round with other coordinates.
pub open spec fn at_table(round: &Probe, table: Table<Vec<i64>>) -> Probe {
    Probe { resolved: table, ..*round }
}

/// Whether entry `i` of the coordinates is one that a batch brought in: it
/// belongs to a measured peer of the batch and lies in the unit cube.
pub open spec fn filled_entry(
    after: &Table<Vec<i64>>,
    telemetry: &Table<i64>,
    batch: Seq<Seq<char>>,
    dim: nat,
    i: int,
) -> bool {
    &&& batch.contains(after.ids()[i])
    &&& telemetry.has(after.ids()[i])
    &&& after.vals()[i]@.len() == dim
    &&& forall|c: int| 0 <= c < dim ==> 0 <= #[trigger] after.vals()[i]@[c] < SCALE
}

/// Whether `after` is `before` with a coordinate for every measured peer of
/// the batch: what was there stays, and what is new was brought in by the
/// batch.
pub open spec fn filled(
    before: &Table<Vec<i64>>,
    after: &Table<Vec<i64>>,
    telemetry: &Table<i64>,
    batch: Seq<Seq<char>>,
    dim: nat,
) -> bool {
    &&& after.wf()
    &&& before.ids().len() <= after.ids().len()
    &&& forall|i: int|
        0 <= i < before.ids().len() ==> #[trigger] after.ids()[i] == before.ids()[i]
            && after.vals()[i] == before.vals()[i]
    &&& forall|i: int|
        before.ids().len() <= i < after.ids().len() ==> #[trigger] filled_entry(
            after,
            telemetry,
            batch,
            dim,
            i,
        )
    &&& forall|j: int|
        0 <= j < batch.len() && telemetry.has(#[trigger] batch[j]) ==> after.has(batch[j])
}

/// One step of a descent as it was taken.
pub struct Taken {
    /// The batch that pulled.
    pub batch: Seq<Seq<char>>,
    /// The coordinates at the step: every measured peer of the batch has one.
    pub table: Table<Vec<i64>>,
    /// Where the descent stood after the step.
    pub after: DescentView,
}

/// Where the descent stood before step `i` of a course.
pub open spec fn step_before(round: &Probe, course: Seq<Taken>, i: int) -> DescentView {
    if i <= 0 {
        descent_start(round)
    } else {
        course[i - 1].after
    }
}

/// The coordinates before step `i` of a course.
pub open spec fn table_before(round: &Probe, course: Seq<Taken>, i: int) -> Table<Vec<i64>> {
    if i <= 0 {
        round.resolved
    } else {
        course[i - 1].table
    }
}

/// Whether step `i` of a course is a step of the descent: the schedule
/// asked for it, its batch could be drawn, the coordinates were filled in
/// for the batch, and the descent moved as `spec_step` says.
pub open spec fn step_taken(round: &Probe, course: Seq<Taken>, i: int) -> bool {
    &&& step_before(round, course, i).schedule.proceeds(round.parameters)
    &&& is_batch(round, course[i].batch)
    &&& filled(
        &table_before(round, course, i),
        &course[i].table,
        &round.telemetry,
        course[i].batch,
        round.parameters.dim_size as nat,
    )
    &&& spec_step(step_before(round, course, i), &at_table(round, course[i].table), course[i].batch)
        == Some(course[i].after)
}

/// Whether a course is one that the descent of a round can take: every step
/// of it is a step of the descent from where the step before left it.
pub open spec fn is_course(round: &Probe, course: Seq<Taken>) -> bool {
    forall|i: int| 0 <= i < course.len() ==> #[trigger] step_taken(round, course, i)
}

/// Where the descent stands after a course.
pub open spec fn course_end(round: &Probe, course: Seq<Taken>) -> DescentView {
    step_before(round, course, course.len() as int)
}

/// The coordinates after a course.
pub open spec fn table_end(round: &Probe, course: Seq<Taken>) -> Table<Vec<i64>> {
    table_before(round, course, course.len() as int)
}

/// Whether the descent stops after a course, with the coordinates `last`:
/// either the schedule asks for no further step, or a batch was drawn of
/// which no peer pulls.
pub open spec fn stops(
    round: &Probe,
    course: Seq<Taken>,
    last: &Table<Vec<i64>>,
    batch: Seq<Seq<char>>,
) -> bool {
    if course_end(round, course).schedule.proceeds(round.parameters) {
        &&& is_batch(round, batch)
        &&& filled(
            &table_end(round, course),
            last,
            &round.telemetry,
            batch,
            round.parameters.dim_size as nat,
        )
        &&& spec_step(course_end(round, course), &at_table(round, *last), batch) is None
    } else {
        *last == table_end(round, course)
    }
}

/// Whether `resolved` is what a round's coordinates are after the descent
/// took the given course and stopped with the coordinates `last`: the same
/// coordinates, but for this node's, which is where the course ended.
pub open spec fn ends_course(
    round: &Probe,
    resolved: &Table<Vec<i64>>,
    course: Seq<Taken>,
    last: Table<Vec<i64>>,
    batch: Seq<Seq<char>>,
) -> bool {
    &&& is_course(round, course)
    &&& stops(round, course, &last, batch)
    &&& resolved.ids() == last.ids()
    &&& coords(resolved) == coords(&last).update(
        round.resolved.position(round.encoded_public_key@),
        course_end(round, course).x,
    )
}

/// Whether `resolved` is what a descent can leave of a round's coordinates:
/// there is a course of steps that the descent can take and stop after,
/// and this node's coordinate is where that course ends.
pub open spec fn descended(round: &Probe, resolved: &Table<Vec<i64>>) -> bool {
    exists|course: Seq<Taken>, last: Table<Vec<i64>>, batch: Seq<Seq<char>>| #[trigger]
        ends_course(round, resolved, course, last, batch)
}

/// What `optimize_position` makes of a round: the coordinates are what a
/// descent can leave of them, and nothing else changes.
pub open spec fn position_moved(before: &Probe, after: &Probe) -> bool {
    &&& after.encoded_public_key == before.encoded_public_key
    &&& after.parameters == before.parameters
    &&& after.telemetry == before.telemetry
    &&& after.peers == before.peers
    &&& after.pending_peer_ids == before.pending_peer_ids
    &&& after.status == before.status
    &&& descended(before, &after.resolved)
}

} // verus!
