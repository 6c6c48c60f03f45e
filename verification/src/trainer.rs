//! The Trainer: repeated generations of evaluate, select, mutate, replace.

use crate::batch::{
    batch_wf, is_min_fitness, lemma_ranked_all_fit, lemma_ranked_all_wf, lemma_ranked_head_is_min,
    ranked_nets, ranked_scored, ranked_sorted, Batch,
};
use crate::errors::TrainError;
use crate::network::{
    dataset_fits, fitness_of, has_topology, lemma_mutation_preserves_shape, net_wf,
    network_mutated, sample_fits, topology_ok, Network, NetworkV,
};
use crate::types::{dataset_view, Dataset, NetworkConfig};
use vstd::prelude::*;

verus! {

/// The evolutionary loop: a population, the dataset it is scored against,
/// and the best score seen in the most recent generation.
#[derive(Debug)]
pub struct Trainer {
    pub batch_size: usize,
    pub learning_rate: i64,
    pub training_data: Dataset,
    pub current_fitness: i64,
    pub batch: Batch,
}

/// The mathematical shadow of the trainer's dataset.
pub open spec fn ds_of(t: Trainer) -> Seq<(Seq<i64>, Seq<i64>)> {
    dataset_view(t.training_data@)
}

/// Well-formedness: the population holds exactly `batch_size` well-formed
/// networks, and the mutation rate is non-negative.
pub open spec fn trainer_wf(t: Trainer) -> bool {
    &&& t.batch@.len() == t.batch_size
    &&& batch_wf(t.batch@)
    &&& 0 <= t.learning_rate
}

/// Every member of the population fits the trainer's dataset: each sample's
/// input and expected vector match the member's input and output sizes.
pub open spec fn population_fits(t: Trainer) -> bool {
    forall|i: int| 0 <= i < t.batch@.len() ==> dataset_fits(#[trigger] t.batch@[i], ds_of(t))
}

/// The new population a step builds, described against a ranking `v` of the
/// prior population: the first `floor(n/2)` ranked networks taken
/// unmodified, then mutants of the first `n - floor(n/2)` ranked networks;
/// the bottom half of the ranking is discarded entirely.
pub open spec fn step_composition(
    v: Seq<(i64, Network)>,
    pop0: Seq<NetworkV>,
    pop1: Seq<NetworkV>,
    best: i64,
    rate: i64,
    ds: Seq<(Seq<i64>, Seq<i64>)>,
) -> bool {
    &&& v.len() == pop0.len()
    &&& ranked_sorted(v)
    &&& ranked_scored(v, ds)
    &&& ranked_nets(v).to_multiset() == pop0.to_multiset()
    &&& v.len() > 0 ==> v[0].0 == best
    &&& pop1.len() == pop0.len()
    &&& forall|j: int| 0 <= j < pop0.len() / 2 ==> #[trigger] pop1[j] == v[j].1@
    &&& forall|j: int|
        pop0.len() / 2 <= j < pop0.len() ==> network_mutated(
            v[j - pop0.len() / 2].1@,
            #[trigger] pop1[j],
            rate,
        )
}

/// Some member of the population scores no worse than the recorded best:
/// the recorded best never flatters the population.
pub open spec fn anchored(t: Trainer) -> bool {
    exists|i: int|
        0 <= i < t.batch@.len() && fitness_of(#[trigger] t.batch@[i], ds_of(t))
            <= t.current_fitness
}

/// Elitism monotonicity: when a population holds a member whose fitness is
/// the best score of the generation that produced it, the least fitness of
/// that population — the best score of the new generation — is at most
/// that best score.
pub proof fn lemma_elitism_monotonic(
    f1: i64,
    f2: i64,
    pop2: Seq<NetworkV>,
    ds: Seq<(Seq<i64>, Seq<i64>)>,
    i: int,
)
    requires
        0 <= i < pop2.len(),
        fitness_of(pop2[i], ds) == f1,
        is_min_fitness(f2, pop2, ds),
    ensures
        f2 <= f1,
{
}

/// Zero mutation rate: when every member of a population scores at least
/// `f1` and some member scores exactly `f1`, the least fitness of that
/// population is exactly `f1` — offspring identical to their elites leave
/// the best score unchanged.
pub proof fn lemma_zero_rate_keeps_best(
    f1: i64,
    f2: i64,
    pop2: Seq<NetworkV>,
    ds: Seq<(Seq<i64>, Seq<i64>)>,
    i: int,
)
    requires
        0 <= i < pop2.len(),
        fitness_of(pop2[i], ds) == f1,
        forall|j: int| 0 <= j < pop2.len() ==> f1 <= fitness_of(#[trigger] pop2[j], ds),
        is_min_fitness(f2, pop2, ds),
    ensures
        f2 == f1,
{
    let j0 = choose|j: int| 0 <= j < pop2.len() && fitness_of(pop2[j], ds) == f2;
    assert(f1 <= fitness_of(pop2[j0], ds));
}

/// Reported best scores never increase from one generation to the next.
pub open spec fn desc_sorted(s: Seq<i64>) -> bool {
    forall|a: int, b: int| 0 <= a <= b < s.len() ==> s[b] <= s[a]
}

impl Trainer {
    /// A trainer over a freshly drawn random population of `batch_size`
    /// networks of the given topology, with the best score initialized to
    /// the sentinel worse than any real score.
    pub fn new(
        batch_size: usize,
        learning_rate: i64,
        network_config: &NetworkConfig,
        training_data: Dataset,
    ) -> (r: Result<Trainer, TrainError>)
        requires
            0 <= learning_rate,
        ensures
            match r {
                Ok(t) => {
                    &&& trainer_wf(t)
                    &&& t.batch_size == batch_size
                    &&& t.learning_rate == learning_rate
                    &&& t.training_data == training_data
                    &&& t.current_fitness == i64::MAX
                    &&& batch_size > 0 ==> anchored(t)
                    &&& topology_ok((network_config.0, network_config.1@, network_config.2))
                    &&& forall|i: int|
                        0 <= i < t.batch@.len() ==> has_topology(
                            #[trigger] t.batch@[i],
                            network_config.0 as int,
                            network_config.1@,
                            network_config.2 as int,
                        )
                },
                Err(e) => {
                    &&& e == TrainError::InvalidTopology
                    &&& !topology_ok((network_config.0, network_config.1@, network_config.2))
                },
            },
    {
        let batch: Batch = match Batch::new_with_population(batch_size, network_config) {
            Ok(b) => b,
            Err(e) => {
                return Err(e);
            },
        };
        let t = Trainer {
            batch_size,
            learning_rate,
            training_data,
            current_fitness: i64::MAX,
            batch,
        };
        proof {
            if batch_size > 0 {
                assert(fitness_of(t.batch@[0], ds_of(t)) <= i64::MAX);
            }
        }
        Ok(t)
    }

    /// One generation transition: rank the population, record the best
    /// score, keep the top half unmodified, and fill the other half with
    /// independently mutated copies of the top entries. On failure the
    /// population is left at its pre-step state.
    pub fn step(&mut self) -> (r: Result<(), TrainError>)
        requires
            trainer_wf(*old(self)),
        ensures
            match r {
                Ok(()) => {
                    &&& final(self).batch_size == old(self).batch_size
                    &&& final(self).learning_rate == old(self).learning_rate
                    &&& final(self).training_data == old(self).training_data
                    &&& trainer_wf(*final(self))
                    &&& old(self).batch_size > 0
                    &&& ds_of(*old(self)).len() > 0
                    &&& population_fits(*final(self))
                    &&& exists|v: Seq<(i64, Network)>|
                        #[trigger] step_composition(
                            v,
                            old(self).batch@,
                            final(self).batch@,
                            final(self).current_fitness,
                            old(self).learning_rate,
                            ds_of(*old(self)),
                        )
                    &&& is_min_fitness(
                        final(self).current_fitness,
                        old(self).batch@,
                        ds_of(*old(self)),
                    )
                    &&& anchored(*old(self)) ==> final(self).current_fitness <= old(
                        self,
                    ).current_fitness
                    &&& old(self).batch_size >= 2 || old(self).learning_rate == 0 ==> fitness_of(
                        final(self).batch@[0],
                        ds_of(*old(self)),
                    ) == final(self).current_fitness
                    &&& old(self).learning_rate == 0 ==> forall|i: int|
                        0 <= i < final(self).batch@.len() ==> final(self).current_fitness
                            <= fitness_of(#[trigger] final(self).batch@[i], ds_of(*old(self)))
                    &&& anchored(*final(self)) || old(self).batch_size == 1
                },
                Err(e) => {
                    &&& *final(self) == *old(self)
                    &&& if ds_of(*old(self)).len() == 0 {
                        e == TrainError::EmptyDatasetError
                    } else if old(self).batch@.len() == 0 {
                        e == TrainError::EmptyPopulationError
                    } else {
                        &&& e == TrainError::DimensionMismatch
                        &&& exists|i: int|
                            0 <= i < old(self).batch@.len() && !dataset_fits(
                                #[trigger] old(self).batch@[i],
                                ds_of(*old(self)),
                            )
                    }
                },
            },
    {
        let ghost pre = *self;
        let ranked: Vec<(i64, Network)> = match self.batch.eval_fitness(&self.training_data) {
            Ok(v) => v,
            Err(e) => {
                return Err(e);
            },
        };
        let ghost ds = ds_of(pre);
        proof {
            lemma_ranked_head_is_min(ranked@, pre.batch@, ds);
            lemma_ranked_all_wf(ranked@, pre.batch@);
        }
        self.current_fitness = ranked[0].0;
        proof {
            if anchored(pre) {
                let ia = choose|i: int|
                    0 <= i < pre.batch@.len() && fitness_of(#[trigger] pre.batch@[i], ds)
                        <= pre.current_fitness;
                assert(self.current_fitness <= fitness_of(pre.batch@[ia], ds));
            }
        }
        let top_count: usize = self.batch_size / 2;
        let mutate_count: usize = self.batch_size - top_count;
        let mut new_networks: Vec<Network> = Vec::new();
        let mut i: usize = 0;
        while i < top_count
            invariant
                top_count <= ranked@.len(),
                i <= top_count,
                new_networks@.len() == i,
                forall|j: int| 0 <= j < i ==> (#[trigger] new_networks@[j])@ == ranked@[j].1@,
            decreases top_count - i,
        {
            let c: Network = ranked[i].1.clone();
            new_networks.push(c);
            i += 1;
        }
        let rate: i64 = self.learning_rate;
        let mut k: usize = 0;
        while k < mutate_count
            invariant
                0 <= rate,
                mutate_count <= ranked@.len(),
                k <= mutate_count,
                new_networks@.len() == top_count + k,
                forall|j: int|
                    0 <= j < top_count ==> (#[trigger] new_networks@[j])@ == ranked@[j].1@,
                forall|j: int|
                    top_count <= j < top_count + k ==> network_mutated(
                        ranked@[j - top_count].1@,
                        (#[trigger] new_networks@[j])@,
                        rate,
                    ),
                rate == 0 ==> forall|j: int|
                    top_count <= j < top_count + k ==> (#[trigger] new_networks@[j])@ == ranked@[j
                        - top_count].1@,
            decreases mutate_count - k,
        {
            let m: Network = ranked[k].1.mutate(rate);
            new_networks.push(m);
            k += 1;
        }
        let ghost nnv = new_networks@.map_values(|n: Network| n@);
        self.batch = Batch::new_with_networks(new_networks);
        proof {
            assert(self.batch@ == nnv);
            assert(nnv.len() == pre.batch_size);
            assert forall|j: int| 0 <= j < nnv.len() implies net_wf(#[trigger] nnv[j]) by {
                if j < top_count {
                    assert(nnv[j] == ranked@[j].1@);
                } else {
                    assert(network_mutated(ranked@[j - top_count].1@, nnv[j], rate));
                    lemma_mutation_preserves_shape(ranked@[j - top_count].1@, nnv[j], rate);
                }
            }
            if pre.batch_size >= 2 || rate == 0 {
                assert(nnv[0] == ranked@[0].1@);
                assert(fitness_of(nnv[0], ds) == ranked@[0].0);
            }
            if rate == 0 {
                assert forall|j: int| 0 <= j < nnv.len() implies self.current_fitness
                    <= fitness_of(#[trigger] nnv[j], ds) by {
                    if j < top_count {
                        assert(nnv[j] == ranked@[j].1@);
                        assert(fitness_of(nnv[j], ds) == ranked@[j].0);
                        assert(ranked@[0].0 <= ranked@[j].0);
                    } else {
                        assert(nnv[j] == ranked@[j - top_count].1@);
                        assert(fitness_of(nnv[j], ds) == ranked@[j - top_count].0);
                        assert(ranked@[0].0 <= ranked@[j - top_count].0);
                    }
                }
            }
            if pre.batch_size >= 2 || rate == 0 {
                assert(fitness_of(self.batch@[0], ds_of(*self)) <= self.current_fitness);
            }
            lemma_ranked_all_fit(ranked@, pre.batch@, ds);
            assert forall|j: int| 0 <= j < nnv.len() implies dataset_fits(
                #[trigger] nnv[j],
                ds,
            ) by {
                if j < top_count {
                    assert(nnv[j] == ranked@[j].1@);
                } else {
                    let parent = ranked@[j - top_count].1@;
                    assert(dataset_fits(parent, ds));
                    assert(network_mutated(parent, nnv[j], rate));
                    lemma_mutation_preserves_shape(parent, nnv[j], rate);
                    assert forall|k: int| 0 <= k < ds.len() implies sample_fits(
                        nnv[j],
                        #[trigger] ds[k],
                    ) by {
                        assert(sample_fits(parent, ds[k]));
                    }
                }
            }
            assert(step_composition(
                ranked@,
                pre.batch@,
                self.batch@,
                self.current_fitness,
                rate,
                ds,
            ));
        }
        Ok(())
    }

    /// A fixed number of consecutive steps, one unit of reported progress.
    /// After at least one step the recorded best score is at most the
    /// fitness of every member of the entering population.
    pub fn epoch(&mut self, steps: u64) -> (r: Result<(), TrainError>)
        requires
            trainer_wf(*old(self)),
        ensures
            match r {
                Ok(()) => {
                    &&& final(self).batch_size == old(self).batch_size
                    &&& final(self).learning_rate == old(self).learning_rate
                    &&& final(self).training_data == old(self).training_data
                    &&& trainer_wf(*final(self))
                    &&& steps > 0 ==> ds_of(*old(self)).len() > 0 && old(self).batch_size > 0
                    &&& steps > 0 ==> population_fits(*final(self))
                    &&& population_fits(*old(self)) ==> population_fits(*final(self))
                    &&& old(self).batch_size >= 2 && anchored(*old(self)) ==> anchored(
                        *final(self),
                    ) && final(self).current_fitness <= old(self).current_fitness
                    &&& steps > 0 && old(self).batch_size >= 2 && anchored(*old(self))
                        ==> forall|i: int|
                        0 <= i < old(self).batch@.len() ==> final(self).current_fitness
                            <= fitness_of(#[trigger] old(self).batch@[i], ds_of(*old(self)))
                },
                Err(e) => {
                    &&& final(self).batch_size == old(self).batch_size
                    &&& final(self).learning_rate == old(self).learning_rate
                    &&& final(self).training_data == old(self).training_data
                    &&& trainer_wf(*final(self))
                    &&& population_fits(*old(self)) ==> population_fits(*final(self))
                    &&& if ds_of(*old(self)).len() == 0 {
                        e == TrainError::EmptyDatasetError
                    } else if old(self).batch_size == 0 {
                        e == TrainError::EmptyPopulationError
                    } else {
                        &&& e == TrainError::DimensionMismatch
                        &&& exists|i: int|
                            0 <= i < final(self).batch@.len() && !dataset_fits(
                                #[trigger] final(self).batch@[i],
                                ds_of(*old(self)),
                            )
                    }
                },
            },
    {
        let mut s: u64 = 0;
        while s < steps
            invariant
                trainer_wf(*self),
                self.batch_size == old(self).batch_size,
                self.learning_rate == old(self).learning_rate,
                self.training_data == old(self).training_data,
                s <= steps,
                s == 0 ==> *self == *old(self),
                s > 0 ==> ds_of(*old(self)).len() > 0 && old(self).batch_size > 0,
                s > 0 ==> population_fits(*self),
                population_fits(*old(self)) ==> population_fits(*self),
                old(self).batch_size >= 2 && anchored(*old(self)) ==> anchored(*self)
                    && self.current_fitness <= old(self).current_fitness,
                s > 0 && old(self).batch_size >= 2 && anchored(*old(self)) ==> forall|i: int|
                    0 <= i < old(self).batch@.len() ==> self.current_fitness <= fitness_of(
                        #[trigger] old(self).batch@[i],
                        ds_of(*old(self)),
                    ),
            decreases steps - s,
        {
            match self.step() {
                Ok(()) => (),
                Err(e) => {
                    return Err(e);
                },
            }
            s += 1;
        }
        Ok(())
    }

    /// Training: a fixed number of epochs of a fixed number of steps, with
    /// the best score after each epoch collected in epoch order. There is
    /// no convergence-based early exit. For a population of at least two
    /// whose recorded best is anchored in it, the reported scores never
    /// increase: elites survive every generation unmodified.
    pub fn train(&mut self, epochs: u64, steps: u64) -> (r: Result<Vec<i64>, TrainError>)
        requires
            trainer_wf(*old(self)),
        ensures
            match r {
                Ok(v) => {
                    &&& v@.len() == epochs
                    &&& final(self).batch_size == old(self).batch_size
                    &&& final(self).learning_rate == old(self).learning_rate
                    &&& final(self).training_data == old(self).training_data
                    &&& trainer_wf(*final(self))
                    &&& epochs > 0 && steps > 0 ==> ds_of(*old(self)).len() > 0 && old(
                        self,
                    ).batch_size > 0 && population_fits(*final(self))
                    &&& population_fits(*old(self)) ==> population_fits(*final(self))
                    &&& old(self).batch_size >= 2 && anchored(*old(self)) ==> desc_sorted(v@)
                        && anchored(*final(self)) && (v@.len() > 0 ==> v@.last()
                        == final(self).current_fitness)
                    &&& epochs > 0 && steps > 0 && old(self).batch_size >= 2 && anchored(
                        *old(self),
                    ) ==> forall|i: int|
                        0 <= i < old(self).batch@.len() ==> final(self).current_fitness
                            <= fitness_of(#[trigger] old(self).batch@[i], ds_of(*old(self)))
                },
                Err(e) => {
                    &&& final(self).batch_size == old(self).batch_size
                    &&& final(self).learning_rate == old(self).learning_rate
                    &&& final(self).training_data == old(self).training_data
                    &&& trainer_wf(*final(self))
                    &&& population_fits(*old(self)) ==> population_fits(*final(self))
                    &&& if ds_of(*old(self)).len() == 0 {
                        e == TrainError::EmptyDatasetError
                    } else if old(self).batch_size == 0 {
                        e == TrainError::EmptyPopulationError
                    } else {
                        &&& e == TrainError::DimensionMismatch
                        &&& exists|i: int|
                            0 <= i < final(self).batch@.len() && !dataset_fits(
                                #[trigger] final(self).batch@[i],
                                ds_of(*old(self)),
                            )
                    }
                },
            },
    {
        let mut report: Vec<i64> = Vec::new();
        let mut e: u64 = 0;
        while e < epochs
            invariant
                trainer_wf(*self),
                self.batch_size == old(self).batch_size,
                self.learning_rate == old(self).learning_rate,
                self.training_data == old(self).training_data,
                e <= epochs,
                report@.len() == e,
                e == 0 ==> *self == *old(self),
                e > 0 && steps > 0 ==> ds_of(*old(self)).len() > 0 && old(self).batch_size > 0
                    && population_fits(*self),
                population_fits(*old(self)) ==> population_fits(*self),
                old(self).batch_size >= 2 && anchored(*old(self)) ==> {
                    &&& anchored(*self)
                    &&& desc_sorted(report@)
                    &&& (report@.len() > 0 ==> report@.last() == self.current_fitness)
                },
                e > 0 && steps > 0 && old(self).batch_size >= 2 && anchored(*old(self))
                    ==> forall|i: int|
                    0 <= i < old(self).batch@.len() ==> self.current_fitness <= fitness_of(
                        #[trigger] old(self).batch@[i],
                        ds_of(*old(self)),
                    ),
            decreases epochs - e,
        {
            let ghost prev_report = report@;
            let ghost pre_t = *self;
            match self.epoch(steps) {
                Ok(()) => (),
                Err(err) => {
                    return Err(err);
                },
            }
            report.push(self.current_fitness);
            e += 1;
            proof {
                if old(self).batch_size >= 2 && anchored(*old(self)) {
                    assert(report@ == prev_report.push(self.current_fitness));
                    assert(self.current_fitness <= pre_t.current_fitness);
                    assert forall|a: int, b: int| 0 <= a <= b < report@.len() implies report@[b]
                        <= report@[a] by {
                        if b < prev_report.len() {
                            assert(report@[a] == prev_report[a]);
                            assert(report@[b] == prev_report[b]);
                        } else {
                            assert(report@[b] == self.current_fitness);
                            if a < prev_report.len() {
                                assert(report@[a] == prev_report[a]);
                                assert(prev_report[prev_report.len() - 1] <= prev_report[a]);
                                assert(prev_report.last() == pre_t.current_fitness);
                            }
                        }
                    }
                }
            }
        }
        Ok(report)
    }
}

} // verus!
