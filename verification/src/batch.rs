//! A Batch: a population of networks, and the operation that scores and
//! ranks them against a dataset.

use crate::errors::TrainError;
use crate::network::{
    dataset_fits, fitness_of, has_topology, net_in_unit, net_wf, topology_is_ok, topology_ok,
    Network, NetworkV,
};
use crate::types::{dataset_view, Dataset, NetworkConfig};
use vstd::multiset::group_multiset_axioms;
use vstd::prelude::*;
use vstd::seq_lib::group_to_multiset_ensures;

verus! {

/// A fixed-size collection of networks undergoing selection.
#[derive(Debug)]
pub struct Batch {
    pub networks: Vec<Network>,
}

impl View for Batch {
    type V = Seq<NetworkV>;

    open spec fn view(&self) -> Seq<NetworkV> {
        self.networks@.map_values(|n: Network| n@)
    }
}

/// Every network of the population is well formed.
pub open spec fn batch_wf(pop: Seq<NetworkV>) -> bool {
    forall|i: int| 0 <= i < pop.len() ==> net_wf(#[trigger] pop[i])
}

/// The networks of a ranked list, reduced to their mathematical shadows.
pub open spec fn ranked_nets(s: Seq<(i64, Network)>) -> Seq<NetworkV> {
    s.map_values(|p: (i64, Network)| p.1@)
}

/// Ascending by score: every entry's score is at most every later one's.
pub open spec fn ranked_sorted(s: Seq<(i64, Network)>) -> bool {
    forall|i: int, j: int| 0 <= i <= j < s.len() ==> (#[trigger] s[i]).0 <= (#[trigger] s[j]).0
}

/// Every entry's score is the fitness of the network it carries.
pub open spec fn ranked_scored(s: Seq<(i64, Network)>, ds: Seq<(Seq<i64>, Seq<i64>)>) -> bool {
    forall|i: int| 0 <= i < s.len() ==> (#[trigger] s[i]).0 == fitness_of(s[i].1@, ds)
}

/// `s` is the least fitness taken over a population: some member scores
/// exactly `s`, and no member scores below it.
pub open spec fn is_min_fitness(s: i64, pop: Seq<NetworkV>, ds: Seq<(Seq<i64>, Seq<i64>)>) -> bool {
    &&& exists|i: int| 0 <= i < pop.len() && fitness_of(#[trigger] pop[i], ds) == s
    &&& forall|i: int| 0 <= i < pop.len() ==> s <= fitness_of(#[trigger] pop[i], ds)
}

/// Inserting into a sequence inserts into its multiset of elements.
proof fn lemma_insert_to_multiset<A>(s: Seq<A>, j: int, x: A)
    requires
        0 <= j <= s.len(),
    ensures
        s.insert(j, x).to_multiset() == s.to_multiset().insert(x),
{
    broadcast use group_to_multiset_ensures;
    broadcast use group_multiset_axioms;

    let t = s.insert(j, x);
    s.insert_ensures(j, x);
    t.remove_ensures(j);
    assert(t.remove(j) =~= s);
    assert(t[j] == x);
    assert(t.contains(x));
    assert(t.to_multiset().count(x) > 0);
    assert(s.to_multiset() == t.to_multiset().remove(x));
    assert(t.to_multiset() =~= s.to_multiset().insert(x));
}

/// Inserting a correctly scored entry keeps every score correct, and adds
/// exactly the new network to the multiset of carried networks.
proof fn lemma_insert_keeps_ranking(
    s0: Seq<(i64, Network)>,
    s1: Seq<(i64, Network)>,
    j: int,
    score: i64,
    net: Network,
    ds: Seq<(Seq<i64>, Seq<i64>)>,
)
    requires
        0 <= j <= s0.len(),
        s1 == s0.insert(j, (score, net)),
        ranked_scored(s0, ds),
        score == fitness_of(net@, ds),
    ensures
        ranked_scored(s1, ds),
        ranked_nets(s1).to_multiset() == ranked_nets(s0).to_multiset().insert(net@),
{
    s0.insert_ensures(j, (score, net));
    let r0 = ranked_nets(s0);
    r0.insert_ensures(j, net@);
    assert forall|i: int| 0 <= i < s1.len() implies (#[trigger] s1[i]).0 == fitness_of(
        s1[i].1@,
        ds,
    ) by {
        if i < j {
            assert(s1[i] == s0[i]);
        } else if i > j {
            assert(s1[(i - 1) + 1] == s0[i - 1]);
        }
    }
    assert forall|i: int| 0 <= i < s1.len() implies ranked_nets(s1)[i] == r0.insert(j, net@)[i] by {
        if i < j {
            assert(s1[i] == s0[i]);
        } else if i > j {
            assert(s1[(i - 1) + 1] == s0[i - 1]);
            assert(r0.insert(j, net@)[(i - 1) + 1] == r0[i - 1]);
        }
    }
    assert(ranked_nets(s1) =~= r0.insert(j, net@));
    lemma_insert_to_multiset(r0, j, net@);
}

/// The head of a sorted, correctly scored ranking whose networks are a
/// permutation of a population carries that population's least fitness.
pub proof fn lemma_ranked_head_is_min(
    v: Seq<(i64, Network)>,
    pop: Seq<NetworkV>,
    ds: Seq<(Seq<i64>, Seq<i64>)>,
)
    requires
        v.len() > 0,
        ranked_sorted(v),
        ranked_scored(v, ds),
        ranked_nets(v).to_multiset() == pop.to_multiset(),
    ensures
        is_min_fitness(v[0].0, pop, ds),
{
    broadcast use group_to_multiset_ensures;
    broadcast use group_multiset_axioms;

    let rn = ranked_nets(v);
    assert(rn[0] == v[0].1@);
    assert(rn.contains(rn[0]));
    assert(pop.to_multiset().count(rn[0]) > 0);
    assert(pop.contains(rn[0]));
    let i0 = choose|i: int| 0 <= i < pop.len() && pop[i] == rn[0];
    assert(fitness_of(pop[i0], ds) == v[0].0);
    assert forall|i: int| 0 <= i < pop.len() implies v[0].0 <= fitness_of(
        #[trigger] pop[i],
        ds,
    ) by {
        assert(pop.contains(pop[i]));
        assert(rn.to_multiset().count(pop[i]) > 0);
        assert(rn.contains(pop[i]));
        let j = choose|j: int| 0 <= j < rn.len() && rn[j] == pop[i];
        assert(v[j].1@ == pop[i]);
        assert(v[0].0 <= v[j].0);
    }
}

/// Every network carried by a ranking that is a permutation of a
/// well-formed population is itself well formed.
pub proof fn lemma_ranked_all_wf(v: Seq<(i64, Network)>, pop: Seq<NetworkV>)
    requires
        ranked_nets(v).to_multiset() == pop.to_multiset(),
        batch_wf(pop),
    ensures
        forall|j: int| 0 <= j < v.len() ==> net_wf((#[trigger] v[j]).1@),
{
    broadcast use group_to_multiset_ensures;
    broadcast use group_multiset_axioms;

    assert forall|j: int| 0 <= j < v.len() implies net_wf((#[trigger] v[j]).1@) by {
        let rn = ranked_nets(v);
        assert(rn[j] == v[j].1@);
        assert(rn.contains(rn[j]));
        assert(pop.to_multiset().count(rn[j]) > 0);
        assert(pop.contains(rn[j]));
        let i = choose|i: int| 0 <= i < pop.len() && pop[i] == rn[j];
        assert(net_wf(pop[i]));
    }
}

/// Every network carried by a ranking that is a permutation of a
/// population whose members all fit the dataset itself fits the dataset.
pub proof fn lemma_ranked_all_fit(
    v: Seq<(i64, Network)>,
    pop: Seq<NetworkV>,
    ds: Seq<(Seq<i64>, Seq<i64>)>,
)
    requires
        ranked_nets(v).to_multiset() == pop.to_multiset(),
        forall|i: int| 0 <= i < pop.len() ==> dataset_fits(#[trigger] pop[i], ds),
    ensures
        forall|j: int| 0 <= j < v.len() ==> dataset_fits((#[trigger] v[j]).1@, ds),
{
    broadcast use group_to_multiset_ensures;
    broadcast use group_multiset_axioms;

    assert forall|j: int| 0 <= j < v.len() implies dataset_fits((#[trigger] v[j]).1@, ds) by {
        let rn = ranked_nets(v);
        assert(rn[j] == v[j].1@);
        assert(rn.contains(rn[j]));
        assert(pop.to_multiset().count(rn[j]) > 0);
        assert(pop.contains(rn[j]));
        let i = choose|i: int| 0 <= i < pop.len() && pop[i] == rn[j];
        assert(dataset_fits(pop[i], ds));
    }
}

/// Insertion into a ranked list at the position that keeps it ascending.
fn insert_ranked(v: &mut Vec<(i64, Network)>, score: i64, net: Network)
    requires
        ranked_sorted(old(v)@),
    ensures
        ranked_sorted(final(v)@),
        final(v)@.len() == old(v)@.len() + 1,
        exists|j: int| 0 <= j <= old(v)@.len() && final(v)@ == old(v)@.insert(j, (score, net)),
{
    let n: usize = v.len();
    let mut j: usize = 0;
    while j < n && v[j].0 <= score
        invariant
            n == v@.len(),
            v@ == old(v)@,
            ranked_sorted(v@),
            j <= n,
            forall|k: int| 0 <= k < j ==> (#[trigger] v@[k]).0 <= score,
        decreases n - j,
    {
        j += 1;
    }
    let ghost s0 = v@;
    let ghost jj = j as int;
    v.insert(j, (score, net));
    proof {
        s0.insert_ensures(jj, (score, net));
        assert forall|a: int, b: int| 0 <= a <= b < v@.len() implies (#[trigger] v@[a]).0 <= (
        #[trigger] v@[b]).0 by {
            if a < jj {
                assert(v@[a] == s0[a]);
            } else if a > jj {
                assert(v@[(a - 1) + 1] == s0[a - 1]);
            }
            if b < jj {
                assert(v@[b] == s0[b]);
            } else if b > jj {
                assert(v@[(b - 1) + 1] == s0[b - 1]);
                assert(s0[jj] == v@[jj + 1]);
            }
        }
    }
}

impl Batch {
    /// A population from an explicit list of networks; its size is the
    /// length of the list.
    pub fn new_with_networks(networks: Vec<Network>) -> (b: Batch)
        ensures
            b@ == networks@.map_values(|n: Network| n@),
    {
        Batch { networks }
    }

    /// A population of `batch_size` independently drawn random networks
    /// sharing one topology. Rejects a topology with a zero width.
    pub fn new_with_population(batch_size: usize, network_config: &NetworkConfig) -> (r: Result<
        Batch,
        TrainError,
    >)
        ensures
            match r {
                Ok(b) => {
                    &&& topology_ok((network_config.0, network_config.1@, network_config.2))
                    &&& b@.len() == batch_size
                    &&& batch_wf(b@)
                    &&& forall|i: int|
                        0 <= i < b@.len() ==> has_topology(
                            #[trigger] b@[i],
                            network_config.0 as int,
                            network_config.1@,
                            network_config.2 as int,
                        )
                    &&& forall|i: int| 0 <= i < b@.len() ==> net_in_unit(#[trigger] b@[i])
                },
                Err(e) => {
                    &&& e == TrainError::InvalidTopology
                    &&& !topology_ok((network_config.0, network_config.1@, network_config.2))
                },
            },
    {
        if !topology_is_ok(network_config) {
            return Err(TrainError::InvalidTopology);
        }
        let mut networks: Vec<Network> = Vec::new();
        let mut i: usize = 0;
        while i < batch_size
            invariant
                topology_ok((network_config.0, network_config.1@, network_config.2)),
                i <= batch_size,
                networks@.len() == i,
                forall|j: int| 0 <= j < i ==> net_wf((#[trigger] networks@[j])@),
                forall|j: int|
                    0 <= j < i ==> has_topology(
                        (#[trigger] networks@[j])@,
                        network_config.0 as int,
                        network_config.1@,
                        network_config.2 as int,
                    ),
                forall|j: int| 0 <= j < i ==> net_in_unit((#[trigger] networks@[j])@),
            decreases batch_size - i,
        {
            let net: Network = match Network::new_with_random_values(network_config) {
                Ok(n) => n,
                Err(_) => {
                    // Unreachable: the topology was validated above.
                    proof {
                        assert(false);
                    }
                    return Err(TrainError::InvalidTopology);
                },
            };
            networks.push(net);
            i += 1;
        }
        Ok(Batch { networks })
    }

    /// Scores every network of the population against the dataset and
    /// ranks them ascending by score, best (lowest error) first. The list
    /// has exactly one entry per member, each entry's score is the
    /// fitness of the network it carries, and the carried networks are a
    /// permutation of the population. The population itself is untouched.
    pub fn eval_fitness(&self, training_data: &Dataset) -> (r: Result<
        Vec<(i64, Network)>,
        TrainError,
    >)
        requires
            batch_wf(self@),
        ensures
            match r {
                Ok(v) => {
                    &&& training_data@.len() > 0
                    &&& self@.len() > 0
                    &&& v@.len() == self@.len()
                    &&& ranked_sorted(v@)
                    &&& ranked_scored(v@, dataset_view(training_data@))
                    &&& ranked_nets(v@).to_multiset() == self@.to_multiset()
                    &&& forall|i: int|
                        0 <= i < self@.len() ==> dataset_fits(
                            #[trigger] self@[i],
                            dataset_view(training_data@),
                        )
                },
                Err(e) => {
                    if training_data@.len() == 0 {
                        e == TrainError::EmptyDatasetError
                    } else if self@.len() == 0 {
                        e == TrainError::EmptyPopulationError
                    } else {
                        &&& e == TrainError::DimensionMismatch
                        &&& exists|i: int|
                            0 <= i < self@.len() && !dataset_fits(
                                #[trigger] self@[i],
                                dataset_view(training_data@),
                            )
                    }
                },
            },
    {
        if training_data.len() == 0 {
            return Err(TrainError::EmptyDatasetError);
        }
        let m: usize = self.networks.len();
        if m == 0 {
            return Err(TrainError::EmptyPopulationError);
        }
        let ghost dv = dataset_view(training_data@);
        let mut ranked: Vec<(i64, Network)> = Vec::new();
        proof {
            broadcast use group_to_multiset_ensures;

            assert(ranked_nets(ranked@) =~= Seq::<NetworkV>::empty());
            assert(self@.take(0) =~= Seq::<NetworkV>::empty());
        }
        let mut k: usize = 0;
        while k < m
            invariant
                batch_wf(self@),
                m == self.networks@.len(),
                m > 0,
                dv == dataset_view(training_data@),
                dv.len() > 0,
                k <= m,
                ranked@.len() == k,
                ranked_sorted(ranked@),
                ranked_scored(ranked@, dv),
                ranked_nets(ranked@).to_multiset() == self@.take(k as int).to_multiset(),
                forall|i: int| 0 <= i < k ==> dataset_fits(#[trigger] self@[i], dv),
            decreases m - k,
        {
            proof {
                assert(self@[k as int] == self.networks@[k as int]@);
            }
            let score: i64 = match self.networks[k].fitness(training_data) {
                Ok(s) => s,
                Err(_) => {
                    proof {
                        assert(!dataset_fits(self@[k as int], dv));
                    }
                    return Err(TrainError::DimensionMismatch);
                },
            };
            let copy: Network = self.networks[k].clone();
            let ghost s0 = ranked@;
            insert_ranked(&mut ranked, score, copy);
            k += 1;
            proof {
                broadcast use group_to_multiset_ensures;

                let jj = choose|j: int|
                    0 <= j <= s0.len() && ranked@ == s0.insert(j, (score, copy));
                lemma_insert_keeps_ranking(s0, ranked@, jj, score, copy, dv);
                assert(self@.take(k as int) =~= self@.take(k - 1).push(self@[k - 1]));
                assert(copy@ == self@[k - 1]);
            }
        }
        proof {
            assert(self@.take(m as int) =~= self@);
        }
        Ok(ranked)
    }
}

/// A random network with the given topology descriptor.
pub fn create_random_network(network_config: &NetworkConfig) -> (r: Result<Network, TrainError>)
    ensures
        match r {
            Ok(n) => {
                &&& topology_ok((network_config.0, network_config.1@, network_config.2))
                &&& net_wf(n@)
                &&& has_topology(
                    n@,
                    network_config.0 as int,
                    network_config.1@,
                    network_config.2 as int,
                )
                &&& net_in_unit(n@)
            },
            Err(e) => {
                &&& e == TrainError::InvalidTopology
                &&& !topology_ok((network_config.0, network_config.1@, network_config.2))
            },
        },
{
    Network::new_with_random_values(network_config)
}

} // verus!
