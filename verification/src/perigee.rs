//! Perigee: choosing which neighbors to keep from how early they deliver
//! packets that several neighbors relay.

use vstd::prelude::*;
use std::collections::HashMap;
use vstd::std_specs::iter::IteratorSpec;
use crate::peer_id::PeerID;
use crate::peer_map::{PeerMap, assoc_insert, key_index, lookup};

verus! {

broadcast use vstd::std_specs::hash::group_hash_axioms;

/// When a packet was seen, in the host's time unit.
pub type Observation = i64;

/// Identifies a packet that several neighbors relay.
pub type PacketID = u128;

/// What Perigee has seen: for each packet, how many times it was seen and
/// when first; for each neighbor, when it delivered each packet; and the
/// neighbors it currently recommends keeping.
#[derive(Debug)]
pub struct Perigee {
    count_and_first_observed: HashMap<PacketID, (i8, Observation)>,
    observations: PeerMap<HashMap<PacketID, Observation>>,
    pub keepers: Vec<PeerID>,
}

/// The mathematical value of a `Perigee`.
pub struct PerigeeView {
    pub firsts: Map<PacketID, (i8, Observation)>,
    pub observations: Seq<(Seq<char>, Map<PacketID, Observation>)>,
    pub keepers: Seq<Seq<char>>,
}

impl View for Perigee {
    type V = PerigeeView;

    closed spec fn view(&self) -> PerigeeView {
        PerigeeView {
            firsts: self.count_and_first_observed@,
            observations: self.observations@.map_values(
                |e: (Seq<char>, HashMap<PacketID, Observation>)| (e.0, e.1@),
            ),
            keepers: self.keepers.deep_view(),
        }
    }
}

/// How many of the packets that `observations` records were seen at least
/// three times: the samples that Perigee scores a neighbor by.
pub open spec fn sample_count(observations: Map<PacketID, Observation>, firsts: Map<PacketID, (i8, Observation)>) -> nat {
    observations.dom().filter(|p: PacketID| firsts.contains_key(p) && firsts[p].0 >= 3).len()
}

/// Whether some neighbor has more than two samples, so that Perigee can
/// score it.
pub open spec fn has_scorable_neighbor(p: PerigeeView) -> bool {
    exists|i: int| 0 <= i < p.observations.len() && sample_count(p.observations[i].1, p.firsts) > 2
}

/// The packets a map has entries for, each once, in the map's iteration
/// order.
fn map_keys<V>(m: &HashMap<PacketID, V>) -> (keys: Vec<PacketID>)
    ensures
        keys@.to_set() == m@.dom(),
        keys@.no_duplicates(),
{
    let ghost all: Seq<PacketID> = vstd::std_specs::hash::spec_keys_iter(m).remaining().unref();
    let mut keys: Vec<PacketID> = Vec::new();
    for k in it: m.keys()
        invariant
            it.seq().unref() == all,
            keys@ == all.take(it.index()),
            all.to_set() == m@.dom(),
            all.no_duplicates(),
    {
        proof {
            assert(it.seq().unref()[it.index()] == *k);
        }
        keys.push(*k);
        assert(keys@ =~= all.take(it.index() + 1));
    }
    assert(keys@ =~= all);
    keys
}

/// What `observe` records: the packet's count goes up by one and its first
/// sighting becomes the earlier of the two (a new packet starts at one
/// sighting, now); the neighbor's delivery time of the packet is recorded
/// unless one already is.
pub open spec fn observe(p: PerigeeView, peer: Seq<char>, packet: PacketID, observation: Observation) -> PerigeeView {
    let firsts = if p.firsts.contains_key(packet) {
        let (count, first) = p.firsts[packet];
        p.firsts.insert(packet, ((count + 1) as i8, if observation < first { observation } else { first }))
    } else {
        p.firsts.insert(packet, (1i8, observation))
    };
    let observations = match lookup(p.observations, peer) {
        Some(m) => if m.contains_key(packet) {
            p.observations
        } else {
            assoc_insert(p.observations, peer, m.insert(packet, observation))
        },
        None => assoc_insert(p.observations, peer, Map::<PacketID, Observation>::empty().insert(packet, observation)),
    };
    PerigeeView { firsts, observations, ..p }
}

/// The deliveries of `m` at or after `limit`.
pub open spec fn deliveries_since(m: Map<PacketID, Observation>, limit: Observation) -> Map<PacketID, Observation> {
    Map::new(|k: PacketID| m.contains_key(k) && m[k] >= limit, |k: PacketID| m[k])
}

/// What `collect_garbage_after_limit` keeps: every delivery and every packet
/// first seen at or after `limit`.
pub open spec fn garbage_collected_after(p: PerigeeView, limit: Observation) -> PerigeeView {
    PerigeeView {
        firsts: Map::new(|k: PacketID| p.firsts.contains_key(k) && p.firsts[k].1 >= limit, |k: PacketID| p.firsts[k]),
        observations: p.observations.map_values(
            |e: (Seq<char>, Map<PacketID, Observation>)| (e.0, deliveries_since(e.1, limit)),
        ),
        ..p
    }
}

/// A delivery delay turned into a sample: the difference when it fits a
/// `u32`, the largest `u32` otherwise.
pub open spec fn sample_of(delay: int) -> u32 {
    if 0 <= delay <= u32::MAX { delay as u32 } else { u32::MAX }
}

/// Whether `packet` was seen at least three times.
pub open spec fn is_sampled(firsts: Map<PacketID, (i8, Observation)>, packet: PacketID) -> bool {
    firsts.contains_key(packet) && firsts[packet].0 >= 3
}

/// The samples of a neighbor's deliveries, taken in the order `keys`: for
/// each packet seen at least three times, how long after its first sighting
/// the neighbor delivered it.
pub open spec fn samples(keys: Seq<PacketID>, m: Map<PacketID, Observation>, firsts: Map<PacketID, (i8, Observation)>) -> Seq<u32>
    decreases keys.len(),
{
    if keys.len() == 0 {
        Seq::empty()
    } else {
        let rest = samples(keys.drop_last(), m, firsts);
        let k = keys.last();
        if is_sampled(firsts, k) {
            rest.push(sample_of(m[k] - firsts[k].1))
        } else {
            rest
        }
    }
}

/// Whether every delay that `samples` computes fits an `i64`.
pub open spec fn delays_fit(m: Map<PacketID, Observation>, firsts: Map<PacketID, (i8, Observation)>) -> bool {
    forall|k: PacketID| #[trigger] m.contains_key(k) && is_sampled(firsts, k) ==> i64::MIN <= m[k] - firsts[k].1 <= i64::MAX
}

/// Whether every delay that the samples of `observations_map` take fits an
/// `i64` (see `delays_fit`).
pub fn delays_fit_in(
    observations_map: &HashMap<PacketID, Observation>,
    count_and_first_observed: &HashMap<PacketID, (i8, Observation)>,
) -> (fit: bool)
    ensures
        fit == delays_fit(observations_map@, count_and_first_observed@),
{
    let keys = map_keys(observations_map);
    let mut i: usize = 0;
    while i < keys.len()
        invariant
            i <= keys@.len(),
            keys@.to_set() == observations_map@.dom(),
            forall|j: int| 0 <= j < i ==> {
                let k = #[trigger] keys@[j];
                is_sampled(count_and_first_observed@, k) ==> i64::MIN <= observations_map@[k] - count_and_first_observed@[k].1 <= i64::MAX
            },
        decreases keys@.len() - i,
    {
        let packet_id = keys[i];
        proof {
            assert(keys@.to_set().contains(packet_id));
        }
        let o = *observations_map.get(&packet_id).unwrap();
        match count_and_first_observed.get(&packet_id) {
            Some(entry) => {
                let (times_observed, first_observation) = *entry;
                if times_observed >= 3 {
                    let delay: i128 = o as i128 - first_observation as i128;
                    if delay < i64::MIN as i128 || delay > i64::MAX as i128 {
                        assert(observations_map@.contains_key(packet_id) && is_sampled(count_and_first_observed@, packet_id));
                        return false;
                    }
                }
            },
            None => {},
        }
        i = i + 1;
    }
    proof {
        assert forall|k: PacketID| #[trigger] observations_map@.contains_key(k) && is_sampled(count_and_first_observed@, k)
            implies i64::MIN <= observations_map@[k] - count_and_first_observed@[k].1 <= i64::MAX by {
            assert(keys@.to_set().contains(k));
            let j = choose|j: int| 0 <= j < keys@.len() && keys@[j] == k;
            assert(keys@[j] == k);
        }
    }
    true
}

/// The samples of a neighbor's deliveries (see `samples`), in the order the
/// map is walked: that order is the map's own, so the result is stated for
/// some order of its packets.
pub fn collect_observations(
    observations_map: &HashMap<PacketID, Observation>,
    count_and_first_observed: &HashMap<PacketID, (i8, Observation)>,
) -> (observations: Vec<u32>)
    requires
        delays_fit(observations_map@, count_and_first_observed@),
    ensures
        exists|keys: Seq<PacketID>| {
            &&& keys.to_set() == observations_map@.dom()
            &&& keys.no_duplicates()
            &&& observations@ == samples(keys, observations_map@, count_and_first_observed@)
        },
{
    let keys = map_keys(observations_map);
    let mut observations: Vec<u32> = Vec::new();
    let mut i: usize = 0;
    while i < keys.len()
        invariant
            i <= keys@.len(),
            keys@.to_set() == observations_map@.dom(),
            delays_fit(observations_map@, count_and_first_observed@),
            observations@ == samples(keys@.take(i as int), observations_map@, count_and_first_observed@),
        decreases keys@.len() - i,
    {
        let packet_id = keys[i];
        proof {
            let t = keys@.take(i as int + 1);
            assert(t.drop_last() =~= keys@.take(i as int));
            assert(t.last() == packet_id);
            assert(keys@.to_set().contains(packet_id));
        }
        let o = *observations_map.get(&packet_id).unwrap();
        match count_and_first_observed.get(&packet_id) {
            Some(entry) => {
                let (times_observed, first_observation) = *entry;
                if times_observed >= 3 {
                    let delay = o - first_observation;
                    let sample: u32 = if delay < 0 || delay > u32::MAX as i64 { u32::MAX } else { delay as u32 };
                    observations.push(sample);
                }
            },
            None => {},
        }
        i = i + 1;
    }
    assert(keys@.take(keys@.len() as int) =~= keys@);
    observations
}

/// A map's deliveries at or after `limit`, the others removed.
fn retain_since(m: &mut HashMap<PacketID, Observation>, limit: Observation)
    ensures
        final(m)@ == deliveries_since(old(m)@, limit),
{
    let keys = map_keys(m);
    let ghost start = m@;
    let mut i: usize = 0;
    while i < keys.len()
        invariant
            i <= keys@.len(),
            keys@.to_set() == start.dom(),
            keys@.no_duplicates(),
            m@ == Map::new(
                |k: PacketID| start.contains_key(k) && (start[k] >= limit || !keys@.take(i as int).contains(k)),
                |k: PacketID| start[k],
            ),
        decreases keys@.len() - i,
    {
        let packet_id = keys[i];
        proof {
            assert(keys@.to_set().contains(packet_id));
        }
        let o = *m.get(&packet_id).unwrap();
        let ghost before = m@;
        if o < limit {
            m.remove(&packet_id);
        }
        proof {
            assert(keys@.take(i as int + 1) =~= keys@.take(i as int).push(packet_id));
            broadcast use vstd::seq_lib::group_seq_properties;
            assert(m@ =~= Map::new(
                |k: PacketID| start.contains_key(k) && (start[k] >= limit || !keys@.take(i as int + 1).contains(k)),
                |k: PacketID| start[k],
            ));
        }
        i = i + 1;
    }
    proof {
        assert(keys@.take(keys@.len() as int) =~= keys@);
        assert forall|k: PacketID| start.contains_key(k) implies keys@.contains(k) by {
            assert(keys@.to_set().contains(k));
        }
        assert(m@ =~= deliveries_since(start, limit));
    }
}

/// Replacing the maps by their views keeps positions of keys.
proof fn lemma_key_index_of_views(raw: Seq<(Seq<char>, HashMap<PacketID, Observation>)>, key: Seq<char>)
    ensures
        key_index(raw.map_values(|e: (Seq<char>, HashMap<PacketID, Observation>)| (e.0, e.1@)), key)
            == key_index(raw, key),
    decreases raw.len(),
{
    let v = raw.map_values(|e: (Seq<char>, HashMap<PacketID, Observation>)| (e.0, e.1@));
    if raw.len() > 0 {
        assert(v.drop_last() =~= raw.drop_last().map_values(
            |e: (Seq<char>, HashMap<PacketID, Observation>)| (e.0, e.1@),
        ));
        lemma_key_index_of_views(raw.drop_last(), key);
    }
}

/// A map of first sightings without the packets first seen before `limit`.
fn retain_firsts_since(m: &mut HashMap<PacketID, (i8, Observation)>, limit: Observation)
    ensures
        final(m)@ == Map::new(|k: PacketID| old(m)@.contains_key(k) && old(m)@[k].1 >= limit, |k: PacketID| old(m)@[k]),
{
    let keys = map_keys(m);
    let ghost start = m@;
    let mut i: usize = 0;
    while i < keys.len()
        invariant
            i <= keys@.len(),
            keys@.to_set() == start.dom(),
            keys@.no_duplicates(),
            m@ == Map::new(
                |k: PacketID| start.contains_key(k) && (start[k].1 >= limit || !keys@.take(i as int).contains(k)),
                |k: PacketID| start[k],
            ),
        decreases keys@.len() - i,
    {
        let packet_id = keys[i];
        proof {
            assert(keys@.to_set().contains(packet_id));
        }
        let first = m.get(&packet_id).unwrap().1;
        if first < limit {
            m.remove(&packet_id);
        }
        proof {
            assert(keys@.take(i as int + 1) =~= keys@.take(i as int).push(packet_id));
            broadcast use vstd::seq_lib::group_seq_properties;
            assert(m@ =~= Map::new(
                |k: PacketID| start.contains_key(k) && (start[k].1 >= limit || !keys@.take(i as int + 1).contains(k)),
                |k: PacketID| start[k],
            ));
        }
        i = i + 1;
    }
    proof {
        assert(keys@.take(keys@.len() as int) =~= keys@);
        assert forall|k: PacketID| start.contains_key(k) implies keys@.contains(k) by {
            assert(keys@.to_set().contains(k));
        }
        assert(m@ =~= Map::new(|k: PacketID| start.contains_key(k) && start[k].1 >= limit, |k: PacketID| start[k]));
    }
}

/// Whether `chosen` is a choice of the `n` latest deliveries of `m` (all of
/// them when there are fewer): no delivery left out is later than one
/// chosen. Which of equally late deliveries are chosen is left open.
pub open spec fn latest_deliveries(m: Map<PacketID, Observation>, chosen: Set<PacketID>, n: nat) -> bool {
    &&& chosen.subset_of(m.dom())
    &&& chosen.finite()
    &&& chosen.len() == if m.dom().len() < n { m.dom().len() } else { n }
    &&& forall|a: PacketID, b: PacketID|
        #![trigger chosen.contains(a), m.dom().contains(b)]
        chosen.contains(a) && m.dom().contains(b) && !chosen.contains(b) ==> m[a] >= m[b]
}

/// How many deliveries per neighbor `collect_garbage_last_30s` keeps.
pub open spec fn kept_per_neighbor() -> nat {
    30
}

/// What `collect_garbage_last_30s` keeps, for a choice `chosen` of latest
/// deliveries per neighbor: a neighbor with more deliveries than it keeps
/// keeps only its chosen ones, and only the packets chosen for some
/// neighbor keep their first sightings.
pub open spec fn garbage_collected_to_latest(p: PerigeeView, chosen: Seq<Set<PacketID>>) -> PerigeeView {
    PerigeeView {
        observations: Seq::new(
            p.observations.len(),
            |j: int| (
                p.observations[j].0,
                if p.observations[j].1.dom().len() > kept_per_neighbor() {
                    p.observations[j].1.restrict(chosen[j])
                } else {
                    p.observations[j].1
                },
            ),
        ),
        firsts: p.firsts.restrict(Set::new(|k: PacketID| exists|j: int| 0 <= j < chosen.len() && #[trigger] chosen[j].contains(k))),
        ..p
    }
}

/// The positions not yet taken hold exactly the keys not yet chosen.
spec fn selection_state(keys: Seq<PacketID>, taken: Seq<bool>, chosen: Seq<PacketID>) -> bool {
    &&& taken.len() == keys.len()
    &&& forall|i: int| 0 <= i < keys.len() ==> (#[trigger] taken[i] <==> chosen.contains(keys[i]))
    &&& forall|c: PacketID| #[trigger] chosen.contains(c) ==> keys.contains(c)
}

/// The `n` latest deliveries of `m` (all of them when there are fewer),
/// each once.
fn latest(m: &HashMap<PacketID, Observation>, n: usize) -> (chosen: Vec<PacketID>)
    ensures
        chosen@.no_duplicates(),
        latest_deliveries(m@, chosen@.to_set(), n as nat),
{
    let keys = map_keys(m);
    let mut taken: Vec<bool> = Vec::new();
    let mut t: usize = 0;
    while t < keys.len()
        invariant
            t <= keys@.len(),
            taken@.len() == t,
            forall|i: int| 0 <= i < t ==> !(#[trigger] taken@[i]),
        decreases keys@.len() - t,
    {
        taken.push(false);
        t = t + 1;
    }
    let mut chosen: Vec<PacketID> = Vec::new();
    proof {
        assert(forall|c: PacketID| !(#[trigger] chosen@.contains(c)));
    }
    loop
        invariant
            keys@.to_set() == m@.dom(),
            keys@.no_duplicates(),
            selection_state(keys@, taken@, chosen@),
            chosen@.no_duplicates(),
            chosen@.len() <= n,
            forall|c: PacketID, i: int|
                #![trigger chosen@.contains(c), taken@[i]]
                chosen@.contains(c) && 0 <= i < keys@.len() && !taken@[i] ==> m@[c] >= m@[keys@[i]],
        ensures
            keys@.to_set() == m@.dom(),
            keys@.no_duplicates(),
            selection_state(keys@, taken@, chosen@),
            chosen@.no_duplicates(),
            chosen@.len() <= n,
            forall|c: PacketID, i: int|
                #![trigger chosen@.contains(c), taken@[i]]
                chosen@.contains(c) && 0 <= i < keys@.len() && !taken@[i] ==> m@[c] >= m@[keys@[i]],
            chosen@.len() == n || forall|i: int| 0 <= i < keys@.len() ==> #[trigger] taken@[i],
        decreases n - chosen@.len(),
    {
        if chosen.len() >= n {
            break;
        }
        let mut best: Option<usize> = None;
        let mut i: usize = 0;
        while i < keys.len()
            invariant
                i <= keys@.len(),
                taken@.len() == keys@.len(),
                keys@.to_set() == m@.dom(),
                match best {
                    Some(b) => b < i && !taken@[b as int] && forall|j: int|
                        0 <= j < i && !#[trigger] taken@[j] ==> m@[keys@[b as int]] >= m@[keys@[j]],
                    None => forall|j: int| 0 <= j < i ==> #[trigger] taken@[j],
                },
            decreases keys@.len() - i,
        {
            if !taken[i] {
                proof {
                    assert(keys@.to_set().contains(keys@[i as int]));
                }
                let o = *m.get(&keys[i]).unwrap();
                match best {
                    Some(b) => {
                        proof {
                            assert(keys@.to_set().contains(keys@[b as int]));
                        }
                        let ob = *m.get(&keys[b]).unwrap();
                        if o > ob {
                            best = Some(i);
                        }
                    },
                    None => {
                        best = Some(i);
                    },
                }
            }
            i = i + 1;
        }
        match best {
            None => {
                break;
            },
            Some(b) => {
                let ghost old_chosen = chosen@;
                let ghost old_taken = taken@;
                let k = keys[b];
                taken.set(b, true);
                chosen.push(k);
                proof {
                    broadcast use vstd::seq_lib::group_seq_properties;
                    assert forall|j: int| 0 <= j < keys@.len() implies (#[trigger] taken@[j] <==> chosen@.contains(keys@[j])) by {
                        if j != b {
                            assert(keys@[j] != k);
                        }
                    }
                    assert(keys@.contains(k));
                }
            },
        }
    }
    proof {
        broadcast use vstd::seq_lib::group_seq_properties;
        let cs = chosen@.to_set();
        let ks = keys@.to_set();
        chosen@.unique_seq_to_set();
        keys@.unique_seq_to_set();
        assert(cs.subset_of(ks));
        vstd::set_lib::lemma_len_subset(cs, ks);
        if chosen@.len() != n {
            assert forall|c: PacketID| ks.contains(c) implies cs.contains(c) by {
                let i = choose|i: int| 0 <= i < keys@.len() && keys@[i] == c;
                assert(taken@[i]);
            }
            assert(cs =~= ks);
        }
        assert forall|a: PacketID, b: PacketID|
            #![trigger cs.contains(a), m@.dom().contains(b)]
            cs.contains(a) && m@.dom().contains(b) && !cs.contains(b) implies m@[a] >= m@[b] by {
            assert(ks.contains(b));
            let i = choose|i: int| 0 <= i < keys@.len() && keys@[i] == b;
            assert(!taken@[i]);
        }
    }
    chosen
}

impl Perigee {
    /// The neighbors' records are keyed by distinct peers.
    pub closed spec fn wf(&self) -> bool {
        self.observations.wf()
    }

    pub fn new() -> (perigee: Self)
        ensures
            perigee@.firsts == Map::<PacketID, (i8, Observation)>::empty(),
            perigee@.observations == Seq::<(Seq<char>, Map<PacketID, Observation>)>::empty(),
            perigee@.keepers == Seq::<Seq<char>>::empty(),
            perigee.wf(),
    {
        let perigee = Self {
            count_and_first_observed: HashMap::new(),
            observations: PeerMap::new(),
            keepers: Vec::new(),
        };
        assert(perigee@.observations =~= Seq::<(Seq<char>, Map<PacketID, Observation>)>::empty());
        assert(perigee@.keepers =~= Seq::<Seq<char>>::empty());
        perigee
    }

    /// How many neighbors Perigee recommends keeping.
    pub fn keeper_count(&self) -> (n: usize)
        ensures
            n == self@.keepers.len(),
    {
        self.keepers.len()
    }

    /// Whether Perigee recommends keeping `peer`.
    pub fn is_keeper(&self, peer_id: &PeerID) -> (keep: bool)
        ensures
            keep == self@.keepers.contains(peer_id@),
    {
        let mut i: usize = 0;
        while i < self.keepers.len()
            invariant
                i <= self.keepers@.len(),
                self@.keepers.len() == self.keepers@.len(),
                forall|j: int| 0 <= j < i ==> self@.keepers[j] != peer_id@,
            decreases self.keepers@.len() - i,
        {
            assert(self@.keepers[i as int] == self.keepers@[i as int]@);
            if self.keepers[i].same(peer_id) {
                return true;
            }
            i = i + 1;
        }
        false
    }

    /// Re-ranks the neighbors when none of them can be scored yet: no
    /// neighbor has more than two samples, so none is recommended for keeping
    /// and none is picked for dropping. (Scoring neighbors that have samples
    /// takes floating point and is done outside this library.)
    pub fn rank_unsampled(&mut self) -> (victim: Option<PeerID>)
        requires
            !has_scorable_neighbor(old(self)@),
        ensures
            final(self)@ == (PerigeeView { keepers: Seq::empty(), ..old(self)@ }),
            victim is None,
            final(self).wf() == old(self).wf(),
    {
        self.keepers = Vec::new();
        assert(self@.keepers =~= Seq::<Seq<char>>::empty());
        None
    }

    /// Records that `peer_id` delivered packet `packet_id` at `observation`
    /// (see `observe`).
    pub fn observe(&mut self, peer_id: &PeerID, packet_id: PacketID, observation: Observation)
        requires
            old(self).wf(),
            old(self)@.firsts.contains_key(packet_id) ==> old(self)@.firsts[packet_id].0 < i8::MAX,
        ensures
            final(self)@ == observe(old(self)@, peer_id@, packet_id, observation),
            final(self).wf(),
    {
        match self.count_and_first_observed.get(&packet_id) {
            Some(entry) => {
                let (count, previous_observation) = *entry;
                let first = if observation < previous_observation { observation } else { previous_observation };
                self.count_and_first_observed.insert(packet_id, (1i8 + count, first));
            },
            None => {
                self.count_and_first_observed.insert(packet_id, (1i8, observation));
            },
        }
        let ghost raw = self.observations@;
        proof {
            lemma_key_index_of_views(raw, peer_id@);
            crate::peer_map::lemma_key_index(raw, peer_id@);
        }
        match self.observations.index_of(peer_id) {
            Some(i) => {
                if !self.observations.value_at(i).contains_key(&packet_id) {
                    let mut observation_map = self.observations.replace_value_at(i, HashMap::new());
                    let ghost before = observation_map@;
                    assert(old(self)@.observations[i as int] == (peer_id@, before));
                    observation_map.insert(packet_id, observation);
                    self.observations.replace_value_at(i, observation_map);
                    proof {
                        assert(self@.observations =~= assoc_insert(
                            old(self)@.observations,
                            peer_id@,
                            before.insert(packet_id, observation),
                        ));
                    }
                }
            },
            None => {
                let mut observation_map: HashMap<PacketID, Observation> = HashMap::new();
                observation_map.insert(packet_id, observation);
                self.observations.insert(peer_id.clone(), observation_map);
                proof {
                    assert(observation_map@ =~= Map::<PacketID, Observation>::empty().insert(packet_id, observation));
                    assert(self@.observations =~= assoc_insert(
                        old(self)@.observations,
                        peer_id@,
                        Map::<PacketID, Observation>::empty().insert(packet_id, observation),
                    ));
                }
            },
        }
        assert(self@.firsts =~= observe(old(self)@, peer_id@, packet_id, observation).firsts);
    }

    /// Forgets every delivery and every packet first seen before `limit`.
    pub fn collect_garbage_after_limit(&mut self, limit: Observation)
        requires
            old(self).wf(),
        ensures
            final(self)@ == garbage_collected_after(old(self)@, limit),
            final(self).wf(),
    {
        let ghost start = self@;
        let mut i: usize = 0;
        while i < self.observations.len()
            invariant
                i <= start.observations.len(),
                self.wf(),
                self@.firsts == start.firsts,
                self@.keepers == start.keepers,
                self@.observations.len() == start.observations.len(),
                forall|j: int| 0 <= j < start.observations.len() ==> #[trigger] self@.observations[j]
                    == if j < i { (start.observations[j].0, deliveries_since(start.observations[j].1, limit)) } else { start.observations[j] },
            decreases start.observations.len() - i,
        {
            let ghost raw = self.observations@;
            let ghost pre = self@.observations;
            assert forall|j: int| 0 <= j < pre.len() implies pre[j] == (raw[j].0, raw[j].1@) && #[trigger] pre[j]
                == if j < i { (start.observations[j].0, deliveries_since(start.observations[j].1, limit)) } else { start.observations[j] } by {
            }
            let mut observation_map = self.observations.replace_value_at(i, HashMap::new());
            let ghost before = observation_map@;
            retain_since(&mut observation_map, limit);
            self.observations.replace_value_at(i, observation_map);
            proof {
                assert(self.observations@ == raw.update(i as int, (raw[i as int].0, observation_map)));
                assert forall|j: int| 0 <= j < start.observations.len() implies #[trigger] self@.observations[j]
                    == if j < i + 1 { (start.observations[j].0, deliveries_since(start.observations[j].1, limit)) } else { start.observations[j] } by {
                    assert(pre[j] == (raw[j].0, raw[j].1@));
                    if j == i {
                        assert(self@.observations[j] == (raw[j].0, observation_map@));
                    } else {
                        assert(self@.observations[j] == (raw[j].0, raw[j].1@));
                    }
                }
            }
            i = i + 1;
        }
        retain_firsts_since(&mut self.count_and_first_observed, limit);
        assert(self@.observations =~= garbage_collected_after(start, limit).observations);
        assert(self@.firsts =~= garbage_collected_after(start, limit).firsts);
    }

    /// Whether every neighbor's samples can be taken: each delay fits an
    /// `i64` (what `neighbor_samples` needs).
    pub fn samples_fit(&self) -> (fit: bool)
        ensures
            fit == forall|j: int| 0 <= j < self@.observations.len() ==> delays_fit(#[trigger] self@.observations[j].1, self@.firsts),
    {
        let mut i: usize = 0;
        while i < self.observations.len()
            invariant
                i <= self@.observations.len(),
                forall|j: int| 0 <= j < i ==> delays_fit(#[trigger] self@.observations[j].1, self@.firsts),
            decreases self@.observations.len() - i,
        {
            let observation_map = self.observations.value_at(i);
            assert(observation_map@ == self@.observations[i as int].1);
            if !delays_fit_in(observation_map, &self.count_and_first_observed) {
                return false;
            }
            i = i + 1;
        }
        true
    }

    /// Each neighbor with its samples (see `collect_observations`), in the
    /// neighbors' order: what the scoring of neighbors works from.
    pub fn neighbor_samples(&self) -> (samples_by_neighbor: Vec<(PeerID, Vec<u32>)>)
        requires
            forall|j: int| 0 <= j < self@.observations.len() ==> delays_fit(#[trigger] self@.observations[j].1, self@.firsts),
        ensures
            samples_by_neighbor@.len() == self@.observations.len(),
            forall|j: int| 0 <= j < samples_by_neighbor@.len() ==> {
                &&& (#[trigger] samples_by_neighbor@[j]).0@ == self@.observations[j].0
                &&& exists|keys: Seq<PacketID>| {
                    &&& keys.to_set() == self@.observations[j].1.dom()
                    &&& keys.no_duplicates()
                    &&& samples_by_neighbor@[j].1@ == samples(keys, self@.observations[j].1, self@.firsts)
                }
            },
    {
        let mut samples_by_neighbor: Vec<(PeerID, Vec<u32>)> = Vec::new();
        let mut i: usize = 0;
        while i < self.observations.len()
            invariant
                i <= self@.observations.len(),
                samples_by_neighbor@.len() == i,
                forall|j: int| 0 <= j < self@.observations.len() ==> delays_fit(#[trigger] self@.observations[j].1, self@.firsts),
                forall|j: int| 0 <= j < i ==> {
                    &&& (#[trigger] samples_by_neighbor@[j]).0@ == self@.observations[j].0
                    &&& exists|keys: Seq<PacketID>| {
                        &&& keys.to_set() == self@.observations[j].1.dom()
                        &&& keys.no_duplicates()
                        &&& samples_by_neighbor@[j].1@ == samples(keys, self@.observations[j].1, self@.firsts)
                    }
                },
            decreases self@.observations.len() - i,
        {
            let peer = self.observations.key_at(i).clone();
            let observation_map = self.observations.value_at(i);
            assert(observation_map@ == self@.observations[i as int].1);
            let observations = collect_observations(observation_map, &self.count_and_first_observed);
            samples_by_neighbor.push((peer, observations));
            i = i + 1;
        }
        samples_by_neighbor
    }

    /// Keeps, for each neighbor, only its 30 latest deliveries when it has
    /// more (see `garbage_collected_to_latest`), and only the first
    /// sightings of packets chosen for some neighbor. Which of equally late
    /// deliveries are kept is left open.
    pub fn collect_garbage_last_30s(&mut self)
        requires
            old(self).wf(),
        ensures
            final(self).wf(),
            exists|chosen: Seq<Set<PacketID>>| {
                &&& chosen.len() == old(self)@.observations.len()
                &&& forall|j: int| 0 <= j < chosen.len() ==> latest_deliveries(
                    old(self)@.observations[j].1,
                    #[trigger] chosen[j],
                    kept_per_neighbor(),
                )
                &&& final(self)@ == garbage_collected_to_latest(old(self)@, chosen)
            },
    {
        let ghost start = self@;
        let ghost mut chosen_sets: Seq<Set<PacketID>> = Seq::empty();
        let mut keep: Vec<PacketID> = Vec::new();
        let mut i: usize = 0;
        while i < self.observations.len()
            invariant
                i <= start.observations.len(),
                self.wf(),
                self@.firsts == start.firsts,
                self@.keepers == start.keepers,
                self@.observations.len() == start.observations.len(),
                chosen_sets.len() == i,
                forall|j: int| 0 <= j < i ==> latest_deliveries(start.observations[j].1, #[trigger] chosen_sets[j], kept_per_neighbor()),
                forall|j: int| 0 <= j < start.observations.len() ==> #[trigger] self@.observations[j]
                    == if j < i {
                        (start.observations[j].0, if start.observations[j].1.dom().len() > kept_per_neighbor() {
                            start.observations[j].1.restrict(chosen_sets[j])
                        } else {
                            start.observations[j].1
                        })
                    } else {
                        start.observations[j]
                    },
                forall|k: PacketID| keep@.contains(k) <==> exists|j: int| 0 <= j < i && #[trigger] chosen_sets[j].contains(k),
            decreases start.observations.len() - i,
        {
            let ghost raw = self.observations@;
            let ghost pre = self@.observations;
            assert forall|j: int| 0 <= j < pre.len() implies pre[j] == (raw[j].0, raw[j].1@) && #[trigger] pre[j]
                == if j < i {
                    (start.observations[j].0, if start.observations[j].1.dom().len() > kept_per_neighbor() {
                        start.observations[j].1.restrict(chosen_sets[j])
                    } else {
                        start.observations[j].1
                    })
                } else {
                    start.observations[j]
                } by {
            }
            let current = self.observations.value_at(i);
            assert(pre[i as int] == (raw[i as int].0, raw[i as int].1@));
            assert(self@.observations[i as int] == start.observations[i as int]);
            assert(current@ == start.observations[i as int].1);
            let chosen = latest(current, 30);
            let count = current.len();
            if count > 30 {
                let whole = self.observations.replace_value_at(i, HashMap::new());
                let mut restricted: HashMap<PacketID, Observation> = HashMap::new();
                let mut t: usize = 0;
                while t < chosen.len()
                    invariant
                        t <= chosen@.len(),
                        chosen@.to_set().subset_of(whole@.dom()),
                        restricted@ == whole@.restrict(chosen@.take(t as int).to_set()),
                    decreases chosen@.len() - t,
                {
                    proof {
                        assert(chosen@.to_set().contains(chosen@[t as int]));
                    }
                    let c = chosen[t];
                    let o = *whole.get(&c).unwrap();
                    restricted.insert(c, o);
                    proof {
                        broadcast use vstd::seq_lib::group_seq_properties;
                        assert(chosen@.take(t as int + 1) =~= chosen@.take(t as int).push(c));
                        assert(restricted@ =~= whole@.restrict(chosen@.take(t as int + 1).to_set()));
                    }
                    t = t + 1;
                }
                assert(chosen@.take(chosen@.len() as int) =~= chosen@);
                self.observations.replace_value_at(i, restricted);
            }
            let ghost keep_before = keep@;
            let mut t: usize = 0;
            while t < chosen.len()
                invariant
                    t <= chosen@.len(),
                    keep@ == keep_before + chosen@.take(t as int),
                decreases chosen@.len() - t,
            {
                keep.push(chosen[t]);
                assert(chosen@.take(t as int + 1) =~= chosen@.take(t as int).push(chosen@[t as int]));
                assert(keep@ =~= keep_before + chosen@.take(t as int + 1));
                t = t + 1;
            }
            assert(chosen@.take(chosen@.len() as int) =~= chosen@);
            proof {
                broadcast use vstd::seq_lib::group_seq_properties;
                let old_sets = chosen_sets;
                chosen_sets = chosen_sets.push(chosen@.to_set());
                assert forall|k: PacketID| keep@.contains(k) <==> exists|j: int| 0 <= j < i + 1 && #[trigger] chosen_sets[j].contains(k) by {
                    if keep@.contains(k) {
                        if keep_before.contains(k) {
                            let j = choose|j: int| 0 <= j < i && #[trigger] old_sets[j].contains(k);
                            assert(chosen_sets[j] == old_sets[j]);
                        } else {
                            assert(chosen@.contains(k));
                            assert(chosen_sets[i as int].contains(k));
                        }
                    }
                    if exists|j: int| 0 <= j < i + 1 && #[trigger] chosen_sets[j].contains(k) {
                        let j = choose|j: int| 0 <= j < i + 1 && #[trigger] chosen_sets[j].contains(k);
                        if j < i {
                            assert(old_sets[j].contains(k));
                            assert(keep_before.contains(k));
                        } else {
                            assert(chosen@.to_set().contains(k));
                            assert(chosen@.contains(k));
                        }
                    }
                }
                assert forall|j: int| 0 <= j < i + 1 implies latest_deliveries(start.observations[j].1, #[trigger] chosen_sets[j], kept_per_neighbor()) by {
                    if j < i {
                        assert(chosen_sets[j] == old_sets[j]);
                    }
                }
                assert forall|j: int| 0 <= j < start.observations.len() implies #[trigger] self@.observations[j]
                    == if j < i + 1 {
                        (start.observations[j].0, if start.observations[j].1.dom().len() > kept_per_neighbor() {
                            start.observations[j].1.restrict(chosen_sets[j])
                        } else {
                            start.observations[j].1
                        })
                    } else {
                        start.observations[j]
                    } by {
                    assert(pre[j] == (raw[j].0, raw[j].1@));
                    if j < i {
                        assert(chosen_sets[j] == old_sets[j]);
                    }
                    if j == i {
                        assert(chosen@.to_set().subset_of(start.observations[j].1.dom()));
                        assert(start.observations[j].1.restrict(chosen_sets[j]) =~= start.observations[j].1.restrict(chosen@.to_set()));
                    }
                }
            }
            i = i + 1;
        }
        let mut firsts: HashMap<PacketID, (i8, Observation)> = HashMap::new();
        let mut t: usize = 0;
        while t < keep.len()
            invariant
                t <= keep@.len(),
                self@.firsts == start.firsts,
                firsts@ == start.firsts.restrict(keep@.take(t as int).to_set()),
            decreases keep@.len() - t,
        {
            let k = keep[t];
            match self.count_and_first_observed.get(&k) {
                Some(entry) => {
                    firsts.insert(k, *entry);
                },
                None => {},
            }
            proof {
                broadcast use vstd::seq_lib::group_seq_properties;
                assert(keep@.take(t as int + 1) =~= keep@.take(t as int).push(k));
                assert(firsts@ =~= start.firsts.restrict(keep@.take(t as int + 1).to_set()));
            }
            t = t + 1;
        }
        assert(keep@.take(keep@.len() as int) =~= keep@);
        self.count_and_first_observed = firsts;
        proof {
            let target = garbage_collected_to_latest(start, chosen_sets);
            assert(self@.observations =~= target.observations);
            assert(self@.firsts =~= target.firsts);
        }
    }
}

} // verus!
