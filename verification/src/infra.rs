//! The physical hosts and their pools of cores.

use vstd::prelude::*;
use crate::datum::{Datum, Tree};
use crate::file::{DuneFile, FileView};
use crate::strmap::{Entries, StrMap};

verus! {

/// A physical host: its free cores, in one pool for each NUMA node.
#[derive(Debug, Clone, PartialEq)]
pub struct Phynode {
    pub cores: Vec<Vec<u64>>,
    pub binds: Option<Vec<DuneFile>>,
    pub _additional_fields: Option<StrMap<Datum>>,
}

/// The mathematical form of a [`Phynode`].
pub struct PhynodeView {
    pub cores: Seq<Seq<u64>>,
    pub binds: Option<Seq<FileView>>,
    pub _additional_fields: Option<Entries<Tree>>,
}

impl DeepView for Phynode {
    type V = PhynodeView;

    open spec fn deep_view(&self) -> PhynodeView {
        PhynodeView {
            cores: self.cores.deep_view(),
            binds: self.binds.deep_view(),
            _additional_fields: self._additional_fields.deep_view(),
        }
    }
}

impl View for Phynode {
    type V = PhynodeView;

    open spec fn view(&self) -> PhynodeView {
        self.deep_view()
    }
}

/// The number of cores in the pools of a host.
pub open spec fn pool_total(pools: Seq<Seq<u64>>) -> nat
    decreases pools.len(),
{
    if pools.len() == 0 {
        0
    } else {
        pool_total(pools.drop_last()) + pools.last().len()
    }
}

/// The number of cores of all hosts.
pub open spec fn total_cores(hosts: Entries<PhynodeView>) -> nat
    decreases hosts.len(),
{
    if hosts.len() == 0 {
        0
    } else {
        total_cores(hosts.drop_last()) + pool_total(hosts.last().1.cores)
    }
}

/// A count as a machine holds it: itself where it fits, else the largest
/// number that does.
pub open spec fn capped(n: nat) -> usize {
    if n <= usize::MAX {
        n as usize
    } else {
        usize::MAX
    }
}

/// A count where it fits the machine's numbers.
pub open spec fn counted(n: nat) -> Option<usize> {
    if n <= usize::MAX {
        Some(n as usize)
    } else {
        None
    }
}

/// The sum of two counts, where both are counts and the sum is one.
pub fn add_counts(a: Option<usize>, b: Option<usize>) -> (r: Option<usize>)
    ensures
        r == match (a, b) {
            (Some(x), Some(y)) => counted((x + y) as nat),
            _ => None,
        },
{
    match (a, b) {
        (Some(x), Some(y)) => {
            if y > usize::MAX - x {
                None
            } else {
                Some(x + y)
            }
        },
        _ => None,
    }
}

/// Whether no number stands in the list twice.
pub fn all_different(list: &Vec<u64>) -> (r: bool)
    ensures
        r == !exists|i: int, j: int| 0 <= i < j < list@.len() && list@[i] == list@[j],
{
    let n = list.len();
    let mut j: usize = 0;
    while j < n
        invariant
            j <= n,
            n == list@.len(),
            forall|a: int, b: int| 0 <= a < b < j ==> list@[a] != list@[b],
        decreases n - j,
    {
        let mut i: usize = 0;
        while i < j
            invariant
                i <= j,
                j < n,
                n == list@.len(),
                forall|a: int| 0 <= a < i ==> list@[a] != list@[j as int],
            decreases j - i,
        {
            if list[i] == list[j] {
                return false;
            }
            i += 1;
        }
        j += 1;
    }
    true
}

impl Phynode {
    /// The number of cores of the host, where it fits the machine's numbers.
    pub fn count_cores(&self) -> (r: Option<usize>)
        ensures
            r == counted(pool_total(self@.cores)),
    {
        let ghost pools = self@.cores;
        let mut sum: Option<usize> = Some(0);
        let mut i: usize = 0;
        assert(pools.take(0) =~= Seq::<Seq<u64>>::empty());
        while i < self.cores.len()
            invariant
                i <= self.cores.len(),
                pools == self@.cores,
                sum == counted(pool_total(pools.take(i as int))),
            decreases self.cores.len() - i,
        {
            proof {
                let upto = pools.take(i + 1);
                assert(upto.drop_last() =~= pools.take(i as int));
                assert(upto.last().len() == self.cores@[i as int]@.len());
            }
            sum = add_counts(sum, Some(self.cores[i].len()));
            i += 1;
        }
        assert(pools.take(i as int) =~= pools);
        sum
    }

    /// The number of cores of the host.
    pub fn cores(&self) -> (n: usize)
        ensures
            n == capped(pool_total(self@.cores)),
    {
        match self.count_cores() {
            Some(n) => n,
            None => usize::MAX,
        }
    }
}

/// The physical hosts, by name.
#[derive(Debug, Clone, PartialEq)]
pub struct Phynodes {
    pub nodes: StrMap<Phynode>,
    pub _additional_fields: Option<StrMap<Datum>>,
}

/// The mathematical form of a [`Phynodes`].
pub struct PhynodesView {
    pub nodes: Entries<PhynodeView>,
    pub _additional_fields: Option<Entries<Tree>>,
}

impl DeepView for Phynodes {
    type V = PhynodesView;

    open spec fn deep_view(&self) -> PhynodesView {
        PhynodesView {
            nodes: self.nodes.deep_view(),
            _additional_fields: self._additional_fields.deep_view(),
        }
    }
}

impl View for Phynodes {
    type V = PhynodesView;

    open spec fn view(&self) -> PhynodesView {
        self.deep_view()
    }
}

/// `(h, g, k)` is a place in the pools: host `h` has a pool `g`, and the pool
/// a core at `k`.
pub open spec fn is_place(hosts: Entries<PhynodeView>, h: int, g: int, k: int) -> bool {
    0 <= h < hosts.len() && 0 <= g < hosts[h].1.cores.len() && 0 <= k < hosts[h].1.cores[g].len()
}

/// The core at a place in the pools.
pub open spec fn core_at(hosts: Entries<PhynodeView>, h: int, g: int, k: int) -> u64 {
    hosts[h].1.cores[g][k]
}

/// No core stands at two places: every core belongs to one pool of one host,
/// once.
pub open spec fn cores_unique(hosts: Entries<PhynodeView>) -> bool {
    forall|h: int, g: int, k: int, h2: int, g2: int, k2: int|
        is_place(hosts, h, g, k) && is_place(hosts, h2, g2, k2) && (h != h2 || g != g2 || k != k2)
            ==> #[trigger] core_at(hosts, h, g, k) != #[trigger] core_at(hosts, h2, g2, k2)
}

/// The place `(h2, g2, k2)` is looked at before the place `(h, g, k)`.
pub open spec fn place_before(h2: int, g2: int, k2: int, h: int, g: int, k: int) -> bool {
    h2 < h || (h2 == h && (g2 < g || (g2 == g && k2 < k)))
}

/// `places` lists, without repeating any, places of the pools, all of them
/// before `(h, g, k)`, and `cores` holds the core at each of them.
pub open spec fn lists_places(
    hosts: Entries<PhynodeView>,
    places: Seq<(int, int, int)>,
    cores: Seq<u64>,
    h: int,
    g: int,
    k: int,
) -> bool {
    &&& cores.len() == places.len()
    &&& forall|i: int|
        0 <= i < places.len() ==> {
            let p = #[trigger] places[i];
            &&& is_place(hosts, p.0, p.1, p.2)
            &&& place_before(p.0, p.1, p.2, h, g, k)
            &&& cores[i] == core_at(hosts, p.0, p.1, p.2)
        }
    &&& forall|i: int, j: int|
        0 <= i < j < places.len() ==> (#[trigger] places[i]) != (#[trigger] places[j])
}

/// Every place of the pools before `(h, g, k)` is listed in `places`, where
/// `found` says.
pub open spec fn covers_places(
    hosts: Entries<PhynodeView>,
    places: Seq<(int, int, int)>,
    found: Map<(int, int, int), int>,
    h: int,
    g: int,
    k: int,
) -> bool {
    forall|h2: int, g2: int, k2: int|
        #[trigger] is_place(hosts, h2, g2, k2) && place_before(h2, g2, k2, h, g, k) ==> {
            &&& found.contains_key((h2, g2, k2))
            &&& 0 <= found[(h2, g2, k2)] < places.len()
            &&& places[found[(h2, g2, k2)]] == (h2, g2, k2)
        }
}

impl Phynodes {
    /// Whether every core belongs to one pool of one host, once.
    #[verifier::rlimit(30)]
    pub fn has_unique_cores(&self) -> (r: bool)
        ensures
            r == cores_unique(self@.nodes),
    {
        let ghost hosts = self@.nodes;
        let ghost mut places: Seq<(int, int, int)> = Seq::empty();
        let ghost mut found: Map<(int, int, int), int> = Map::empty();
        let mut cores: Vec<u64> = Vec::new();
        let n = self.nodes.len();
        let mut h: usize = 0;
        while h < n
            invariant
                h <= n,
                n == self.nodes@.len(),
                hosts == self@.nodes,
                lists_places(hosts, places, cores@, h as int, 0, 0),
                covers_places(hosts, places, found, h as int, 0, 0),
            decreases n - h,
        {
            let pools = &self.nodes.value_at(h).cores;
            assert(hosts[h as int].1.cores == pools.deep_view());
            let mut g: usize = 0;
            while g < pools.len()
                invariant
                    g <= pools.len(),
                    h < n,
                    n == self.nodes@.len(),
                    hosts == self@.nodes,
                    hosts[h as int].1.cores == pools.deep_view(),
                    lists_places(hosts, places, cores@, h as int, g as int, 0),
                    covers_places(hosts, places, found, h as int, g as int, 0),
                decreases pools.len() - g,
            {
                let pool = &pools[g];
                assert(hosts[h as int].1.cores[g as int] =~= pool@);
                let mut k: usize = 0;
                while k < pool.len()
                    invariant
                        k <= pool.len(),
                        h < n,
                        g < pools.len(),
                        n == self.nodes@.len(),
                        hosts == self@.nodes,
                        hosts[h as int].1.cores == pools.deep_view(),
                        hosts[h as int].1.cores[g as int] == pool@,
                        lists_places(hosts, places, cores@, h as int, g as int, k as int),
                        covers_places(hosts, places, found, h as int, g as int, k as int),
                    decreases pool.len() - k,
                {
                    let ghost here = (h as int, g as int, k as int);
                    let ghost at = places.len() as int;
                    cores.push(pool[k]);
                    proof {
                        assert(is_place(hosts, h as int, g as int, k as int));
                        let old_places = places;
                        let old_found = found;
                        places = places.push(here);
                        found = found.insert(here, at);
                        assert forall|i: int| 0 <= i < places.len() implies {
                            let p = #[trigger] places[i];
                            &&& is_place(hosts, p.0, p.1, p.2)
                            &&& place_before(p.0, p.1, p.2, h as int, g as int, k + 1)
                            &&& cores@[i] == core_at(hosts, p.0, p.1, p.2)
                        } by {
                            if i < at {
                                assert(places[i] == old_places[i]);
                            }
                        }
                        assert forall|i: int, j: int| 0 <= i < j < places.len() implies (
                        #[trigger] places[i]) != (#[trigger] places[j]) by {
                            assert(places[i] == old_places[i]);
                            if j < at {
                                assert(places[j] == old_places[j]);
                            }
                        }
                        assert forall|h2: int, g2: int, k2: int|
                            #[trigger] is_place(hosts, h2, g2, k2) && place_before(
                                h2,
                                g2,
                                k2,
                                h as int,
                                g as int,
                                k + 1,
                            ) implies {
                            &&& found.contains_key((h2, g2, k2))
                            &&& 0 <= found[(h2, g2, k2)] < places.len()
                            &&& places[found[(h2, g2, k2)]] == (h2, g2, k2)
                        } by {
                            if (h2, g2, k2) != here {
                                assert(place_before(h2, g2, k2, h as int, g as int, k as int));
                                assert(old_found.contains_key((h2, g2, k2)));
                                assert(places[old_found[(h2, g2, k2)]] == old_places[old_found[(
                                    h2,
                                    g2,
                                    k2,
                                )]]);
                            }
                        }
                    }
                    k += 1;
                }
                proof {
                    assert forall|h2: int, g2: int, k2: int|
                        #[trigger] is_place(hosts, h2, g2, k2) && place_before(
                            h2,
                            g2,
                            k2,
                            h as int,
                            g + 1,
                            0,
                        ) implies place_before(h2, g2, k2, h as int, g as int, k as int) by {}
                }
                g += 1;
            }
            proof {
                assert forall|h2: int, g2: int, k2: int|
                    #[trigger] is_place(hosts, h2, g2, k2) && place_before(
                        h2,
                        g2,
                        k2,
                        h + 1,
                        0,
                        0,
                    ) implies place_before(h2, g2, k2, h as int, g as int, 0) by {}
            }
            h += 1;
        }
        let unique = all_different(&cores);
        proof {
            if unique {
                assert forall|h1: int, g1: int, k1: int, h2: int, g2: int, k2: int|
                    is_place(hosts, h1, g1, k1) && is_place(hosts, h2, g2, k2) && (h1 != h2 || g1
                        != g2 || k1 != k2) implies #[trigger] core_at(hosts, h1, g1, k1)
                    != #[trigger] core_at(hosts, h2, g2, k2) by {
                    let i = found[(h1, g1, k1)];
                    let j = found[(h2, g2, k2)];
                    assert(places[i] == (h1, g1, k1) && places[j] == (h2, g2, k2));
                    assert(i != j);
                    assert(cores@[i] != cores@[j]);
                }
            } else {
                let (i, j) = choose|i: int, j: int|
                    0 <= i < j < cores@.len() && cores@[i] == cores@[j];
                let p = places[i];
                let q = places[j];
                assert(p != q);
                assert(is_place(hosts, p.0, p.1, p.2) && is_place(hosts, q.0, q.1, q.2));
                assert(core_at(hosts, p.0, p.1, p.2) == core_at(hosts, q.0, q.1, q.2));
            }
        }
        unique
    }

    /// The number of cores of all hosts, where it fits the machine's numbers.
    pub fn count_cores(&self) -> (r: Option<usize>)
        ensures
            r == counted(total_cores(self@.nodes)),
    {
        let ghost hosts = self@.nodes;
        let n = self.nodes.len();
        let mut sum: Option<usize> = Some(0);
        let mut i: usize = 0;
        assert(hosts.take(0) =~= Seq::<(Seq<char>, PhynodeView)>::empty());
        while i < n
            invariant
                i <= n,
                n == self.nodes@.len(),
                hosts == self@.nodes,
                sum == counted(total_cores(hosts.take(i as int))),
            decreases n - i,
        {
            proof {
                let upto = hosts.take(i + 1);
                assert(upto.drop_last() =~= hosts.take(i as int));
                assert(upto.last().1 == self.nodes@[i as int].1@);
            }
            sum = add_counts(sum, self.nodes.value_at(i).count_cores());
            i += 1;
        }
        assert(hosts.take(i as int) =~= hosts);
        sum
    }

    /// The number of cores of all hosts.
    pub fn cores(&self) -> (n: usize)
        ensures
            n == capped(total_cores(self@.nodes)),
    {
        match self.count_cores() {
            Some(n) => n,
            None => usize::MAX,
        }
    }
}

} // verus!
