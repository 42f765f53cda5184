//! Placing nodes on core pools: each node gets as many cores as it asks for,
//! all from one pool, the nodes that ask for most first.

use vstd::prelude::*;

verus! {

/// Where a node's cores come from: a pool of a host, and the place in the pool
/// of the first of them. The node gets the cores from `start` on.
#[derive(Clone, Copy, Debug, PartialEq, Eq, Structural)]
pub struct Placement {
    pub host: usize,
    pub group: usize,
    pub start: usize,
}

/// The mathematical form of a [`Placement`].
pub struct Spot {
    pub host: int,
    pub group: int,
    pub start: int,
}

impl View for Placement {
    type V = Spot;

    open spec fn view(&self) -> Spot {
        Spot { host: self.host as int, group: self.group as int, start: self.start as int }
    }
}

impl DeepView for Placement {
    type V = Spot;

    open spec fn deep_view(&self) -> Spot {
        self.view()
    }
}

/// The pool `g` of host `h` has `n` free cores or more.
pub open spec fn fits(free: Seq<Seq<usize>>, n: usize, h: int, g: int) -> bool {
    0 <= h < free.len() && 0 <= g < free[h].len() && free[h][g] >= n
}

/// The pool `(h1, g1)` is looked at before the pool `(h2, g2)`.
pub open spec fn earlier(h1: int, g1: int, h2: int, g2: int) -> bool {
    h1 < h2 || (h1 == h2 && g1 < g2)
}

/// The pool `g` of host `h` is the first with `n` free cores or more, hosts
/// taken in order and the pools of each host in order.
pub open spec fn is_first_fit(free: Seq<Seq<usize>>, n: usize, h: int, g: int) -> bool {
    &&& fits(free, n, h, g)
    &&& forall|h2: int, g2: int| #[trigger] fits(free, n, h2, g2) ==> !earlier(h2, g2, h, g)
}

/// The pool `p`, a host and one of its pools, is the first with `n` free
/// cores or more.
pub open spec fn is_first_fit_at(free: Seq<Seq<usize>>, n: usize, p: (int, int)) -> bool {
    is_first_fit(free, n, p.0, p.1)
}

/// The first pool with `n` free cores or more, if there is one.
pub open spec fn first_fit(free: Seq<Seq<usize>>, n: usize) -> Option<(int, int)> {
    if exists|p: (int, int)| is_first_fit_at(free, n, p) {
        Some(choose|p: (int, int)| is_first_fit_at(free, n, p))
    } else {
        None
    }
}

/// Node `i` is served before node `j`: it asks for more cores, or for as many
/// and comes first.
pub open spec fn comes_before(demands: Seq<usize>, i: int, j: int) -> bool {
    demands[i] > demands[j] || (demands[i] == demands[j] && i < j)
}

/// Node `i` is the next to serve: it is not placed yet, and comes before every
/// other node that is not.
pub open spec fn is_next(demands: Seq<usize>, placed: Seq<Option<Spot>>, i: int) -> bool {
    &&& 0 <= i < demands.len()
    &&& placed[i] is None
    &&& forall|j: int|
        0 <= j < demands.len() && (#[trigger] placed[j]) is None && j != i ==> comes_before(
            demands,
            i,
            j,
        )
}

/// The next node to serve.
pub open spec fn next_node(demands: Seq<usize>, placed: Seq<Option<Spot>>) -> int {
    choose|i: int| is_next(demands, placed, i)
}

/// How far the placing has come: the free cores left in each pool, and where
/// each node served so far was placed.
pub struct AllocState {
    pub free: Seq<Seq<usize>>,
    pub placed: Seq<Option<Spot>>,
}

/// The state after the next node is served, or that node where no pool has
/// room for it. The node gets the last free cores of the first pool that has
/// room.
pub open spec fn step(demands: Seq<usize>, s: AllocState) -> Result<AllocState, int> {
    let i = next_node(demands, s.placed);
    match first_fit(s.free, demands[i]) {
        None => Err(i),
        Some((h, g)) => {
            let start = s.free[h][g] - demands[i];
            Ok(
                AllocState {
                    free: s.free.update(h, s.free[h].update(g, start as usize)),
                    placed: s.placed.update(i, Some(Spot { host: h, group: g, start: start })),
                },
            )
        },
    }
}

/// The state after `rounds` more nodes are served, or the first node for which
/// no pool has room.
pub open spec fn run(demands: Seq<usize>, s: AllocState, rounds: nat) -> Result<AllocState, int>
    decreases rounds,
{
    if rounds == 0 {
        Ok(s)
    } else {
        match step(demands, s) {
            Ok(next) => run(demands, next, (rounds - 1) as nat),
            Err(i) => Err(i),
        }
    }
}

/// The state before any node is served.
pub open spec fn initial(demands: Seq<usize>, capacity: Seq<Seq<usize>>) -> AllocState {
    AllocState { free: capacity, placed: Seq::new(demands.len(), |i: int| None::<Spot>) }
}

/// Where each node is placed, given what the nodes ask for and what the pools
/// hold; or the first node for which no pool has room.
pub open spec fn placements(demands: Seq<usize>, capacity: Seq<Seq<usize>>) -> Result<
    Seq<Option<Spot>>,
    int,
> {
    match run(demands, initial(demands, capacity), demands.len()) {
        Ok(s) => Ok(s.placed),
        Err(i) => Err(i),
    }
}

/// How many nodes are not placed yet.
pub open spec fn unplaced(placed: Seq<Option<Spot>>) -> nat
    decreases placed.len(),
{
    if placed.len() == 0 {
        0
    } else {
        unplaced(placed.drop_last()) + if placed.last() is None {
            1nat
        } else {
            0nat
        }
    }
}

/// Placing a node that was not placed leaves one node less to place.
pub proof fn lemma_unplaced_update(placed: Seq<Option<Spot>>, i: int, p: Spot)
    requires
        0 <= i < placed.len(),
        placed[i] is None,
    ensures
        unplaced(placed.update(i, Some(p))) + 1 == unplaced(placed),
    decreases placed.len(),
{
    let after = placed.update(i, Some(p));
    if i == placed.len() - 1 {
        assert(after.drop_last() =~= placed.drop_last());
    } else {
        assert(after.drop_last() =~= placed.drop_last().update(i, Some(p)));
        lemma_unplaced_update(placed.drop_last(), i, p);
    }
}

/// Where no node is left to place, every node is placed; where some are left,
/// one of them is not.
pub proof fn lemma_unplaced_zero(placed: Seq<Option<Spot>>)
    ensures
        unplaced(placed) == 0 ==> forall|i: int| 0 <= i < placed.len() ==> (#[trigger] placed[i]) is Some,
        unplaced(placed) > 0 ==> exists|i: int| 0 <= i < placed.len() && (#[trigger] placed[i]) is None,
    decreases placed.len(),
{
    if placed.len() > 0 {
        let rest = placed.drop_last();
        lemma_unplaced_zero(rest);
        if unplaced(placed) == 0 {
            assert forall|i: int| 0 <= i < placed.len() implies (#[trigger] placed[i]) is Some by {
                if i < placed.len() - 1 {
                    assert(rest[i] == placed[i]);
                }
            }
        } else if placed.last() is None {
            assert(placed[placed.len() - 1] is None);
        } else {
            let i = choose|i: int| 0 <= i < rest.len() && (#[trigger] rest[i]) is None;
            assert(placed[i] == rest[i]);
        }
    }
}

/// At the start every node is still to place.
pub proof fn lemma_unplaced_initial(n: nat)
    ensures
        unplaced(Seq::new(n, |i: int| None::<Spot>)) == n,
    decreases n,
{
    if n > 0 {
        assert(Seq::new(n, |i: int| None::<Spot>).drop_last() =~= Seq::new(
            (n - 1) as nat,
            |i: int| None::<Spot>,
        ));
        lemma_unplaced_initial((n - 1) as nat);
    }
}

/// The placing is sound so far: the pools have kept their shape and lost
/// cores only; every node placed has its cores in a pool that exists, within
/// what the pool held and beyond what it has left; and two nodes placed in one
/// pool have cores apart from each other.
pub open spec fn sound(demands: Seq<usize>, capacity: Seq<Seq<usize>>, s: AllocState) -> bool {
    &&& s.placed.len() == demands.len()
    &&& s.free.len() == capacity.len()
    &&& forall|h: int| 0 <= h < capacity.len() ==> (#[trigger] s.free[h]).len() == capacity[h].len()
    &&& forall|h: int, g: int|
        0 <= h < capacity.len() && 0 <= g < capacity[h].len() ==> #[trigger] s.free[h][g]
            <= capacity[h][g]
    &&& forall|i: int|
        0 <= i < demands.len() && (#[trigger] s.placed[i]) is Some ==> within(
            demands,
            capacity,
            s.free,
            i,
            s.placed[i]->0,
        )
    &&& forall|i: int, j: int|
        0 <= i < demands.len() && 0 <= j < demands.len() && i != j && (#[trigger] s.placed[i])
            is Some && (#[trigger] s.placed[j]) is Some ==> apart(
            demands,
            i,
            s.placed[i]->0,
            j,
            s.placed[j]->0,
        )
}

/// The cores of node `i`, placed at `p`, lie in a pool that exists, within
/// what the pool held and beyond what it has left.
pub open spec fn within(
    demands: Seq<usize>,
    capacity: Seq<Seq<usize>>,
    free: Seq<Seq<usize>>,
    i: int,
    p: Spot,
) -> bool {
    &&& 0 <= p.host < capacity.len()
    &&& 0 <= p.group < capacity[p.host].len()
    &&& free[p.host][p.group] <= p.start
    &&& p.start + demands[i] <= capacity[p.host][p.group]
}

/// Node `i` is placed, in a pool that exists and that held the cores it got.
pub open spec fn has_room(
    demands: Seq<usize>,
    capacity: Seq<Seq<usize>>,
    i: int,
    placed: Option<Spot>,
) -> bool {
    match placed {
        Some(p) => {
            &&& 0 <= p.host < capacity.len()
            &&& 0 <= p.group < capacity[p.host].len()
            &&& 0 <= p.start
            &&& p.start + demands[i] <= capacity[p.host][p.group]
        },
        None => false,
    }
}

/// Two nodes placed in one pool have no place of the pool in common.
pub open spec fn apart(demands: Seq<usize>, i: int, p: Spot, j: int, q: Spot) -> bool {
    p.host == q.host && p.group == q.group ==> p.start + demands[i] <= q.start || q.start
        + demands[j] <= p.start
}

/// One more node served keeps the placing sound.
#[verifier::rlimit(30)]
pub proof fn lemma_step_sound(demands: Seq<usize>, capacity: Seq<Seq<usize>>, s: AllocState)
    requires
        sound(demands, capacity, s),
        unplaced(s.placed) > 0,
    ensures
        is_next(demands, s.placed, next_node(demands, s.placed)),
        step(demands, s) matches Ok(next) ==> sound(demands, capacity, next) && unplaced(
            next.placed,
        ) + 1 == unplaced(s.placed),
{
    lemma_unplaced_zero(s.placed);
    lemma_next_exists(demands, s.placed);
    let i = next_node(demands, s.placed);
    match first_fit(s.free, demands[i]) {
        None => {},
        Some((h, g)) => {
            assert(is_first_fit_at(s.free, demands[i], (h, g)));
            assert(fits(s.free, demands[i], h, g));
            let next = step(demands, s)->Ok_0;
            let start = s.free[h][g] - demands[i];
            let here = Spot { host: h, group: g, start: start };
            lemma_unplaced_update(s.placed, i, here);
            assert forall|h2: int, g2: int|
                0 <= h2 < capacity.len() && 0 <= g2 < capacity[h2].len() implies #[trigger] next.free[h2][g2]
                <= capacity[h2][g2] by {
                assert(s.free[h2][g2] <= capacity[h2][g2]);
            }
            assert forall|k: int|
                0 <= k < demands.len() && (#[trigger] next.placed[k]) is Some implies within(
                demands,
                capacity,
                next.free,
                k,
                next.placed[k]->0,
            ) by {
                if k != i {
                    assert(s.placed[k] is Some);
                    assert(within(demands, capacity, s.free, k, s.placed[k]->0));
                } else {
                    assert(s.free[h][g] <= capacity[h][g]);
                }
            }
            assert forall|a: int, b: int|
                0 <= a < demands.len() && 0 <= b < demands.len() && a != b && (
                #[trigger] next.placed[a]) is Some && (#[trigger] next.placed[b])
                    is Some implies apart(demands, a, next.placed[a]->0, b, next.placed[b]->0) by {
                if a != i && b != i {
                    assert(s.placed[a] is Some && s.placed[b] is Some);
                } else if a == i {
                    assert(s.placed[b] is Some);
                    assert(within(demands, capacity, s.free, b, s.placed[b]->0));
                } else {
                    assert(s.placed[a] is Some);
                    assert(within(demands, capacity, s.free, a, s.placed[a]->0));
                }
            }
        },
    }
}

/// Among the nodes not placed yet, one comes before all the others.
pub proof fn lemma_next_exists(demands: Seq<usize>, placed: Seq<Option<Spot>>)
    requires
        placed.len() == demands.len(),
        exists|i: int| 0 <= i < placed.len() && (#[trigger] placed[i]) is None,
    ensures
        is_next(demands, placed, next_node(demands, placed)),
{
    let best = best_upto(demands, placed, demands.len() as int);
    lemma_best_upto(demands, placed, demands.len() as int);
    assert(is_next(demands, placed, best));
}

/// The node that comes before all others among the first `n` that are not
/// placed, or -1 where all of them are.
pub open spec fn best_upto(demands: Seq<usize>, placed: Seq<Option<Spot>>, n: int) -> int
    decreases n,
{
    if n <= 0 {
        -1
    } else {
        let before = best_upto(demands, placed, n - 1);
        if placed[n - 1] is Some {
            before
        } else if before == -1 || demands[n - 1] > demands[before] {
            n - 1
        } else {
            before
        }
    }
}

/// `best_upto` finds the node to serve next among the first `n`.
pub proof fn lemma_best_upto(demands: Seq<usize>, placed: Seq<Option<Spot>>, n: int)
    requires
        placed.len() == demands.len(),
        0 <= n <= demands.len(),
    ensures
        -1 <= best_upto(demands, placed, n) < n,
        best_upto(demands, placed, n) == -1 ==> forall|j: int|
            0 <= j < n ==> (#[trigger] placed[j]) is Some,
        best_upto(demands, placed, n) >= 0 ==> placed[best_upto(demands, placed, n)] is None,
        best_upto(demands, placed, n) >= 0 ==> forall|j: int|
            0 <= j < n && (#[trigger] placed[j]) is None && j != best_upto(demands, placed, n)
                ==> comes_before(demands, best_upto(demands, placed, n), j),
    decreases n,
{
    if n > 0 {
        lemma_best_upto(demands, placed, n - 1);
    }
}

/// As many rounds as there are nodes left place them all, soundly, unless a
/// node finds no room.
pub proof fn lemma_run_sound(
    demands: Seq<usize>,
    capacity: Seq<Seq<usize>>,
    s: AllocState,
    rounds: nat,
)
    requires
        sound(demands, capacity, s),
        unplaced(s.placed) == rounds,
    ensures
        run(demands, s, rounds) matches Ok(last) ==> sound(demands, capacity, last) && unplaced(
            last.placed,
        ) == 0,
    decreases rounds,
{
    if rounds > 0 {
        lemma_step_sound(demands, capacity, s);
        match step(demands, s) {
            Ok(next) => {
                lemma_run_sound(demands, capacity, next, (rounds - 1) as nat);
            },
            Err(_) => {},
        }
    }
}

/// The placing starts out sound.
pub proof fn lemma_initial_sound(demands: Seq<usize>, capacity: Seq<Seq<usize>>)
    ensures
        sound(demands, capacity, initial(demands, capacity)),
        unplaced(initial(demands, capacity).placed) == demands.len(),
{
    lemma_unplaced_initial(demands.len());
}

/// Where every node finds room, every node is placed in a pool that exists,
/// on cores that the pool holds, and no two nodes share a place of a pool.
pub proof fn lemma_placements_sound(demands: Seq<usize>, capacity: Seq<Seq<usize>>)
    ensures
        placements(demands, capacity) matches Ok(placed) ==> {
            &&& placed.len() == demands.len()
            &&& forall|i: int|
                0 <= i < demands.len() ==> has_room(demands, capacity, i, #[trigger] placed[i])
            &&& forall|i: int, j: int|
                0 <= i < demands.len() && 0 <= j < demands.len() && i != j ==> apart(
                    demands,
                    i,
                    (#[trigger] placed[i])->0,
                    j,
                    (#[trigger] placed[j])->0,
                )
        },
{
    lemma_initial_sound(demands, capacity);
    lemma_run_sound(demands, capacity, initial(demands, capacity), demands.len());
    match run(demands, initial(demands, capacity), demands.len()) {
        Ok(last) => {
            lemma_unplaced_zero(last.placed);
            assert forall|i: int| 0 <= i < demands.len() implies has_room(
                demands,
                capacity,
                i,
                #[trigger] last.placed[i],
            ) by {
                assert(last.placed[i] is Some);
                assert(within(demands, capacity, last.free, i, last.placed[i]->0));
            }
        },
        Err(_) => {},
    }
}

/// The node that finds no room is one of the nodes.
pub proof fn lemma_failure_is_a_node(demands: Seq<usize>, capacity: Seq<Seq<usize>>)
    ensures
        placements(demands, capacity) matches Err(i) ==> 0 <= i < demands.len(),
{
    lemma_initial_sound(demands, capacity);
    lemma_run_failure(demands, capacity, initial(demands, capacity), demands.len());
}

/// Where a run fails, it fails on one of the nodes.
pub proof fn lemma_run_failure(
    demands: Seq<usize>,
    capacity: Seq<Seq<usize>>,
    s: AllocState,
    rounds: nat,
)
    requires
        sound(demands, capacity, s),
        unplaced(s.placed) == rounds,
    ensures
        run(demands, s, rounds) matches Err(i) ==> 0 <= i < demands.len(),
    decreases rounds,
{
    if rounds > 0 {
        lemma_step_sound(demands, capacity, s);
        match step(demands, s) {
            Ok(next) => {
                lemma_run_failure(demands, capacity, next, (rounds - 1) as nat);
            },
            Err(_) => {},
        }
    }
}

/// One node only is the next to serve.
pub proof fn lemma_next_unique(demands: Seq<usize>, placed: Seq<Option<Spot>>, i: int, j: int)
    requires
        is_next(demands, placed, i),
        is_next(demands, placed, j),
    ensures
        i == j,
{
    if i != j {
        assert(comes_before(demands, i, j));
        assert(comes_before(demands, j, i));
    }
}

/// One pool only is the first with room.
pub proof fn lemma_first_fit_unique(free: Seq<Seq<usize>>, n: usize, p: (int, int), q: (int, int))
    requires
        is_first_fit_at(free, n, p),
        is_first_fit_at(free, n, q),
    ensures
        p == q,
{
    assert(fits(free, n, p.0, p.1));
    assert(fits(free, n, q.0, q.1));
}

/// The node to serve next, or `None` where every node is placed.
pub fn pick_next(demands: &Vec<usize>, placed: &Vec<Option<Placement>>) -> (r: Option<usize>)
    requires
        placed@.len() == demands@.len(),
    ensures
        match r {
            Some(i) => is_next(demands@, placed.deep_view(), i as int),
            None => forall|j: int| 0 <= j < placed@.len() ==> (#[trigger] placed.deep_view()[j]) is Some,
        },
{
    let n = demands.len();
    let mut best: Option<usize> = None;
    let mut i: usize = 0;
    while i < n
        invariant
            i <= n,
            n == demands@.len(),
            n == placed@.len(),
            match best {
                Some(b) => {
                    &&& b < i
                    &&& placed.deep_view()[b as int] is None
                    &&& forall|j: int|
                        0 <= j < i && (#[trigger] placed.deep_view()[j]) is None && j != b
                            ==> comes_before(demands@, b as int, j)
                },
                None => forall|j: int| 0 <= j < i ==> (#[trigger] placed.deep_view()[j]) is Some,
            },
        decreases n - i,
    {
        assert(placed.deep_view()[i as int] is None == placed@[i as int] is None);
        if placed[i].is_none() {
            match best {
                Some(b) => {
                    if demands[i] > demands[b] {
                        best = Some(i);
                    }
                },
                None => {
                    best = Some(i);
                },
            }
        }
        i += 1;
    }
    best
}

/// The first pool with `n` free cores or more: its host and its place among
/// the host's pools.
pub fn find_fit(free: &Vec<Vec<usize>>, n: usize) -> (r: Option<(usize, usize)>)
    ensures
        match r {
            Some(p) => first_fit(free.deep_view(), n) == Some((p.0 as int, p.1 as int)),
            None => first_fit(free.deep_view(), n) is None,
        },
{
    let ghost pools = free.deep_view();
    let mut h: usize = 0;
    while h < free.len()
        invariant
            h <= free.len(),
            pools == free.deep_view(),
            forall|h2: int, g2: int| #[trigger] fits(pools, n, h2, g2) ==> h2 >= h,
        decreases free.len() - h,
    {
        let row = &free[h];
        assert(pools[h as int] =~= row@);
        let mut g: usize = 0;
        while g < row.len()
            invariant
                g <= row.len(),
                h < free.len(),
                pools == free.deep_view(),
                pools[h as int] == row@,
                forall|h2: int, g2: int|
                    #[trigger] fits(pools, n, h2, g2) ==> h2 > h || (h2 == h && g2 >= g),
            decreases row.len() - g,
        {
            if row[g] >= n {
                proof {
                    let here = (h as int, g as int);
                    assert(fits(pools, n, h as int, g as int));
                    assert(is_first_fit_at(pools, n, here));
                    let chosen = choose|p: (int, int)| is_first_fit_at(pools, n, p);
                    lemma_first_fit_unique(pools, n, here, chosen);
                }
                return Some((h, g));
            }
            g += 1;
        }
        h += 1;
    }
    proof {
        assert forall|p: (int, int)| !is_first_fit_at(pools, n, p) by {
            if is_first_fit_at(pools, n, p) {
                assert(fits(pools, n, p.0, p.1));
            }
        }
    }
    None
}

/// The places of nodes that are all placed.
pub open spec fn all_placed(spots: Seq<Spot>) -> Seq<Option<Spot>> {
    Seq::new(spots.len(), |i: int| Some(spots[i]))
}

/// The state that the working vectors stand for.
pub open spec fn state_of(free: Vec<Vec<usize>>, placed: Vec<Option<Placement>>) -> AllocState {
    AllocState { free: free.deep_view(), placed: placed.deep_view() }
}

/// Places every node: those that ask for most first, and among those that ask
/// for as many, the first first; each in the first pool with room for it, on
/// the last free cores of that pool. Fails with the first node for which no
/// pool has room.
#[verifier::rlimit(30)]
pub fn place_nodes(demands: &Vec<usize>, capacity: &Vec<Vec<usize>>) -> (r: Result<
    Vec<Placement>,
    usize,
>)
    ensures
        match r {
            Ok(placed) => placements(demands@, capacity.deep_view()) == Ok::<
                Seq<Option<Spot>>,
                int,
            >(all_placed(placed.deep_view())),
            Err(i) => placements(demands@, capacity.deep_view()) == Err::<Seq<Option<Spot>>, int>(
                i as int,
            ),
        },
{
    let n = demands.len();
    let ghost cap = capacity.deep_view();
    let mut free: Vec<Vec<usize>> = Vec::new();
    let mut h: usize = 0;
    while h < capacity.len()
        invariant
            h <= capacity.len(),
            free@.len() == h,
            forall|k: int| 0 <= k < h ==> (#[trigger] free@[k])@ == capacity@[k]@,
        decreases capacity.len() - h,
    {
        let row = &capacity[h];
        let mut copy: Vec<usize> = Vec::new();
        let mut g: usize = 0;
        while g < row.len()
            invariant
                g <= row.len(),
                copy@ == row@.take(g as int),
            decreases row.len() - g,
        {
            copy.push(row[g]);
            assert(copy@ =~= row@.take(g + 1));
            g += 1;
        }
        assert(row@.take(g as int) =~= row@);
        free.push(copy);
        h += 1;
    }
    let mut placed: Vec<Option<Placement>> = Vec::new();
    let mut k: usize = 0;
    while k < n
        invariant
            k <= n,
            placed@.len() == k,
            forall|j: int| 0 <= j < k ==> (#[trigger] placed@[j]) is None,
        decreases n - k,
    {
        placed.push(None);
        k += 1;
    }
    proof {
        assert(free.deep_view() =~= cap);
        assert(placed.deep_view() =~= initial(demands@, cap).placed);
        lemma_initial_sound(demands@, cap);
    }
    let mut round: usize = 0;
    while round < n
        invariant
            round <= n,
            n == demands@.len(),
            cap == capacity.deep_view(),
            sound(demands@, cap, state_of(free, placed)),
            unplaced(placed.deep_view()) == n - round,
            run(demands@, initial(demands@, cap), n as nat) == run(
                demands@,
                state_of(free, placed),
                (n - round) as nat,
            ),
        decreases n - round,
    {
        let ghost s = state_of(free, placed);
        proof {
            lemma_step_sound(demands@, cap, s);
            lemma_unplaced_zero(s.placed);
        }
        // some node is left to place, so that one is found
        let i = pick_next(demands, &placed).unwrap();
        proof {
            lemma_next_unique(demands@, s.placed, i as int, next_node(demands@, s.placed));
        }
        match find_fit(&free, demands[i]) {
            None => {
                return Err(i);
            },
            Some((h, g)) => {
                assert(is_first_fit_at(s.free, demands@[i as int], (h as int, g as int)));
                assert(fits(s.free, demands@[i as int], h as int, g as int));
                assert(s.free[h as int][g as int] == free@[h as int]@[g as int]);
                let start = free[h][g] - demands[i];
                let mut row: Vec<usize> = Vec::new();
                core::mem::swap(&mut row, &mut free[h]);
                row[g] = start;
                core::mem::swap(&mut row, &mut free[h]);
                placed[i] = Some(Placement { host: h, group: g, start });
                proof {
                    let next = step(demands@, s)->Ok_0;
                    assert(free.deep_view() =~= next.free) by {
                        assert forall|a: int| 0 <= a < free@.len() implies (
                        #[trigger] free.deep_view()[a]) =~= next.free[a] by {}
                    }
                    assert(placed.deep_view() =~= next.placed);
                }
            },
        }
        round += 1;
    }
    proof {
        lemma_unplaced_zero(placed.deep_view());
    }
    let mut out: Vec<Placement> = Vec::new();
    let mut k: usize = 0;
    while k < n
        invariant
            k <= n,
            n == placed@.len(),
            out@.len() == k,
            forall|j: int| 0 <= j < n ==> (#[trigger] placed.deep_view()[j]) is Some,
            forall|j: int| 0 <= j < k ==> Some((#[trigger] out@[j])@) == placed.deep_view()[j],
        decreases n - k,
    {
        assert(placed.deep_view()[k as int] is Some);
        out.push(placed[k].unwrap());
        k += 1;
    }
    assert(all_placed(out.deep_view()) =~= placed.deep_view());
    Ok(out)
}

} // verus!
