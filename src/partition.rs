use crate::model::{DestinationChannel, EngineError, Participant, TeamAssignment};
use crate::random::RandomSource;
use vstd::arithmetic::div_mod::lemma_fundamental_div_mod;
use vstd::arithmetic::mul::{
    lemma_mul_basics, lemma_mul_inequality, lemma_mul_is_commutative, lemma_mul_is_distributive_add_other_way,
};
use vstd::prelude::*;

verus! {

/// Size of team `t` when `n` members are dealt round-robin over `k` teams:
/// the first `n % k` teams get one extra.
pub open spec fn team_size(n: nat, k: nat, t: nat) -> nat
    recommends
        k > 0,
{
    if t < n % k {
        n / k + 1
    } else {
        n / k
    }
}

/// Position in the dealt sequence of the `j`-th member of team `t`.
pub open spec fn slot_index(k: nat, t: nat, j: nat) -> nat {
    t + j * k
}

/// Sum of the sizes of the first `m` teams.
pub open spec fn sizes_total(n: nat, k: nat, m: nat) -> nat
    decreases m,
{
    if m == 0 {
        0
    } else {
        sizes_total(n, k, (m - 1) as nat) + team_size(n, k, (m - 1) as nat)
    }
}

/// `teams` deals `order` round-robin over `dests`: team `t` goes to `dests[t]`
/// and holds the members at positions `t, t + k, t + 2k, ...` of `order`.
pub open spec fn deals(teams: Seq<TeamAssignment>, order: Seq<Participant>, dests: Seq<DestinationChannel>) -> bool {
    let k = dests.len();
    &&& teams.len() == k
    &&& forall|t: int|
        #![trigger teams[t]]
        0 <= t < k ==> {
            &&& teams[t].team_index == t
            &&& teams[t].destination == dests[t]
            &&& teams[t].members@.len() == team_size(order.len(), k, t as nat)
            &&& forall|j: int|
                0 <= j < teams[t].members@.len() ==> #[trigger] teams[t].members@[j] == order[
                    slot_index(k, t as nat, j as nat) as int
                ]
        }
}

/// For `t < k`, position `t + j*k` lies inside `n` exactly when `j` is below
/// the size of team `t`.
pub proof fn lemma_slot_in_range(n: nat, k: nat, t: nat, j: nat)
    requires
        0 < k,
        t < k,
    ensures
        slot_index(k, t, j) < n <==> j < team_size(n, k, t),
{
    let q = (n / k) as int;
    let r = (n % k) as int;
    lemma_fundamental_div_mod(n as int, k as int);
    lemma_mul_is_commutative(k as int, q);
    assert(0 <= r < k);
    if j <= q {
        lemma_mul_inequality(j as int, q, k as int);
    } else {
        lemma_mul_inequality(q + 1, j as int, k as int);
        lemma_mul_is_distributive_add_other_way(k as int, q, 1);
    }
    if j < q {
        lemma_mul_inequality(j as int + 1, q, k as int);
        lemma_mul_is_distributive_add_other_way(k as int, j as int, 1);
    }
}

/// Position `i` of the dealt sequence is member `i / k` of team `i % k`.
pub proof fn lemma_slot_of_index(n: nat, k: nat, i: nat)
    requires
        0 < k,
        i < n,
    ensures
        i % k < k,
        slot_index(k, i % k, i / k) == i,
        i / k < team_size(n, k, i % k),
{
    lemma_fundamental_div_mod(i as int, k as int);
    lemma_mul_is_commutative(k as int, (i / k) as int);
    lemma_slot_in_range(n, k, i % k, i / k);
}

/// Two different slots of a dealing never share a position.
pub proof fn lemma_slot_injective(k: nat, t1: nat, j1: nat, t2: nat, j2: nat)
    requires
        t1 < k,
        t2 < k,
        slot_index(k, t1, j1) == slot_index(k, t2, j2),
    ensures
        t1 == t2,
        j1 == j2,
{
    assert(t1 == t2 && j1 == j2) by (nonlinear_arith)
        requires
            t1 < k,
            t2 < k,
            t1 + j1 * k == t2 + j2 * k,
    ;
}

proof fn lemma_sizes_total(n: nat, k: nat, m: nat)
    requires
        0 < k,
        m <= k,
    ensures
        sizes_total(n, k, m) == m * (n / k) + if m < n % k { m } else { n % k },
    decreases m,
{
    let d = (n / k) as int;
    let r = (n % k) as int;
    if m == 0 {
        lemma_mul_basics(d);
        assert(r >= 0);
    } else {
        lemma_sizes_total(n, k, (m - 1) as nat);
        lemma_mul_is_distributive_add_other_way(d, m - 1, 1);
        let prev = sizes_total(n, k, (m - 1) as nat);
        assert(prev == (m - 1) * d + if m - 1 < r { m - 1 } else { r });
        assert(sizes_total(n, k, m) == prev + team_size(n, k, (m - 1) as nat));
        if m - 1 < r {
            assert(team_size(n, k, (m - 1) as nat) == d + 1);
        } else {
            assert(team_size(n, k, (m - 1) as nat) == d);
        }
        assert(m * d == (m - 1) * d + d);
    }
}

/// Dealing `n >= 2` members over `2 <= k <= n` teams gives `k` teams whose
/// sizes add up to `n` and differ by at most one.
pub proof fn lemma_partition_balanced(n: nat, k: nat)
    requires
        2 <= k <= n,
    ensures
        sizes_total(n, k, k) == n,
        forall|t1: nat, t2: nat|
            t1 < k && t2 < k ==> team_size(n, k, t1) <= team_size(n, k, t2) + 1,
{
    lemma_sizes_total(n, k, k);
    lemma_fundamental_div_mod(n as int, k as int);
    lemma_mul_is_commutative(k as int, (n / k) as int);
}

/// Member `i` of `order` sits in team `i % k` at place `i / k`.
pub open spec fn placed(teams: Seq<TeamAssignment>, order: Seq<Participant>, k: nat, i: int) -> bool {
    let t = i % (k as int);
    let j = i / (k as int);
    &&& 0 <= t < teams.len()
    &&& 0 <= j < teams[t].members@.len()
    &&& teams[t].members@[j] == order[i]
}

/// Place `j` of team `t` holds a member of `order`, the one at `t + j*k`.
pub open spec fn filled(teams: Seq<TeamAssignment>, order: Seq<Participant>, k: nat, t: int, j: int) -> bool {
    &&& slot_index(k, t as nat, j as nat) < order.len()
    &&& teams[t].members@[j] == order[slot_index(k, t as nat, j as nat) as int]
}

/// Every member of the dealt sequence lands in exactly one slot, and every
/// slot of a team holds a member: the teams together are the sequence, with
/// no one left out and no one placed twice.
pub proof fn lemma_partition_covers(teams: Seq<TeamAssignment>, order: Seq<Participant>, dests: Seq<DestinationChannel>)
    requires
        dests.len() > 0,
        deals(teams, order, dests),
    ensures
        forall|i: int| 0 <= i < order.len() ==> #[trigger] placed(teams, order, dests.len(), i),
        forall|t: int, j: int|
            0 <= t < teams.len() && 0 <= j < teams[t].members@.len() ==> #[trigger] filled(
                teams,
                order,
                dests.len(),
                t,
                j,
            ),
        forall|t1: int, j1: int, t2: int, j2: int|
            0 <= t1 < teams.len() && 0 <= t2 < teams.len() && 0 <= j1 && 0 <= j2
                && #[trigger] slot_index(dests.len(), t1 as nat, j1 as nat) == #[trigger] slot_index(
                dests.len(),
                t2 as nat,
                j2 as nat,
            ) ==> t1 == t2 && j1 == j2,
{
    let k = dests.len();
    let n = order.len();
    assert forall|i: int| 0 <= i < order.len() implies #[trigger] placed(teams, order, k, i) by {
        lemma_slot_of_index(n, k, i as nat);
        let t = i % (k as int);
        let j = i / (k as int);
        assert(teams[t].members@.len() == team_size(n, k, t as nat));
        assert(teams[t].members@[j] == order[slot_index(k, t as nat, j as nat) as int]);
    }
    assert forall|t: int, j: int|
        0 <= t < teams.len() && 0 <= j < teams[t].members@.len() implies #[trigger] filled(
        teams,
        order,
        k,
        t,
        j,
    ) by {
        assert(teams[t].members@.len() == team_size(n, k, t as nat));
        lemma_slot_in_range(n, k, t as nat, j as nat);
        assert(teams[t].members@[j] == order[slot_index(k, t as nat, j as nat) as int]);
    }
    assert forall|t1: int, j1: int, t2: int, j2: int|
        0 <= t1 < teams.len() && 0 <= t2 < teams.len() && 0 <= j1 && 0 <= j2
            && #[trigger] slot_index(dests.len(), t1 as nat, j1 as nat) == #[trigger] slot_index(
            dests.len(),
            t2 as nat,
            j2 as nat,
        ) implies t1 == t2 && j1 == j2 by {
        lemma_slot_injective(k, t1 as nat, j1 as nat, t2 as nat, j2 as nat);
    }
}

/// Deals `order` round-robin over `destinations`: member `i` of `order` goes
/// to team `i % k`, where `k` is the number of destinations.
pub fn assign_round_robin(order: &Vec<Participant>, destinations: &Vec<DestinationChannel>) -> (teams: Vec<TeamAssignment>)
    requires
        destinations@.len() > 0,
    ensures
        deals(teams@, order@, destinations@),
{
    let n = order.len();
    let k = destinations.len();
    let mut teams: Vec<TeamAssignment> = Vec::new();
    let mut t: usize = 0;
    while t < k
        invariant
            n == order@.len(),
            k == destinations@.len(),
            0 < k,
            t <= k,
            teams@.len() == t,
            forall|tt: int|
                #![trigger teams@[tt]]
                0 <= tt < t ==> {
                    &&& teams@[tt].team_index == tt
                    &&& teams@[tt].destination == destinations@[tt]
                    &&& teams@[tt].members@.len() == team_size(n as nat, k as nat, tt as nat)
                    &&& forall|j: int|
                        0 <= j < teams@[tt].members@.len() ==> #[trigger] teams@[tt].members@[j]
                            == order@[slot_index(k as nat, tt as nat, j as nat) as int]
                },
        decreases k - t,
    {
        proof {
            assert(n == k * (n / k) + n % k) by (nonlinear_arith)
                requires
                    k > 0,
            ;
            assert(n / k <= n) by (nonlinear_arith)
                requires
                    k > 0,
            ;
            assert(n % k < k) by (nonlinear_arith)
                requires
                    k > 0,
            ;
            if t < n % k {
                assert(n / k < n) by (nonlinear_arith)
                    requires
                        k > 0,
                        n % k > 0,
                        n == k * (n / k) + n % k,
                ;
            }
        }
        let size: usize = if t < n % k {
            n / k + 1
        } else {
            n / k
        };
        let mut members: Vec<Participant> = Vec::new();
        let mut j: usize = 0;
        while j < size
            invariant
                n == order@.len(),
                0 < k,
                t < k,
                size == team_size(n as nat, k as nat, t as nat),
                j <= size,
                members@.len() == j,
                forall|jj: int|
                    0 <= jj < j ==> #[trigger] members@[jj] == order@[slot_index(
                        k as nat,
                        t as nat,
                        jj as nat,
                    ) as int],
            decreases size - j,
        {
            proof {
                lemma_slot_in_range(n as nat, k as nat, t as nat, j as nat);
            }
            let pos: usize = t + j * k;
            members.push(order[pos].duplicate());
            j = j + 1;
        }
        teams.push(TeamAssignment { team_index: t, destination: destinations[t].duplicate(), members });
        t = t + 1;
    }
    teams
}

} // verus!

verus! {

/// Participants to split over destination channels, validated.
#[derive(Debug)]
pub struct PartitionRequest {
    pub participants: Vec<Participant>,
    pub destinations: Vec<DestinationChannel>,
}

/// Why `n` participants cannot be split over `k` destinations, in the order
/// the checks are made; `None` when they can.
pub open spec fn partition_problem(n: nat, k: nat) -> Option<EngineError> {
    if k < 2 {
        Some(EngineError::InsufficientTeams)
    } else if n <= 1 {
        Some(EngineError::InsufficientParticipants)
    } else if n < k {
        Some(EngineError::NotEnoughParticipantsForTeams)
    } else {
        None
    }
}

/// `teams` deals some ordering of `pool` over `dests`.
pub open spec fn deals_some_order(teams: Seq<TeamAssignment>, pool: Seq<Participant>, dests: Seq<DestinationChannel>) -> bool {
    exists|order: Seq<Participant>|
        order.to_multiset() == pool.to_multiset() && #[trigger] deals(teams, order, dests)
}

fn copy_participants(v: &Vec<Participant>) -> (r: Vec<Participant>)
    ensures
        r@ == v@,
{
    let mut r: Vec<Participant> = Vec::new();
    let mut i: usize = 0;
    while i < v.len()
        invariant
            i <= v@.len(),
            r@ == v@.subrange(0, i as int),
        decreases v@.len() - i,
    {
        r.push(v[i].duplicate());
        assert(r@ =~= v@.subrange(0, i + 1));
        i = i + 1;
    }
    assert(v@.subrange(0, v@.len() as int) == v@);
    r
}

/// A member of a dealing of `order` is a member of any `pool` that `order`
/// is a permutation of.
pub proof fn lemma_dealt_from_pool(
    teams: Seq<TeamAssignment>,
    order: Seq<Participant>,
    dests: Seq<DestinationChannel>,
    pool: Seq<Participant>,
)
    requires
        dests.len() > 0,
        deals(teams, order, dests),
        order.to_multiset() == pool.to_multiset(),
    ensures
        forall|t: int, j: int|
            0 <= t < teams.len() && 0 <= j < teams[t].members@.len() ==> pool.contains(
                #[trigger] teams[t].members@[j],
            ),
{
    lemma_partition_covers(teams, order, dests);
    order.to_multiset_ensures();
    pool.to_multiset_ensures();
    assert forall|t: int, j: int|
        0 <= t < teams.len() && 0 <= j < teams[t].members@.len() implies pool.contains(
        #[trigger] teams[t].members@[j],
    ) by {
        assert(filled(teams, order, dests.len(), t, j));
        let x = slot_index(dests.len(), t as nat, j as nat) as int;
        let y = teams[t].members@[j];
        assert(y == order[x]);
        assert(order.contains(y));
        assert(order.to_multiset().count(y) > 0);
        assert(pool.to_multiset().count(y) > 0);
    }
}

/// `x` is a member of one of `teams`.
pub open spec fn in_some_team(teams: Seq<TeamAssignment>, x: Participant) -> bool {
    exists|t: int, j: int|
        0 <= t < teams.len() && 0 <= j < teams[t].members@.len() && #[trigger] teams[t].members@[j]
            == x
}

/// When `teams` deal an ordering of `pool`, every team member comes from
/// `pool` and every participant of `pool` sits in some team.
pub proof fn lemma_teams_cover_pool(teams: Seq<TeamAssignment>, pool: Seq<Participant>, dests: Seq<DestinationChannel>)
    requires
        dests.len() > 0,
        deals_some_order(teams, pool, dests),
    ensures
        forall|t: int, j: int|
            0 <= t < teams.len() && 0 <= j < teams[t].members@.len() ==> pool.contains(
                #[trigger] teams[t].members@[j],
            ),
        forall|i: int| 0 <= i < pool.len() ==> in_some_team(teams, #[trigger] pool[i]),
{
    let order = choose|order: Seq<Participant>|
        order.to_multiset() == pool.to_multiset() && #[trigger] deals(teams, order, dests);
    lemma_dealt_from_pool(teams, order, dests, pool);
    lemma_partition_covers(teams, order, dests);
    order.to_multiset_ensures();
    pool.to_multiset_ensures();
    assert forall|i: int| 0 <= i < pool.len() implies in_some_team(teams, #[trigger] pool[i]) by {
        let x = pool[i];
        assert(pool.contains(x));
        assert(order.to_multiset().count(x) > 0);
        assert(order.contains(x));
        let q = choose|q: int| 0 <= q < order.len() && order[q] == x;
        assert(placed(teams, order, dests.len(), q));
        let t = q % (dests.len() as int);
        let j = q / (dests.len() as int);
        assert(teams[t].members@[j] == pool[i]);
    }
}

impl PartitionRequest {
    pub open spec fn wf(&self) -> bool {
        partition_problem(self.participants@.len(), self.destinations@.len()) is None
    }

    /// Checks the counts: fewer than two destinations, then at most one
    /// participant, then fewer participants than destinations, are refused.
    pub fn new(participants: Vec<Participant>, destinations: Vec<DestinationChannel>) -> (r: Result<
        PartitionRequest,
        EngineError,
    >)
        ensures
            r is Err <==> partition_problem(participants@.len(), destinations@.len()) is Some,
            r matches Err(e) ==> Some(e) == partition_problem(
                participants@.len(),
                destinations@.len(),
            ),
            r matches Ok(req) ==> req.wf() && req.participants@ == participants@
                && req.destinations@ == destinations@,
    {
        let n = participants.len();
        let k = destinations.len();
        if k < 2 {
            Err(EngineError::InsufficientTeams)
        } else if n <= 1 {
            Err(EngineError::InsufficientParticipants)
        } else if n < k {
            Err(EngineError::NotEnoughParticipantsForTeams)
        } else {
            Ok(PartitionRequest { participants, destinations })
        }
    }

    /// Shuffles the participants and deals them round-robin over the
    /// destinations: team `t` goes to destination `t`.
    pub fn partition(&self, rng: &mut RandomSource) -> (teams: Vec<TeamAssignment>)
        requires
            self.wf(),
        ensures
            deals_some_order(teams@, self.participants@, self.destinations@),
    {
        let mut order = copy_participants(&self.participants);
        rng.shuffle(&mut order);
        let teams = assign_round_robin(&order, &self.destinations);
        assert(deals(teams@, order@, self.destinations@));
        teams
    }
}

} // verus!
