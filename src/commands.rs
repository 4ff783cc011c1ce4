use crate::channels::{
    all_resolvable, channel_names, first_named, first_repeated_name, has_repeat,
    is_first_repeat, is_first_unresolved, parse_channel_names, resolvable, resolve_channels,
    string_views,
};
use crate::filter::{eligible, eligible_participants, filter_participants, lemma_eligible};
use crate::model::{DestinationChannel, EngineError, Participant, TeamAssignment};
use crate::partition::{
    deals, deals_some_order, lemma_dealt_from_pool, partition_problem, PartitionRequest,
};
use crate::random::RandomSource;
use vstd::prelude::*;

verus! {

/// One participant of `members`, drawn uniformly; `EmptyChannel` when there
/// is nobody to draw from.
pub fn select_winner(members: &Vec<Participant>, rng: &mut RandomSource) -> (r: Result<
    Participant,
    EngineError,
>)
    ensures
        r is Err <==> members@.len() == 0,
        r matches Err(e) ==> e is EmptyChannel,
        r matches Ok(p) ==> members@.contains(p),
{
    match rng.index_below(members.len()) {
        None => Err(EngineError::EmptyChannel),
        Some(i) => {
            let p = members[i].duplicate();
            assert(members@[i as int] == p);
            Ok(p)
        },
    }
}

/// The `winner` command's choice: any present account may win, automated
/// ones included.
pub fn pick_winner(raw: &Vec<Participant>, rng: &mut RandomSource) -> (r: Result<
    Participant,
    EngineError,
>)
    ensures
        r is Err <==> eligible(raw@, false).len() == 0,
        r matches Err(e) ==> e is EmptyChannel,
        r matches Ok(p) ==> eligible(raw@, false).contains(p) && raw@.contains(p),
{
    let members = filter_participants(raw, false)?;
    let r = select_winner(&members, rng);
    proof {
        lemma_eligible(raw@, false);
        if r is Ok {
            let p = r->Ok_0;
            let i = choose|i: int| 0 <= i < members@.len() && members@[i] == p;
            assert(raw@.contains(eligible(raw@, false)[i]));
        }
    }
    r
}

/// The channels that `names` resolve to, in order.
pub open spec fn resolved(names: Seq<Seq<char>>, channels: Seq<DestinationChannel>) -> Seq<
    DestinationChannel,
> {
    Seq::new(names.len(), |m: int| channels[first_named(channels, names[m])])
}

/// `teamup` refuses: fewer than two channel names, a repeated name when
/// repeats are not allowed, a name that no channel carries, or too few
/// eligible participants for the teams.
pub open spec fn teamup_rejected(
    raw: Seq<Participant>,
    list: Seq<char>,
    channels: Seq<DestinationChannel>,
    allow_repeats: bool,
) -> bool {
    let names = channel_names(list);
    names.len() < 2 || (!allow_repeats && has_repeat(names)) || !all_resolvable(names, channels)
        || partition_problem(
        eligible(raw, true).len(),
        names.len(),
    ) is Some
}

/// `e` is the error `teamup` owes on these inputs: the first check that
/// fails decides.
pub open spec fn teamup_error(
    raw: Seq<Participant>,
    list: Seq<char>,
    channels: Seq<DestinationChannel>,
    allow_repeats: bool,
    e: EngineError,
) -> bool {
    let names = channel_names(list);
    if names.len() < 2 {
        e is InsufficientTeams
    } else if !allow_repeats && has_repeat(names) {
        exists|m: int|
            is_first_repeat(names, m) && (e matches EngineError::DuplicateDestination(x) && x@
                == #[trigger] names[m])
    } else if !all_resolvable(names, channels) {
        exists|m: int|
            is_first_unresolved(names, channels, m) && (e matches EngineError::UnresolvedChannel(x)
                && x@ == #[trigger] names[m])
    } else {
        partition_problem(eligible(raw, true).len(), names.len()) == Some(e)
    }
}

/// A destination name that no channel carries makes `teamup` refuse before
/// anything is dealt, so no member is ever moved.
pub proof fn lemma_unresolved_name_rejects(
    raw: Seq<Participant>,
    list: Seq<char>,
    channels: Seq<DestinationChannel>,
    allow_repeats: bool,
    m: int,
)
    requires
        0 <= m < channel_names(list).len(),
        !resolvable(channels, channel_names(list)[m]),
    ensures
        teamup_rejected(raw, list, channels, allow_repeats),
{
}

/// Reads the destination list, resolves it and validates the counts; the
/// participants are the eligible ones with automated accounts excluded.
/// With `allow_repeats` false a name given twice is refused; with it true
/// both teams go to the same channel.
pub fn plan_teamup(
    raw: &Vec<Participant>,
    channel_list: &str,
    voice_channels: &Vec<DestinationChannel>,
    allow_repeats: bool,
) -> (r: Result<
    PartitionRequest,
    EngineError,
>)
    ensures
        r is Err <==> teamup_rejected(raw@, channel_list@, voice_channels@, allow_repeats),
        r matches Err(e) ==> teamup_error(raw@, channel_list@, voice_channels@, allow_repeats, e),
        r matches Ok(req) ==> req.wf() && req.participants@ == eligible(raw@, true)
            && req.destinations@ == resolved(channel_names(channel_list@), voice_channels@),
{
    let members = eligible_participants(raw, true);
    let names = parse_channel_names(channel_list);
    let ghost nv = channel_names(channel_list@);
    if names.len() <= 1 {
        return Err(EngineError::InsufficientTeams);
    }
    if !allow_repeats {
        if let Some(m) = first_repeated_name(&names) {
            let ghost mm = m as int;
            assert(string_views(names@)[mm] == names@[mm]@);
            return Err(EngineError::DuplicateDestination(names[m].clone()));
        }
    }
    let destinations = match resolve_channels(&names, voice_channels) {
        Ok(d) => d,
        Err(e) => {
            proof {
                let m = choose|m: int|
                    is_first_unresolved(string_views(names@), voice_channels@, m) && e
                        == EngineError::UnresolvedChannel(#[trigger] names@[m]);
                assert(string_views(names@)[m] == names@[m]@);
                assert(is_first_unresolved(nv, voice_channels@, m));
            }
            return Err(e);
        },
    };
    assert(destinations@ =~= resolved(nv, voice_channels@));
    PartitionRequest::new(members, destinations)
}

/// Splits the eligible participants of `raw` (automated accounts left out)
/// into balanced random teams, one per destination named in `channel_list`.
pub fn teamup(
    raw: &Vec<Participant>,
    channel_list: &str,
    voice_channels: &Vec<DestinationChannel>,
    allow_repeats: bool,
    rng: &mut RandomSource,
) -> (r: Result<Vec<TeamAssignment>, EngineError>)
    ensures
        r is Err <==> teamup_rejected(raw@, channel_list@, voice_channels@, allow_repeats),
        r matches Err(e) ==> teamup_error(raw@, channel_list@, voice_channels@, allow_repeats, e),
        r matches Ok(teams) ==> deals_some_order(
            teams@,
            eligible(raw@, true),
            resolved(channel_names(channel_list@), voice_channels@),
        ),
        r matches Ok(teams) ==> forall|t: int, j: int|
            0 <= t < teams@.len() && 0 <= j < teams@[t].members@.len() ==> !(
            #[trigger] teams@[t].members@[j]).is_automated && raw@.contains(teams@[t].members@[j]),
{
    let req = plan_teamup(raw, channel_list, voice_channels, allow_repeats)?;
    let teams = req.partition(rng);
    proof {
        let pool = eligible(raw@, true);
        let dests = req.destinations@;
        let order = choose|order: Seq<Participant>|
            order.to_multiset() == pool.to_multiset() && #[trigger] deals(teams@, order, dests);
        lemma_dealt_from_pool(teams@, order, dests, pool);
        lemma_eligible(raw@, true);
        assert forall|t: int, j: int|
            0 <= t < teams@.len() && 0 <= j < teams@[t].members@.len() implies !(
            #[trigger] teams@[t].members@[j]).is_automated && raw@.contains(
            teams@[t].members@[j],
        ) by {
            let x = teams@[t].members@[j];
            assert(pool.contains(x));
            let i = choose|i: int| 0 <= i < pool.len() && pool[i] == x;
            assert(raw@.contains(pool[i]));
        }
    }
    Ok(teams)
}

} // verus!
