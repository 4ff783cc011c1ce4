use voice_teams::channels::{parse_channel_names, resolve_channels};
use voice_teams::commands::{pick_winner, plan_teamup, select_winner, teamup};
use voice_teams::executor::{Relocation, RelocationRun, FAIL_FAST};
use voice_teams::filter::{eligible_participants, filter_participants};
use voice_teams::model::{DestinationChannel, EngineError, Participant, TeamAssignment};
use voice_teams::partition::{assign_round_robin, PartitionRequest};
use voice_teams::random::RandomSource;

fn person(id: u64, name: &str) -> Participant {
    Participant::new(id, name.to_string(), false)
}

fn bot(id: u64, name: &str) -> Participant {
    Participant::new(id, name.to_string(), true)
}

fn people(n: u64) -> Vec<Participant> {
    (1..=n).map(|i| person(i, &format!("p{}", i))).collect()
}

fn channel(id: u64, name: &str) -> DestinationChannel {
    DestinationChannel::new(id, name.to_string())
}

fn server_channels() -> Vec<DestinationChannel> {
    vec![channel(10, "Lobby"), channel(11, "Red"), channel(12, "Blue"), channel(13, "Green")]
}

fn sorted_ids(teams: &[TeamAssignment]) -> Vec<u64> {
    let mut ids: Vec<u64> = teams.iter().flat_map(|t| t.members.iter().map(|p| p.id)).collect();
    ids.sort();
    ids
}

#[test]
fn five_participants_two_channels_split_three_two() {
    let mut rng = RandomSource::from_seed(7);
    let teams = teamup(&people(5), "Red,Blue", &server_channels(), true, &mut rng).unwrap();
    assert_eq!(teams.len(), 2);
    let mut sizes: Vec<usize> = teams.iter().map(|t| t.members.len()).collect();
    sizes.sort();
    assert_eq!(sizes, vec![2, 3]);
    assert_eq!(teams[0].members.len(), 3);
    assert_eq!(teams[0].destination.id, 11);
    assert_eq!(teams[1].destination.id, 12);
    assert_eq!(teams[0].team_index, 0);
    assert_eq!(teams[1].team_index, 1);
    assert_eq!(sorted_ids(&teams), vec![1, 2, 3, 4, 5]);
}

#[test]
fn winner_on_empty_channel_fails() {
    let mut rng = RandomSource::from_seed(1);
    let r = pick_winner(&vec![], &mut rng);
    let e = r.unwrap_err();
    assert_eq!(e, EngineError::EmptyChannel);
    assert_eq!(e.message(), "There are no members in the voice channel!");
}

#[test]
fn one_participant_two_channels_is_insufficient() {
    let mut rng = RandomSource::from_seed(1);
    let r = teamup(&people(1), "Red,Blue", &server_channels(), true, &mut rng);
    let e = r.unwrap_err();
    assert_eq!(e, EngineError::InsufficientParticipants);
    assert_eq!(e.message(), "Need at least two members in the voice channel to perfom teamup.");
}

#[test]
fn duplicate_destination_names_resolve_to_same_channel() {
    let names = parse_channel_names("Red,Blue,Red");
    assert_eq!(names, vec!["Red".to_string(), "Blue".to_string(), "Red".to_string()]);
    let dests = resolve_channels(&names, &server_channels()).unwrap();
    let ids: Vec<u64> = dests.iter().map(|d| d.id).collect();
    assert_eq!(ids, vec![11, 12, 11]);
}

#[test]
fn duplicate_destinations_allowed_or_refused_by_toggle() {
    let mut rng = RandomSource::from_seed(9);
    let teams = teamup(&people(6), "Red,Blue,Red", &server_channels(), true, &mut rng).unwrap();
    let ids: Vec<u64> = teams.iter().map(|t| t.destination.id).collect();
    assert_eq!(ids, vec![11, 12, 11]);
    let e = teamup(&people(6), "Red,Blue,Blue,Red", &server_channels(), false, &mut rng).unwrap_err();
    assert_eq!(e, EngineError::DuplicateDestination("Blue".to_string()));
    assert_eq!(e.message(), "Voice channel 'Blue' is named more than once");
    assert!(teamup(&people(6), "Red,Blue", &server_channels(), false, &mut rng).is_ok());
}

#[test]
fn duplicate_names_take_first_channel_with_that_name() {
    let chans = vec![channel(1, "Red"), channel(2, "Red"), channel(3, "Blue")];
    let dests = resolve_channels(&vec!["Red".to_string(), "Blue".to_string()], &chans).unwrap();
    assert_eq!(dests[0].id, 1);
    assert_eq!(dests[1].id, 3);
}

#[test]
fn selection_is_close_to_uniform() {
    let members = people(6);
    let mut rng = RandomSource::from_seed(2024);
    let mut counts = [0u32; 6];
    let trials = 60_000;
    for _ in 0..trials {
        let w = select_winner(&members, &mut rng).unwrap();
        counts[(w.id - 1) as usize] += 1;
    }
    for c in counts {
        assert!(c > 9_400 && c < 10_600, "count {} too far from 10000", c);
    }
}

#[test]
fn partition_sizes_balanced_for_all_small_counts() {
    let mut rng = RandomSource::from_seed(3);
    for n in 2..=14u64 {
        for k in 2..=n {
            let dests: Vec<DestinationChannel> =
                (0..k).map(|i| channel(100 + i, &format!("c{}", i))).collect();
            let req = PartitionRequest::new(people(n), dests).unwrap();
            let teams = req.partition(&mut rng);
            assert_eq!(teams.len() as u64, k);
            let sizes: Vec<usize> = teams.iter().map(|t| t.members.len()).collect();
            assert_eq!(sizes.iter().sum::<usize>() as u64, n);
            let max = *sizes.iter().max().unwrap();
            let min = *sizes.iter().min().unwrap();
            assert!(max - min <= 1);
            let expected: Vec<u64> = (1..=n).collect();
            assert_eq!(sorted_ids(&teams), expected);
        }
    }
}

#[test]
fn round_robin_deals_positions_modulo_team_count() {
    let order = people(7);
    let dests = vec![channel(1, "A"), channel(2, "B"), channel(3, "C")];
    let teams = assign_round_robin(&order, &dests);
    let ids: Vec<Vec<u64>> =
        teams.iter().map(|t| t.members.iter().map(|p| p.id).collect()).collect();
    assert_eq!(ids, vec![vec![1, 4, 7], vec![2, 5], vec![3, 6]]);
    assert_eq!(teams[2].destination.name, "C");
}

#[test]
fn automated_accounts_never_join_a_team() {
    let raw = vec![person(1, "a"), bot(2, "music"), person(3, "c"), bot(4, "log"), person(5, "e")];
    for seed in 0..20 {
        let mut rng = RandomSource::from_seed(seed);
        let teams = teamup(&raw, "Red, Blue", &server_channels(), true, &mut rng).unwrap();
        assert_eq!(sorted_ids(&teams), vec![1, 3, 5]);
        assert!(teams.iter().all(|t| t.members.iter().all(|p| !p.is_automated)));
    }
}

#[test]
fn winner_may_be_an_automated_account() {
    let raw = vec![bot(9, "music")];
    let mut rng = RandomSource::from_seed(5);
    let w = pick_winner(&raw, &mut rng).unwrap();
    assert_eq!(w.id, 9);
}

#[test]
fn unresolved_channel_stops_before_any_relocation() {
    let mut rng = RandomSource::from_seed(1);
    let r = teamup(&people(4), "Red,Purple,Nowhere", &server_channels(), true, &mut rng);
    let e = r.unwrap_err();
    assert_eq!(e, EngineError::UnresolvedChannel("Purple".to_string()));
    assert_eq!(e.message(), "Voice channel 'Purple' not found");
}

#[test]
fn fewer_than_two_teams_is_refused_first() {
    let mut rng = RandomSource::from_seed(1);
    let e = teamup(&people(0), " Red ,, ", &server_channels(), true, &mut rng).unwrap_err();
    assert_eq!(e, EngineError::InsufficientTeams);
    assert_eq!(e.message(), "Need at least two teams to perfom teamup.");
}

#[test]
fn team_count_check_comes_before_resolution() {
    let e = plan_teamup(&people(3), "Nowhere", &server_channels(), true).unwrap_err();
    assert_eq!(e, EngineError::InsufficientTeams);
}

#[test]
fn resolution_comes_before_participant_counts() {
    let e = plan_teamup(&people(1), "Red,Nowhere", &server_channels(), true).unwrap_err();
    assert_eq!(e, EngineError::UnresolvedChannel("Nowhere".to_string()));
}

#[test]
fn more_teams_than_participants_is_refused() {
    let mut rng = RandomSource::from_seed(1);
    let e = teamup(&people(2), "Red,Blue,Green", &server_channels(), true, &mut rng).unwrap_err();
    assert_eq!(e, EngineError::NotEnoughParticipantsForTeams);
    assert_eq!(
        e.message(),
        "Number of members in a channel must be at least the amount of teams to perfom teamup"
    );
}

#[test]
fn request_validation_order() {
    assert_eq!(
        PartitionRequest::new(people(1), vec![channel(1, "A")]).unwrap_err(),
        EngineError::InsufficientTeams
    );
    assert_eq!(
        PartitionRequest::new(people(1), vec![channel(1, "A"), channel(2, "B")]).unwrap_err(),
        EngineError::InsufficientParticipants
    );
    assert_eq!(
        PartitionRequest::new(people(2), vec![channel(1, "A"), channel(2, "B"), channel(3, "C")])
            .unwrap_err(),
        EngineError::NotEnoughParticipantsForTeams
    );
    assert!(PartitionRequest::new(people(2), vec![channel(1, "A"), channel(2, "B")]).is_ok());
}

#[test]
fn channel_list_is_split_trimmed_and_filtered() {
    assert_eq!(
        parse_channel_names(" Red , ,Blue,,\u{3000}Green\t,"),
        vec!["Red".to_string(), "Blue".to_string(), "Green".to_string()]
    );
    assert_eq!(parse_channel_names(""), Vec::<String>::new());
    assert_eq!(parse_channel_names(" ,  , "), Vec::<String>::new());
    assert_eq!(parse_channel_names("Team One, Team Two"), vec!["Team One".to_string(), "Team Two".to_string()]);
}

#[test]
fn names_match_case_sensitively() {
    let e = resolve_channels(&vec!["red".to_string()], &server_channels()).unwrap_err();
    assert_eq!(e, EngineError::UnresolvedChannel("red".to_string()));
}

#[test]
fn dedup_keeps_first_occurrence_in_order() {
    let raw = vec![person(3, "c"), person(1, "a"), person(3, "c again"), bot(2, "b"), person(1, "x")];
    let all = eligible_participants(&raw, false);
    let ids: Vec<u64> = all.iter().map(|p| p.id).collect();
    assert_eq!(ids, vec![3, 1, 2]);
    assert_eq!(all[0].display_name, "c");
    let humans = eligible_participants(&raw, true);
    let ids: Vec<u64> = humans.iter().map(|p| p.id).collect();
    assert_eq!(ids, vec![3, 1]);
}

#[test]
fn filter_signals_empty_channel() {
    let raw = vec![bot(1, "a")];
    assert_eq!(filter_participants(&raw, true).unwrap_err(), EngineError::EmptyChannel);
    assert_eq!(filter_participants(&raw, false).unwrap().len(), 1);
    assert_eq!(EngineError::NotInVoiceChannel.message(), "You must be in a voice channel to use this command");
}

#[test]
fn seeded_sources_repeat_their_draws() {
    let mut a = RandomSource::from_seed(42);
    let mut b = RandomSource::from_seed(42);
    for n in 1..50usize {
        let x = a.index_below(n).unwrap();
        assert_eq!(Some(x), b.index_below(n));
        assert!(x < n);
    }
    assert_eq!(a.index_below(0), None);
}

#[test]
fn shuffle_permutes_and_moves_items() {
    let mut rng = RandomSource::from_seed(11);
    let original: Vec<u32> = (0..20).collect();
    let mut v = original.clone();
    rng.shuffle(&mut v);
    assert_ne!(v, original);
    let mut sorted = v.clone();
    sorted.sort();
    assert_eq!(sorted, original);
}

#[test]
fn selection_reaches_every_participant() {
    let members = people(3);
    let mut rng = RandomSource::from_entropy();
    let mut seen = [false; 3];
    for _ in 0..300 {
        seen[(select_winner(&members, &mut rng).unwrap().id - 1) as usize] = true;
    }
    assert!(seen.iter().all(|s| *s));
}

#[test]
fn relocation_runs_team_by_team_and_stops_on_failure() {
    let order = people(5);
    let dests = vec![channel(21, "A"), channel(22, "B")];
    let teams = assign_round_robin(&order, &dests);
    let mut run = RelocationRun::new(&teams);
    let expected = vec![
        Relocation { member_id: 1, channel_id: 21 },
        Relocation { member_id: 3, channel_id: 21 },
        Relocation { member_id: 5, channel_id: 21 },
        Relocation { member_id: 2, channel_id: 22 },
        Relocation { member_id: 4, channel_id: 22 },
    ];
    assert_eq!(run.moves, expected);
    assert_eq!(run.next_action(), Some(expected[0]));
    run.record(Ok(()));
    assert_eq!(run.next_action(), Some(expected[1]));
    run.record(Err("missing permission".to_string()));
    assert!(FAIL_FAST);
    assert!(run.is_finished());
    assert_eq!(run.next_action(), None);
    assert_eq!(run.outcomes.len(), 2);
    assert!(run.outcomes[0].succeeded);
    assert!(!run.outcomes[1].succeeded);
    assert_eq!(run.failure(), Some(EngineError::RelocationFailed("missing permission".to_string())));
    assert_eq!(run.failure().unwrap().message(), "missing permission");
}

#[test]
fn relocation_run_completes_when_all_succeed() {
    let order = people(3);
    let dests = vec![channel(21, "A"), channel(22, "B")];
    let teams = assign_round_robin(&order, &dests);
    let mut run = RelocationRun::new(&teams);
    while let Some(_) = run.next_action() {
        run.record(Ok(()));
    }
    assert!(run.is_finished());
    assert_eq!(run.outcomes.len(), 3);
    assert_eq!(run.failure(), None);
}
