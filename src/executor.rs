use crate::model::{EngineError, TeamAssignment};
use vstd::prelude::*;

verus! {

/// Failure policy of a relocation run: `true` stops at the first failed
/// move and leaves the later members where they are; `false` would attempt
/// every move and collect each outcome.
pub const FAIL_FAST: bool = true;

/// Move member `member_id` into channel `channel_id`.
#[derive(Debug, Clone, Copy, PartialEq, Eq, Structural)]
pub struct Relocation {
    pub member_id: u64,
    pub channel_id: u64,
}

/// What became of one move.
#[derive(Debug, Clone, PartialEq, Eq)]
pub struct RelocationOutcome {
    pub relocation: Relocation,
    pub succeeded: bool,
    pub failure_reason: Option<String>,
}

/// The moves of one team, in member order.
pub open spec fn team_moves(team: TeamAssignment) -> Seq<Relocation> {
    Seq::new(
        team.members@.len(),
        |j: int| Relocation { member_id: team.members@[j].id, channel_id: team.destination.id },
    )
}

/// The moves of all teams: team by team, each in member order.
pub open spec fn relocation_order(teams: Seq<TeamAssignment>) -> Seq<Relocation>
    decreases teams.len(),
{
    if teams.len() == 0 {
        Seq::empty()
    } else {
        relocation_order(teams.drop_last()) + team_moves(teams.last())
    }
}

/// The executor's state: the moves in order, the outcomes so far, and
/// whether a failure stopped the run.
#[derive(Debug)]
pub struct RelocationRun {
    pub moves: Vec<Relocation>,
    pub outcomes: Vec<RelocationOutcome>,
    pub halted: bool,
}

impl RelocationRun {
    pub open spec fn wf(&self) -> bool {
        &&& self.outcomes@.len() <= self.moves@.len()
        &&& forall|i: int|
            0 <= i < self.outcomes@.len() ==> (#[trigger] self.outcomes@[i]).relocation
                == self.moves@[i] && (self.outcomes@[i].succeeded
                <==> self.outcomes@[i].failure_reason is None)
        &&& self.halted ==> FAIL_FAST && self.outcomes@.len() > 0 && !self.outcomes@.last().succeeded
    }

    /// Whether another move is due.
    pub open spec fn pending(&self) -> bool {
        !self.halted && self.outcomes@.len() < self.moves@.len()
    }

    /// A run over `teams`, with nothing attempted yet.
    pub fn new(teams: &Vec<TeamAssignment>) -> (r: RelocationRun)
        ensures
            r.wf(),
            r.moves@ == relocation_order(teams@),
            r.outcomes@.len() == 0,
            !r.halted,
    {
        let mut moves: Vec<Relocation> = Vec::new();
        let mut t: usize = 0;
        while t < teams.len()
            invariant
                t <= teams@.len(),
                moves@ == relocation_order(teams@.subrange(0, t as int)),
            decreases teams@.len() - t,
        {
            let ghost before = moves@;
            let team = &teams[t];
            let mut j: usize = 0;
            while j < team.members.len()
                invariant
                    j <= team.members@.len(),
                    moves@ == before + team_moves(*team).subrange(0, j as int),
                decreases team.members@.len() - j,
            {
                moves.push(Relocation { member_id: team.members[j].id, channel_id: team.destination.id });
                assert(team_moves(*team).subrange(0, j + 1) =~= team_moves(*team).subrange(
                    0,
                    j as int,
                ).push(team_moves(*team)[j as int]));
                assert(moves@ =~= before + team_moves(*team).subrange(0, j + 1));
                j = j + 1;
            }
            assert(team_moves(*team).subrange(0, j as int) =~= team_moves(*team));
            assert(teams@.subrange(0, t + 1).drop_last() =~= teams@.subrange(0, t as int));
            t = t + 1;
        }
        assert(teams@.subrange(0, teams@.len() as int) =~= teams@);
        RelocationRun { moves, outcomes: Vec::new(), halted: false }
    }

    /// The next move to make, if any is due.
    pub fn next_action(&self) -> (r: Option<Relocation>)
        requires
            self.wf(),
        ensures
            r is Some <==> self.pending(),
            r matches Some(m) ==> m == self.moves@[self.outcomes@.len() as int],
    {
        if self.halted || self.outcomes.len() >= self.moves.len() {
            None
        } else {
            Some(self.moves[self.outcomes.len()])
        }
    }

    /// Records how the due move went; under the fail-fast policy a failure
    /// ends the run.
    pub fn record(&mut self, result: Result<(), String>)
        requires
            old(self).wf(),
            old(self).pending(),
        ensures
            final(self).wf(),
            final(self).moves@ == old(self).moves@,
            final(self).outcomes@.len() == old(self).outcomes@.len() + 1,
            final(self).outcomes@.drop_last() == old(self).outcomes@,
            final(self).outcomes@.last().relocation == old(self).moves@[old(
                self,
            ).outcomes@.len() as int],
            final(self).outcomes@.last().succeeded == result is Ok,
            final(self).outcomes@.last().failure_reason == match result {
                Ok(_) => None,
                Err(reason) => Some(reason),
            },
            final(self).halted == (FAIL_FAST && result is Err),
    {
        let relocation = self.moves[self.outcomes.len()];
        let failed = result.is_err();
        let outcome = match result {
            Ok(()) => RelocationOutcome { relocation, succeeded: true, failure_reason: None },
            Err(reason) => RelocationOutcome {
                relocation,
                succeeded: false,
                failure_reason: Some(reason),
            },
        };
        self.outcomes.push(outcome);
        self.halted = FAIL_FAST && failed;
        assert(self.outcomes@.drop_last() =~= old(self).outcomes@);
    }

    /// Whether no move is due any more.
    pub fn is_finished(&self) -> (r: bool)
        requires
            self.wf(),
        ensures
            r == !self.pending(),
    {
        self.halted || self.outcomes.len() >= self.moves.len()
    }

    /// The error that ended the run early, if a failure did.
    pub fn failure(&self) -> (r: Option<EngineError>)
        requires
            self.wf(),
        ensures
            r is Some <==> self.halted,
            r matches Some(e) ==> e matches EngineError::RelocationFailed(reason) && Some(reason)
                == self.outcomes@.last().failure_reason,
    {
        if self.halted {
            let last = &self.outcomes[self.outcomes.len() - 1];
            match &last.failure_reason {
                Some(reason) => Some(EngineError::RelocationFailed(reason.clone())),
                None => Some(EngineError::RelocationFailed(String::new())),
            }
        } else {
            None
        }
    }
}

} // verus!
