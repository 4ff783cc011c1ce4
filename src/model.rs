use vstd::prelude::*;

verus! {

/// A member present in a voice channel, captured once per command.
#[derive(Debug, Clone, PartialEq, Eq)]
pub struct Participant {
    pub id: u64,
    pub display_name: String,
    pub is_automated: bool,
}

impl Participant {
    pub fn new(id: u64, display_name: String, is_automated: bool) -> (r: Participant)
        ensures
            r.id == id,
            r.display_name == display_name,
            r.is_automated == is_automated,
    {
        Participant { id, display_name, is_automated }
    }

    /// An equal copy of this participant.
    pub fn duplicate(&self) -> (r: Participant)
        ensures
            r == *self,
    {
        Participant {
            id: self.id,
            display_name: self.display_name.clone(),
            is_automated: self.is_automated,
        }
    }
}

/// A voice channel of the server, by identifier and name.
#[derive(Debug, Clone, PartialEq, Eq)]
pub struct DestinationChannel {
    pub id: u64,
    pub name: String,
}

impl DestinationChannel {
    pub fn new(id: u64, name: String) -> (r: DestinationChannel)
        ensures
            r.id == id,
            r.name == name,
    {
        DestinationChannel { id, name }
    }

    /// An equal copy of this channel.
    pub fn duplicate(&self) -> (r: DestinationChannel)
        ensures
            r == *self,
    {
        DestinationChannel { id: self.id, name: self.name.clone() }
    }
}

/// One team of a partition: its position, where it goes and who is in it.
#[derive(Debug, Clone, PartialEq, Eq)]
pub struct TeamAssignment {
    pub team_index: usize,
    pub destination: DestinationChannel,
    pub members: Vec<Participant>,
}

/// What a command can fail with before or while it acts.
#[derive(Debug, Clone, PartialEq, Eq)]
pub enum EngineError {
    /// The invoker is not in a voice channel.
    NotInVoiceChannel,
    /// Nobody eligible is present in the channel.
    EmptyChannel,
    /// Fewer than two destination channels were named.
    InsufficientTeams,
    /// Fewer than two participants are present.
    InsufficientParticipants,
    /// More teams were asked for than there are participants.
    NotEnoughParticipantsForTeams,
    /// No voice channel of the server carries this name.
    UnresolvedChannel(String),
    /// This destination name was given twice, and repeats are refused.
    DuplicateDestination(String),
    /// Moving a member to a channel failed on the platform.
    RelocationFailed(String),
}

impl EngineError {
    /// The user-visible text of the error.
    pub fn message(&self) -> (r: String)
        ensures
            r@ == self.message_spec(),
    {
        match self {
            EngineError::NotInVoiceChannel => String::from_str(
                "You must be in a voice channel to use this command",
            ),
            EngineError::EmptyChannel => String::from_str("There are no members in the voice channel!"),
            EngineError::InsufficientTeams => String::from_str(
                "Need at least two teams to perfom teamup.",
            ),
            EngineError::InsufficientParticipants => String::from_str(
                "Need at least two members in the voice channel to perfom teamup.",
            ),
            EngineError::NotEnoughParticipantsForTeams => String::from_str(
                "Number of members in a channel must be at least the amount of teams to perfom teamup",
            ),
            EngineError::UnresolvedChannel(name) => {
                let s = String::from_str("Voice channel '");
                let s = s.concat(name.as_str());
                s.concat("' not found")
            },
            EngineError::DuplicateDestination(name) => {
                let s = String::from_str("Voice channel '");
                let s = s.concat(name.as_str());
                s.concat("' is named more than once")
            },
            EngineError::RelocationFailed(reason) => reason.clone(),
        }
    }

    pub open spec fn message_spec(&self) -> Seq<char> {
        match self {
            EngineError::NotInVoiceChannel => "You must be in a voice channel to use this command"@,
            EngineError::EmptyChannel => "There are no members in the voice channel!"@,
            EngineError::InsufficientTeams => "Need at least two teams to perfom teamup."@,
            EngineError::InsufficientParticipants =>
                "Need at least two members in the voice channel to perfom teamup."@,
            EngineError::NotEnoughParticipantsForTeams =>
                "Number of members in a channel must be at least the amount of teams to perfom teamup"@,
            EngineError::UnresolvedChannel(name) => "Voice channel '"@ + name@ + "' not found"@,
            EngineError::DuplicateDestination(name) => "Voice channel '"@ + name@
                + "' is named more than once"@,
            EngineError::RelocationFailed(reason) => reason@,
        }
    }
}

} // verus!
