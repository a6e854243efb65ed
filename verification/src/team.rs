use vstd::prelude::*;

verus! {

/// The number of damage units that make a smash certain. A damage of
/// `d` units is a smash probability of `d / DAMAGE_UNIT`.
pub const DAMAGE_UNIT: i64 = 1_000_000;

/// The state of one team.
#[derive(Debug, PartialEq, Eq)]
pub struct TeamState {
    /// The name of the team; the key under which the registry holds it.
    pub name: String,
    /// The damage the team has taken, in fixed-point units.
    pub damage: i64,
    /// How many teams this team has smashed.
    pub up: usize,
    /// How many times this team has been smashed.
    pub down: usize,
}

/// The mathematical value of a [`TeamState`].
pub struct TeamModel {
    pub name: Seq<char>,
    pub damage: int,
    pub up: nat,
    pub down: nat,
}

impl View for TeamState {
    type V = TeamModel;

    open spec fn view(&self) -> TeamModel {
        TeamModel {
            name: self.name@,
            damage: self.damage as int,
            up: self.up as nat,
            down: self.down as nat,
        }
    }
}

impl Clone for TeamState {
    fn clone(&self) -> (out: Self)
        ensures
            out@ == self@,
    {
        TeamState { name: self.name.clone(), damage: self.damage, up: self.up, down: self.down }
    }
}

/// The values of a sequence of team states, position by position.
pub open spec fn models(teams: Seq<TeamState>) -> Seq<TeamModel> {
    Seq::new(teams.len(), |i: int| teams[i]@)
}

/// No two teams share a name.
pub open spec fn distinct_names(teams: Seq<TeamModel>) -> bool {
    forall|i: int, j: int|
        0 <= i < j < teams.len() ==> (#[trigger] teams[i]).name != (#[trigger] teams[j]).name
}

/// Some team in `teams` is called `name`.
pub open spec fn has_team(teams: Seq<TeamModel>, name: Seq<char>) -> bool {
    exists|i: int| 0 <= i < teams.len() && (#[trigger] teams[i]).name == name
}

/// The position of the team called `name`, where there is one.
pub open spec fn position(teams: Seq<TeamModel>, name: Seq<char>) -> int {
    choose|i: int| 0 <= i < teams.len() && (#[trigger] teams[i]).name == name
}

/// Where names are distinct, a team's name fixes its position.
pub proof fn lemma_position_unique(teams: Seq<TeamModel>, i: int)
    requires
        distinct_names(teams),
        0 <= i < teams.len(),
    ensures
        has_team(teams, teams[i].name),
        position(teams, teams[i].name) == i,
{
    let p = position(teams, teams[i].name);
    assert(0 <= p < teams.len() && teams[p].name == teams[i].name);
    if p < i {
        assert(teams[p].name != teams[i].name);
    } else if i < p {
        assert(teams[i].name != teams[p].name);
    }
}

/// Copies every team state of `teams`, in order.
pub fn clone_teams(teams: &Vec<TeamState>) -> (out: Vec<TeamState>)
    ensures
        models(out@) == models(teams@),
{
    let mut out: Vec<TeamState> = Vec::new();
    let mut i: usize = 0;
    while i < teams.len()
        invariant
            i <= teams.len(),
            out.len() == i,
            forall|k: int| 0 <= k < i ==> (#[trigger] out[k])@ == teams[k]@,
        decreases teams.len() - i,
    {
        out.push(teams[i].clone());
        i += 1;
    }
    assert(models(out@) =~= models(teams@));
    out
}

} // verus!
