use vstd::prelude::*;
use crate::team::{TeamState, TeamModel, models, DAMAGE_UNIT};

verus! {

/// How much damage one hit adds: a distribution to draw from, and optional
/// bounds on what was drawn. All four numbers are in damage units.
#[derive(Clone, Copy, Debug, PartialEq, Eq)]
pub struct Damage {
    /// The mean of the distribution.
    pub mean: i64,
    /// The standard deviation of the distribution.
    pub std_dev: i64,
    /// The largest amount a hit may add.
    pub max: Option<i64>,
    /// The smallest amount a hit may add.
    pub min: Option<i64>,
}

impl Damage {
    /// The drawn `sample` held to the configured bounds. The upper bound is
    /// looked at first: a sample above it becomes `max` even where `min` is
    /// larger still.
    pub open spec fn clamped(&self, sample: int) -> int {
        if self.max is Some && sample > self.max->0 {
            self.max->0 as int
        } else if self.min is Some && sample < self.min->0 {
            self.min->0 as int
        } else {
            sample
        }
    }

    /// The accumulated damage `hp` after a hit that drew `sample`.
    pub open spec fn spec_add(&self, hp: int, sample: int) -> int {
        hp + self.clamped(sample)
    }

    /// The damage after the hit can be held in an `i64`.
    pub open spec fn fits(&self, hp: int, sample: int) -> bool {
        i64::MIN <= self.spec_add(hp, sample) <= i64::MAX
    }

    /// Holds `sample` to the configured bounds.
    pub fn clamp(&self, sample: i64) -> (out: i64)
        ensures
            out == self.clamped(sample as int),
    {
        match self.max {
            Some(max) => {
                if sample > max {
                    return max;
                }
            },
            None => {},
        }
        match self.min {
            Some(min) => {
                if sample < min {
                    return min;
                }
            },
            None => {},
        }
        sample
    }

    /// Adds one hit to the accumulated damage `hp`. `sample` is what the
    /// caller drew from the distribution.
    pub fn add(&self, hp: i64, sample: i64) -> (out: i64)
        requires
            self.fits(hp as int, sample as int),
        ensures
            out == self.spec_add(hp as int, sample as int),
    {
        hp + self.clamp(sample)
    }

    /// Whether [`Damage::add`] may be called on these values.
    pub fn can_add(&self, hp: i64, sample: i64) -> (ok: bool)
        ensures
            ok == self.fits(hp as int, sample as int),
    {
        hp.checked_add(self.clamp(sample)).is_some()
    }
}

/// Lives: a team that has been smashed as often as it has lives is out.
#[derive(Clone, Copy, Debug, PartialEq, Eq)]
pub struct StockRule {
    /// The lives each team starts with.
    pub count: usize,
    /// Whether each team a team has smashed gives it one more life.
    pub can_steal: bool,
}

/// The rules of one game.
#[derive(Clone, Copy, Debug, PartialEq, Eq)]
pub struct Rule {
    /// What a correct answer adds to the other teams.
    pub damage_if_correct: Damage,
    /// What an incorrect answer adds to the team that gave it.
    pub damage_if_incorrect: Damage,
    /// The lives, where the game is played with lives.
    pub stock: Option<StockRule>,
}

impl Default for Rule {
    fn default() -> (out: Rule)
        ensures
            out == Rule::standard(),
    {
        Rule {
            damage_if_correct: Damage {
                mean: 100_000,
                std_dev: 50_000,
                max: Some(200_000),
                min: Some(0),
            },
            damage_if_incorrect: Damage {
                mean: 200_000,
                std_dev: 100_000,
                max: Some(400_000),
                min: Some(0),
            },
            stock: None,
        }
    }
}

impl Rule {
    /// The rule of a game that was given none: a correct answer adds about a
    /// tenth of a unit to the others, at most two tenths, an incorrect one
    /// about two tenths to the attacker, at most four, never less than
    /// nothing; and there are no lives.
    pub open spec fn standard() -> Rule {
        Rule {
            damage_if_correct: Damage {
                mean: 100_000,
                std_dev: 50_000,
                max: Some(200_000i64),
                min: Some(0i64),
            },
            damage_if_incorrect: Damage {
                mean: 200_000,
                std_dev: 100_000,
                max: Some(400_000i64),
                min: Some(0i64),
            },
            stock: None,
        }
    }

    /// The state of a team that has not played yet.
    pub open spec fn fresh(name: Seq<char>) -> TeamModel {
        TeamModel { name, damage: 0, up: 0, down: 0 }
    }

    /// The lives that `team` has under `stock`.
    pub open spec fn lives(stock: StockRule, team: TeamModel) -> nat {
        if stock.can_steal {
            stock.count as nat + team.up
        } else {
            stock.count as nat
        }
    }

    /// `team` is still in the game: there are no lives, or it has been
    /// smashed fewer times than it has lives.
    pub open spec fn active(&self, team: TeamModel) -> bool {
        match self.stock {
            Some(stock) => Self::lives(stock, team) > team.down,
            None => true,
        }
    }

    /// `team` after a correct answer of another team: an active team takes
    /// one hit, an eliminated one is left as it is.
    pub open spec fn hit_if_correct(&self, team: TeamModel, sample: int) -> TeamModel {
        if self.active(team) {
            TeamModel { damage: self.damage_if_correct.spec_add(team.damage, sample), ..team }
        } else {
            team
        }
    }

    /// `team` after an incorrect answer of its own.
    pub open spec fn hit_if_incorrect(&self, team: TeamModel, sample: int) -> TeamModel {
        TeamModel { damage: self.damage_if_incorrect.spec_add(team.damage, sample), ..team }
    }

    /// `team` after it was the victim of a smash: an active team goes down
    /// once and its damage starts again at zero, an eliminated one is left
    /// as it is.
    pub open spec fn smashed(&self, team: TeamModel) -> TeamModel {
        if self.active(team) {
            TeamModel { down: team.down + 1, damage: 0, ..team }
        } else {
            team
        }
    }

    /// A smash on `team` succeeds where the `roll` is below its damage.
    pub open spec fn smash_succeeds(team: TeamModel, roll: int) -> bool {
        roll < team.damage
    }

    /// Every active team of `teams` can take its hit without leaving `i64`.
    pub open spec fn correct_fits(&self, teams: Seq<TeamModel>, samples: Seq<int>) -> bool {
        forall|i: int|
            0 <= i < teams.len() && self.active(#[trigger] teams[i])
                ==> self.damage_if_correct.fits(teams[i].damage, samples[i])
    }

    /// Every active team of `teams` can go down once more without leaving
    /// `usize`.
    pub open spec fn smash_fits(&self, teams: Seq<TeamModel>) -> bool {
        forall|i: int|
            0 <= i < teams.len() && self.active(#[trigger] teams[i]) ==> teams[i].down < usize::MAX
    }

    /// A new team state under `name`, with nothing on its counters.
    pub fn new_state(&self, name: &str) -> (out: TeamState)
        ensures
            out@ == Self::fresh(name@),
    {
        TeamState { name: name.to_string(), damage: 0, up: 0, down: 0 }
    }

    /// Whether `team` is still in the game.
    pub fn team_is_active(&self, team: &TeamState) -> (out: bool)
        ensures
            out == self.active(team@),
    {
        match self.stock {
            Some(stock) => {
                if stock.can_steal {
                    team.down < stock.count || team.up > team.down - stock.count
                } else {
                    stock.count > team.down
                }
            },
            None => true,
        }
    }

    /// Whether a smash on `attacked` succeeds. `roll` is what the caller
    /// drew, uniformly from zero up to but not including
    /// [`crate::team::DAMAGE_UNIT`]. The attacker takes no part in the
    /// judgement.
    pub fn judge_smash_success(&self, attacker: &TeamState, attacked: &TeamState, roll: i64) -> (out:
        bool)
        ensures
            out == Self::smash_succeeds(attacked@, roll as int),
    {
        roll < attacked.damage
    }

    /// The answer was incorrect: the attacker takes one hit, whether it is
    /// active or not.
    pub fn damage_if_incorrect(&self, attacker: &mut TeamState, sample: i64)
        requires
            self.damage_if_incorrect.fits(old(attacker)@.damage, sample as int),
        ensures
            final(attacker)@ == self.hit_if_incorrect(old(attacker)@, sample as int),
    {
        attacker.damage = self.damage_if_incorrect.add(attacker.damage, sample);
    }

    /// The answer was correct: every active team of `attacked` takes one
    /// hit, the team at position `i` the one that drew `samples[i]`.
    pub fn damage_if_correct(&self, attacked: &mut Vec<TeamState>, samples: &Vec<i64>)
        requires
            samples.len() == old(attacked).len(),
            self.correct_fits(models(old(attacked)@), samples@.map_values(|s: i64| s as int)),
        ensures
            final(attacked).len() == old(attacked).len(),
            forall|i: int|
                0 <= i < old(attacked).len() ==> (#[trigger] final(attacked)[i])@
                    == self.hit_if_correct(old(attacked)[i]@, samples[i] as int),
    {
        let mut out: Vec<TeamState> = Vec::new();
        let mut i: usize = 0;
        while i < attacked.len()
            invariant
                i <= attacked.len(),
                out.len() == i,
                samples.len() == attacked.len(),
                self.correct_fits(models(attacked@), samples@.map_values(|s: i64| s as int)),
                forall|k: int|
                    0 <= k < i ==> (#[trigger] out[k])@ == self.hit_if_correct(
                        attacked[k]@,
                        samples[k] as int,
                    ),
            decreases attacked.len() - i,
        {
            let mut team = attacked[i].clone();
            if self.team_is_active(&team) {
                assert(models(attacked@)[i as int] == attacked[i as int]@);
                assert(samples@.map_values(|s: i64| s as int)[i as int] == samples[i as int]);
                team.damage = self.damage_if_correct.add(team.damage, samples[i]);
            }
            out.push(team);
            i += 1;
        }
        *attacked = out;
    }

    /// Carries a smash out, without asking whether it succeeds: the attacker
    /// goes up by the number of teams in `attacked`, and every active team
    /// among them goes down once and loses its damage.
    pub fn do_smash(&self, attacker: &mut TeamState, attacked: &mut Vec<TeamState>)
        requires
            old(attacker).up + old(attacked).len() <= usize::MAX,
            self.smash_fits(models(old(attacked)@)),
        ensures
            final(attacker)@ == (TeamModel {
                up: old(attacker)@.up + old(attacked).len() as nat,
                ..old(attacker)@
            }),
            final(attacked).len() == old(attacked).len(),
            forall|i: int|
                0 <= i < old(attacked).len() ==> (#[trigger] final(attacked)[i])@ == self.smashed(
                    old(attacked)[i]@,
                ),
    {
        attacker.up = attacker.up + attacked.len();
        let mut out: Vec<TeamState> = Vec::new();
        let mut i: usize = 0;
        while i < attacked.len()
            invariant
                i <= attacked.len(),
                out.len() == i,
                self.smash_fits(models(attacked@)),
                forall|k: int|
                    0 <= k < i ==> (#[trigger] out[k])@ == self.smashed(attacked[k]@),
            decreases attacked.len() - i,
        {
            let mut team = attacked[i].clone();
            if self.team_is_active(&team) {
                assert(models(attacked@)[i as int] == attacked[i as int]@);
                team.down = team.down + 1;
                team.damage = 0;
            }
            out.push(team);
            i += 1;
        }
        *attacked = out;
    }
}

/// An eliminated team is frozen: neither a hit after a correct answer nor a
/// smash changes it.
pub proof fn lemma_eliminated_is_frozen(rule: Rule, team: TeamModel, sample: int)
    requires
        !rule.active(team),
    ensures
        rule.smashed(team) == team,
        rule.hit_if_correct(team, sample) == team,
{
}

/// Without lives every team is active.
pub proof fn lemma_active_without_stock(rule: Rule, team: TeamModel)
    requires
        rule.stock is None,
    ensures
        rule.active(team),
{
}

/// A damage of a whole unit or more makes every roll below the unit a
/// success, and a damage of zero or less makes every roll from zero up a
/// failure.
pub proof fn lemma_smash_certainty(team: TeamModel, roll: int)
    requires
        0 <= roll < DAMAGE_UNIT,
    ensures
        team.damage >= DAMAGE_UNIT ==> Rule::smash_succeeds(team, roll),
        team.damage <= 0 ==> !Rule::smash_succeeds(team, roll),
{
}

/// A hit adds an amount within the configured bounds, where the lower one
/// is not above the upper one.
pub proof fn lemma_clamped_in_bounds(model: Damage, sample: int)
    requires
        model.max is Some && model.min is Some ==> model.min->0 <= model.max->0,
    ensures
        model.max is Some ==> model.clamped(sample) <= model.max->0,
        model.min is Some ==> model.clamped(sample) >= model.min->0,
        model.max is None && model.min is None ==> model.clamped(sample) == sample,
{
}

} // verus!
