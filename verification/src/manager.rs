use vstd::prelude::*;
use crate::error::Error;
use crate::rule::Rule;
use crate::team::{TeamState, TeamModel, models, distinct_names, has_team, position, clone_teams,
    lemma_position_unique};

verus! {

/// The draws as mathematical integers.
pub open spec fn ints(draws: Seq<i64>) -> Seq<int> {
    Seq::new(draws.len(), |i: int| draws[i] as int)
}

/// The names of `names[..n]` in the order of their first occurrence, each
/// once.
pub open spec fn first_names(names: Seq<Seq<char>>, n: int) -> Seq<Seq<char>>
    decreases n,
{
    if n <= 0 {
        Seq::empty()
    } else {
        let before = first_names(names, n - 1);
        if before.contains(names[n - 1]) {
            before
        } else {
            before.push(names[n - 1])
        }
    }
}

/// The registry after a damage action of the active team at position `a`.
/// A correct answer hits every other team, an incorrect one the attacker.
pub open spec fn after_damage(rule: Rule, teams: Seq<TeamModel>, a: int, correct: bool, draws: Seq<int>)
    -> Seq<TeamModel> {
    if correct {
        Seq::new(
            teams.len(),
            |i: int|
                if i == a {
                    teams[i]
                } else {
                    rule.hit_if_correct(teams[i], draws[i])
                },
        )
    } else {
        teams.update(a, rule.hit_if_incorrect(teams[a], draws[a]))
    }
}

/// What a damage action reports as changed: after a correct answer every
/// team but the attacker, after an incorrect one the attacker alone.
pub open spec fn damage_report(
    rule: Rule,
    teams: Seq<TeamModel>,
    a: int,
    correct: bool,
    draws: Seq<int>,
) -> Seq<TeamModel> {
    if correct {
        after_damage(rule, teams, a, correct, draws).remove(a)
    } else {
        seq![after_damage(rule, teams, a, correct, draws)[a]]
    }
}

/// The damage action at position `a` stays within `i64`.
pub open spec fn damage_in_range(
    rule: Rule,
    teams: Seq<TeamModel>,
    a: int,
    correct: bool,
    draws: Seq<int>,
) -> bool {
    if correct {
        forall|i: int|
            0 <= i < teams.len() && i != a && rule.active(#[trigger] teams[i])
                ==> rule.damage_if_correct.fits(teams[i].damage, draws[i])
    } else {
        rule.damage_if_incorrect.fits(teams[a].damage, draws[a])
    }
}

/// The team at position `i` is hit by the smash of the team at position
/// `a`: it is another team, and its roll is below its damage.
pub open spec fn is_victim(teams: Seq<TeamModel>, a: int, rolls: Seq<int>, i: int) -> bool {
    i != a && Rule::smash_succeeds(teams[i], rolls[i])
}

/// The victims among `teams[..n]`, in registry order, as they are before
/// the smash.
pub open spec fn victims(teams: Seq<TeamModel>, a: int, rolls: Seq<int>, n: int) -> Seq<TeamModel>
    decreases n,
{
    if n <= 0 {
        Seq::empty()
    } else if is_victim(teams, a, rolls, n - 1) {
        victims(teams, a, rolls, n - 1).push(teams[n - 1])
    } else {
        victims(teams, a, rolls, n - 1)
    }
}

/// The registry after a smash action of the active team at position `a`.
/// After a correct answer the attacker goes up by the number of victims and
/// each victim is smashed; after an incorrect one the attacker takes a hit.
pub open spec fn after_smash(rule: Rule, teams: Seq<TeamModel>, a: int, correct: bool, draws: Seq<int>)
    -> Seq<TeamModel> {
    if correct {
        Seq::new(
            teams.len(),
            |i: int|
                if i == a {
                    TeamModel {
                        up: teams[a].up + victims(teams, a, draws, teams.len() as int).len(),
                        ..teams[a]
                    }
                } else if is_victim(teams, a, draws, i) {
                    rule.smashed(teams[i])
                } else {
                    teams[i]
                },
        )
    } else {
        teams.update(a, rule.hit_if_incorrect(teams[a], draws[a]))
    }
}

/// What a smash action reports as changed: after a correct answer the
/// victims, in registry order, and then the attacker; after an incorrect one
/// the attacker alone.
pub open spec fn smash_report(
    rule: Rule,
    teams: Seq<TeamModel>,
    a: int,
    correct: bool,
    draws: Seq<int>,
) -> Seq<TeamModel> {
    let after = after_smash(rule, teams, a, correct, draws);
    if correct {
        victims(teams, a, draws, teams.len() as int).map_values(|t: TeamModel| rule.smashed(t)).push(
            after[a],
        )
    } else {
        seq![after[a]]
    }
}

/// The smash action at position `a` stays within `usize` and `i64`.
pub open spec fn smash_in_range(
    rule: Rule,
    teams: Seq<TeamModel>,
    a: int,
    correct: bool,
    draws: Seq<int>,
) -> bool {
    if correct {
        &&& teams[a].up + victims(teams, a, draws, teams.len() as int).len() <= usize::MAX
        &&& rule.smash_fits(victims(teams, a, draws, teams.len() as int))
    } else {
        rule.damage_if_incorrect.fits(teams[a].damage, draws[a])
    }
}

/// The victims among a longer prefix begin with those among a shorter one.
pub proof fn lemma_victims_grow(teams: Seq<TeamModel>, a: int, rolls: Seq<int>, m: int, n: int)
    requires
        0 <= m <= n,
    ensures
        victims(teams, a, rolls, m).len() <= victims(teams, a, rolls, n).len(),
        forall|k: int|
            0 <= k < victims(teams, a, rolls, m).len() ==> victims(teams, a, rolls, n)[k] == victims(
                teams,
                a,
                rolls,
                m,
            )[k],
    decreases n - m,
{
    if m < n {
        lemma_victims_grow(teams, a, rolls, m, n - 1);
    }
}

/// A victim at position `j` stands among the victims right after those of
/// `teams[..j]`.
pub proof fn lemma_victim_at(teams: Seq<TeamModel>, a: int, rolls: Seq<int>, j: int, n: int)
    requires
        0 <= j < n,
        is_victim(teams, a, rolls, j),
    ensures
        victims(teams, a, rolls, j).len() < victims(teams, a, rolls, n).len(),
        victims(teams, a, rolls, n)[victims(teams, a, rolls, j).len() as int] == teams[j],
{
    lemma_victims_grow(teams, a, rolls, j + 1, n);
    let k = victims(teams, a, rolls, j).len() as int;
    assert(victims(teams, a, rolls, j + 1)[k] == teams[j]);
}

/// There are no more victims than other teams, and where every other team
/// is hit there are exactly as many.
pub proof fn lemma_victims_count(teams: Seq<TeamModel>, a: int, rolls: Seq<int>, n: int)
    requires
        0 <= n,
    ensures
        victims(teams, a, rolls, n).len() <= (if 0 <= a < n { n - 1 } else { n }),
        (forall|i: int| 0 <= i < n && i != a ==> is_victim(teams, a, rolls, i)) ==> victims(
            teams,
            a,
            rolls,
            n,
        ).len() == (if 0 <= a < n { n - 1 } else { n }),
    decreases n,
{
    if n > 0 {
        lemma_victims_count(teams, a, rolls, n - 1);
    }
}

/// The team called `name` is in the registry and active.
pub open spec fn able(rule: Rule, teams: Seq<TeamModel>, name: Seq<char>) -> bool {
    has_team(teams, name) && rule.active(teams[position(teams, name)])
}

/// A damage action of `attacker` can be carried out with `draws`: there is
/// one draw per team, and where the attacker can act, no hit leaves `i64`.
pub open spec fn ready_for_damage(
    rule: Rule,
    teams: Seq<TeamModel>,
    attacker: Seq<char>,
    correct: bool,
    draws: Seq<int>,
) -> bool {
    &&& draws.len() == teams.len()
    &&& able(rule, teams, attacker) ==> damage_in_range(
        rule,
        teams,
        position(teams, attacker),
        correct,
        draws,
    )
}

/// A smash action of `attacker` can be carried out with `draws`: there is
/// one draw per team, and where the attacker can act, no counter leaves
/// `usize` and no hit leaves `i64`.
pub open spec fn ready_for_smash(
    rule: Rule,
    teams: Seq<TeamModel>,
    attacker: Seq<char>,
    correct: bool,
    draws: Seq<int>,
) -> bool {
    &&& draws.len() == teams.len()
    &&& able(rule, teams, attacker) ==> smash_in_range(
        rule,
        teams,
        position(teams, attacker),
        correct,
        draws,
    )
}

/// The teams of one game and the rule they play by.
pub struct GameManager {
    /// The registry: one state per team, no name twice.
    pub teams: Vec<TeamState>,
    /// The rule of the game.
    pub rule: Rule,
}

/// Copies `draws` but for the one at position `a`.
fn without(draws: &Vec<i64>, a: usize) -> (out: Vec<i64>)
    requires
        a < draws.len(),
    ensures
        out@ == draws@.remove(a as int),
{
    let mut out: Vec<i64> = Vec::new();
    let mut i: usize = 0;
    while i < draws.len()
        invariant
            i <= draws.len(),
            a < draws.len(),
            out.len() == (if i <= a { i as int } else { i - 1 }),
            forall|k: int| 0 <= k < out.len() ==> out[k] == (if k < a { draws[k] } else { draws[k + 1] }),
        decreases draws.len() - i,
    {
        if i != a {
            out.push(draws[i]);
        }
        i += 1;
    }
    assert(out@ =~= draws@.remove(a as int));
    out
}

impl Clone for GameManager {
    fn clone(&self) -> (out: Self)
        ensures
            out.registry() == self.registry(),
            out.rule == self.rule,
    {
        GameManager { teams: clone_teams(&self.teams), rule: self.rule }
    }
}

impl GameManager {
    /// The registry as a sequence of team values.
    pub open spec fn registry(&self) -> Seq<TeamModel> {
        models(self.teams@)
    }

    /// No two teams of the registry share a name.
    pub open spec fn wf(&self) -> bool {
        distinct_names(self.registry())
    }

    /// The team called `name` is in the registry and active.
    pub open spec fn can_act(&self, name: Seq<char>) -> bool {
        able(self.rule, self.registry(), name)
    }

    /// A damage action of `attacker` can be carried out with `draws`.
    pub open spec fn damage_ready(&self, attacker: Seq<char>, correct: bool, draws: Seq<int>) -> bool {
        ready_for_damage(self.rule, self.registry(), attacker, correct, draws)
    }

    /// A smash action of `attacker` can be carried out with `draws`.
    pub open spec fn smash_ready(&self, attacker: Seq<char>, correct: bool, draws: Seq<int>) -> bool {
        ready_for_smash(self.rule, self.registry(), attacker, correct, draws)
    }

    /// Whether [`GameManager::damage`] may be called with these arguments.
    pub fn can_damage(&self, attacker: &str, correct: bool, draws: &Vec<i64>) -> (ok: bool)
        requires
            self.wf(),
        ensures
            ok == self.damage_ready(attacker@, correct, ints(draws@)),
    {
        if draws.len() != self.teams.len() {
            return false;
        }
        let a = match self.find(attacker) {
            Some(a) => a,
            None => {
                return true;
            },
        };
        let ghost reg = self.registry();
        let ghost rolls = ints(draws@);
        assert(reg[a as int] == self.teams[a as int]@);
        assert(rolls[a as int] == draws[a as int]);
        if !self.rule.team_is_active(&self.teams[a]) {
            return true;
        }
        if !correct {
            return self.rule.damage_if_incorrect.can_add(self.teams[a].damage, draws[a]);
        }
        let mut i: usize = 0;
        while i < self.teams.len()
            invariant
                i <= self.teams.len(),
                draws.len() == self.teams.len(),
                reg == self.registry(),
                rolls == ints(draws@),
                correct,
                self.can_act(attacker@),
                position(reg, attacker@) == a,
                forall|k: int|
                    0 <= k < i && k != a && self.rule.active(#[trigger] reg[k])
                        ==> self.rule.damage_if_correct.fits(reg[k].damage, rolls[k]),
            decreases self.teams.len() - i,
        {
            assert(reg[i as int] == self.teams[i as int]@);
            assert(rolls[i as int] == draws[i as int]);
            if i != a && self.rule.team_is_active(&self.teams[i])
                && !self.rule.damage_if_correct.can_add(self.teams[i].damage, draws[i]) {
                proof {
                    assert(self.rule.active(reg[i as int]));
                    assert(!self.rule.damage_if_correct.fits(reg[i as int].damage, rolls[i as int]));
                    assert(!damage_in_range(self.rule, reg, a as int, true, rolls));
                }
                return false;
            }
            i += 1;
        }
        true
    }

    /// Whether [`GameManager::smash`] may be called with these arguments.
    pub fn can_smash(&self, attacker: &str, correct: bool, draws: &Vec<i64>) -> (ok: bool)
        requires
            self.wf(),
        ensures
            ok == self.smash_ready(attacker@, correct, ints(draws@)),
    {
        if draws.len() != self.teams.len() {
            return false;
        }
        let a = match self.find(attacker) {
            Some(a) => a,
            None => {
                return true;
            },
        };
        let ghost reg = self.registry();
        let ghost rolls = ints(draws@);
        assert(reg[a as int] == self.teams[a as int]@);
        assert(rolls[a as int] == draws[a as int]);
        if !self.rule.team_is_active(&self.teams[a]) {
            return true;
        }
        if !correct {
            return self.rule.damage_if_incorrect.can_add(self.teams[a].damage, draws[a]);
        }
        let n = self.teams.len();
        let mut count: usize = 0;
        let mut i: usize = 0;
        while i < n
            invariant
                i <= n,
                n == self.teams.len(),
                draws.len() == n,
                a < n,
                reg == self.registry(),
                rolls == ints(draws@),
                correct,
                self.can_act(attacker@),
                position(reg, attacker@) == a,
                count == victims(reg, a as int, rolls, i as int).len(),
                count <= i,
                self.rule.smash_fits(victims(reg, a as int, rolls, i as int)),
            decreases n - i,
        {
            assert(reg[i as int] == self.teams[i as int]@);
            assert(rolls[i as int] == draws[i as int]);
            if i != a && self.rule.judge_smash_success(&self.teams[a], &self.teams[i], draws[i]) {
                if self.rule.team_is_active(&self.teams[i]) && self.teams[i].down == usize::MAX {
                    proof {
                        lemma_victim_at(reg, a as int, rolls, i as int, n as int);
                        let hit = victims(reg, a as int, rolls, n as int);
                        let k = victims(reg, a as int, rolls, i as int).len() as int;
                        assert(self.rule.active(hit[k]) && hit[k].down == usize::MAX);
                        assert(!self.rule.smash_fits(hit));
                    }
                    return false;
                }
                count += 1;
            }
            i += 1;
        }
        self.teams[a].up.checked_add(count).is_some()
    }

    /// The position of the first team called `name`. In a well-formed
    /// registry it is the only one.
    pub fn find(&self, name: &str) -> (out: Option<usize>)
        ensures
            match out {
                Some(i) => {
                    &&& i < self.teams.len()
                    &&& self.registry()[i as int].name == name@
                    &&& forall|k: int| 0 <= k < i ==> (#[trigger] self.registry()[k]).name != name@
                },
                None => !has_team(self.registry(), name@),
            },
            self.wf() && out is Some ==> position(self.registry(), name@) == out->0,
            out is Some ==> has_team(self.registry(), name@),
    {
        let key = name.to_string();
        let mut i: usize = 0;
        while i < self.teams.len()
            invariant
                i <= self.teams.len(),
                key@ == name@,
                forall|k: int| 0 <= k < i ==> (#[trigger] self.registry()[k]).name != name@,
            decreases self.teams.len() - i,
        {
            if self.teams[i].name == key {
                proof {
                    assert(self.registry()[i as int].name == name@);
                    if self.wf() {
                        lemma_position_unique(self.registry(), i as int);
                    }
                }
                return Some(i);
            }
            i += 1;
        }
        None
    }

    /// A new game: one fresh state per name, in the order of `names`. A name
    /// that comes again is passed over.
    pub fn new(rule: Rule, names: Vec<String>) -> (out: GameManager)
        ensures
            out.rule == rule,
            out.wf(),
            out.registry() == first_names(names@.map_values(|s: String| s@), names.len() as int)
                .map_values(|n: Seq<char>| Rule::fresh(n)),
    {
        let ghost all = names@.map_values(|s: String| s@);
        let mut out = GameManager { teams: Vec::new(), rule };
        let mut i: usize = 0;
        while i < names.len()
            invariant
                i <= names.len(),
                all == names@.map_values(|s: String| s@),
                out.rule == rule,
                out.wf(),
                out.registry() == first_names(all, i as int).map_values(
                    |n: Seq<char>| Rule::fresh(n),
                ),
            decreases names.len() - i,
        {
            let ghost before = first_names(all, i as int);
            let ghost reg = out.registry();
            assert(all[i as int] == names[i as int]@);
            let found = out.find(names[i].as_str());
            if found.is_none() {
                let state = rule.new_state(names[i].as_str());
                out.teams.push(state);
                proof {
                    assert(!before.contains(all[i as int])) by {
                        if before.contains(all[i as int]) {
                            let k = choose|k: int| 0 <= k < before.len() && before[k] == all[i as int];
                            assert(reg[k].name == all[i as int]);
                        }
                    }
                    assert(out.registry() =~= reg.push(Rule::fresh(all[i as int])));
                    assert(out.registry() =~= first_names(all, i + 1).map_values(
                        |n: Seq<char>| Rule::fresh(n),
                    ));
                    assert forall|p: int, q: int| 0 <= p < q < out.registry().len() implies (
                    #[trigger] out.registry()[p]).name != (#[trigger] out.registry()[q]).name by {
                        if q == reg.len() {
                            assert(reg[p].name != all[i as int]);
                        } else {
                            assert(reg[p].name != reg[q].name);
                        }
                    }
                }
            } else {
                proof {
                    let k = found->0 as int;
                    assert(before[k] == all[i as int]);
                    assert(before.contains(all[i as int]));
                }
            }
            i += 1;
        }
        out
    }

    /// The team `attacker` has answered in a damage round.
    ///
    /// `draws` holds one drawn sample per team, at the team's position in
    /// the registry. After a correct answer every other active team takes
    /// the hit of its own sample, and all other teams are reported. After an
    /// incorrect answer the attacker takes the hit of its sample and is
    /// reported alone. An unknown or eliminated attacker is an error, and
    /// the registry stays as it was.
    pub fn damage(&mut self, attacker: &str, correct: bool, draws: &Vec<i64>) -> (out: Result<
        Vec<TeamState>,
        Error,
    >)
        requires
            old(self).wf(),
            old(self).damage_ready(attacker@, correct, ints(draws@)),
        ensures
            final(self).rule == old(self).rule,
            final(self).wf(),
            match out {
                Err(Error::TeamNotFound(name)) => {
                    &&& name@ == attacker@
                    &&& !has_team(old(self).registry(), attacker@)
                    &&& final(self).registry() == old(self).registry()
                },
                Err(Error::TeamNotActive(name)) => {
                    &&& name@ == attacker@
                    &&& has_team(old(self).registry(), attacker@)
                    &&& !old(self).rule.active(
                        old(self).registry()[position(old(self).registry(), attacker@)],
                    )
                    &&& final(self).registry() == old(self).registry()
                },
                Ok(report) => {
                    let a = position(old(self).registry(), attacker@);
                    &&& has_team(old(self).registry(), attacker@)
                    &&& old(self).rule.active(old(self).registry()[a])
                    &&& final(self).registry() == after_damage(
                        old(self).rule,
                        old(self).registry(),
                        a,
                        correct,
                        ints(draws@),
                    )
                    &&& models(report@) == damage_report(
                        old(self).rule,
                        old(self).registry(),
                        a,
                        correct,
                        ints(draws@),
                    )
                },
            },
    {
        let a = match self.find(attacker) {
            Some(a) => a,
            None => {
                return Err(Error::TeamNotFound(attacker.to_string()));
            },
        };
        let rule = self.rule;
        let ghost reg = self.registry();
        let ghost rolls = ints(draws@);
        assert(reg[a as int] == self.teams[a as int]@);
        if !rule.team_is_active(&self.teams[a]) {
            return Err(Error::TeamNotActive(attacker.to_string()));
        }
        let mut attacker_state = self.teams.remove(a);
        assert(attacker_state@ == reg[a as int]);
        assert(self.registry() =~= reg.remove(a as int));
        let report = if correct {
            let samples = without(draws, a);
            proof {
                let others = self.registry();
                let given = samples@.map_values(|s: i64| s as int);
                assert(given =~= rolls.remove(a as int));
                assert forall|i: int|
                    0 <= i < others.len() && rule.active(#[trigger] others[i]) implies rule
                    .damage_if_correct.fits(others[i].damage, given[i]) by {
                    let j = if i < a { i } else { i + 1 };
                    assert(others[i] == reg[j]);
                    assert(given[i] == rolls[j]);
                }
            }
            rule.damage_if_correct(&mut self.teams, &samples);
            proof {
                assert(self.registry() =~= after_damage(rule, reg, a as int, correct, rolls).remove(
                    a as int,
                )) by {
                    assert forall|i: int| 0 <= i < self.registry().len() implies self.registry()[i]
                        == after_damage(rule, reg, a as int, correct, rolls).remove(a as int)[i] by {
                        let j = if i < a { i } else { i + 1 };
                        assert(reg.remove(a as int)[i] == reg[j]);
                        assert(samples[i] as int == rolls[j]);
                        assert(self.teams[i]@ == self.registry()[i]);
                    }
                }
            }
            clone_teams(&self.teams)
        } else {
            assert(rolls[a as int] == draws[a as int]);
            rule.damage_if_incorrect(&mut attacker_state, draws[a]);
            let mut report: Vec<TeamState> = Vec::new();
            report.push(attacker_state.clone());
            assert(models(report@) =~= seq![attacker_state@]);
            report
        };
        let ghost others = self.registry();
        self.teams.insert(a, attacker_state);
        proof {
            let next = after_damage(rule, reg, a as int, correct, rolls);
            assert(self.registry() =~= others.insert(a as int, attacker_state@));
            assert(self.registry() =~= next);
            lemma_names_kept(reg, next);
        }
        Ok(report)
    }

    /// The team `attacker` has answered in a smash round.
    ///
    /// `draws` holds one draw per team, at the team's position in the
    /// registry. After a correct answer the draws are rolls: every other
    /// team whose roll is below its damage is a victim, the attacker goes up
    /// by the number of victims, each active victim goes down once and loses
    /// its damage, and the victims and the attacker are reported. After an
    /// incorrect answer the attacker's draw is a damage sample: the attacker
    /// takes the hit and is reported alone. An unknown or eliminated
    /// attacker is an error, and the registry stays as it was.
    pub fn smash(&mut self, attacker: &str, correct: bool, draws: &Vec<i64>) -> (out: Result<
        Vec<TeamState>,
        Error,
    >)
        requires
            old(self).wf(),
            old(self).smash_ready(attacker@, correct, ints(draws@)),
        ensures
            final(self).rule == old(self).rule,
            final(self).wf(),
            match out {
                Err(Error::TeamNotFound(name)) => {
                    &&& name@ == attacker@
                    &&& !has_team(old(self).registry(), attacker@)
                    &&& final(self).registry() == old(self).registry()
                },
                Err(Error::TeamNotActive(name)) => {
                    &&& name@ == attacker@
                    &&& has_team(old(self).registry(), attacker@)
                    &&& !old(self).rule.active(
                        old(self).registry()[position(old(self).registry(), attacker@)],
                    )
                    &&& final(self).registry() == old(self).registry()
                },
                Ok(report) => {
                    let a = position(old(self).registry(), attacker@);
                    &&& has_team(old(self).registry(), attacker@)
                    &&& old(self).rule.active(old(self).registry()[a])
                    &&& final(self).registry() == after_smash(
                        old(self).rule,
                        old(self).registry(),
                        a,
                        correct,
                        ints(draws@),
                    )
                    &&& models(report@) == smash_report(
                        old(self).rule,
                        old(self).registry(),
                        a,
                        correct,
                        ints(draws@),
                    )
                },
            },
    {
        let a = match self.find(attacker) {
            Some(a) => a,
            None => {
                return Err(Error::TeamNotFound(attacker.to_string()));
            },
        };
        let rule = self.rule;
        let ghost reg = self.registry();
        let ghost rolls = ints(draws@);
        assert(reg[a as int] == self.teams[a as int]@);
        if !rule.team_is_active(&self.teams[a]) {
            return Err(Error::TeamNotActive(attacker.to_string()));
        }
        let mut attacker_state = self.teams[a].clone();
        let n = self.teams.len();
        let mut report: Vec<TeamState>;
        let mut merged: Vec<TeamState> = Vec::new();
        if correct {
            let mut victim: Vec<TeamState> = Vec::new();
            let mut i: usize = 0;
            while i < n
                invariant
                    i <= n,
                    n == self.teams.len(),
                    n == draws.len(),
                    a < n,
                    reg == self.registry(),
                    rolls == ints(draws@),
                    models(victim@) == victims(reg, a as int, rolls, i as int),
                decreases n - i,
            {
                assert(reg[i as int] == self.teams[i as int]@);
                assert(rolls[i as int] == draws[i as int]);
                if i != a && rule.judge_smash_success(&attacker_state, &self.teams[i], draws[i]) {
                    let ghost before = models(victim@);
                    victim.push(self.teams[i].clone());
                    assert(models(victim@) =~= before.push(reg[i as int]));
                }
                i += 1;
            }
            let ghost hit = victims(reg, a as int, rolls, n as int);
            assert(victim.len() == hit.len());
            let ghost unhurt = victim@;
            rule.do_smash(&mut attacker_state, &mut victim);
            report = clone_teams(&victim);
            let ghost hurt = models(report@);
            report.push(attacker_state.clone());
            proof {
                assert forall|p: int| 0 <= p < hit.len() implies (#[trigger] victim[p])@
                    == rule.smashed(hit[p]) by {
                    assert(models(unhurt)[p] == unhurt[p]@);
                }
                assert forall|p: int| 0 <= p < hit.len() implies hurt[p] == rule.smashed(hit[p]) by {
                    assert(models(victim@)[p] == victim[p]@);
                }
                assert(models(report@) =~= hurt.push(attacker_state@));
                assert(hurt =~= hit.map_values(|t: TeamModel| rule.smashed(t)));
                assert(models(report@) =~= smash_report(rule, reg, a as int, true, rolls));
            }
            let mut k: usize = 0;
            let mut j: usize = 0;
            while j < n
                invariant
                    j <= n,
                    n == self.teams.len(),
                    n == draws.len(),
                    a < n,
                    reg == self.registry(),
                    rolls == ints(draws@),
                    hit == victims(reg, a as int, rolls, n as int),
                    victim.len() == hit.len(),
                    forall|p: int| 0 <= p < hit.len() ==> (#[trigger] victim[p])@ == rule.smashed(hit[p]),
                    k == victims(reg, a as int, rolls, j as int).len(),
                    merged.len() == j,
                    attacker_state@ == after_smash(rule, reg, a as int, true, rolls)[a as int],
                    forall|p: int|
                        0 <= p < j ==> (#[trigger] merged[p])@ == after_smash(
                            rule,
                            reg,
                            a as int,
                            true,
                            rolls,
                        )[p],
                decreases n - j,
            {
                assert(reg[j as int] == self.teams[j as int]@);
                assert(rolls[j as int] == draws[j as int]);
                if j == a {
                    merged.push(attacker_state.clone());
                } else if rule.judge_smash_success(&attacker_state, &self.teams[j], draws[j]) {
                    proof {
                        lemma_victim_at(reg, a as int, rolls, j as int, n as int);
                    }
                    merged.push(victim[k].clone());
                    k += 1;
                } else {
                    merged.push(self.teams[j].clone());
                }
                j += 1;
            }
        } else {
            assert(rolls[a as int] == draws[a as int]);
            rule.damage_if_incorrect(&mut attacker_state, draws[a]);
            report = Vec::new();
            report.push(attacker_state.clone());
            assert(models(report@) =~= seq![attacker_state@]);
            let mut j: usize = 0;
            while j < n
                invariant
                    j <= n,
                    n == self.teams.len(),
                    a < n,
                    reg == self.registry(),
                    merged.len() == j,
                    forall|p: int|
                        0 <= p < j ==> (#[trigger] merged[p])@ == (if p == a {
                            attacker_state@
                        } else {
                            reg[p]
                        }),
                decreases n - j,
            {
                assert(reg[j as int] == self.teams[j as int]@);
                if j == a {
                    merged.push(attacker_state.clone());
                } else {
                    merged.push(self.teams[j].clone());
                }
                j += 1;
            }
        }
        self.teams = merged;
        proof {
            let next = after_smash(rule, reg, a as int, correct, rolls);
            assert(self.registry() =~= next);
            lemma_names_kept(reg, next);
        }
        Ok(report)
    }
}

/// An incorrect answer in a damage round changes the attacker alone: every
/// other team is after the action what it was before.
pub proof fn lemma_incorrect_damage_spares_others(
    rule: Rule,
    teams: Seq<TeamModel>,
    a: int,
    draws: Seq<int>,
)
    requires
        0 <= a < teams.len(),
    ensures
        after_damage(rule, teams, a, false, draws).len() == teams.len(),
        forall|i: int|
            0 <= i < teams.len() && i != a ==> after_damage(rule, teams, a, false, draws)[i]
                == teams[i],
        damage_report(rule, teams, a, false, draws).len() == 1,
{
}

/// A correct answer in a damage round leaves the attacker as it was, moves
/// no team's counters and no eliminated team's damage.
pub proof fn lemma_correct_damage_keeps_attacker_and_counters(
    rule: Rule,
    teams: Seq<TeamModel>,
    a: int,
    draws: Seq<int>,
)
    requires
        0 <= a < teams.len(),
    ensures
        after_damage(rule, teams, a, true, draws).len() == teams.len(),
        after_damage(rule, teams, a, true, draws)[a] == teams[a],
        forall|i: int|
            0 <= i < teams.len() ==> {
                let after = #[trigger] after_damage(rule, teams, a, true, draws)[i];
                &&& after.name == teams[i].name
                &&& after.up == teams[i].up
                &&& after.down == teams[i].down
                &&& !rule.active(teams[i]) ==> after == teams[i]
            },
{
}

/// A correct answer in a smash round raises the attacker's `up` by the
/// number of teams that the smash hit, which is at most the number of other
/// teams, and changes nothing else of the attacker.
pub proof fn lemma_smash_raises_up_by_victims(
    rule: Rule,
    teams: Seq<TeamModel>,
    a: int,
    rolls: Seq<int>,
)
    requires
        0 <= a < teams.len(),
    ensures
        after_smash(rule, teams, a, true, rolls)[a] == (TeamModel {
            up: teams[a].up + victims(teams, a, rolls, teams.len() as int).len(),
            ..teams[a]
        }),
        victims(teams, a, rolls, teams.len() as int).len() <= teams.len() - 1,
{
    lemma_victims_count(teams, a, rolls, teams.len() as int);
}

/// Where the smash hits every other team, a correct answer in a smash round
/// raises the attacker's `up` by the number of other teams in the registry.
pub proof fn lemma_smash_of_all_raises_up_by_others(
    rule: Rule,
    teams: Seq<TeamModel>,
    a: int,
    rolls: Seq<int>,
)
    requires
        0 <= a < teams.len(),
        forall|i: int| 0 <= i < teams.len() && i != a ==> is_victim(teams, a, rolls, i),
    ensures
        after_smash(rule, teams, a, true, rolls)[a].up == teams[a].up + teams.len() - 1,
{
    lemma_victims_count(teams, a, rolls, teams.len() as int);
}

/// A smash changes no team that it did not hit, and no eliminated team even
/// where it did hit it; no team but the attacker and the victims is
/// reported.
pub proof fn lemma_smash_spares_eliminated(rule: Rule, teams: Seq<TeamModel>, a: int, rolls: Seq<int>)
    requires
        0 <= a < teams.len(),
    ensures
        after_smash(rule, teams, a, true, rolls).len() == teams.len(),
        forall|i: int|
            0 <= i < teams.len() && i != a && (!rule.active(teams[i]) || !is_victim(
                teams,
                a,
                rolls,
                i,
            )) ==> #[trigger] after_smash(rule, teams, a, true, rolls)[i] == teams[i],
        smash_report(rule, teams, a, true, rolls).len() == victims(
            teams,
            a,
            rolls,
            teams.len() as int,
        ).len() + 1,
{
}

/// No action adds, removes or renames a team: after a damage or a smash
/// action, whatever the answer, the registry holds the same names at the
/// same positions.
pub proof fn lemma_actions_keep_teams(
    rule: Rule,
    teams: Seq<TeamModel>,
    a: int,
    correct: bool,
    draws: Seq<int>,
)
    requires
        0 <= a < teams.len(),
    ensures
        after_damage(rule, teams, a, correct, draws).len() == teams.len(),
        after_smash(rule, teams, a, correct, draws).len() == teams.len(),
        forall|i: int|
            0 <= i < teams.len() ==> (#[trigger] after_damage(rule, teams, a, correct, draws)[i]).name
                == teams[i].name,
        forall|i: int|
            0 <= i < teams.len() ==> (#[trigger] after_smash(rule, teams, a, correct, draws)[i]).name
                == teams[i].name,
{
}

/// A registry whose teams kept their names, position by position, has
/// distinct names where the old one had.
pub proof fn lemma_names_kept(old_teams: Seq<TeamModel>, new_teams: Seq<TeamModel>)
    requires
        distinct_names(old_teams),
        new_teams.len() == old_teams.len(),
        forall|i: int| 0 <= i < old_teams.len() ==> (#[trigger] new_teams[i]).name == old_teams[i].name,
    ensures
        distinct_names(new_teams),
{
    assert forall|i: int, j: int| 0 <= i < j < new_teams.len() implies (#[trigger] new_teams[i]).name
        != (#[trigger] new_teams[j]).name by {
        assert(old_teams[i].name != old_teams[j].name);
    }
}

} // verus!
