use vstd::prelude::*;
use crate::error::Error;
use crate::history::{Log, LogModel, lemma_start_settled, lemma_commit_settled, lemma_undo_settled,
    lemma_redo_settled};
use crate::manager::{GameManager, ints, first_names, ready_for_damage, ready_for_smash,
    after_damage, damage_report, after_smash, smash_report};
use crate::rule::Rule;
use crate::team::{TeamState, TeamModel, models, has_team, clone_teams, position};

verus! {

/// The kind of action a team takes with its answer.
#[derive(Clone, Copy, Debug, PartialEq, Eq)]
pub enum Actor {
    /// A smash attack.
    Smash,
    /// A damage attack.
    Damage,
}

/// What has happened in the session.
#[derive(Clone, Copy, Debug, PartialEq, Eq)]
pub enum Event {
    /// The session was cleared.
    Reset,
    /// A game began under this rule.
    Initialize(Rule),
    /// The whole registry is sent again, with the rule of the game.
    Sync(Rule),
    /// A team answered.
    Answer { actor_type: Actor, success: bool },
}

/// What every display is told after an action: the teams that changed, and
/// the event that changed them.
#[derive(Debug)]
pub struct Message {
    /// The teams whose state changed.
    pub update: Vec<TeamState>,
    /// What happened.
    pub event: Event,
}

/// Why an action on the session failed. A failed action changes nothing.
#[derive(Debug)]
pub enum SessionError {
    /// No game has begun.
    SessionNotInitialized,
    /// The history is at its first record.
    NoMoreUndo,
    /// Nothing was committed from the current record.
    NoMoreRedo,
    /// The game rejected the action.
    Game(Error),
}

/// `out` is the message `event` with `update` as the changed teams.
pub open spec fn tells(out: Result<Message, SessionError>, update: Seq<TeamModel>, event: Event)
    -> bool {
    match out {
        Ok(message) => models(message.update@) == update && message.event == event,
        Err(_) => false,
    }
}

/// `out` says that no team is called `name`.
pub open spec fn says_not_found(out: Result<Message, SessionError>, name: Seq<char>) -> bool {
    match out {
        Err(SessionError::Game(Error::TeamNotFound(n))) => n@ == name,
        _ => false,
    }
}

/// `out` says that the team called `name` is eliminated.
pub open spec fn says_not_active(out: Result<Message, SessionError>, name: Seq<char>) -> bool {
    match out {
        Err(SessionError::Game(Error::TeamNotActive(n))) => n@ == name,
        _ => false,
    }
}

/// One session: the game that is being played, if any, and its history.
/// Its value is the history alone, for the game is always in the state of
/// the history's current record and under the history's rule.
pub struct Session {
    manager: Option<GameManager>,
    log: Option<Log>,
}

impl View for Session {
    type V = Option<LogModel>;

    closed spec fn view(&self) -> Option<LogModel> {
        match self.log {
            Some(log) => Some(log@),
            None => None,
        }
    }
}

impl Session {
    /// The game and the history are both there or both missing, both are
    /// well formed, and the game is what the history's current record says.
    pub closed spec fn wf(&self) -> bool {
        match (self.manager, self.log) {
            (None, None) => true,
            (Some(manager), Some(log)) => {
                &&& manager.wf()
                &&& log.wf()
                &&& log@.settled()
                &&& manager.rule == log@.rule
                &&& manager.registry() == log@.current()
            },
            _ => false,
        }
    }

    /// The history of a well-formed session is well formed and settled: a
    /// session moves its cursor by commits, undos and redos alone, so in a
    /// session an undo and then a redo always come back to where they left.
    pub proof fn lemma_history_settled(&self)
        requires
            self.wf(),
        ensures
            match self@ {
                Some(log) => log.wf() && log.settled(),
                None => true,
            },
    {
    }

    /// A session in which no game has begun.
    pub fn new() -> (out: Session)
        ensures
            out.wf(),
            out@ is None,
    {
        Session { manager: None, log: None }
    }

    /// Begins a game with one fresh team per name, under `rule` or, where
    /// none is given, under the standard rule. A game that was being played
    /// is dropped with its history. Every team is reported.
    pub fn initialize(&mut self, names: Vec<String>, rule: Option<Rule>) -> (out: Message)
        ensures
            final(self).wf(),
            ({
                let rule = match rule {
                    Some(rule) => rule,
                    None => Rule::standard(),
                };
                let teams = first_names(names@.map_values(|s: String| s@), names.len() as int)
                    .map_values(|n: Seq<char>| Rule::fresh(n));
                &&& final(self)@ == Some(LogModel::start(rule, teams))
                &&& models(out.update@) == teams
                &&& out.event == Event::Initialize(rule)
            }),
    {
        let rule = match rule {
            Some(rule) => rule,
            None => Rule::default(),
        };
        let manager = GameManager::new(rule, names);
        let out = Message { update: clone_teams(&manager.teams), event: Event::Initialize(rule) };
        let log = Log::new(&manager);
        proof {
            lemma_start_settled(manager.rule, manager.registry());
        }
        self.log = Some(log);
        self.manager = Some(manager);
        out
    }

    /// Drops the game and its history. No team is reported.
    pub fn reset(&mut self) -> (out: Message)
        ensures
            final(self).wf(),
            final(self)@ is None,
            out.update@.len() == 0,
            out.event == Event::Reset,
    {
        self.manager = None;
        self.log = None;
        Message { update: Vec::new(), event: Event::Reset }
    }

    /// Reports every team of the game as it is, and the rule. The session
    /// is left as it is.
    pub fn sync(&self) -> (out: Result<Message, SessionError>)
        requires
            self.wf(),
        ensures
            match self@ {
                Some(log) => tells(out, log.current(), Event::Sync(log.rule)),
                None => out matches Err(SessionError::SessionNotInitialized),
            },
    {
        match &self.manager {
            Some(manager) => Ok(
                Message { update: clone_teams(&manager.teams), event: Event::Sync(manager.rule) },
            ),
            None => Err(SessionError::SessionNotInitialized),
        }
    }

    /// Whether [`Session::damage`] may be called with these arguments.
    pub fn can_damage(&self, attacker: &str, correct: bool, draws: &Vec<i64>) -> (ok: bool)
        requires
            self.wf(),
        ensures
            ok == match self@ {
                Some(log) => ready_for_damage(
                    log.rule,
                    log.current(),
                    attacker@,
                    correct,
                    ints(draws@),
                ),
                None => true,
            },
    {
        match &self.manager {
            Some(manager) => manager.can_damage(attacker, correct, draws),
            None => true,
        }
    }

    /// Whether [`Session::smash`] may be called with these arguments.
    pub fn can_smash(&self, attacker: &str, correct: bool, draws: &Vec<i64>) -> (ok: bool)
        requires
            self.wf(),
        ensures
            ok == match self@ {
                Some(log) => ready_for_smash(
                    log.rule,
                    log.current(),
                    attacker@,
                    correct,
                    ints(draws@),
                ),
                None => true,
            },
    {
        match &self.manager {
            Some(manager) => manager.can_smash(attacker, correct, draws),
            None => true,
        }
    }

    /// The team `attacker` has answered in a damage round. Where the game
    /// accepts the action, the new registry is committed to the history and
    /// the changed teams are reported; where it does not, or no game has
    /// begun, nothing changes.
    pub fn damage(&mut self, attacker: &str, correct: bool, draws: &Vec<i64>) -> (out: Result<
        Message,
        SessionError,
    >)
        requires
            old(self).wf(),
            match old(self)@ {
                Some(log) => ready_for_damage(
                    log.rule,
                    log.current(),
                    attacker@,
                    correct,
                    ints(draws@),
                ),
                None => true,
            },
        ensures
            final(self).wf(),
            match old(self)@ {
                None => final(self)@ is None && out matches Err(
                    SessionError::SessionNotInitialized,
                ),
                Some(log) => {
                    let teams = log.current();
                    let a = position(teams, attacker@);
                    if !has_team(teams, attacker@) {
                        final(self)@ == old(self)@ && says_not_found(out, attacker@)
                    } else if !log.rule.active(teams[a]) {
                        final(self)@ == old(self)@ && says_not_active(out, attacker@)
                    } else {
                        &&& final(self)@ == Some(
                            log.commit(after_damage(log.rule, teams, a, correct, ints(draws@))),
                        )
                        &&& tells(
                            out,
                            damage_report(log.rule, teams, a, correct, ints(draws@)),
                            Event::Answer { actor_type: Actor::Damage, success: correct },
                        )
                    }
                },
            },
    {
        let mut manager = match self.manager.take() {
            Some(manager) => manager,
            None => {
                return Err(SessionError::SessionNotInitialized);
            },
        };
        let result = manager.damage(attacker, correct, draws);
        let out = match result {
            Ok(update) => {
                let mut log = self.log.take().unwrap();
                proof {
                    lemma_commit_settled(log@, manager.registry());
                }
                log.commit(&manager);
                self.log = Some(log);
                Ok(
                    Message {
                        update,
                        event: Event::Answer { actor_type: Actor::Damage, success: correct },
                    },
                )
            },
            Err(e) => Err(SessionError::Game(e)),
        };
        self.manager = Some(manager);
        out
    }

    /// The team `attacker` has answered in a smash round. Where the game
    /// accepts the action, the new registry is committed to the history and
    /// the changed teams are reported; where it does not, or no game has
    /// begun, nothing changes.
    pub fn smash(&mut self, attacker: &str, correct: bool, draws: &Vec<i64>) -> (out: Result<
        Message,
        SessionError,
    >)
        requires
            old(self).wf(),
            match old(self)@ {
                Some(log) => ready_for_smash(
                    log.rule,
                    log.current(),
                    attacker@,
                    correct,
                    ints(draws@),
                ),
                None => true,
            },
        ensures
            final(self).wf(),
            match old(self)@ {
                None => final(self)@ is None && out matches Err(
                    SessionError::SessionNotInitialized,
                ),
                Some(log) => {
                    let teams = log.current();
                    let a = position(teams, attacker@);
                    if !has_team(teams, attacker@) {
                        final(self)@ == old(self)@ && says_not_found(out, attacker@)
                    } else if !log.rule.active(teams[a]) {
                        final(self)@ == old(self)@ && says_not_active(out, attacker@)
                    } else {
                        &&& final(self)@ == Some(
                            log.commit(after_smash(log.rule, teams, a, correct, ints(draws@))),
                        )
                        &&& tells(
                            out,
                            smash_report(log.rule, teams, a, correct, ints(draws@)),
                            Event::Answer { actor_type: Actor::Smash, success: correct },
                        )
                    }
                },
            },
    {
        let mut manager = match self.manager.take() {
            Some(manager) => manager,
            None => {
                return Err(SessionError::SessionNotInitialized);
            },
        };
        let result = manager.smash(attacker, correct, draws);
        let out = match result {
            Ok(update) => {
                let mut log = self.log.take().unwrap();
                proof {
                    lemma_commit_settled(log@, manager.registry());
                }
                log.commit(&manager);
                self.log = Some(log);
                Ok(
                    Message {
                        update,
                        event: Event::Answer { actor_type: Actor::Smash, success: correct },
                    },
                )
            },
            Err(e) => Err(SessionError::Game(e)),
        };
        self.manager = Some(manager);
        out
    }

    /// Takes the game back to the record that the current one was committed
    /// from, and reports every team as it was then. At the first record, or
    /// where no game has begun, nothing changes.
    pub fn undo(&mut self) -> (out: Result<Message, SessionError>)
        requires
            old(self).wf(),
        ensures
            final(self).wf(),
            match old(self)@ {
                None => final(self)@ is None && out matches Err(
                    SessionError::SessionNotInitialized,
                ),
                Some(log) => match log.undo() {
                    Some(back) => final(self)@ == Some(back) && tells(
                        out,
                        back.current(),
                        Event::Sync(back.rule),
                    ),
                    None => final(self)@ == old(self)@ && out matches Err(SessionError::NoMoreUndo),
                },
            },
    {
        let mut log = match self.log.take() {
            Some(log) => log,
            None => {
                return Err(SessionError::SessionNotInitialized);
            },
        };
        proof {
            if log@.undo() is Some {
                lemma_undo_settled(log@);
            }
        }
        let out = match log.undo() {
            Some(manager) => {
                let message = Message {
                    update: clone_teams(&manager.teams),
                    event: Event::Sync(manager.rule),
                };
                self.manager = Some(manager);
                Ok(message)
            },
            None => Err(SessionError::NoMoreUndo),
        };
        self.log = Some(log);
        out
    }

    /// Takes the game forward to the newest record that was committed from
    /// the current one, and reports every team as it was then. Without such
    /// a record, or where no game has begun, nothing changes.
    pub fn redo(&mut self) -> (out: Result<Message, SessionError>)
        requires
            old(self).wf(),
        ensures
            final(self).wf(),
            match old(self)@ {
                None => final(self)@ is None && out matches Err(
                    SessionError::SessionNotInitialized,
                ),
                Some(log) => match log.redo() {
                    Some(forth) => final(self)@ == Some(forth) && tells(
                        out,
                        forth.current(),
                        Event::Sync(forth.rule),
                    ),
                    None => final(self)@ == old(self)@ && out matches Err(SessionError::NoMoreRedo),
                },
            },
    {
        let mut log = match self.log.take() {
            Some(log) => log,
            None => {
                return Err(SessionError::SessionNotInitialized);
            },
        };
        proof {
            if log@.redo() is Some {
                lemma_redo_settled(log@);
            }
        }
        let out = match log.redo() {
            Some(manager) => {
                let message = Message {
                    update: clone_teams(&manager.teams),
                    event: Event::Sync(manager.rule),
                };
                self.manager = Some(manager);
                Ok(message)
            },
            None => Err(SessionError::NoMoreRedo),
        };
        self.log = Some(log);
        out
    }
}

} // verus!
