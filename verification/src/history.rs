use vstd::prelude::*;
use crate::manager::GameManager;
use crate::rule::Rule;
use crate::team::{TeamState, TeamModel, models, distinct_names, clone_teams};

verus! {

/// One snapshot of the registry.
pub struct LogRecord {
    /// The registry as it was when the record was committed.
    pub states: Vec<TeamState>,
    /// The record that was current when this one was committed.
    pub before: usize,
}

/// The mathematical value of a [`LogRecord`].
pub struct RecordModel {
    pub states: Seq<TeamModel>,
    pub before: int,
}

impl View for LogRecord {
    type V = RecordModel;

    open spec fn view(&self) -> RecordModel {
        RecordModel { states: models(self.states@), before: self.before as int }
    }
}

/// The history of one game: every committed registry, each with the record
/// it was committed from, and a cursor on the record that is current.
/// Records are only ever appended, so they form a tree with record 0 as its
/// root, and a commit after an undo opens a new branch.
pub struct Log {
    rule: Rule,
    records: Vec<LogRecord>,
    cursor: usize,
}

/// The mathematical value of a [`Log`].
pub struct LogModel {
    pub rule: Rule,
    pub records: Seq<RecordModel>,
    pub cursor: int,
}

impl LogModel {
    /// Record 0 exists and points to itself, every later record points to an
    /// earlier one, the cursor is on a record, and no record holds a name
    /// twice.
    pub open spec fn wf(self) -> bool {
        &&& self.records.len() > 0
        &&& 0 <= self.cursor < self.records.len()
        &&& self.records[0].before == 0
        &&& forall|i: int| 0 < i < self.records.len() ==> 0 <= (#[trigger] self.records[i]).before < i
        &&& forall|i: int|
            0 <= i < self.records.len() ==> distinct_names((#[trigger] self.records[i]).states)
    }

    /// The history of a game that has just begun with `teams`.
    pub open spec fn start(rule: Rule, teams: Seq<TeamModel>) -> LogModel {
        LogModel { rule, records: seq![RecordModel { states: teams, before: 0 }], cursor: 0 }
    }

    /// The registry of the current record.
    pub open spec fn current(self) -> Seq<TeamModel> {
        self.records[self.cursor].states
    }

    /// The history after `teams` was committed: a new last record that
    /// points to the record that was current, and the cursor on it.
    pub open spec fn commit(self, teams: Seq<TeamModel>) -> LogModel {
        LogModel {
            records: self.records.push(RecordModel { states: teams, before: self.cursor }),
            cursor: self.records.len() as int,
            ..self
        }
    }

    /// The history with the cursor on record `index`, where there is one.
    pub open spec fn goto(self, index: int) -> Option<LogModel> {
        if 0 <= index < self.records.len() {
            Some(LogModel { cursor: index, ..self })
        } else {
            None
        }
    }

    /// The history with the cursor one record back. At record 0 there is
    /// nothing to undo.
    pub open spec fn undo(self) -> Option<LogModel> {
        if self.cursor == 0 {
            None
        } else {
            self.goto(self.records[self.cursor].before)
        }
    }

    /// Record `j` was committed from the current record.
    pub open spec fn is_child(self, j: int) -> bool {
        0 < j < self.records.len() && self.records[j].before == self.cursor
    }

    /// Record `j` is the last that was committed from the current record.
    pub open spec fn is_newest_child(self, j: int) -> bool {
        self.is_child(j) && forall|k: int| self.is_child(k) ==> k <= j
    }

    /// The history with the cursor on the newest child of the current
    /// record. Without a child there is nothing to redo.
    pub open spec fn redo(self) -> Option<LogModel> {
        if exists|j: int| self.is_child(j) {
            self.goto(choose|j: int| self.is_newest_child(j))
        } else {
            None
        }
    }

    /// The cursor is where commits, undos and redos alone can have taken it:
    /// every record behind the cursor was committed from the current record
    /// or from one behind it, and of two records the later one was committed
    /// from the earlier one or behind it, or else from the earlier one's
    /// parent or before it. A [`LogModel::goto`] can break this.
    pub open spec fn settled(self) -> bool {
        &&& forall|j: int|
            self.cursor < j < self.records.len() ==> (#[trigger] self.records[j]).before
                >= self.cursor
        &&& forall|k: int, l: int|
            0 < k < l < self.records.len() ==> (#[trigger] self.records[l]).before <= (
            #[trigger] self.records[k]).before || self.records[l].before >= k
    }

    /// The history after each registry of `snapshots` was committed in turn.
    pub open spec fn commits(self, snapshots: Seq<Seq<TeamModel>>) -> LogModel
        decreases snapshots.len(),
    {
        if snapshots.len() == 0 {
            self
        } else {
            self.commits(snapshots.drop_last()).commit(snapshots.last())
        }
    }

    /// The history after `n` undos, where each of them had a record to go
    /// back to.
    pub open spec fn undos(self, n: nat) -> Option<LogModel>
        decreases n,
    {
        if n == 0 {
            Some(self)
        } else {
            match self.undo() {
                Some(back) => back.undos((n - 1) as nat),
                None => None,
            }
        }
    }
}

impl View for Log {
    type V = LogModel;

    closed spec fn view(&self) -> LogModel {
        LogModel {
            rule: self.rule,
            records: Seq::new(self.records@.len(), |i: int| self.records@[i]@),
            cursor: self.cursor as int,
        }
    }
}

impl Log {
    /// The log's value is well formed. Every log that [`Log::new`] made and
    /// the methods below changed is.
    pub open spec fn wf(&self) -> bool {
        self@.wf()
    }

    /// The history of a game that has just begun: the registry of `manager`
    /// as record 0, and its rule for every record to come.
    pub fn new(manager: &GameManager) -> (out: Log)
        requires
            manager.wf(),
        ensures
            out.wf(),
            out@ == LogModel::start(manager.rule, manager.registry()),
    {
        let mut records: Vec<LogRecord> = Vec::new();
        records.push(LogRecord { states: clone_teams(&manager.teams), before: 0 });
        let out = Log { rule: manager.rule, records, cursor: 0 };
        assert(out@.records =~= LogModel::start(manager.rule, manager.registry()).records);
        out
    }

    /// Appends the registry of `manager` as a new record behind the current
    /// one and moves the cursor onto it. No record is overwritten. The rule
    /// stays the one the log began with.
    pub fn commit(&mut self, manager: &GameManager)
        requires
            old(self).wf(),
            manager.wf(),
        ensures
            final(self).wf(),
            final(self)@ == old(self)@.commit(manager.registry()),
    {
        let record = LogRecord { states: clone_teams(&manager.teams), before: self.cursor };
        self.records.push(record);
        self.cursor = self.records.len() - 1;
        proof {
            assert(self@.records =~= old(self)@.commit(manager.registry()).records);
            lemma_commit_wf(old(self)@, manager.registry());
        }
    }

    /// The index of the current record.
    pub fn cursor(&self) -> (out: usize)
        ensures
            out == self@.cursor,
    {
        self.cursor
    }

    /// The number of records.
    pub fn len(&self) -> (out: usize)
        ensures
            out == self@.records.len(),
    {
        self.records.len()
    }

    /// A game in the state of the current record, under the log's rule. The
    /// log is left as it is.
    pub fn get_manager(&self) -> (out: GameManager)
        requires
            self.wf(),
        ensures
            out.wf(),
            out.rule == self@.rule,
            out.registry() == self@.current(),
    {
        let out = GameManager {
            teams: clone_teams(&self.records[self.cursor].states),
            rule: self.rule,
        };
        assert(self@.records[self.cursor as int] == self.records[self.cursor as int]@);
        out
    }

    /// Moves the cursor onto record `index` and gives the game in that
    /// state. Where there is no such record the log is left as it is.
    pub fn goto(&mut self, index: usize) -> (out: Option<GameManager>)
        requires
            old(self).wf(),
        ensures
            final(self).wf(),
            match old(self)@.goto(index as int) {
                Some(next) => {
                    &&& final(self)@ == next
                    &&& out is Some
                    &&& out->0.wf()
                    &&& out->0.rule == next.rule
                    &&& out->0.registry() == next.current()
                },
                None => final(self)@ == old(self)@ && out is None,
            },
    {
        if index >= self.records.len() {
            return None;
        }
        self.cursor = index;
        Some(self.get_manager())
    }

    /// Goes back to the record that the current one was committed from.
    /// At record 0 there is nothing to go back to: the log is left as it is.
    pub fn undo(&mut self) -> (out: Option<GameManager>)
        requires
            old(self).wf(),
        ensures
            final(self).wf(),
            match old(self)@.undo() {
                Some(next) => {
                    &&& final(self)@ == next
                    &&& out is Some
                    &&& out->0.wf()
                    &&& out->0.rule == next.rule
                    &&& out->0.registry() == next.current()
                },
                None => final(self)@ == old(self)@ && out is None,
            },
    {
        if self.cursor == 0 {
            return None;
        }
        assert(self@.records[self.cursor as int] == self.records[self.cursor as int]@);
        let before = self.records[self.cursor].before;
        self.goto(before)
    }

    /// The records that were committed from the current one, oldest first.
    pub fn redo_list(&self) -> (out: Vec<usize>)
        requires
            self.wf(),
        ensures
            forall|k: int| 0 <= k < out.len() ==> self@.is_child(#[trigger] out[k] as int),
            forall|k: int, l: int| 0 <= k < l < out.len() ==> out[k] < out[l],
            forall|j: int| self@.is_child(j) ==> exists|k: int| 0 <= k < out.len() && out[k] == j,
    {
        let mut out: Vec<usize> = Vec::new();
        let mut i: usize = 1;
        while i < self.records.len()
            invariant
                1 <= i <= self.records.len(),
                forall|k: int| 0 <= k < out.len() ==> self@.is_child(#[trigger] out[k] as int),
                forall|k: int| 0 <= k < out.len() ==> (#[trigger] out[k]) < i,
                forall|k: int, l: int| 0 <= k < l < out.len() ==> out[k] < out[l],
                forall|j: int|
                    self@.is_child(j) && j < i ==> exists|k: int| 0 <= k < out.len() && out[k] == j,
            decreases self.records.len() - i,
        {
            assert(self@.records[i as int] == self.records[i as int]@);
            if self.records[i].before == self.cursor {
                let ghost seen = out@;
                out.push(i);
                assert forall|j: int| self@.is_child(j) && j < i + 1 implies exists|k: int|
                    0 <= k < out.len() && out[k] == j by {
                    if j < i {
                        let k = choose|k: int| 0 <= k < seen.len() && seen[k] == j;
                        assert(out[k] == j);
                    } else {
                        assert(out[out.len() - 1] == j);
                    }
                }
            }
            i += 1;
        }
        out
    }

    /// Goes forward to the newest record that was committed from the current
    /// one. Without such a record the log is left as it is.
    pub fn redo(&mut self) -> (out: Option<GameManager>)
        requires
            old(self).wf(),
        ensures
            final(self).wf(),
            match old(self)@.redo() {
                Some(next) => {
                    &&& final(self)@ == next
                    &&& out is Some
                    &&& out->0.wf()
                    &&& out->0.rule == next.rule
                    &&& out->0.registry() == next.current()
                },
                None => final(self)@ == old(self)@ && out is None,
            },
    {
        let children = self.redo_list();
        if children.len() == 0 {
            return None;
        }
        let newest = children[children.len() - 1];
        proof {
            let log = self@;
            assert(log.is_child(newest as int));
            assert forall|j: int| log.is_child(j) implies j <= newest by {
                let k = choose|k: int| 0 <= k < children.len() && children[k] == j;
                if k < children.len() - 1 {
                    assert(children[k] < children[children.len() - 1]);
                }
            }
            assert(log.is_newest_child(newest as int));
            lemma_newest_child(log, newest as int);
        }
        self.goto(newest)
    }
}

/// A commit of a registry with distinct names keeps the history well formed.
pub proof fn lemma_commit_wf(log: LogModel, teams: Seq<TeamModel>)
    requires
        log.wf(),
        distinct_names(teams),
    ensures
        log.commit(teams).wf(),
{
    let next = log.commit(teams);
    assert forall|i: int| 0 < i < next.records.len() implies 0 <= (#[trigger] next.records[i]).before
        < i by {
        if i < log.records.len() {
            assert(next.records[i] == log.records[i]);
        }
    }
    assert forall|i: int| 0 <= i < next.records.len() implies distinct_names(
        (#[trigger] next.records[i]).states,
    ) by {
        if i < log.records.len() {
            assert(next.records[i] == log.records[i]);
        }
    }
}

/// The newest child of the current record is the one that redo goes to.
pub proof fn lemma_newest_child(log: LogModel, j: int)
    requires
        log.is_newest_child(j),
    ensures
        log.redo() == log.goto(j),
{
    assert(log.is_child(j));
    let c = choose|c: int| log.is_newest_child(c);
    assert(log.is_newest_child(c));
    assert(c <= j && j <= c);
}

/// Moving the cursor keeps the history well formed.
pub proof fn lemma_moves_keep_wf(log: LogModel, index: int)
    requires
        log.wf(),
    ensures
        log.goto(index) is Some ==> log.goto(index)->0.wf(),
        log.undo() is Some ==> log.undo()->0.wf(),
        log.redo() is Some ==> log.redo()->0.wf(),
{
}

/// An undo and then a redo, with no commit between them, come back to the
/// very history they left: the same records, rule and cursor. This holds
/// where the current record is the newest that was committed from its
/// parent, and only there.
pub proof fn lemma_undo_then_redo(log: LogModel)
    requires
        log.wf(),
        log.cursor != 0,
        forall|j: int|
            0 < j < log.records.len() && (#[trigger] log.records[j]).before
                == log.records[log.cursor].before ==> j <= log.cursor,
    ensures
        log.undo() is Some,
        log.undo()->0.redo() == Some(log),
{
    let back = log.undo()->0;
    assert(back.is_child(log.cursor));
    assert(back.is_newest_child(log.cursor));
    lemma_newest_child(back, log.cursor);
}

/// A history that has just begun is settled.
pub proof fn lemma_start_settled(rule: Rule, teams: Seq<TeamModel>)
    ensures
        LogModel::start(rule, teams).settled(),
{
}

/// A commit leaves a settled history settled.
pub proof fn lemma_commit_settled(log: LogModel, teams: Seq<TeamModel>)
    requires
        log.wf(),
        log.settled(),
    ensures
        log.commit(teams).settled(),
{
    let next = log.commit(teams);
    let n = log.records.len() as int;
    assert forall|k: int, l: int| 0 < k < l < next.records.len() implies (
    #[trigger] next.records[l]).before <= (#[trigger] next.records[k]).before
        || next.records[l].before >= k by {
        assert(next.records[k] == log.records[k]);
        if l < n {
            assert(next.records[l] == log.records[l]);
        } else {
            assert(next.records[l].before == log.cursor);
        }
    }
}

/// An undo leaves a settled history settled.
pub proof fn lemma_undo_settled(log: LogModel)
    requires
        log.wf(),
        log.settled(),
        log.undo() is Some,
    ensures
        log.undo()->0.settled(),
{
    let back = log.undo()->0;
    let c = log.cursor;
    assert(back.records == log.records);
    assert forall|j: int| back.cursor < j < back.records.len() implies (
    #[trigger] back.records[j]).before >= back.cursor by {
        if j < c {
            assert(log.records[c].before <= log.records[j].before || log.records[c].before >= j);
        } else if j > c {
            assert(log.records[j].before >= c);
        }
    }
}

/// Moving the cursor onto its newest child leaves a settled history
/// settled.
proof fn lemma_step_forth_settled(log: LogModel, best: int)
    requires
        log.wf(),
        log.settled(),
        log.is_newest_child(best),
    ensures
        (LogModel { cursor: best, ..log }).settled(),
{
    let forth = LogModel { cursor: best, ..log };
    assert forall|j: int| forth.cursor < j < forth.records.len() implies (
    #[trigger] forth.records[j]).before >= forth.cursor by {
        assert(log.records[j].before <= log.records[best].before || log.records[j].before >= best);
        assert(log.records[j].before >= log.cursor);
        if log.records[j].before == log.cursor {
            assert(log.is_child(j));
        }
    }
}

/// A redo leaves a settled history settled.
pub proof fn lemma_redo_settled(log: LogModel)
    requires
        log.wf(),
        log.settled(),
        log.redo() is Some,
    ensures
        log.redo()->0.settled(),
{
    let n = log.records.len() as int;
    lemma_has_newest_child(log, n);
    let some = choose|j: int| log.is_child(j);
    assert(log.is_child(some) && some < n);
    let best = choose|j: int|
        log.is_child(j) && j < n && forall|k: int| log.is_child(k) && k < n ==> k <= j;
    assert(log.is_newest_child(best));
    lemma_newest_child(log, best);
    lemma_step_forth_settled(log, best);
}

/// Where the current record has a child among the first `n` records, one of
/// its children is the newest.
pub proof fn lemma_has_newest_child(log: LogModel, n: int)
    requires
        0 <= n <= log.records.len(),
    ensures
        (exists|j: int| log.is_child(j) && j < n) ==> exists|j: int|
            log.is_child(j) && j < n && forall|k: int| log.is_child(k) && k < n ==> k <= j,
    decreases n,
{
    if n > 0 {
        lemma_has_newest_child(log, n - 1);
        if log.is_child(n - 1) {
            assert(forall|k: int| log.is_child(k) && k < n ==> k <= n - 1);
        } else if exists|j: int| log.is_child(j) && j < n {
            let j = choose|j: int| log.is_child(j) && j < n;
            assert(log.is_child(j) && j < n - 1);
            let best = choose|j: int|
                log.is_child(j) && j < n - 1 && forall|k: int| log.is_child(k) && k < n - 1 ==> k <= j;
            assert(forall|k: int| log.is_child(k) && k < n ==> k <= best);
        }
    }
}

/// In a settled history an undo and then a redo, with no commit between
/// them, come back to the very history they left.
pub proof fn lemma_settled_undo_then_redo(log: LogModel)
    requires
        log.wf(),
        log.settled(),
        log.cursor != 0,
    ensures
        log.undo() is Some,
        log.undo()->0.redo() == Some(log),
{
    lemma_undo_then_redo(log);
}

/// Undos on a history go the way they go on a history with the same cursor
/// whose records it begins with.
proof fn lemma_undos_on_longer(short: LogModel, long: LogModel, n: nat)
    requires
        short.wf(),
        long.cursor == short.cursor,
        long.rule == short.rule,
        short.records.len() <= long.records.len(),
        forall|i: int| 0 <= i < short.records.len() ==> long.records[i] == short.records[i],
    ensures
        match short.undos(n) {
            Some(back) => long.undos(n) == Some(LogModel { cursor: back.cursor, ..long }),
            None => long.undos(n) is None,
        },
    decreases n,
{
    if n > 0 && short.cursor != 0 {
        let s = short.undo()->0;
        let l = long.undo()->0;
        assert(l == LogModel { cursor: s.cursor, ..long });
        lemma_undos_on_longer(s, l, (n - 1) as nat);
    }
}

/// A run of commits keeps the history well formed and leaves the cursor on
/// a record past the first, unless nothing was committed.
pub proof fn lemma_commits_wf(log: LogModel, snapshots: Seq<Seq<TeamModel>>)
    requires
        log.wf(),
        forall|k: int| 0 <= k < snapshots.len() ==> distinct_names(#[trigger] snapshots[k]),
    ensures
        log.commits(snapshots).wf(),
        log.commits(snapshots).rule == log.rule,
        log.commits(snapshots).records.len() == log.records.len() + snapshots.len(),
        forall|i: int|
            0 <= i < log.records.len() ==> log.commits(snapshots).records[i] == log.records[i],
        snapshots.len() > 0 ==> log.commits(snapshots).cursor > 0,
    decreases snapshots.len(),
{
    if snapshots.len() > 0 {
        let rest = snapshots.drop_last();
        assert forall|k: int| 0 <= k < rest.len() implies distinct_names(#[trigger] rest[k]) by {
            assert(rest[k] == snapshots[k]);
        }
        lemma_commits_wf(log, rest);
        lemma_commit_wf(log.commits(rest), snapshots.last());
    }
}

/// As many undos as there were commits take the cursor back to where it was
/// before the commits, with every committed record still in the history.
pub proof fn lemma_commits_then_undos(log: LogModel, snapshots: Seq<Seq<TeamModel>>)
    requires
        log.wf(),
        forall|k: int| 0 <= k < snapshots.len() ==> distinct_names(#[trigger] snapshots[k]),
    ensures
        log.commits(snapshots).undos(snapshots.len()) == Some(
            LogModel { cursor: log.cursor, ..log.commits(snapshots) },
        ),
    decreases snapshots.len(),
{
    let done = log.commits(snapshots);
    if snapshots.len() > 0 {
        let rest = snapshots.drop_last();
        assert forall|k: int| 0 <= k < rest.len() implies distinct_names(#[trigger] rest[k]) by {
            assert(rest[k] == snapshots[k]);
        }
        let short = log.commits(rest);
        lemma_commits_wf(log, rest);
        lemma_commits_then_undos(log, rest);
        let long = done.undo()->0;
        assert(long == LogModel { cursor: short.cursor, ..done });
        lemma_undos_on_longer(short, long, rest.len());
    }
}

/// In a history that has just begun, as many undos as there were commits
/// take the game back to the registry it began with, and one undo more
/// fails.
pub proof fn lemma_commits_then_undos_from_start(
    rule: Rule,
    teams: Seq<TeamModel>,
    snapshots: Seq<Seq<TeamModel>>,
)
    requires
        distinct_names(teams),
        forall|k: int| 0 <= k < snapshots.len() ==> distinct_names(#[trigger] snapshots[k]),
    ensures
        LogModel::start(rule, teams).commits(snapshots).undos(snapshots.len()) is Some,
        LogModel::start(rule, teams).commits(snapshots).undos(snapshots.len())->0.cursor == 0,
        LogModel::start(rule, teams).commits(snapshots).undos(snapshots.len())->0.current() == teams,
        LogModel::start(rule, teams).commits(snapshots).undos(snapshots.len())->0.rule == rule,
        LogModel::start(rule, teams).commits(snapshots).undos(snapshots.len())->0.undo() is None,
{
    let log = LogModel::start(rule, teams);
    lemma_commits_wf(log, snapshots);
    lemma_commits_then_undos(log, snapshots);
    assert(log.commits(snapshots).records[0] == log.records[0]);
}

/// A commit after an undo opens a new branch. The record that was undone
/// stays where it was and can be gone to, with the registry it held; but a
/// redo from the record that both were committed from now goes to the new
/// record.
pub proof fn lemma_commit_after_undo_branches(log: LogModel, teams: Seq<TeamModel>)
    requires
        log.wf(),
        log.cursor != 0,
        distinct_names(teams),
    ensures
        log.undo() is Some,
        ({
            let branched = log.undo()->0.commit(teams);
            &&& branched.wf()
            &&& branched.cursor == log.records.len()
            &&& branched.goto(log.cursor) is Some
            &&& branched.goto(log.cursor)->0.current() == log.current()
            &&& branched.undo() is Some
            &&& branched.undo()->0.cursor == log.undo()->0.cursor
            &&& branched.undo()->0.redo() == Some(branched)
        }),
{
    let back = log.undo()->0;
    let branched = back.commit(teams);
    lemma_commit_wf(back, teams);
    assert(branched.records[log.cursor] == log.records[log.cursor]);
    let parent = branched.undo()->0;
    assert(parent.is_child(branched.cursor));
    assert(parent.is_newest_child(branched.cursor));
    lemma_newest_child(parent, branched.cursor);
}

} // verus!
