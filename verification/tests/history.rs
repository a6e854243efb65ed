use smashquiz::{GameManager, Log, Rule, StockRule, TeamState};

fn game_of(list: &[&str]) -> GameManager {
    GameManager::new(Rule::default(), list.iter().map(|n| n.to_string()).collect())
}

fn with_damage(game: &GameManager, damage: i64) -> GameManager {
    let mut next = game.clone();
    next.teams[0].damage = damage;
    next
}

fn first_damage(game: &GameManager) -> i64 {
    game.teams[0].damage
}

#[test]
fn new_log_has_one_record_and_nothing_to_undo_or_redo() {
    let game = game_of(&["A", "B"]);
    let mut log = Log::new(&game);
    assert_eq!((log.len(), log.cursor()), (1, 0));
    assert!(log.undo().is_none());
    assert!(log.redo().is_none());
    assert_eq!(log.redo_list(), Vec::<usize>::new());
    assert_eq!((log.len(), log.cursor()), (1, 0));
    assert_eq!(log.get_manager().teams, game.teams);
}

#[test]
fn commits_then_as_many_undos_come_back_to_the_start() {
    let game = game_of(&["A", "B"]);
    let mut log = Log::new(&game);
    for step in 1..=4 {
        log.commit(&with_damage(&game, step * 10));
        assert_eq!(log.cursor(), step as usize);
    }
    assert_eq!(log.len(), 5);
    for step in (0..4).rev() {
        let back = log.undo().unwrap();
        assert_eq!(first_damage(&back), step * 10);
        assert_eq!(log.cursor(), step as usize);
    }
    assert_eq!(log.get_manager().teams, game.teams);
    assert!(log.undo().is_none());
    assert_eq!((log.len(), log.cursor()), (5, 0));
}

#[test]
fn undo_then_redo_restores_the_game() {
    let rule = Rule { stock: Some(StockRule { count: 3, can_steal: true }), ..Rule::default() };
    let game = GameManager::new(rule, vec!["A".to_string(), "B".to_string()]);
    let mut log = Log::new(&game);
    log.commit(&with_damage(&game, 10));
    log.commit(&with_damage(&game, 20));
    let before = log.get_manager();
    assert_eq!(first_damage(&log.undo().unwrap()), 10);
    let after = log.redo().unwrap();
    assert_eq!(after.teams, before.teams);
    assert_eq!(after.rule, rule);
    assert_eq!(log.cursor(), 2);
    assert!(log.redo().is_none());
}

#[test]
fn commit_after_undo_opens_a_branch() {
    let game = game_of(&["A", "B"]);
    let mut log = Log::new(&game);
    log.commit(&with_damage(&game, 10));
    log.commit(&with_damage(&game, 20));
    log.undo().unwrap();
    log.commit(&with_damage(&game, 30));
    assert_eq!((log.len(), log.cursor()), (4, 3));
    assert_eq!(first_damage(&log.goto(2).unwrap()), 20);
    assert_eq!(log.cursor(), 2);
    assert_eq!(first_damage(&log.undo().unwrap()), 10);
    assert_eq!(log.redo_list(), vec![2, 3]);
    assert_eq!(first_damage(&log.redo().unwrap()), 30);
    assert_eq!(log.cursor(), 3);
}

#[test]
fn goto_rejects_an_index_without_a_record() {
    let game = game_of(&["A"]);
    let mut log = Log::new(&game);
    log.commit(&with_damage(&game, 10));
    assert!(log.goto(2).is_none());
    assert_eq!(log.cursor(), 1);
    assert_eq!(first_damage(&log.goto(0).unwrap()), 0);
    assert_eq!(log.cursor(), 0);
    assert_eq!(first_damage(&log.goto(1).unwrap()), 10);
}

#[test]
fn redo_from_the_first_record_does_not_loop_on_it() {
    let game = game_of(&["A"]);
    let mut log = Log::new(&game);
    log.commit(&with_damage(&game, 10));
    log.undo().unwrap();
    assert_eq!(log.redo_list(), vec![1]);
    assert_eq!(first_damage(&log.redo().unwrap()), 10);
    assert!(log.redo().is_none());
}

#[test]
fn log_keeps_the_rule_it_began_with() {
    let game = game_of(&["A"]);
    let mut log = Log::new(&game);
    let mut other = with_damage(&game, 10);
    other.rule = Rule { stock: Some(StockRule { count: 1, can_steal: false }), ..Rule::default() };
    log.commit(&other);
    assert_eq!(log.get_manager().rule, Rule::default());
    assert_eq!(
        log.get_manager().teams,
        vec![TeamState { name: "A".to_string(), damage: 10, up: 0, down: 0 }]
    );
}

#[test]
fn restored_game_is_a_copy() {
    let game = game_of(&["A"]);
    let log = Log::new(&game);
    let mut copy = log.get_manager();
    copy.teams[0].damage = 99;
    assert_eq!(first_damage(&log.get_manager()), 0);
}
