use smashquiz::{Error, GameManager, Rule, StockRule, TeamState, DAMAGE_UNIT};

fn roster(list: &[&str]) -> Vec<String> {
    list.iter().map(|n| n.to_string()).collect()
}

fn state(name: &str, damage: i64, up: usize, down: usize) -> TeamState {
    TeamState { name: name.to_string(), damage, up, down }
}

#[test]
fn smash_hits_teams_whose_roll_is_below_their_damage() {
    let mut game = GameManager::new(Rule::default(), roster(&["A", "B", "C"]));
    game.teams[1].damage = 500_000;
    game.teams[2].damage = 100_000;
    let report = game.smash("A", true, &vec![0, 400_000, 100_000]).unwrap();
    assert_eq!(report, vec![state("B", 0, 0, 1), state("A", 0, 1, 0)]);
    assert_eq!(
        game.teams,
        vec![state("A", 0, 1, 0), state("B", 0, 0, 1), state("C", 100_000, 0, 0)]
    );
}

#[test]
fn smash_of_every_other_team_raises_up_by_their_number() {
    let mut game = GameManager::new(Rule::default(), roster(&["A", "B", "C"]));
    game.teams[0].damage = 300_000;
    game.teams[1].damage = DAMAGE_UNIT;
    game.teams[2].damage = DAMAGE_UNIT;
    let report = game.smash("B", true, &vec![999_999, 0, 999_999]).unwrap();
    assert_eq!(report, vec![state("C", 0, 0, 1), state("B", DAMAGE_UNIT, 1, 0)]);
    let report = game.smash("C", true, &vec![299_999, 999_999, 0]).unwrap();
    assert_eq!(
        report,
        vec![state("A", 0, 0, 1), state("B", 0, 1, 1), state("C", 0, 2, 1)]
    );
}

#[test]
fn smash_that_hits_nobody_reports_the_attacker_unchanged() {
    let mut game = GameManager::new(Rule::default(), roster(&["A", "B"]));
    let report = game.smash("A", true, &vec![0, 0]).unwrap();
    assert_eq!(report, vec![state("A", 0, 0, 0)]);
    assert_eq!(game.teams, vec![state("A", 0, 0, 0), state("B", 0, 0, 0)]);
}

#[test]
fn the_attacker_is_never_its_own_victim() {
    let mut game = GameManager::new(Rule::default(), roster(&["A", "B"]));
    game.teams[0].damage = DAMAGE_UNIT;
    let report = game.smash("A", true, &vec![0, 0]).unwrap();
    assert_eq!(report, vec![state("A", DAMAGE_UNIT, 0, 0)]);
}

#[test]
fn eliminated_victim_is_counted_but_frozen() {
    let rule = Rule { stock: Some(StockRule { count: 1, can_steal: false }), ..Rule::default() };
    let mut game = GameManager::new(rule, roster(&["A", "B", "C"]));
    game.teams[1] = state("B", 900_000, 0, 1);
    game.teams[2] = state("C", 900_000, 0, 0);
    let report = game.smash("A", true, &vec![0, 0, 0]).unwrap();
    assert_eq!(
        report,
        vec![state("B", 900_000, 0, 1), state("C", 0, 0, 1), state("A", 0, 2, 0)]
    );
    assert_eq!(
        game.teams,
        vec![state("A", 0, 2, 0), state("B", 900_000, 0, 1), state("C", 0, 0, 1)]
    );
}

#[test]
fn incorrect_smash_hits_the_attacker_alone() {
    let mut game = GameManager::new(Rule::default(), roster(&["A", "B"]));
    game.teams[1].damage = DAMAGE_UNIT;
    let report = game.smash("A", false, &vec![450_000, 0]).unwrap();
    assert_eq!(report, vec![state("A", 400_000, 0, 0)]);
    assert_eq!(game.teams, vec![state("A", 400_000, 0, 0), state("B", DAMAGE_UNIT, 0, 0)]);
}

#[test]
fn smash_rejects_unknown_and_eliminated_attackers() {
    let rule = Rule { stock: Some(StockRule { count: 2, can_steal: true }), ..Rule::default() };
    let mut game = GameManager::new(rule, roster(&["A", "B"]));
    game.teams[0] = state("A", 0, 1, 3);
    game.teams[1].damage = DAMAGE_UNIT;
    match game.smash("A", true, &vec![0, 0]) {
        Err(Error::TeamNotActive(name)) => assert_eq!(name, "A"),
        other => panic!("unexpected {:?}", other),
    }
    match game.smash("", false, &vec![0, 0]) {
        Err(Error::TeamNotFound(name)) => assert_eq!(name, ""),
        other => panic!("unexpected {:?}", other),
    }
    assert_eq!(game.teams, vec![state("A", 0, 1, 3), state("B", DAMAGE_UNIT, 0, 0)]);
}

#[test]
fn stolen_life_keeps_a_team_in_the_game() {
    let rule = Rule { stock: Some(StockRule { count: 1, can_steal: true }), ..Rule::default() };
    let mut game = GameManager::new(rule, roster(&["A", "B"]));
    game.teams[0] = state("A", 0, 1, 1);
    game.teams[1].damage = 1;
    let report = game.smash("A", true, &vec![0, 0]).unwrap();
    assert_eq!(report, vec![state("B", 0, 0, 1), state("A", 0, 2, 1)]);
    assert!(!rule.team_is_active(&game.teams[1]));
}

#[test]
fn judgement_compares_the_roll_with_the_damage() {
    let rule = Rule::default();
    let a = state("A", 0, 0, 0);
    assert!(rule.judge_smash_success(&a, &state("B", 250_000, 0, 0), 249_999));
    assert!(!rule.judge_smash_success(&a, &state("B", 250_000, 0, 0), 250_000));
    assert!(rule.judge_smash_success(&a, &state("B", DAMAGE_UNIT, 0, 0), DAMAGE_UNIT - 1));
    assert!(rule.judge_smash_success(&a, &state("B", 3 * DAMAGE_UNIT, 0, 0), DAMAGE_UNIT - 1));
    assert!(!rule.judge_smash_success(&a, &state("B", 0, 0, 0), 0));
    assert!(!rule.judge_smash_success(&a, &state("B", -5, 0, 0), 0));
}

#[test]
fn do_smash_counts_every_team_it_is_given() {
    let rule = Rule { stock: Some(StockRule { count: 1, can_steal: false }), ..Rule::default() };
    let mut attacker = state("A", 123, 4, 0);
    let mut attacked = vec![state("B", 10, 0, 0), state("C", 20, 7, 1), state("D", 30, 0, 0)];
    rule.do_smash(&mut attacker, &mut attacked);
    assert_eq!(attacker, state("A", 123, 7, 0));
    assert_eq!(attacked, vec![state("B", 0, 0, 1), state("C", 20, 7, 1), state("D", 0, 0, 1)]);
}

#[test]
fn can_smash_tells_when_smash_may_be_called() {
    let mut game = GameManager::new(Rule::default(), roster(&["A", "B"]));
    game.teams[1].damage = DAMAGE_UNIT;
    assert!(game.can_smash("A", true, &vec![0, 0]));
    assert!(!game.can_smash("A", true, &vec![0, 0, 0]));
    game.teams[0].up = usize::MAX;
    assert!(!game.can_smash("A", true, &vec![0, 0]));
    assert!(game.can_smash("A", true, &vec![0, DAMAGE_UNIT]));
    game.teams[0].up = 0;
    game.teams[1].down = usize::MAX;
    assert!(!game.can_smash("A", true, &vec![0, 0]));
    assert!(game.can_smash("A", false, &vec![0, 0]));
}

#[test]
fn rolls_lie_below_the_unit_and_differ() {
    let drawn = smashquiz::rolls(2000);
    assert_eq!(drawn.len(), 2000);
    assert!(drawn.iter().all(|r| (0..DAMAGE_UNIT).contains(r)));
    assert!(drawn.iter().any(|r| *r != drawn[0]));
    assert!(smashquiz::rolls(0).is_empty());
}

#[test]
fn drawn_rolls_always_hit_full_damage_and_never_none() {
    let mut game = GameManager::new(Rule::default(), roster(&["A", "B", "C"]));
    game.teams[1].damage = DAMAGE_UNIT;
    let report = game.smash("A", true, &smashquiz::rolls(3)).unwrap();
    assert_eq!(report, vec![state("B", 0, 0, 1), state("A", 0, 1, 0)]);
    assert_eq!(game.teams[2], state("C", 0, 0, 0));
}
