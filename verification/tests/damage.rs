use smashquiz::{Damage, Error, GameManager, Rule, StockRule, TeamState};

fn names(list: &[&str]) -> Vec<String> {
    list.iter().map(|n| n.to_string()).collect()
}

fn team(name: &str, damage: i64, up: usize, down: usize) -> TeamState {
    TeamState { name: name.to_string(), damage, up, down }
}

#[test]
fn incorrect_damage_hits_the_attacker_alone() {
    let mut game = GameManager::new(Rule::default(), names(&["A", "B"]));
    let report = game.damage("A", false, &vec![150_000, 70_000]).unwrap();
    assert_eq!(report, vec![team("A", 150_000, 0, 0)]);
    assert_eq!(game.teams, vec![team("A", 150_000, 0, 0), team("B", 0, 0, 0)]);
}

#[test]
fn correct_damage_hits_the_others_alone() {
    let mut game = GameManager::new(Rule::default(), names(&["A", "B"]));
    let report = game.damage("A", true, &vec![150_000, 70_000]).unwrap();
    assert_eq!(report, vec![team("B", 70_000, 0, 0)]);
    assert_eq!(game.teams, vec![team("A", 0, 0, 0), team("B", 70_000, 0, 0)]);
}

#[test]
fn eliminated_attacker_is_rejected() {
    let rule = Rule { stock: Some(StockRule { count: 1, can_steal: false }), ..Rule::default() };
    let mut game = GameManager::new(rule, names(&["A", "B"]));
    game.teams[0].down = 1;
    assert!(!rule.team_is_active(&game.teams[0]));
    for correct in [false, true] {
        match game.damage("A", correct, &vec![10, 10]) {
            Err(Error::TeamNotActive(name)) => assert_eq!(name, "A"),
            other => panic!("unexpected {:?}", other),
        }
        assert_eq!(game.teams, vec![team("A", 0, 0, 1), team("B", 0, 0, 0)]);
    }
}

#[test]
fn unknown_attacker_is_rejected() {
    let mut game = GameManager::new(Rule::default(), names(&["A", "B"]));
    match game.damage("C", true, &vec![10, 10]) {
        Err(Error::TeamNotFound(name)) => assert_eq!(name, "C"),
        other => panic!("unexpected {:?}", other),
    }
    assert_eq!(game.teams, vec![team("A", 0, 0, 0), team("B", 0, 0, 0)]);
}

#[test]
fn samples_are_held_to_the_bounds() {
    let model = Damage { mean: 100_000, std_dev: 50_000, max: Some(200_000), min: Some(0) };
    assert_eq!(model.clamp(250_000), 200_000);
    assert_eq!(model.clamp(-5), 0);
    assert_eq!(model.clamp(120_000), 120_000);
    assert_eq!(model.add(300_000, 250_000), 500_000);
    assert_eq!(model.add(300_000, -5), 300_000);
    let open = Damage { mean: 0, std_dev: 1, max: None, min: None };
    assert_eq!(open.add(10, -25), -15);
}

#[test]
fn standard_rule_has_the_documented_numbers() {
    let rule = Rule::default();
    assert_eq!(
        rule.damage_if_correct,
        Damage { mean: 100_000, std_dev: 50_000, max: Some(200_000), min: Some(0) }
    );
    assert_eq!(
        rule.damage_if_incorrect,
        Damage { mean: 200_000, std_dev: 100_000, max: Some(400_000), min: Some(0) }
    );
    assert_eq!(rule.stock, None);
}

#[test]
fn upper_bound_is_looked_at_first() {
    let model = Damage { mean: 0, std_dev: 1, max: Some(10), min: Some(20) };
    assert_eq!(model.clamp(15), 10);
    assert_eq!(model.clamp(5), 20);
    assert_eq!(model.clamp(10), 20);
}

#[test]
fn can_add_tells_when_the_sum_fits() {
    let open = Damage { mean: 0, std_dev: 1, max: None, min: None };
    assert!(open.can_add(i64::MAX - 1, 1));
    assert!(!open.can_add(i64::MAX, 1));
    assert!(!open.can_add(i64::MIN, -1));
    let capped = Damage { mean: 0, std_dev: 1, max: Some(0), min: None };
    assert!(capped.can_add(i64::MAX, 1));
}

#[test]
fn new_state_starts_at_zero() {
    assert_eq!(Rule::default().new_state("Red"), team("Red", 0, 0, 0));
}

#[test]
fn new_game_keeps_the_order_and_passes_over_repeats() {
    let game = GameManager::new(Rule::default(), names(&["B", "A", "B", "C", "A"]));
    assert_eq!(game.teams, vec![team("B", 0, 0, 0), team("A", 0, 0, 0), team("C", 0, 0, 0)]);
    assert_eq!(game.find("C"), Some(2));
    assert_eq!(game.find("D"), None);
}

#[test]
fn activity_without_lives_is_always_given() {
    let rule = Rule::default();
    assert!(rule.team_is_active(&team("A", 0, 0, usize::MAX)));
}

#[test]
fn activity_counts_lives_against_downs() {
    let plain = Rule { stock: Some(StockRule { count: 2, can_steal: false }), ..Rule::default() };
    assert!(plain.team_is_active(&team("A", 0, 5, 1)));
    assert!(!plain.team_is_active(&team("A", 0, 5, 2)));
    let steal = Rule { stock: Some(StockRule { count: 2, can_steal: true }), ..Rule::default() };
    assert!(steal.team_is_active(&team("A", 0, 1, 2)));
    assert!(!steal.team_is_active(&team("A", 0, 1, 3)));
    assert!(steal.team_is_active(&team("A", 0, usize::MAX, usize::MAX - 1)));
    assert!(!steal.team_is_active(&team("A", 0, 0, usize::MAX)));
}

#[test]
fn correct_damage_passes_over_eliminated_teams() {
    let rule = Rule { stock: Some(StockRule { count: 1, can_steal: false }), ..Rule::default() };
    let mut game = GameManager::new(rule, names(&["A", "B", "C"]));
    game.teams[1].down = 1;
    let report = game.damage("C", true, &vec![50_000, 60_000, 70_000]).unwrap();
    assert_eq!(report, vec![team("A", 50_000, 0, 0), team("B", 0, 0, 1)]);
    assert_eq!(
        game.teams,
        vec![team("A", 50_000, 0, 0), team("B", 0, 0, 1), team("C", 0, 0, 0)]
    );
}

#[test]
fn damage_adds_up_and_is_bounded_per_hit() {
    let mut game = GameManager::new(Rule::default(), names(&["A", "B"]));
    game.damage("A", true, &vec![0, 150_000]).unwrap();
    game.damage("A", true, &vec![0, 900_000]).unwrap();
    game.damage("A", true, &vec![0, -900_000]).unwrap();
    assert_eq!(game.teams[1], team("B", 350_000, 0, 0));
    game.damage("B", false, &vec![0, 1_000_000]).unwrap();
    assert_eq!(game.teams[1], team("B", 750_000, 0, 0));
    assert_eq!(game.teams[0], team("A", 0, 0, 0));
}

#[test]
fn can_damage_tells_when_damage_may_be_called() {
    let open = Damage { mean: 0, std_dev: 1, max: None, min: None };
    let rule = Rule { damage_if_correct: open, damage_if_incorrect: open, stock: None };
    let mut game = GameManager::new(rule, names(&["A", "B"]));
    assert!(game.can_damage("A", true, &vec![1, 1]));
    assert!(!game.can_damage("A", true, &vec![1]));
    assert!(game.can_damage("Z", true, &vec![1, 1]));
    game.teams[1].damage = i64::MAX;
    assert!(!game.can_damage("A", true, &vec![1, 1]));
    assert!(game.can_damage("A", false, &vec![1, 1]));
    assert!(!game.can_damage("B", false, &vec![1, 1]));
    assert!(game.can_damage("B", true, &vec![1, 1]));
}

#[test]
fn direct_rule_calls_change_what_they_say() {
    let rule = Rule { stock: Some(StockRule { count: 1, can_steal: false }), ..Rule::default() };
    let mut attacker = team("A", 10, 0, 5);
    rule.damage_if_incorrect(&mut attacker, 500_000);
    assert_eq!(attacker, team("A", 400_010, 0, 5));
    let mut others = vec![team("B", 5, 0, 0), team("C", 7, 0, 1)];
    rule.damage_if_correct(&mut others, &vec![250_000, 100_000]);
    assert_eq!(others, vec![team("B", 200_005, 0, 0), team("C", 7, 0, 1)]);
}
