use rand::rngs::StdRng;
use rand::SeedableRng;
use rusty_santa::group::take_draw;
use rusty_santa::{AssignError, Group};

#[test]
fn group_simple() {
    let mut group = Group::new();

    group.add("a".into());
    group.add("b".into());
    group.add("c".into());

    let assignments = group.assign().unwrap();
    assert_eq!(assignments.len(), 3);

    for (from, to) in assignments {
        match from.as_ref() {
            "a" => assert!(to == "b" || to == "c"),
            "b" => assert!(to == "a" || to == "c"),
            "c" => assert!(to == "a" || to == "b"),
            _ => panic!(),
        }
    }
}

#[test]
fn group_may_fail() {
    let mut group = Group::new();

    group.add("Sheldon".into());
    group.add("Amy".into());
    group.add("Leonard".into());
    group.add("Penny".into());
    group.add("Rajesh".into());

    group.exclude_pair("Sheldon".into(), "Amy".into());
    group.exclude_pair("Sheldon".into(), "Leonard".into());
    group.exclude_pair("Leonard".into(), "Penny".into());

    for _ in 0..1000 {
        let _ = group.assign();
    }
}

fn group_of(names: &[&str]) -> Group {
    let mut group = Group::new();
    for name in names {
        group.add(name.to_string());
    }
    group
}

/// Panics unless `pairs` gives every one of `names` exactly once and
/// receives every one exactly once, nobody giving to themselves.
fn check_derangement(names: &[&str], pairs: &[(String, String)]) {
    assert_eq!(pairs.len(), names.len());
    for name in names {
        assert_eq!(pairs.iter().filter(|p| p.0 == *name).count(), 1);
        assert_eq!(pairs.iter().filter(|p| p.1 == *name).count(), 1);
    }
    for (from, to) in pairs {
        assert_ne!(from, to);
    }
}

fn has_pair(pairs: &[(String, String)], from: &str, to: &str) -> bool {
    pairs.iter().any(|p| p.0 == from && p.1 == to)
}

#[test]
fn unconstrained_groups_get_derangements() {
    let all = ["a", "b", "c", "d", "e", "f", "g"];
    for n in 2..=all.len() {
        let names = &all[..n];
        let group = group_of(names);
        for seed in 0..50u64 {
            let mut rng = StdRng::seed_from_u64(seed);
            match group.assign_with(&mut rng) {
                Ok(pairs) => check_derangement(names, &pairs),
                Err(e) => assert_eq!(e, AssignError::GivingUp),
            }
        }
    }
}

#[test]
fn two_people_give_to_each_other() {
    let group = group_of(&["x", "y"]);
    let mut rng = StdRng::seed_from_u64(3);
    let pairs = group.assign_with(&mut rng).unwrap();
    assert!(has_pair(&pairs, "x", "y"));
    assert!(has_pair(&pairs, "y", "x"));
}

#[test]
fn three_people_scenario() {
    let names = ["a", "b", "c"];
    let group = group_of(&names);
    for seed in 0..100u64 {
        let mut rng = StdRng::seed_from_u64(seed);
        let pairs = group.assign_with(&mut rng).unwrap();
        check_derangement(&names, &pairs);
    }
}

#[test]
fn single_participant_fails_at_once() {
    let group = group_of(&["a"]);
    assert_eq!(group.assign(), Err(AssignError::TooFewParticipants));
    let mut rng = StdRng::seed_from_u64(1);
    assert_eq!(group.assign_with(&mut rng), Err(AssignError::TooFewParticipants));
}

#[test]
fn empty_group_fails_at_once() {
    let group = Group::new();
    assert_eq!(group.assign(), Err(AssignError::TooFewParticipants));
}

#[test]
fn too_few_wins_over_bad_constraint() {
    let mut group = group_of(&["a"]);
    group.exclude("a".into(), "zed".into());
    assert_eq!(group.assign(), Err(AssignError::TooFewParticipants));
}

#[test]
fn symmetric_exclusion_holds_both_ways() {
    let names = ["a", "b", "c", "d"];
    let mut group = group_of(&names);
    group.exclude_pair("a".into(), "b".into());
    let mut successes = 0;
    for seed in 0..300u64 {
        let mut rng = StdRng::seed_from_u64(seed);
        if let Ok(pairs) = group.assign_with(&mut rng) {
            check_derangement(&names, &pairs);
            assert!(!has_pair(&pairs, "a", "b"));
            assert!(!has_pair(&pairs, "b", "a"));
            successes += 1;
        }
    }
    assert!(successes > 0);
}

#[test]
fn directed_exclusion_holds_one_way() {
    let names = ["a", "b", "c"];
    let mut group = group_of(&names);
    group.exclude("a".into(), "b".into());
    let mut reverse_seen = false;
    for seed in 0..300u64 {
        let mut rng = StdRng::seed_from_u64(seed);
        if let Ok(pairs) = group.assign_with(&mut rng) {
            check_derangement(&names, &pairs);
            assert!(!has_pair(&pairs, "a", "b"));
            reverse_seen = reverse_seen || has_pair(&pairs, "b", "a");
        }
    }
    assert!(reverse_seen);
}

#[test]
fn unknown_name_is_a_bad_constraint_whatever_the_attempts() {
    let mut group = group_of(&["a", "b", "c"]);
    group.exclude_pair("a".into(), "b".into());
    group.exclude("c".into(), "dave".into());
    group.exclude_pair("erin".into(), "a".into());
    let expected = Err(AssignError::BadConstraint("dave".to_string()));
    assert_eq!(group.assign(), expected);
    group.set_max_attempts(0);
    assert_eq!(group.assign(), expected);
    group.set_max_attempts(u32::MAX);
    assert_eq!(group.assign(), expected);
}

#[test]
fn bad_constraint_reports_first_name_of_pair() {
    let mut group = group_of(&["a", "b"]);
    group.exclude_pair("x".into(), "y".into());
    assert_eq!(group.assign(), Err(AssignError::BadConstraint("x".to_string())));
}

#[test]
fn no_attempts_gives_up() {
    let mut group = group_of(&["a", "b", "c"]);
    group.set_max_attempts(0);
    assert_eq!(group.assign(), Err(AssignError::GivingUp));
}

#[test]
fn impossible_constraints_give_up() {
    let mut group = group_of(&["a", "b"]);
    group.exclude("a".into(), "b".into());
    let mut rng = StdRng::seed_from_u64(9);
    assert_eq!(group.assign_with(&mut rng), Err(AssignError::GivingUp));
}

#[test]
fn five_people_with_pair_exclusions() {
    let names = ["Sheldon", "Amy", "Leonard", "Penny", "Rajesh"];
    let mut group = group_of(&names);
    group.exclude_pair("Sheldon".into(), "Amy".into());
    group.exclude_pair("Sheldon".into(), "Leonard".into());
    group.exclude_pair("Leonard".into(), "Penny".into());
    for seed in 0..1000u64 {
        let mut rng = StdRng::seed_from_u64(seed);
        match group.assign_with(&mut rng) {
            Ok(pairs) => {
                check_derangement(&names, &pairs);
                assert!(!has_pair(&pairs, "Sheldon", "Amy"));
                assert!(!has_pair(&pairs, "Amy", "Sheldon"));
                assert!(!has_pair(&pairs, "Sheldon", "Leonard"));
                assert!(!has_pair(&pairs, "Leonard", "Sheldon"));
                assert!(!has_pair(&pairs, "Leonard", "Penny"));
                assert!(!has_pair(&pairs, "Penny", "Leonard"));
            }
            Err(e) => assert_eq!(e, AssignError::GivingUp),
        }
    }
}

#[test]
fn same_seed_same_assignment() {
    let group = group_of(&["a", "b", "c", "d", "e"]);
    let first = group.assign_with(&mut StdRng::seed_from_u64(42));
    let second = group.assign_with(&mut StdRng::seed_from_u64(42));
    assert_eq!(first, second);
}

#[test]
fn add_is_idempotent() {
    let mut group = group_of(&["a", "b"]);
    group.add("a".into());
    assert!(group.contains_name("a"));
    assert!(group.contains_name("b"));
    assert!(!group.contains_name("c"));
    let mut rng = StdRng::seed_from_u64(5);
    assert_eq!(group.assign_with(&mut rng).unwrap().len(), 2);
}

#[test]
fn take_draw_records_pair_and_clears_column() {
    let keys = vec!["a".to_string(), "b".to_string(), "c".to_string()];
    let mut matrix = rusty_santa::Matrix::new(keys);
    let mut out: Vec<(String, String)> = Vec::new();
    let giver = "a".to_string();
    assert!(!take_draw(&mut matrix, &mut out, &giver, None));
    assert!(out.is_empty());
    assert_eq!(matrix.get_row("b"), vec![true, false, true]);
    assert!(take_draw(&mut matrix, &mut out, &giver, Some("c".to_string())));
    assert_eq!(out, vec![("a".to_string(), "c".to_string())]);
    assert_eq!(matrix.get_row("a"), vec![false, true, false]);
    assert_eq!(matrix.get_row("b"), vec![true, false, false]);
    assert_eq!(matrix.get_row("c"), vec![true, true, false]);
}

#[test]
fn two_people_always_succeed_with_one_attempt() {
    let mut group = group_of(&["x", "y"]);
    group.set_max_attempts(1);
    for seed in 0..50u64 {
        let mut rng = StdRng::seed_from_u64(seed);
        let pairs = group.assign_with(&mut rng).unwrap();
        check_derangement(&["x", "y"], &pairs);
    }
}

#[test]
fn attempt_on_two_people_succeeds() {
    let group = group_of(&["x", "y"]);
    let order = vec!["y".to_string(), "x".to_string()];
    let mut rng = StdRng::seed_from_u64(11);
    let pairs = group.attempt(&order, &mut rng).unwrap();
    assert_eq!(pairs, vec![("y".to_string(), "x".to_string()), ("x".to_string(), "y".to_string())]);
}
