use self_reposcope::aggregate::{add_bytes, aggregate, rank, tally_all, try_aggregate};

fn pair(language: &str, bytes: u64) -> (String, u64) {
    (language.to_string(), bytes)
}

#[test]
fn totals_are_summed_and_ranked() {
    let maps = vec![vec![pair("Rust", 100)], vec![pair("Rust", 50), pair("Go", 200)]];
    let totals = tally_all(&maps);
    assert_eq!(totals, Some(vec![pair("Rust", 150), pair("Go", 200)]));
    let ranking = aggregate(&maps);
    assert_eq!(ranking, vec![pair("Go", 200), pair("Rust", 150)]);
}

#[test]
fn no_maps_give_an_empty_ranking() {
    let maps: Vec<Vec<(String, u64)>> = Vec::new();
    assert_eq!(aggregate(&maps), Vec::<(String, u64)>::new());
    assert_eq!(try_aggregate(&maps), Some(Vec::new()));
}

#[test]
fn maps_without_pairs_give_an_empty_ranking() {
    let maps: Vec<Vec<(String, u64)>> = vec![Vec::new(), Vec::new()];
    assert_eq!(aggregate(&maps), Vec::<(String, u64)>::new());
}

#[test]
fn equal_totals_keep_the_order_of_first_encounter() {
    let maps = vec![vec![pair("A", 300), pair("B", 300), pair("C", 100)]];
    assert_eq!(aggregate(&maps), vec![pair("A", 300), pair("B", 300), pair("C", 100)]);
}

#[test]
fn equal_totals_across_maps_keep_the_order_of_first_encounter() {
    let maps = vec![
        vec![pair("Zig", 10), pair("Ada", 40)],
        vec![pair("C", 50), pair("Zig", 30)],
        vec![pair("Ada", 10), pair("Nim", 40)],
    ];
    // Zig 40 (seen first), Ada 50, C 50, Nim 40.
    assert_eq!(
        aggregate(&maps),
        vec![pair("Ada", 50), pair("C", 50), pair("Zig", 40), pair("Nim", 40)]
    );
}

#[test]
fn every_total_is_the_sum_of_the_language_over_all_maps() {
    let maps = vec![
        vec![pair("Rust", 7), pair("Go", 1), pair("Rust", 5)],
        vec![pair("Go", 2)],
        vec![pair("Rust", 11), pair("C", 3), pair("Go", 4)],
    ];
    let ranking = aggregate(&maps);
    assert_eq!(ranking, vec![pair("Rust", 23), pair("Go", 7), pair("C", 3)]);
    for (language, total) in &ranking {
        let mut sum: u64 = 0;
        for map in &maps {
            for (name, bytes) in map {
                if name == language {
                    sum += bytes;
                }
            }
        }
        assert_eq!(*total, sum);
    }
}

#[test]
fn the_ranking_never_rises() {
    let maps = vec![vec![pair("a", 3), pair("b", 9), pair("c", 1), pair("d", 9), pair("e", 4)]];
    let ranking = aggregate(&maps);
    assert_eq!(
        ranking,
        vec![pair("b", 9), pair("d", 9), pair("e", 4), pair("a", 3), pair("c", 1)]
    );
    for i in 1..ranking.len() {
        assert!(ranking[i - 1].1 >= ranking[i].1);
    }
}

#[test]
fn a_language_with_zero_bytes_still_has_an_entry() {
    let maps = vec![vec![pair("Rust", 10), pair("Make", 0)]];
    assert_eq!(aggregate(&maps), vec![pair("Rust", 10), pair("Make", 0)]);
}

#[test]
fn language_names_are_case_sensitive() {
    let maps = vec![vec![pair("go", 1)], vec![pair("Go", 2)]];
    assert_eq!(aggregate(&maps), vec![pair("Go", 2), pair("go", 1)]);
}

#[test]
fn aggregating_twice_gives_the_same_ranking() {
    let maps = vec![
        vec![pair("Rust", 100), pair("C", 100)],
        vec![pair("Go", 100), pair("C", 1), pair("Rust", 1)],
    ];
    let first = aggregate(&maps);
    let second = aggregate(&maps);
    assert_eq!(first, second);
    assert_eq!(first, vec![pair("Rust", 101), pair("C", 101), pair("Go", 100)]);
}

#[test]
fn a_total_that_does_not_fit_gives_no_ranking() {
    let maps = vec![vec![pair("Rust", u64::MAX)], vec![pair("Go", 5), pair("Rust", 1)]];
    assert_eq!(tally_all(&maps), None);
    assert_eq!(try_aggregate(&maps), None);
}

#[test]
fn a_total_of_exactly_the_greatest_count_fits() {
    let maps = vec![vec![pair("Rust", u64::MAX - 1)], vec![pair("Go", u64::MAX), pair("Rust", 1)]];
    assert_eq!(
        try_aggregate(&maps),
        Some(vec![pair("Rust", u64::MAX), pair("Go", u64::MAX)])
    );
}

#[test]
fn add_bytes_adds_to_a_known_language() {
    let mut tallies = vec![pair("Rust", 10), pair("Go", 20)];
    assert!(add_bytes(&mut tallies, &"Go".to_string(), 5));
    assert_eq!(tallies, vec![pair("Rust", 10), pair("Go", 25)]);
}

#[test]
fn add_bytes_puts_a_new_language_last() {
    let mut tallies = vec![pair("Rust", 10)];
    assert!(add_bytes(&mut tallies, &"Go".to_string(), 0));
    assert_eq!(tallies, vec![pair("Rust", 10), pair("Go", 0)]);
}

#[test]
fn add_bytes_refuses_a_sum_that_does_not_fit() {
    let mut tallies = vec![pair("Rust", u64::MAX - 4)];
    assert!(!add_bytes(&mut tallies, &"Rust".to_string(), 5));
    assert_eq!(tallies, vec![pair("Rust", u64::MAX - 4)]);
    assert!(add_bytes(&mut tallies, &"Rust".to_string(), 4));
    assert_eq!(tallies, vec![pair("Rust", u64::MAX)]);
}

#[test]
fn rank_is_stable_and_keeps_every_entry() {
    let entries = vec![pair("x", 1), pair("y", 2), pair("x", 2), pair("z", 1), pair("w", 3)];
    assert_eq!(
        rank(&entries),
        vec![pair("w", 3), pair("y", 2), pair("x", 2), pair("x", 1), pair("z", 1)]
    );
}

#[test]
fn rank_of_nothing_is_nothing() {
    assert_eq!(rank(&Vec::new()), Vec::<(String, u64)>::new());
}
