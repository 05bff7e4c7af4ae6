use tools::score::fits_score_range;
use tools::{
    compute_score, compute_score_details, is_valid_table, judge, simulate, Input, JudgeVerdict,
    Output,
};

fn scenario_input() -> Input {
    Input { n: 3, l: 4, t: vec![1, 2, 1] }
}

fn scenario_table() -> Vec<(usize, usize)> {
    vec![(1, 2), (0, 2), (0, 1)]
}

#[test]
fn concrete_scenario_trace() {
    let table = scenario_table();
    let start = simulate(&table, 0);
    assert_eq!(start.visit_counts, vec![0, 0, 0]);
    assert_eq!(start.final_position, 0);
    let after1 = simulate(&table, 1);
    assert_eq!(after1.visit_counts, vec![1, 0, 0]);
    assert_eq!(after1.final_position, 1);
    let after2 = simulate(&table, 2);
    assert_eq!(after2.visit_counts, vec![1, 1, 0]);
    assert_eq!(after2.final_position, 0);
    let after3 = simulate(&table, 3);
    assert_eq!(after3.visit_counts, vec![2, 1, 0]);
    assert_eq!(after3.final_position, 2);
    let after4 = simulate(&table, 4);
    assert_eq!(after4.visit_counts, vec![2, 1, 1]);
    assert_eq!(after4.final_position, 0);
}

#[test]
fn concrete_scenario_score() {
    let input = scenario_input();
    let (score, message, _) = compute_score_details(&input, &scenario_table());
    assert_eq!(score, 6);
    assert_eq!(message, "");
    let out = Output { out: scenario_table() };
    assert_eq!(compute_score(&input, &out), (6, String::new()));
}

#[test]
fn the_new_count_decides_the_move() {
    let table = vec![(1, 1), (1, 0)];
    let r = simulate(&table, 1);
    assert_eq!(r.final_position, 1);
    let r = simulate(&table, 2);
    assert_eq!((r.visit_counts.clone(), r.final_position), (vec![1, 1], 1));
    let r = simulate(&table, 3);
    assert_eq!((r.visit_counts.clone(), r.final_position), (vec![1, 2], 0));
    let r = simulate(&table, 4);
    assert_eq!((r.visit_counts.clone(), r.final_position), (vec![2, 2], 1));
}

#[test]
fn a_single_position_counts_every_step() {
    let r = simulate(&[(0, 0)], 1000);
    assert_eq!(r.visit_counts, vec![1000]);
    assert_eq!(r.final_position, 0);
}

#[test]
fn simulate_twice_gives_the_same_result() {
    let table = vec![(3, 1), (2, 2), (0, 4), (4, 0), (1, 3)];
    for steps in [0usize, 1, 2, 17, 1000, 99999] {
        let first = simulate(&table, steps);
        let second = simulate(&table, steps);
        assert_eq!(first, second);
    }
}

#[test]
fn visit_counts_sum_to_the_number_of_steps() {
    let table = vec![(3, 1), (2, 2), (0, 4), (4, 0), (1, 3)];
    for steps in [0usize, 1, 2, 3, 10, 777, 123456] {
        let r = simulate(&table, steps);
        assert_eq!(r.visit_counts.len(), table.len());
        assert_eq!(r.visit_counts.iter().sum::<usize>(), steps);
        assert!(r.final_position < table.len());
    }
}

#[test]
fn score_of_a_table_that_meets_every_target() {
    let table = scenario_table();
    let counts = simulate(&table, 4).visit_counts;
    let input = Input { n: 3, l: 4, t: counts };
    let (score, _, _) = compute_score_details(&input, &table);
    assert_eq!(score, 8);
}

#[test]
fn score_lies_within_its_bounds_when_targets_sum_to_l() {
    let table = vec![(1, 1), (2, 2), (0, 0)];
    let targets = vec![vec![30, 0, 0], vec![0, 30, 0], vec![10, 10, 10], vec![1, 1, 28]];
    for t in targets {
        let input = Input { n: 3, l: 30, t };
        let (score, _, _) = compute_score_details(&input, &table);
        assert!(-60 <= score && score <= 60);
        assert!(score >= 0);
    }
    let input = Input { n: 3, l: 30, t: vec![10, 10, 10] };
    assert_eq!(compute_score_details(&input, &table).0, 60);
    let input = Input { n: 3, l: 30, t: vec![30, 0, 0] };
    assert_eq!(compute_score_details(&input, &table).0, 60 - 40);
}

#[test]
fn score_can_be_negative_when_targets_exceed_the_steps() {
    let input = Input { n: 2, l: 3, t: vec![100, 50] };
    let (score, _, _) = compute_score_details(&input, &[(1, 1), (0, 0)]);
    assert_eq!(score, 2 * 3 - ((100 - 2) + (50 - 1)));
}

#[test]
fn score_of_no_steps() {
    let input = Input { n: 2, l: 0, t: vec![0, 0] };
    assert_eq!(compute_score_details(&input, &[(1, 1), (0, 0)]).0, 0);
    let input = Input { n: 2, l: 0, t: vec![2, 5] };
    assert_eq!(compute_score_details(&input, &[(1, 1), (0, 0)]).0, -7);
}

#[test]
fn score_range_check() {
    assert!(fits_score_range(&scenario_input()));
    assert!(fits_score_range(&Input { n: 1, l: (i64::MAX / 2) as usize, t: vec![0] }));
    assert!(!fits_score_range(&Input { n: 1, l: (i64::MAX / 2) as usize + 1, t: vec![0] }));
    assert!(fits_score_range(&Input { n: 2, l: 1, t: vec![i64::MAX as usize - 1, 1] }));
    assert!(!fits_score_range(&Input { n: 2, l: 1, t: vec![i64::MAX as usize, 1] }));
    assert!(!fits_score_range(&Input { n: 2, l: 1, t: vec![usize::MAX, usize::MAX] }));
}

#[test]
fn judge_scores_a_valid_output() {
    let v = judge(&scenario_input(), "1 2\n0 2\n0 1\n");
    assert_eq!(v, JudgeVerdict { score: 6, error_message: None });
}

#[test]
fn judge_forces_the_score_of_an_invalid_output_to_zero() {
    let input = scenario_input();
    let cases = vec![
        ("1 2\n0 3\n0 1\n", "Out of range: 3"),
        ("1 2\n0 two\n0 1\n", "Parse error: two"),
        ("1 2\n0 2\n", "Unexpected EOF"),
        ("1 2\n0 2\n0\n", "Unexpected EOF"),
        ("1 2\n0 2\n0 1\n1\n", "Too many output: 1"),
    ];
    for (text, message) in cases {
        let v = judge(&input, text);
        assert_eq!(v.score, 0, "output {:?}", text);
        assert_eq!(v.error_message, Some(message.to_owned()), "output {:?}", text);
    }
}

#[test]
fn valid_tables_name_their_own_positions_only() {
    assert!(is_valid_table(&scenario_table()));
    assert!(is_valid_table(&[(0, 0)]));
    assert!(!is_valid_table(&[]));
    assert!(!is_valid_table(&[(0, 1)]));
    assert!(!is_valid_table(&[(1, 2), (0, 3), (0, 1)]));
    assert!(!is_valid_table(&[(3, 2), (0, 2), (0, 1)]));
}
