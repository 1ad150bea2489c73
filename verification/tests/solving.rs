use gauss_seidel::decimal::parse_number;
use gauss_seidel::fixed::{Fixed, LIMIT, SCALE};
use gauss_seidel::model::SolveStatus;
use gauss_seidel::solver::{DEFAULT_CEILING, DEFAULT_TOLERANCE};
use gauss_seidel::store::StoreError;
use gauss_seidel::system::LS;

fn num(text: &str) -> Fixed {
    parse_number(text.as_bytes()).unwrap()
}

fn raw(v: i64) -> Fixed {
    Fixed::from_raw(v).unwrap()
}

fn as_f64(value: Fixed) -> f64 {
    value.raw() as f64 / 1e9
}

fn dense(rows: &[&[&str]], b: &[&str]) -> LS {
    let mut ls = LS::new();
    ls.set_dimension(rows.len()).unwrap();
    for (i, row) in rows.iter().enumerate() {
        for (j, text) in row.iter().enumerate() {
            ls.modify_A_element(i, j, num(text)).unwrap();
        }
    }
    for (i, text) in b.iter().enumerate() {
        ls.set_b(i, num(text)).unwrap();
    }
    ls
}

fn sparse(entries: &[(usize, usize, &str)], b: &[&str]) -> LS {
    let mut ls = LS::new();
    ls.set_dimension(b.len()).unwrap();
    for (i, j, text) in entries {
        ls.modify_A_element_sparse(*i, *j, num(text)).unwrap();
    }
    for (i, text) in b.iter().enumerate() {
        ls.set_b(i, num(text)).unwrap();
    }
    ls
}

fn xs(ls: &LS) -> Vec<i64> {
    (0..ls.n()).map(|i| ls.x(i).unwrap().raw()).collect()
}

/// The residual of each equation, in units of a billionth of a billionth,
/// computed from the dense coefficients without the library's solver.
fn residuals(ls: &LS) -> Vec<i128> {
    let n = ls.n();
    (0..n)
        .map(|i| {
            let left: i128 = (0..n)
                .map(|j| ls.a(i, j).unwrap().raw() as i128 * ls.x(j).unwrap().raw() as i128)
                .sum();
            left - ls.b(i).unwrap().raw() as i128 * SCALE as i128
        })
        .collect()
}

#[test]
fn the_defaults_are_one_ten_thousandth_and_a_thousand() {
    assert_eq!(DEFAULT_TOLERANCE, 100_000);
    assert_eq!(Fixed::from_raw(DEFAULT_TOLERANCE), Some(num("0.0001")));
    assert_eq!(DEFAULT_CEILING, 1000);
}

#[test]
fn two_by_two_that_is_not_dominant() {
    // 2x + 3y = 5, x - y = 3 has the solution x = 2.8, y = -0.2
    let mut ls = dense(&[&["2", "3"], &["1", "-1"]], &["5", "3"]);
    assert!(!ls.check_for_diagonal_dominant());

    ls.set_x(0, num("2.8")).unwrap();
    ls.set_x(1, num("-0.2")).unwrap();
    assert_eq!(residuals(&ls), vec![0, 0]);
    let report = ls.guass_sidel();
    assert_eq!(report.status, SolveStatus::Converged);
    assert_eq!(report.residuals, vec![0]);
    assert!((as_f64(ls.x(0).unwrap()) - 2.8).abs() < 1e-4);
    assert!((as_f64(ls.x(1).unwrap()) + 0.2).abs() < 1e-4);
    assert_eq!(xs(&ls), vec![2_800_000_000, -200_000_000]);

    // from the zero seed the sweeps move away from it, half as far again
    // each time, until an unknown leaves the range
    ls.set_x(0, Fixed::zero()).unwrap();
    ls.set_x(1, Fixed::zero()).unwrap();
    let report = ls.guass_sidel();
    assert_eq!(report.status, SolveStatus::Diverged);
    assert_eq!(report.iterations(), 55);
    assert_eq!(xs(&ls), vec![-968_387_650_731_991_493, -968_387_653_731_991_493]);
    for pair in report.residuals.windows(2) {
        assert!(pair[1] > pair[0]);
    }
}

#[test]
fn a_single_equation_takes_one_sweep() {
    let mut ls = dense(&[&["5"]], &["10"]);
    let report = ls.guass_sidel();
    assert_eq!(report.status, SolveStatus::Converged);
    assert_eq!(report.iterations(), 1);
    assert_eq!(report.residuals, vec![0]);
    assert_eq!(ls.x(0), Some(num("2")));
}

#[test]
fn a_zero_diagonal_in_row_zero_is_invalid() {
    let mut ls = dense(&[&["0", "1"], &["1", "1"]], &["1", "2"]);
    ls.set_x(0, num("7")).unwrap();
    ls.set_x(1, num("-7")).unwrap();
    let report = ls.guass_sidel();
    assert_eq!(report.status, SolveStatus::InvalidMatrix);
    assert_eq!(report.iterations(), 0);
    assert!(report.residuals.is_empty());
    assert_eq!(xs(&ls), vec![7_000_000_000, -7_000_000_000]);
}

#[test]
fn a_zero_diagonal_in_a_later_row_is_found_too() {
    let mut ls = dense(&[&["4", "1", "0"], &["1", "4", "0"], &["1", "1", "0"]], &["1", "2", "3"]);
    assert_eq!(ls.guass_sidel().status, SolveStatus::InvalidMatrix);
    assert_eq!(xs(&ls), vec![0, 0, 0]);
    // a zero beyond the dimension does not matter
    ls.set_dimension(2).unwrap();
    assert_eq!(ls.guass_sidel().status, SolveStatus::Converged);
}

#[test]
fn the_coordinate_store_without_a_diagonal_entry_is_invalid() {
    let mut ls = sparse(&[(0, 0, "4"), (0, 1, "1"), (1, 0, "2")], &["9", "12"]);
    let report = ls.guass_sidel_sparse();
    assert_eq!(report.status, SolveStatus::InvalidMatrix);
    assert!(report.residuals.is_empty());
    assert_eq!(xs(&ls), vec![0, 0]);
    let mut zero = sparse(&[(0, 0, "4"), (1, 1, "0")], &["9", "12"]);
    assert_eq!(zero.guass_sidel_sparse().status, SolveStatus::InvalidMatrix);
}

#[test]
fn the_coordinate_store_solves_as_the_dense_store() {
    let mut d = dense(&[&["4", "1"], &["2", "5"]], &["9", "12"]);
    let mut s = sparse(&[(0, 0, "4"), (0, 1, "1"), (1, 0, "2"), (1, 1, "5")], &["9", "12"]);
    let from_dense = d.guass_sidel();
    let from_sparse = s.guass_sidel_sparse();
    assert_eq!(from_dense.status, SolveStatus::Converged);
    assert_eq!(from_sparse.status, SolveStatus::Converged);
    for i in 0..2 {
        assert!((as_f64(d.x(i).unwrap()) - as_f64(s.x(i).unwrap())).abs() < 1e-3);
    }
    assert_eq!(xs(&d), xs(&s));
    assert_eq!(from_dense.residuals, from_sparse.residuals);
}

#[test]
fn the_order_of_the_entries_does_not_matter() {
    let mut one = sparse(&[(0, 0, "4"), (0, 1, "1"), (1, 0, "2"), (1, 1, "5")], &["9", "12"]);
    let mut other = sparse(&[(1, 0, "2"), (1, 1, "5"), (0, 1, "1"), (0, 0, "4")], &["9", "12"]);
    let a = one.guass_sidel_sparse();
    let b = other.guass_sidel_sparse();
    assert_eq!(a.status, b.status);
    assert_eq!(a.residuals, b.residuals);
    assert_eq!(xs(&one), xs(&other));
}

#[test]
fn a_dominant_system_converges_within_the_tolerance() {
    let mut ls = dense(&[&["4", "1"], &["2", "5"]], &["9", "12"]);
    assert!(ls.check_for_diagonal_dominant());
    let report = ls.guass_sidel();
    assert_eq!(report.status, SolveStatus::Converged);
    assert_eq!(report.iterations(), 6);
    assert_eq!(
        report.residuals,
        vec![
            1_500_000_000_000_000_000,
            150_000_000_000_000_000,
            15_000_000_000_000_000,
            1_500_000_000_000_000,
            150_000_000_000_000,
            15_000_000_000_000,
        ]
    );
    assert_eq!(xs(&ls), vec![1_833_337_500, 1_666_665_000]);
    // x = 11/6, y = 5/3
    assert!((as_f64(ls.x(0).unwrap()) - 11.0 / 6.0).abs() < 1e-4);
    assert!((as_f64(ls.x(1).unwrap()) - 5.0 / 3.0).abs() < 1e-4);
    let bound = DEFAULT_TOLERANCE as i128 * SCALE as i128;
    let rows = residuals(&ls);
    assert!(rows.iter().all(|r| r.abs() <= bound));
    assert_eq!(rows.iter().map(|r| r.abs()).sum::<i128>(), *report.residuals.last().unwrap());
}

#[test]
fn a_larger_dominant_system_converges_within_the_tolerance() {
    let mut ls = dense(
        &[
            &["10", "-1", "2", "0"],
            &["-1", "11", "-1", "3"],
            &["2", "-1", "10", "-1"],
            &["0", "3", "-1", "8"],
        ],
        &["6", "25", "-11", "15"],
    );
    let report = ls.guass_sidel();
    assert_eq!(report.status, SolveStatus::Converged);
    let expected = [1.0, 2.0, -1.0, 1.0];
    for i in 0..4 {
        assert!((as_f64(ls.x(i).unwrap()) - expected[i]).abs() < 1e-4);
    }
    let bound = DEFAULT_TOLERANCE as i128 * SCALE as i128;
    assert!(residuals(&ls).iter().all(|r| r.abs() <= bound));
    assert!(*report.residuals.last().unwrap() <= bound);
    for earlier in &report.residuals[..report.residuals.len() - 1] {
        assert!(*earlier > bound);
    }
}

#[test]
fn solving_again_from_the_solution_takes_one_sweep() {
    let mut ls = dense(&[&["4", "1"], &["2", "5"]], &["9", "12"]);
    assert_eq!(ls.guass_sidel().status, SolveStatus::Converged);
    let again = ls.guass_sidel();
    assert_eq!(again.status, SolveStatus::Converged);
    assert_eq!(again.iterations(), 1);
    assert_eq!(again.residuals, vec![1_500_000_000_000]);
    assert!(again.residuals[0] as f64 / 1e18 < 1e-4);
    assert_eq!(xs(&ls), vec![1_833_333_750, 1_666_666_500]);
}

#[test]
fn solving_again_from_an_exact_solution_changes_nothing() {
    let mut ls = dense(&[&["3", "0", "0"], &["0", "4", "1"], &["0", "0", "5"]], &["6", "9", "10"]);
    let first = ls.guass_sidel();
    assert_eq!(first.status, SolveStatus::Converged);
    assert_eq!(first.residuals, vec![2_000_000_000_000_000_000, 0]);
    assert_eq!(xs(&ls), vec![2_000_000_000, 1_750_000_000, 2_000_000_000]);
    let again = ls.guass_sidel();
    assert_eq!(again.status, SolveStatus::Converged);
    assert_eq!(again.residuals, vec![0]);
    assert_eq!(xs(&ls), vec![2_000_000_000, 1_750_000_000, 2_000_000_000]);
}

#[test]
fn a_system_without_equations_is_solved_as_it_stands() {
    let mut ls = LS::new();
    ls.set_x(0, num("3")).unwrap();
    let report = ls.guass_sidel();
    assert_eq!(report.status, SolveStatus::Converged);
    assert_eq!(report.iterations(), 0);
    assert_eq!(ls.x(0), Some(num("3")));
    let report = ls.guass_sidel_sparse();
    assert_eq!(report.status, SolveStatus::Converged);
    assert!(report.residuals.is_empty());
}

#[test]
fn a_sweep_uses_the_unknowns_it_has_just_set() {
    // after one sweep: x = 9/4, then y = (12 - 2 * 9/4) / 5 = 3/2
    let mut ls = dense(&[&["4", "1"], &["2", "5"]], &["9", "12"]);
    ls.configure(num("0.0001"), 0);
    let report = ls.guass_sidel();
    assert_eq!(report.status, SolveStatus::NotConverged);
    assert_eq!(report.iterations(), 1);
    assert_eq!(xs(&ls), vec![2_250_000_000, 1_500_000_000]);
    assert_eq!(report.residuals, vec![1_500_000_000_000_000_000]);
    let mut s = sparse(&[(1, 1, "5"), (1, 0, "2"), (0, 1, "1"), (0, 0, "4")], &["9", "12"]);
    s.configure(num("0.0001"), 0);
    assert_eq!(s.guass_sidel_sparse().status, SolveStatus::NotConverged);
    assert_eq!(xs(&s), vec![2_250_000_000, 1_500_000_000]);
}

#[test]
fn the_ceiling_is_the_number_of_sweeps_before_the_last() {
    let mut ls = dense(&[&["10", "9"], &["9", "10"]], &["19", "19"]);
    ls.configure(num("0.0001"), 5);
    let report = ls.guass_sidel();
    assert_eq!(report.status, SolveStatus::NotConverged);
    assert_eq!(report.iterations(), 6);
    assert_eq!(xs(&ls), vec![1_313_810_596, 717_570_464]);

    let mut full = dense(&[&["10", "9"], &["9", "10"]], &["19", "19"]);
    let report = full.guass_sidel();
    assert_eq!(report.status, SolveStatus::Converged);
    assert_eq!(report.iterations(), 48);
    assert_eq!(xs(&full), vec![1_000_044_982, 999_959_516]);
}

#[test]
fn a_tolerance_that_cannot_be_met_ends_at_the_ceiling() {
    let mut ls = dense(&[&["10", "9"], &["9", "10"]], &["19", "19"]);
    ls.configure(raw(-1), DEFAULT_CEILING);
    let report = ls.guass_sidel();
    assert_eq!(report.status, SolveStatus::NotConverged);
    assert_eq!(report.iterations(), 1001);
    assert_eq!(xs(&ls), vec![1_000_000_004, 999_999_996]);
}

#[test]
fn a_tolerance_of_zero_asks_for_an_exact_solution() {
    let mut ls = dense(&[&["5"]], &["10"]);
    ls.configure(Fixed::zero(), 3);
    let report = ls.guass_sidel();
    assert_eq!(report.status, SolveStatus::Converged);
    assert_eq!(report.residuals, vec![0]);
}

#[test]
fn quotients_go_to_the_nearest_billionth() {
    let cases = [
        ("3", "1", 333_333_333),
        ("3", "2", 666_666_667),
        ("-3", "2", -666_666_667),
        ("3", "-2", -666_666_667),
        ("-3", "-2", 666_666_667),
        ("7", "1", 142_857_143),
    ];
    for (a, b, want) in cases {
        let mut ls = dense(&[&[a]], &[b]);
        assert_eq!(ls.guass_sidel().status, SolveStatus::Converged);
        assert_eq!(xs(&ls), vec![want]);
    }
}

#[test]
fn a_quotient_halfway_goes_away_from_zero() {
    for (a, b, want) in [("2", 1, 1), ("-2", 1, -1), ("2", -1, -1), ("2", 3, 2), ("-2", -3, 2)] {
        let mut ls = dense(&[&[a]], &["0"]);
        ls.set_b(0, raw(b)).unwrap();
        assert_eq!(ls.guass_sidel().status, SolveStatus::Converged);
        assert_eq!(xs(&ls), vec![want]);
    }
}

#[test]
fn an_unknown_may_reach_the_limit_but_not_pass_it() {
    let mut ls = dense(&[&["0.000000001"]], &["1"]);
    let report = ls.guass_sidel();
    assert_eq!(report.status, SolveStatus::Converged);
    assert_eq!(xs(&ls), vec![LIMIT]);

    let mut over = dense(&[&["0.000000001"]], &["1.000000001"]);
    over.set_x(0, num("5")).unwrap();
    let report = over.guass_sidel();
    assert_eq!(report.status, SolveStatus::Diverged);
    assert_eq!(report.iterations(), 0);
    assert_eq!(xs(&over), vec![5_000_000_000]);
}

#[test]
fn a_sweep_that_diverges_keeps_the_rows_before() {
    // row 0 gives x = 2; row 1 then asks for y = (1 - 2) / 0.000000001
    let mut ls = dense(&[&["1", "0"], &["1", "0.000000001"]], &["2", "0"]);
    ls.set_x(1, num("9")).unwrap();
    let report = ls.guass_sidel();
    assert_eq!(report.status, SolveStatus::Diverged);
    assert!(report.residuals.is_empty());
    assert_eq!(xs(&ls), vec![2_000_000_000, 9_000_000_000]);
}

#[test]
fn the_largest_coefficients_do_not_overflow() {
    let big = "1000000000";
    let mut ls = dense(
        &[&[big, big, big, big], &[big, big, big, big], &[big, big, big, big], &[big, big, big, big]],
        &[big, "-1000000000", big, "-1000000000"],
    );
    for i in 0..4 {
        ls.set_x(i, if i % 2 == 0 { num(big) } else { num("-1000000000") }).unwrap();
    }
    ls.configure(num("1000000000"), 2);
    let report = ls.guass_sidel();
    assert_ne!(report.status, SolveStatus::InvalidMatrix);
    for r in &report.residuals {
        assert!(*r >= 0);
    }
    for v in xs(&ls) {
        assert!(-LIMIT <= v && v <= LIMIT);
    }
}

#[test]
fn unknowns_beyond_the_dimension_are_left_alone() {
    let mut ls = dense(&[&["4", "1"], &["2", "5"]], &["9", "12"]);
    ls.set_x(2, num("42")).unwrap();
    ls.set_x(3, num("-42")).unwrap();
    ls.guass_sidel();
    assert_eq!(ls.x(2), Some(num("42")));
    assert_eq!(ls.x(3), Some(num("-42")));
    ls.guass_sidel_sparse();
    assert_eq!(ls.x(2), Some(num("42")));
}

#[test]
fn a_solve_changes_the_unknowns_only() {
    let mut ls = dense(&[&["4", "1"], &["2", "5"]], &["9", "12"]);
    ls.modify_A_element_sparse(0, 0, num("1")).unwrap();
    ls.guass_sidel();
    assert_eq!(ls.n(), 2);
    assert_eq!(ls.a(0, 0), Some(num("4")));
    assert_eq!(ls.a(0, 1), Some(num("1")));
    assert_eq!(ls.a(1, 0), Some(num("2")));
    assert_eq!(ls.a(1, 1), Some(num("5")));
    assert_eq!(ls.b(0), Some(num("9")));
    assert_eq!(ls.b(1), Some(num("12")));
    assert_eq!(ls.non_zero_elements_count(), 1);
    assert_eq!(ls.sparse_entry(0), Some((0, 0, num("1"))));
}

#[test]
fn the_two_stores_of_one_system_are_separate() {
    let mut ls = dense(&[&["4", "1"], &["2", "5"]], &["9", "12"]);
    ls.modify_A_element_sparse(0, 0, num("3")).unwrap();
    ls.modify_A_element_sparse(1, 1, num("6")).unwrap();
    let report = ls.guass_sidel_sparse();
    assert_eq!(report.status, SolveStatus::Converged);
    assert_eq!(xs(&ls), vec![3_000_000_000, 2_000_000_000]);
    assert_eq!(ls.a(0, 0), Some(num("4")));
}

#[test]
fn setters_refuse_places_outside_the_capacity() {
    let mut ls = LS::new();
    assert_eq!(ls.set_dimension(5), Err(StoreError::OutOfBounds));
    assert_eq!(ls.n(), 0);
    assert_eq!(ls.set_dimension(4), Ok(()));
    assert_eq!(ls.set_b(4, num("1")), Err(StoreError::OutOfBounds));
    assert_eq!(ls.set_x(4, num("1")), Err(StoreError::OutOfBounds));
    assert_eq!(ls.modify_A_element(4, 0, num("1")), Err(StoreError::OutOfBounds));
    assert_eq!(ls.modify_A_element_sparse(0, 4, num("1")), Err(StoreError::OutOfBounds));
    assert_eq!(ls.modify_A_element_sparse(0, 0, num("1")), Ok(()));
    assert_eq!(ls.modify_A_element_sparse(0, 0, num("2")), Err(StoreError::Duplicate));
    for i in 1..4 {
        ls.modify_A_element_sparse(i, i, num("1")).unwrap();
    }
    assert_eq!(ls.modify_A_element_sparse(0, 1, num("2")), Err(StoreError::CapacityExceeded));
    assert_eq!(ls.b(4), None);
    assert_eq!(ls.x(4), None);
    assert_eq!(ls.a(0, 4), None);
    assert_eq!(ls.sparse_entry(4), None);
}

#[test]
fn solving_again_may_take_more_than_one_sweep() {
    // the residual error of this system does not shrink with every sweep
    let mut ls = dense(&[&["5", "4", "0"], &["1", "2", "-1"], &["3", "0", "-2"]], &["-3", "3", "5"]);
    ls.set_x(0, num("-1")).unwrap();
    ls.set_x(1, num("1")).unwrap();
    ls.set_x(2, num("3")).unwrap();
    let first = ls.guass_sidel();
    assert_eq!(first.status, SolveStatus::Converged);
    assert_eq!(xs(&ls), vec![-666_646_511, 83_308_069, -3_499_969_767]);
    let again = ls.guass_sidel();
    assert_eq!(again.status, SolveStatus::Converged);
    assert_eq!(again.residuals, vec![121_186_000_000_000, 84_940_000_000_000]);
}

#[test]
fn passing_the_dominance_test_does_not_make_a_system_converge() {
    let mut ls = dense(&[&["1", "-100"], &["-100", "1"]], &["1", "1"]);
    assert!(ls.check_for_diagonal_dominant());
    let report = ls.guass_sidel();
    assert_eq!(report.status, SolveStatus::Diverged);
}

#[test]
fn coefficients_too_large_for_the_tolerance_do_not_converge() {
    // x = 1 / 3_000_000_000 is nearest to zero billionths
    let mut ls = dense(&[&["1000000000"]], &["0.333333333"]);
    ls.configure(num("0.0001"), 7);
    let report = ls.guass_sidel();
    assert_eq!(report.status, SolveStatus::NotConverged);
    assert_eq!(report.iterations(), 8);
    assert_eq!(xs(&ls), vec![0]);
}
