use rubik::cube::{Cube, Move};
use rubik::solver::{IDSolver, NullSolver, Solver};

#[test]
fn test_null_solver_returns_nothing() {
    let mut c = Cube::new();
    let mut ns = NullSolver::new();

    assert_eq!(c.solve(&mut ns), vec![]);
    assert!(c.is_solved());
}

#[test]
fn test_null_solver_leaves_scrambled_cube_alone() {
    let mut c = Cube::new();
    c.apply_moves("FRU");
    let mut ns = NullSolver::new();

    assert_eq!(c.solve(&mut ns), vec![]);
    assert!(!c.is_solved());
}

#[test]
fn test_solve_solved_cube_is_empty() {
    let mut c = Cube::new();
    let mut ids = IDSolver::new();

    let moves = c.solve(&mut ids);
    assert_eq!(moves, vec![]);
    assert!(c.is_solved());
}

#[test]
fn test_solve_single_move_scramble() {
    let mut c = Cube::new();
    c.apply_move(Move::F);
    let mut ids = IDSolver::new();

    let moves = c.solve(&mut ids);
    assert_eq!(moves, vec![Move::FPrime]);
    assert!(c.is_solved());
}

#[test]
fn test_solve_single_prime_move_scramble() {
    let mut c = Cube::new();
    c.apply_move(Move::UPrime);
    let mut ids = IDSolver::new();

    let moves = c.solve(&mut ids);
    assert_eq!(moves.len(), 1);
    assert!(c.is_solved());
}

#[test]
fn test_solve_two_move_scramble_replays_to_solved() {
    let mut c = Cube::new();
    c.apply_moves("RU");
    let original = c;
    let mut ids = IDSolver::with_max_depth(3);

    let moves = c.solve(&mut ids);
    assert_eq!(moves.len(), 2);
    assert!(c.is_solved());

    // the reported solution must really solve the original input
    let mut replay = original;
    for m in moves {
        replay.apply_move(m);
    }
    assert!(replay.is_solved());
}

#[test]
fn test_solve_respects_depth_bound() {
    let mut c = Cube::new();
    c.apply_moves("FRU");
    let mut ids = IDSolver::with_max_depth(1);

    let moves = c.solve(&mut ids);
    assert_eq!(moves, vec![]);
    assert!(!c.is_solved());
}
