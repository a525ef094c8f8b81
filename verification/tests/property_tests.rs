use rubik::cube::{superflip, swap_x, swap_y, add_x, add_y};
use rubik::cube::{Corner, CornerPermutation, Cube, Edge, EdgePermutation, Move};
use rubik::cube::Face::{B, D, F, L, R, U};

const ALL_MOVES: [Move; 12] = [
    Move::F,
    Move::R,
    Move::U,
    Move::B,
    Move::L,
    Move::D,
    Move::FPrime,
    Move::RPrime,
    Move::UPrime,
    Move::BPrime,
    Move::LPrime,
    Move::DPrime,
];

#[test]
fn test_every_move_has_period_four() {
    for m in ALL_MOVES {
        let mut cube = Cube::new();
        cube.apply_moves("R2U'FLB2");
        let before = cube;
        cube.apply_move(m);
        cube.apply_move(m);
        cube.apply_move(m);
        cube.apply_move(m);
        assert_eq!(cube, before);
    }
}

#[test]
fn test_every_single_move_unsolves() {
    for m in ALL_MOVES {
        let mut cube = Cube::new();
        cube.apply_move(m);
        assert!(!cube.is_solved());
    }
}

#[test]
fn test_every_move_then_inverse_is_identity() {
    let inverses = [
        Move::FPrime,
        Move::RPrime,
        Move::UPrime,
        Move::BPrime,
        Move::LPrime,
        Move::DPrime,
        Move::F,
        Move::R,
        Move::U,
        Move::B,
        Move::L,
        Move::D,
    ];
    for i in 0..12 {
        let mut cube = Cube::new();
        cube.apply_move(ALL_MOVES[i]);
        cube.apply_move(inverses[i]);
        assert!(cube.is_solved());
    }
}

#[test]
fn test_permutations_stay_bijective() {
    // replay a scramble and check that every cubie still occupies exactly
    // one cubicle at each step
    let corners = [
        Corner::UFL,
        Corner::URF,
        Corner::UBR,
        Corner::ULB,
        Corner::DBL,
        Corner::DLF,
        Corner::DFR,
        Corner::DRB,
    ];
    let mut sigma = CornerPermutation::new();
    for m in ALL_MOVES {
        sigma.permute(m);
        for i in 0..8 {
            for j in 0..i {
                assert_ne!(sigma.get(corners[i]), sigma.get(corners[j]));
            }
        }
    }
}

#[test]
fn test_corner_permutation_get_after_f() {
    let mut sigma = CornerPermutation::new();
    assert_eq!(sigma.get(Corner::DFR), Corner::DFR);
    sigma.permute(Move::F);
    // F cycles URF -> DFR -> DLF -> UFL
    assert_eq!(sigma.get(Corner::DFR), Corner::URF);
    assert_eq!(sigma.get(Corner::DLF), Corner::DFR);
    assert_eq!(sigma.get(Corner::UFL), Corner::DLF);
    assert_eq!(sigma.get(Corner::URF), Corner::UFL);
    assert_eq!(sigma.get(Corner::UBR), Corner::UBR);
}

#[test]
fn test_edge_permutation_get_after_r() {
    let mut tau = EdgePermutation::new();
    tau.permute(Move::R);
    // R cycles UR -> RB -> DR -> RF
    assert_eq!(tau.get(Edge::RB), Edge::UR);
    assert_eq!(tau.get(Edge::DR), Edge::RB);
    assert_eq!(tau.get(Edge::RF), Edge::DR);
    assert_eq!(tau.get(Edge::UR), Edge::RF);
    assert_eq!(tau.get(Edge::UB), Edge::UB);
}

#[test]
fn test_corner_cycles_solved() {
    let sigma = CornerPermutation::new();
    let cycles = sigma.cycles();
    assert_eq!(cycles, vec![
        vec![0],
        vec![1],
        vec![2],
        vec![3],
        vec![4],
        vec![5],
        vec![6],
        vec![7],
    ]);
}

#[test]
fn test_corner_cycles_after_f() {
    let mut sigma = CornerPermutation::new();
    sigma.permute(Move::F);
    let cycles = sigma.cycles();
    assert_eq!(cycles, vec![vec![0, 5, 6, 1], vec![2], vec![3], vec![4], vec![7]]);
}

#[test]
fn test_edge_cycles_after_u() {
    let mut tau = EdgePermutation::new();
    tau.permute(Move::U);
    let cycles = tau.cycles();
    assert_eq!(cycles, vec![
        vec![0, 3, 2, 1],
        vec![4],
        vec![5],
        vec![6],
        vec![7],
        vec![8],
        vec![9],
        vec![10],
        vec![11],
    ]);
}

#[test]
fn test_swap_x_relocates_by_indices() {
    let values: [u8; 8] = [0, 1, 2, 0, 1, 2, 0, 1];
    let indices: [u8; 8] = [7, 6, 5, 4, 3, 2, 1, 0];
    assert_eq!(swap_x(values, &indices), [1, 0, 2, 1, 0, 2, 1, 0]);
}

#[test]
fn test_add_x_adds_mod_three() {
    let values: [u8; 8] = [0, 1, 2, 0, 1, 2, 0, 1];
    let addends: [u8; 8] = [1, 1, 1, 2, 2, 2, 0, 0];
    assert_eq!(add_x(values, &addends), [1, 2, 0, 2, 0, 1, 0, 1]);
}

#[test]
fn test_swap_y_relocates_by_indices() {
    let values: [u8; 12] = [0, 1, 0, 1, 0, 1, 0, 1, 0, 1, 0, 1];
    let indices: [u8; 12] = [1, 0, 3, 2, 5, 4, 7, 6, 9, 8, 11, 10];
    assert_eq!(swap_y(values, &indices), [1, 0, 1, 0, 1, 0, 1, 0, 1, 0, 1, 0]);
}

#[test]
fn test_add_y_adds_mod_two() {
    let values: [u8; 12] = [0, 1, 0, 1, 0, 1, 0, 1, 0, 1, 0, 1];
    let addends: [u8; 12] = [1, 1, 0, 0, 1, 1, 0, 0, 1, 1, 0, 0];
    assert_eq!(add_y(values, &addends), [1, 0, 0, 1, 1, 0, 0, 1, 1, 0, 0, 1]);
}

#[test]
fn test_double_token_equals_two_moves() {
    let mut a = Cube::new();
    a.apply_moves("F2");
    let mut b = Cube::new();
    b.apply_move(Move::F);
    b.apply_move(Move::F);
    assert_eq!(a, b);
}

#[test]
fn test_prime_token_is_inverse() {
    let mut a = Cube::new();
    a.apply_moves("R'");
    a.apply_move(Move::R);
    assert!(a.is_solved());
}

#[test]
fn test_superflip_is_not_solved() {
    let c = Cube::new();
    let superc = superflip(&c);

    assert!(c.is_solved());
    assert!(!superc.is_solved());
}

#[test]
fn test_superflip_twice_is_solved() {
    // the superflip state is its own inverse
    let c = superflip(&superflip(&Cube::new()));
    assert!(c.is_solved());
}

#[test]
fn test_superflip_keeps_centers() {
    let superc = superflip(&Cube::new());
    for f in [F, R, U, B, L, D] {
        assert_eq!(superc.get_face(f)[4], f);
    }
}

#[test]
fn test_scramble_zero_moves_stays_solved() {
    let mut cube = Cube::new();
    cube.scramble(0);
    assert!(cube.is_solved());
}

#[test]
fn test_scramble_one_move_unsolves() {
    // whatever move is drawn, a single face turn never leaves the cube solved
    let mut cube = Cube::new();
    cube.scramble(1);
    assert!(!cube.is_solved());
}
