//! Algorithms for solving Rubik's cubes.
use vstd::prelude::*;

use crate::cube::{cube_solved, spec_apply_seq, spec_apply_move, Cube, Move};

verus! {

/// The fixed enumeration order in which the search tries the twelve moves.
pub open spec fn move_ord(m: Move) -> int {
    match m {
        Move::F => 0,
        Move::R => 1,
        Move::U => 2,
        Move::B => 3,
        Move::L => 4,
        Move::D => 5,
        Move::FPrime => 6,
        Move::RPrime => 7,
        Move::UPrime => 8,
        Move::BPrime => 9,
        Move::LPrime => 10,
        Move::DPrime => 11,
    }
}

/// Trait for things that can solve Rubik's cubes.
pub trait Solver {
    /// Calculate a sequence of moves that puts the cube in the solved state.
    ///
    /// An empty result signals "nothing found" (or nothing to do); a
    /// non-empty result is a genuine solution: replaying it against the
    /// input cube leaves the cube solved. A cube that is already solved
    /// always yields the empty sequence.
    fn find_solution(&mut self, cube: &Cube) -> (r: Vec<Move>)
        requires
            cube.wf(),
        ensures
            r@.len() > 0 ==> cube_solved(spec_apply_seq(cube@, r@)),
            cube_solved(cube@) ==> r@ == Seq::<Move>::empty(),
    ;
}

/// Solver that doesn't do anything.
pub struct NullSolver;

impl NullSolver {
    pub fn new() -> NullSolver {
        NullSolver
    }
}

impl Solver for NullSolver {
    fn find_solution(&mut self, _cube: &Cube) -> (r: Vec<Move>) {
        let r: Vec<Move> = Vec::new();
        proof {
            assert(r@ =~= Seq::<Move>::empty());
        }
        r
    }
}

/// Solver that uses a simple iterative deepening algorithm.
///
/// This algorithm is very slow and probably won't halt in a reasonable time
/// for most cubes.
pub struct IDSolver {
    max_depth: u8,
}

impl IDSolver {
    /// The maximum number of moves this solver will consider.
    pub closed spec fn spec_max_depth(&self) -> u8 {
        self.max_depth
    }

    /// Create a new solver with the default maximum depth of 26
    /// (all cubes are solveable in at most 26 moves).
    pub fn new() -> (s: IDSolver)
        ensures
            s.spec_max_depth() == 26,
    {
        IDSolver { max_depth: 26u8 }
    }

    /// Create a solver with the given maximum depth (max number of moves).
    pub fn with_max_depth(d: u8) -> (s: IDSolver)
        ensures
            s.spec_max_depth() == d,
    {
        IDSolver { max_depth: d }
    }
}

impl Solver for IDSolver {
    /// Iterative deepening: search depth 1, 2, ... up to the maximum depth,
    /// returning the first solution found. Beyond the inherited soundness
    /// guarantee, this implementation is complete up to its depth bound and
    /// the solution it reports is of minimal length.
    fn find_solution(&mut self, cube: &Cube) -> (r: Vec<Move>)
        ensures
            r@.len() <= old(self).spec_max_depth(),
            !cube_solved(cube@) && (exists|s: Seq<Move>|
                1 <= s.len() <= old(self).spec_max_depth()
                    && cube_solved(spec_apply_seq(cube@, s))) ==> {
                &&& r@.len() >= 1
                &&& forall|s: Seq<Move>|
                    1 <= s.len() < r@.len() ==> !cube_solved(spec_apply_seq(cube@, s))
            },
    {
        let mut current_solution: Option<Vec<Move>> = None;
        let mut current_depth: u32 = 1;

        // A solved cube requires zero moves to solve
        if !cube.is_solved() {
            // Look until we find a solution or run out of moves
            while current_depth <= self.max_depth as u32 && current_solution.is_none()
                invariant
                    cube.wf(),
                    !cube_solved(cube@),
                    1 <= current_depth <= self.max_depth as u32 + 1,
                    match current_solution {
                        Option::Some(ms) => {
                            &&& 1 <= ms@.len() <= self.max_depth
                            &&& cube_solved(spec_apply_seq(cube@, ms@))
                            &&& forall|s: Seq<Move>|
                                1 <= s.len() < ms@.len()
                                    ==> !cube_solved(spec_apply_seq(cube@, s))
                        },
                        Option::None => forall|s: Seq<Move>|
                            1 <= s.len() < current_depth
                                ==> !cube_solved(spec_apply_seq(cube@, s)),
                    },
                decreases self.max_depth as u32 + 1 - current_depth,
            {
                current_solution = dbsearch(cube, current_depth as u8);
                current_depth += 1;
            }
        }
        // Return no moves if there's no solution within the max depth
        if let Some(s) = current_solution {
            s
        } else {
            let r: Vec<Move> = Vec::new();
            proof {
                assert(r@ =~= Seq::<Move>::empty());
            }
            r
        }
    }
}

/// Depth-bounded exhaustive search for a solution.
///
/// Returns `Some` exactly when some move sequence of length between 1 and
/// `maxdepth` solves the cube, and any sequence returned is such a solution.
fn dbsearch(start: &Cube, maxdepth: u8) -> (r: Option<Vec<Move>>)
    requires
        start.wf(),
    ensures
        match r {
            Option::Some(ms) => 1 <= ms@.len() <= maxdepth
                && cube_solved(spec_apply_seq(start@, ms@)),
            Option::None => forall|s: Seq<Move>|
                1 <= s.len() <= maxdepth ==> !cube_solved(spec_apply_seq(start@, s)),
        },
    decreases maxdepth,
{
    // Zero means we're at the max depth
    if maxdepth == 0 {
        return None;
    }

    let possible_moves: [Move; 12] = [
        Move::F,
        Move::R,
        Move::U,
        Move::B,
        Move::L,
        Move::D,
        Move::FPrime,
        Move::RPrime,
        Move::UPrime,
        Move::BPrime,
        Move::LPrime,
        Move::DPrime,
    ];
    proof {
        assert(forall|k: int| 0 <= k < 12 ==> move_ord(#[trigger] possible_moves@[k]) == k);
        assert(forall|m2: Move| 0 <= #[trigger] move_ord(m2) < 12);
        assert(forall|m1: Move, m2: Move| move_ord(m1) == move_ord(m2) ==> m1 == m2);
    }
    let mut moves: Vec<Move> = Vec::new();
    let mut i: usize = 0;
    // Try every possible move and see where we get
    while i < 12
        invariant_except_break
            start.wf(),
            1 <= maxdepth,
            0 <= i <= 12,
            moves@.len() == 0,
            forall|k: int| 0 <= k < 12 ==> move_ord(#[trigger] possible_moves@[k]) == k,
            forall|s: Seq<Move>|
                1 <= s.len() <= maxdepth && move_ord(s[0]) < i
                    ==> !cube_solved(spec_apply_seq(start@, s)),
        ensures
            moves@.len() > 0 ==> 1 <= moves@.len() <= maxdepth
                && cube_solved(spec_apply_seq(start@, moves@)),
            moves@.len() == 0 ==> forall|s: Seq<Move>|
                1 <= s.len() <= maxdepth && move_ord(s[0]) < 12
                    ==> !cube_solved(spec_apply_seq(start@, s)),
        decreases 12 - i,
    {
        let m = possible_moves[i];
        let mut s = start.clone();
        s.apply_move(m);
        moves.push(m);

        if s.is_solved() {
            proof {
                assert(moves@ =~= seq![m]);
                assert(seq![m][0] == m);
                assert(seq![m].skip(1) =~= Seq::<Move>::empty());
                assert(spec_apply_seq(start@, seq![m])
                    == spec_apply_seq(s@, seq![m].skip(1)));
                assert(spec_apply_seq(s@, Seq::<Move>::empty()) == s@);
            }
            break;
        }

        match dbsearch(&s, maxdepth - 1) {
            Option::Some(found) => {
                let mut tail = found.clone();
                moves.append(&mut tail);
                proof {
                    assert(moves@ =~= seq![m] + found@);
                    assert((seq![m] + found@)[0] == m);
                    assert((seq![m] + found@).skip(1) =~= found@);
                    assert(spec_apply_seq(start@, seq![m] + found@)
                        == spec_apply_seq(s@, found@));
                }
                break;
            },
            Option::None => {
                moves.pop();
                proof {
                    assert(moves@ =~= Seq::<Move>::empty());
                    assert forall|sq: Seq<Move>|
                        1 <= sq.len() <= maxdepth && move_ord(sq[0]) < i + 1
                            implies !cube_solved(spec_apply_seq(start@, sq)) by {
                        if move_ord(sq[0]) == i {
                            assert(sq[0] == m);
                            assert(spec_apply_seq(start@, sq)
                                == spec_apply_seq(spec_apply_move(start@, m), sq.skip(1)));
                            if sq.len() == 1 {
                                assert(sq.skip(1) =~= Seq::<Move>::empty());
                                assert(spec_apply_seq(s@, sq.skip(1)) == s@);
                            } else {
                                assert(1 <= sq.skip(1).len() <= maxdepth - 1);
                                assert(!cube_solved(spec_apply_seq(s@, sq.skip(1))));
                            }
                        }
                    }
                }
            },
        }
        i = i + 1;
    }
    if moves.len() > 0 {
        Some(moves)
    } else {
        None
    }
}

} // verus!
