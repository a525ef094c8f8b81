//! Objects and functions for maintaining/manipulating Rubik's cube state.
use vstd::prelude::*;

verus! {

/// A corner cubicle/cubie of a Rubik's cube (there are 8).
///
/// The same identifier space names both the fixed corner positions
/// ("cubicles") and the physical corner pieces ("cubies"): a piece is named
/// by the position it occupies when the puzzle is solved.
#[derive(Copy, Clone, Debug, Eq, Hash, PartialEq, Structural)]
pub enum Corner {
    UFL,
    URF,
    UBR,
    ULB,
    DBL,
    DLF,
    DFR,
    DRB,
}

/// An edge cubicle/cubie of a Rubik's cube (there are 12).
#[derive(Copy, Clone, Debug, Eq, Hash, PartialEq, Structural)]
pub enum Edge {
    UB,
    UR,
    UF,
    UL,
    LB,
    RB,
    RF,
    LF,
    DB,
    DR,
    DF,
    DL,
}

/// There are six possible Rubik's cube moves: Front, Right, Up, Back, Left,
/// and Down; each comes in a clockwise and a counter-clockwise ("prime")
/// sense, for twelve move operators in all.
#[derive(Copy, Clone, Debug, Eq, Hash, PartialEq, Structural)]
pub enum Move {
    F,
    R,
    U,
    B,
    L,
    D,
    FPrime,
    RPrime,
    UPrime,
    BPrime,
    LPrime,
    DPrime,
}

/// A face of a cubie (corresponds to a single color sticker on a real cube).
#[derive(Copy, Clone, Debug, Eq, Hash, PartialEq, Structural)]
pub enum Face {
    F,
    R,
    U,
    B,
    L,
    D,
}

/// The stable enumeration index of a corner position.
pub open spec fn spec_corner_index(c: Corner) -> int {
    match c {
        Corner::UFL => 0,
        Corner::URF => 1,
        Corner::UBR => 2,
        Corner::ULB => 3,
        Corner::DBL => 4,
        Corner::DLF => 5,
        Corner::DFR => 6,
        Corner::DRB => 7,
    }
}

/// The stable enumeration index of an edge position.
pub open spec fn spec_edge_index(e: Edge) -> int {
    match e {
        Edge::UB => 0,
        Edge::UR => 1,
        Edge::UF => 2,
        Edge::UL => 3,
        Edge::LB => 4,
        Edge::RB => 5,
        Edge::RF => 6,
        Edge::LF => 7,
        Edge::DB => 8,
        Edge::DR => 9,
        Edge::DF => 10,
        Edge::DL => 11,
    }
}

/// Index a corner position into the fixed 8-slot enumeration.
pub fn corner_index(c: Corner) -> (i: usize)
    ensures
        i == spec_corner_index(c),
{
    match c {
        Corner::UFL => 0,
        Corner::URF => 1,
        Corner::UBR => 2,
        Corner::ULB => 3,
        Corner::DBL => 4,
        Corner::DLF => 5,
        Corner::DFR => 6,
        Corner::DRB => 7,
    }
}

/// Index an edge position into the fixed 12-slot enumeration.
pub fn edge_index(e: Edge) -> (i: usize)
    ensures
        i == spec_edge_index(e),
{
    match e {
        Edge::UB => 0,
        Edge::UR => 1,
        Edge::UF => 2,
        Edge::UL => 3,
        Edge::LB => 4,
        Edge::RB => 5,
        Edge::RF => 6,
        Edge::LF => 7,
        Edge::DB => 8,
        Edge::DR => 9,
        Edge::DF => 10,
        Edge::DL => 11,
    }
}

/// The corner position enumeration in index order (the identity assignment).
pub open spec fn corner_identity() -> Seq<Corner> {
    seq![
        Corner::UFL,
        Corner::URF,
        Corner::UBR,
        Corner::ULB,
        Corner::DBL,
        Corner::DLF,
        Corner::DFR,
        Corner::DRB,
    ]
}

/// The edge position enumeration in index order (the identity assignment).
pub open spec fn edge_identity() -> Seq<Edge> {
    seq![
        Edge::UB,
        Edge::UR,
        Edge::UF,
        Edge::UL,
        Edge::LB,
        Edge::RB,
        Edge::RF,
        Edge::LF,
        Edge::DB,
        Edge::DR,
        Edge::DF,
        Edge::DL,
    ]
}

/// The counter-clockwise partner of a clockwise move and vice versa.
pub open spec fn inverse_move(m: Move) -> Move {
    match m {
        Move::F => Move::FPrime,
        Move::R => Move::RPrime,
        Move::U => Move::UPrime,
        Move::B => Move::BPrime,
        Move::L => Move::LPrime,
        Move::D => Move::DPrime,
        Move::FPrime => Move::F,
        Move::RPrime => Move::R,
        Move::UPrime => Move::U,
        Move::BPrime => Move::B,
        Move::LPrime => Move::L,
        Move::DPrime => Move::D,
    }
}

/// Source-index table of a move on corner slots: after the move, slot `i`
/// holds what slot `corner_src(m)[i]` held before it.
#[verifier::opaque]
pub open spec fn corner_src(m: Move) -> Seq<int> {
    match m {
        Move::F => seq![5, 0, 2, 3, 4, 6, 1, 7],
        Move::R => seq![0, 6, 1, 3, 4, 5, 7, 2],
        Move::U => seq![1, 2, 3, 0, 4, 5, 6, 7],
        Move::B => seq![0, 1, 7, 2, 3, 5, 6, 4],
        Move::L => seq![3, 1, 2, 4, 5, 0, 6, 7],
        Move::D => seq![0, 1, 2, 3, 7, 4, 5, 6],
        Move::FPrime => seq![1, 6, 2, 3, 4, 0, 5, 7],
        Move::RPrime => seq![0, 2, 7, 3, 4, 5, 1, 6],
        Move::UPrime => seq![3, 0, 1, 2, 4, 5, 6, 7],
        Move::BPrime => seq![0, 1, 3, 4, 7, 5, 6, 2],
        Move::LPrime => seq![5, 1, 2, 0, 3, 4, 6, 7],
        Move::DPrime => seq![0, 1, 2, 3, 5, 6, 7, 4],
    }
}

/// Per-slot twist addend (mod 3) of a move on the corner orientation vector.
#[verifier::opaque]
pub open spec fn corner_addends(m: Move) -> Seq<int> {
    match m {
        Move::F => seq![1, 2, 0, 0, 0, 2, 1, 0],
        Move::R => seq![0, 1, 2, 0, 0, 0, 2, 1],
        Move::U => seq![0, 0, 0, 0, 0, 0, 0, 0],
        Move::B => seq![0, 0, 1, 2, 1, 0, 0, 2],
        Move::L => seq![2, 0, 0, 1, 2, 1, 0, 0],
        Move::D => seq![0, 0, 0, 0, 0, 0, 0, 0],
        Move::FPrime => seq![1, 2, 0, 0, 0, 2, 1, 0],
        Move::RPrime => seq![0, 1, 2, 0, 0, 0, 2, 1],
        Move::UPrime => seq![0, 0, 0, 0, 0, 0, 0, 0],
        Move::BPrime => seq![0, 0, 1, 2, 1, 0, 0, 2],
        Move::LPrime => seq![2, 0, 0, 1, 2, 1, 0, 0],
        Move::DPrime => seq![0, 0, 0, 0, 0, 0, 0, 0],
    }
}

/// Source-index table of a move on edge slots: after the move, slot `i`
/// holds what slot `edge_src(m)[i]` held before it.
#[verifier::opaque]
pub open spec fn edge_src(m: Move) -> Seq<int> {
    match m {
        Move::F => seq![0, 1, 7, 3, 4, 5, 2, 10, 8, 9, 6, 11],
        Move::R => seq![0, 6, 2, 3, 4, 1, 9, 7, 8, 5, 10, 11],
        Move::U => seq![3, 0, 1, 2, 4, 5, 6, 7, 8, 9, 10, 11],
        Move::B => seq![5, 1, 2, 3, 0, 8, 6, 7, 4, 9, 10, 11],
        Move::L => seq![0, 1, 2, 4, 11, 5, 6, 3, 8, 9, 10, 7],
        Move::D => seq![0, 1, 2, 3, 4, 5, 6, 7, 9, 10, 11, 8],
        Move::FPrime => seq![0, 1, 6, 3, 4, 5, 10, 2, 8, 9, 7, 11],
        Move::RPrime => seq![0, 5, 2, 3, 4, 9, 1, 7, 8, 6, 10, 11],
        Move::UPrime => seq![1, 2, 3, 0, 4, 5, 6, 7, 8, 9, 10, 11],
        Move::BPrime => seq![4, 1, 2, 3, 8, 0, 6, 7, 5, 9, 10, 11],
        Move::LPrime => seq![0, 1, 2, 7, 3, 5, 6, 11, 8, 9, 10, 4],
        Move::DPrime => seq![0, 1, 2, 3, 4, 5, 6, 7, 11, 8, 9, 10],
    }
}

/// Per-slot flip addend (mod 2) of a move on the edge orientation vector.
#[verifier::opaque]
pub open spec fn edge_addends(m: Move) -> Seq<int> {
    match m {
        Move::F => seq![0, 0, 1, 0, 0, 0, 1, 1, 0, 0, 1, 0],
        Move::R => seq![0, 0, 0, 0, 0, 0, 0, 0, 0, 0, 0, 0],
        Move::U => seq![0, 0, 0, 0, 0, 0, 0, 0, 0, 0, 0, 0],
        Move::B => seq![1, 0, 0, 0, 1, 1, 0, 0, 1, 0, 0, 0],
        Move::L => seq![0, 0, 0, 0, 0, 0, 0, 0, 0, 0, 0, 0],
        Move::D => seq![0, 0, 0, 0, 0, 0, 0, 0, 0, 0, 0, 0],
        Move::FPrime => seq![0, 0, 1, 0, 0, 0, 1, 1, 0, 0, 1, 0],
        Move::RPrime => seq![0, 0, 0, 0, 0, 0, 0, 0, 0, 0, 0, 0],
        Move::UPrime => seq![0, 0, 0, 0, 0, 0, 0, 0, 0, 0, 0, 0],
        Move::BPrime => seq![1, 0, 0, 0, 1, 1, 0, 0, 1, 0, 0, 0],
        Move::LPrime => seq![0, 0, 0, 0, 0, 0, 0, 0, 0, 0, 0, 0],
        Move::DPrime => seq![0, 0, 0, 0, 0, 0, 0, 0, 0, 0, 0, 0],
    }
}

/// The mathematical state of a cube: the two cubicle-to-cubie assignments
/// and the two orientation vectors, one entry per slot.
#[verifier::ext_equal]
pub ghost struct CubeView {
    pub sigma: Seq<Corner>,
    pub tau: Seq<Edge>,
    pub x: Seq<u8>,
    pub y: Seq<u8>,
}

/// A corner assignment is well-formed when it is total over the 8 slots and
/// no cubie occupies two slots at once.
pub open spec fn corner_perm_wf(s: Seq<Corner>) -> bool {
    &&& s.len() == 8
    &&& forall|i: int, j: int| 0 <= i < j < 8 ==> s[i] != s[j]
}

/// An edge assignment is well-formed when it is total over the 12 slots and
/// no cubie occupies two slots at once.
pub open spec fn edge_perm_wf(s: Seq<Edge>) -> bool {
    &&& s.len() == 12
    &&& forall|i: int, j: int| 0 <= i < j < 12 ==> s[i] != s[j]
}

/// Well-formedness of a whole cube state: both assignments are injective and
/// every orientation coordinate lies in its modulus.
pub open spec fn cube_view_wf(v: CubeView) -> bool {
    &&& corner_perm_wf(v.sigma)
    &&& edge_perm_wf(v.tau)
    &&& v.x.len() == 8
    &&& forall|i: int| 0 <= i < 8 ==> v.x[i] < 3
    &&& v.y.len() == 12
    &&& forall|i: int| 0 <= i < 12 ==> v.y[i] < 2
}

/// The solved state: identity assignments and all-zero orientation vectors.
pub open spec fn solved_view() -> CubeView {
    CubeView {
        sigma: corner_identity(),
        tau: edge_identity(),
        x: Seq::new(8, |i: int| 0u8),
        y: Seq::new(12, |i: int| 0u8),
    }
}

/// A cube state is solved exactly when it equals the solved state.
pub open spec fn cube_solved(v: CubeView) -> bool {
    v == solved_view()
}

/// Relocate a sequence's entries by a source-index table: entry `i` of the
/// result is entry `t[i]` of the input.
pub open spec fn reindex<T>(s: Seq<T>, t: Seq<int>) -> Seq<T> {
    Seq::new(t.len(), |i: int| s[t[i]])
}

/// One orientation update: relocate the vector by the source-index table,
/// then add the per-slot addend modulo `md`.
pub open spec fn orient_step(x: Seq<u8>, t: Seq<int>, a: Seq<int>, md: int) -> Seq<u8> {
    Seq::new(t.len(), |i: int| ((x[t[i]] + a[i]) % md) as u8)
}

/// The corner assignment after a move: slot `i` receives the cubie from
/// slot `corner_src(m)[i]`.
pub open spec fn spec_corner_permute(s: Seq<Corner>, m: Move) -> Seq<Corner> {
    reindex(s, corner_src(m))
}

/// The edge assignment after a move.
pub open spec fn spec_edge_permute(s: Seq<Edge>, m: Move) -> Seq<Edge> {
    reindex(s, edge_src(m))
}

/// The corner orientation vector after a move: reindex by the same slot
/// relocation as the permutation, then add the per-slot twist mod 3.
pub open spec fn spec_corner_orient(x: Seq<u8>, m: Move) -> Seq<u8> {
    orient_step(x, corner_src(m), corner_addends(m), 3)
}

/// The edge orientation vector after a move: reindex, then add mod 2.
pub open spec fn spec_edge_orient(y: Seq<u8>, m: Move) -> Seq<u8> {
    orient_step(y, edge_src(m), edge_addends(m), 2)
}

/// The whole-state transition of one move operator.
pub open spec fn spec_apply_move(v: CubeView, m: Move) -> CubeView {
    CubeView {
        sigma: spec_corner_permute(v.sigma, m),
        tau: spec_edge_permute(v.tau, m),
        x: spec_corner_orient(v.x, m),
        y: spec_edge_orient(v.y, m),
    }
}



/// The six face letters that may begin a token of move notation.
pub open spec fn is_base_char(c: char) -> bool {
    c == 'F' || c == 'R' || c == 'U' || c == 'B' || c == 'L' || c == 'D'
}

/// The characters accepted as a prime (counter-clockwise) mark.
pub open spec fn is_prime_char(c: char) -> bool {
    c == '\'' || c == '`' || c == '\u{2032}'
}

/// The clockwise move named by a face letter.
pub open spec fn base_move(c: char) -> Move {
    if c == 'F' {
        Move::F
    } else if c == 'R' {
        Move::R
    } else if c == 'U' {
        Move::U
    } else if c == 'B' {
        Move::B
    } else if c == 'L' {
        Move::L
    } else {
        Move::D
    }
}

/// The counter-clockwise move named by a face letter followed by a prime.
pub open spec fn prime_move(c: char) -> Move {
    if c == 'F' {
        Move::FPrime
    } else if c == 'R' {
        Move::RPrime
    } else if c == 'U' {
        Move::UPrime
    } else if c == 'B' {
        Move::BPrime
    } else if c == 'L' {
        Move::LPrime
    } else {
        Move::DPrime
    }
}

/// Whether a string is well-formed move notation: a sequence of tokens, each
/// a face letter optionally followed by `2` (apply twice) or a prime mark
/// (apply the inverse).
pub open spec fn valid_notation(s: Seq<char>) -> bool
    decreases s.len(),
{
    if s.len() == 0 {
        true
    } else if !is_base_char(s[0]) {
        false
    } else if s.len() >= 2 && s[1] == '2' {
        valid_notation(s.skip(2))
    } else if s.len() >= 2 && is_prime_char(s[1]) {
        valid_notation(s.skip(2))
    } else {
        valid_notation(s.skip(1))
    }
}

/// The move sequence denoted by well-formed move notation.
pub open spec fn parse_notation(s: Seq<char>) -> Seq<Move>
    decreases s.len(),
{
    if s.len() == 0 || !is_base_char(s[0]) {
        Seq::empty()
    } else if s.len() >= 2 && s[1] == '2' {
        seq![base_move(s[0]), base_move(s[0])] + parse_notation(s.skip(2))
    } else if s.len() >= 2 && is_prime_char(s[1]) {
        seq![prime_move(s[0])] + parse_notation(s.skip(2))
    } else {
        seq![base_move(s[0])] + parse_notation(s.skip(1))
    }
}

/// Parse a face letter into its clockwise move.
fn base_move_of(c: char) -> (m: Move)
    requires
        is_base_char(c),
    ensures
        m == base_move(c),
{
    if c == 'F' {
        Move::F
    } else if c == 'R' {
        Move::R
    } else if c == 'U' {
        Move::U
    } else if c == 'B' {
        Move::B
    } else if c == 'L' {
        Move::L
    } else {
        Move::D
    }
}

/// Parse a face letter into its counter-clockwise move.
fn prime_move_of(c: char) -> (m: Move)
    requires
        is_base_char(c),
    ensures
        m == prime_move(c),
{
    if c == 'F' {
        Move::FPrime
    } else if c == 'R' {
        Move::RPrime
    } else if c == 'U' {
        Move::UPrime
    } else if c == 'B' {
        Move::BPrime
    } else if c == 'L' {
        Move::LPrime
    } else {
        Move::DPrime
    }
}

/// Test a character for the prime (counter-clockwise) marks.
fn is_prime_char_exec(c: char) -> (r: bool)
    ensures
        r == is_prime_char(c),
{
    c == '\'' || c == '`' || c == '\u{2032}'
}

/// Decompose a corner cubie into its three faces, in home orientation.
pub open spec fn spec_decompose_corner(corner: Corner) -> (Face, Face, Face) {
    match corner {
        Corner::UFL => (Face::U, Face::F, Face::L),
        Corner::URF => (Face::U, Face::R, Face::F),
        Corner::UBR => (Face::U, Face::B, Face::R),
        Corner::ULB => (Face::U, Face::L, Face::B),
        Corner::DBL => (Face::D, Face::B, Face::L),
        Corner::DLF => (Face::D, Face::L, Face::F),
        Corner::DFR => (Face::D, Face::F, Face::R),
        Corner::DRB => (Face::D, Face::R, Face::B),
    }
}

/// The faces of a corner cubie rotated by its orientation coordinate.
pub open spec fn spec_orient_corner(corner: Corner, orientation: u8) -> (Face, Face, Face) {
    let faces = spec_decompose_corner(corner);
    if orientation == 0 {
        faces
    } else if orientation == 1 {
        (faces.1, faces.2, faces.0)
    } else {
        (faces.2, faces.0, faces.1)
    }
}

/// The face color a corner cubie shows toward `face` when it sits in
/// `cubicle` with the given orientation.
pub open spec fn spec_get_corner_face(cubicle: Corner, cubie: Corner, face: Face, orientation: u8) -> Face {
    let oriented_cubie = spec_orient_corner(cubie, orientation);
    let faces = spec_decompose_corner(cubicle);
    if faces.0 == face {
        oriented_cubie.0
    } else if faces.1 == face {
        oriented_cubie.1
    } else {
        oriented_cubie.2
    }
}

/// Decompose an edge cubie into its two faces, in home orientation.
pub open spec fn spec_decompose_edge(edge: Edge) -> (Face, Face) {
    match edge {
        Edge::UB => (Face::U, Face::B),
        Edge::UR => (Face::U, Face::R),
        Edge::UF => (Face::U, Face::F),
        Edge::UL => (Face::U, Face::L),
        Edge::LB => (Face::B, Face::L),
        Edge::RB => (Face::B, Face::R),
        Edge::RF => (Face::F, Face::R),
        Edge::LF => (Face::F, Face::L),
        Edge::DB => (Face::D, Face::B),
        Edge::DR => (Face::D, Face::R),
        Edge::DF => (Face::D, Face::F),
        Edge::DL => (Face::D, Face::L),
    }
}

/// The faces of an edge cubie flipped by its orientation coordinate.
pub open spec fn spec_orient_edge(edge: Edge, orientation: u8) -> (Face, Face) {
    let faces = spec_decompose_edge(edge);
    if orientation == 0 {
        faces
    } else {
        (faces.1, faces.0)
    }
}

/// The face color an edge cubie shows toward `face` when it sits in
/// `cubicle` with the given orientation.
pub open spec fn spec_get_edge_face(cubicle: Edge, cubie: Edge, face: Face, orientation: u8) -> Face {
    let oriented_edge = spec_orient_edge(cubie, orientation);
    let faces = spec_decompose_edge(cubicle);
    if faces.0 == face {
        oriented_edge.0
    } else {
        oriented_edge.1
    }
}

/// The four corner cubicles bordering a face, clockwise from top left.
pub open spec fn face_corners(f: Face) -> Seq<Corner> {
    match f {
        Face::F => seq![Corner::UFL, Corner::URF, Corner::DFR, Corner::DLF],
        Face::R => seq![Corner::URF, Corner::UBR, Corner::DRB, Corner::DFR],
        Face::U => seq![Corner::ULB, Corner::UBR, Corner::URF, Corner::UFL],
        Face::B => seq![Corner::UBR, Corner::ULB, Corner::DBL, Corner::DRB],
        Face::L => seq![Corner::ULB, Corner::UFL, Corner::DLF, Corner::DBL],
        Face::D => seq![Corner::DLF, Corner::DFR, Corner::DRB, Corner::DBL],
    }
}

/// The four edge cubicles bordering a face, clockwise from the top.
pub open spec fn face_edges(f: Face) -> Seq<Edge> {
    match f {
        Face::F => seq![Edge::UF, Edge::RF, Edge::DF, Edge::LF],
        Face::R => seq![Edge::UR, Edge::RB, Edge::DR, Edge::RF],
        Face::U => seq![Edge::UB, Edge::UR, Edge::UF, Edge::UL],
        Face::B => seq![Edge::UB, Edge::LB, Edge::DB, Edge::RB],
        Face::L => seq![Edge::UL, Edge::LF, Edge::DL, Edge::LB],
        Face::D => seq![Edge::DF, Edge::DR, Edge::DB, Edge::DL],
    }
}

/// The sticker shown toward `f` at corner cubicle `pos` in state `v`.
pub open spec fn spec_corner_sticker(v: CubeView, f: Face, pos: Corner) -> Face {
    spec_get_corner_face(pos, v.sigma[spec_corner_index(pos)], f, v.x[spec_corner_index(pos)])
}

/// The sticker shown toward `f` at edge cubicle `pos` in state `v`.
pub open spec fn spec_edge_sticker(v: CubeView, f: Face, pos: Edge) -> Face {
    spec_get_edge_face(pos, v.tau[spec_edge_index(pos)], f, v.y[spec_edge_index(pos)])
}

/// The nine stickers of a face in row-major order, top-left to bottom-right:
/// the center is always the face's own color, the border comes from the
/// resident corner and edge cubies and their orientations.
pub open spec fn spec_get_face(v: CubeView, f: Face) -> Seq<Face> {
    seq![
        spec_corner_sticker(v, f, face_corners(f)[0]),
        spec_edge_sticker(v, f, face_edges(f)[0]),
        spec_corner_sticker(v, f, face_corners(f)[1]),
        spec_edge_sticker(v, f, face_edges(f)[3]),
        f,
        spec_edge_sticker(v, f, face_edges(f)[1]),
        spec_corner_sticker(v, f, face_corners(f)[3]),
        spec_edge_sticker(v, f, face_edges(f)[2]),
        spec_corner_sticker(v, f, face_corners(f)[2]),
    ]
}

/// Decompose a corner into faces.
pub fn decompose_corner(corner: Corner) -> (r: (Face, Face, Face))
    ensures
        r == spec_decompose_corner(corner),
{
    match corner {
        Corner::UFL => (Face::U, Face::F, Face::L),
        Corner::URF => (Face::U, Face::R, Face::F),
        Corner::UBR => (Face::U, Face::B, Face::R),
        Corner::ULB => (Face::U, Face::L, Face::B),
        Corner::DBL => (Face::D, Face::B, Face::L),
        Corner::DLF => (Face::D, Face::L, Face::F),
        Corner::DFR => (Face::D, Face::F, Face::R),
        Corner::DRB => (Face::D, Face::R, Face::B),
    }
}

/// Orient the faces of a corner.
pub fn orient_corner(corner: Corner, orientation: u8) -> (r: (Face, Face, Face))
    ensures
        r == spec_orient_corner(corner, orientation),
{
    let faces = decompose_corner(corner);

    if orientation == 0 {
        faces
    } else if orientation == 1 {
        (faces.1, faces.2, faces.0)
    } else {
        (faces.2, faces.0, faces.1)
    }
}

/// Get the corner cubie face corresponding to a certain orientation index.
pub fn get_corner_face(cubicle: Corner, cubie: Corner, face: Face, orientation: u8) -> (r: Face)
    ensures
        r == spec_get_corner_face(cubicle, cubie, face, orientation),
{
    let oriented_cubie = orient_corner(cubie, orientation);
    let faces = decompose_corner(cubicle);

    if faces.0 == face {
        oriented_cubie.0
    } else if faces.1 == face {
        oriented_cubie.1
    } else {
        oriented_cubie.2
    }
}

/// Decompose an edge into faces.
pub fn decompose_edge(edge: Edge) -> (r: (Face, Face))
    ensures
        r == spec_decompose_edge(edge),
{
    match edge {
        Edge::UB => (Face::U, Face::B),
        Edge::UR => (Face::U, Face::R),
        Edge::UF => (Face::U, Face::F),
        Edge::UL => (Face::U, Face::L),
        Edge::LB => (Face::B, Face::L),
        Edge::RB => (Face::B, Face::R),
        Edge::RF => (Face::F, Face::R),
        Edge::LF => (Face::F, Face::L),
        Edge::DB => (Face::D, Face::B),
        Edge::DR => (Face::D, Face::R),
        Edge::DF => (Face::D, Face::F),
        Edge::DL => (Face::D, Face::L),
    }
}

/// Orient the faces of an edge.
pub fn orient_edge(edge: Edge, orientation: u8) -> (r: (Face, Face))
    ensures
        r == spec_orient_edge(edge, orientation),
{
    let faces = decompose_edge(edge);

    if orientation == 0 {
        faces
    } else {
        (faces.1, faces.0)
    }
}

/// Get the edge cubie face corresponding to a certain orientation index.
pub fn get_edge_face(cubicle: Edge, cubie: Edge, face: Face, orientation: u8) -> (r: Face)
    ensures
        r == spec_get_edge_face(cubicle, cubie, face, orientation),
{
    let oriented_edge = orient_edge(cubie, orientation);
    let faces = decompose_edge(cubicle);

    if faces.0 == face {
        oriented_edge.0
    } else {
        oriented_edge.1
    }
}


/// One cycle is internally consistent with the permutation table `perm`:
/// its entries are slot indices, each consecutive pair steps by `perm`, and
/// the last entry steps back to the first.
pub open spec fn cycle_follows(perm: Seq<u8>, c: Seq<u8>) -> bool {
    &&& c.len() >= 1
    &&& forall|j: int| 0 <= j < c.len() ==> #[trigger] c[j] < perm.len()
    &&& forall|j: int| #![trigger c[j]] 0 <= j < c.len() - 1 ==> c[j + 1] == perm[c[j] as int]
    &&& perm[c[c.len() - 1] as int] == c[0]
}

/// Some cycle of the list contains the slot index `v`.
pub open spec fn cycles_contain(cs: Seq<Seq<u8>>, v: u8) -> bool {
    exists|k: int, j: int|
        #![trigger cs[k][j]]
        0 <= k < cs.len() && 0 <= j < cs[k].len() && cs[k][j] == v
}

/// No slot index occurs twice across the whole list of cycles.
pub open spec fn cycles_distinct(cs: Seq<Seq<u8>>) -> bool {
    forall|k1: int, j1: int, k2: int, j2: int|
        #![trigger cs[k1][j1], cs[k2][j2]]
        0 <= k1 < cs.len() && 0 <= j1 < cs[k1].len() && 0 <= k2 < cs.len() && 0 <= j2
            < cs[k2].len() && cs[k1][j1] == cs[k2][j2] ==> k1 == k2 && j1 == j2
}

/// The cycles are listed longest first.
pub open spec fn cycles_sorted(cs: Seq<Seq<u8>>) -> bool {
    forall|k1: int, k2: int|
        #![trigger cs[k1].len(), cs[k2].len()]
        0 <= k1 < k2 < cs.len() ==> cs[k1].len() >= cs[k2].len()
}

/// The list `cs` is the disjoint cycle decomposition of the permutation
/// table `perm`: every cycle follows `perm` and closes, every slot index
/// below `perm.len()` appears in exactly one cycle at exactly one position,
/// and the cycles come longest first.
pub open spec fn cycle_decomposition_of(perm: Seq<u8>, cs: Seq<Seq<u8>>) -> bool {
    &&& forall|k: int| 0 <= k < cs.len() ==> cycle_follows(perm, #[trigger] cs[k])
    &&& cycles_distinct(cs)
    &&& forall|v: u8| v < perm.len() ==> cycles_contain(cs, v)
    &&& cycles_sorted(cs)
}

/// The number of marked entries of a visit vector.
spec fn count_marked(s: Seq<bool>) -> int
    decreases s.len(),
{
    if s.len() == 0 {
        0
    } else {
        count_marked(s.drop_last()) + if s.last() {
            1int
        } else {
            0int
        }
    }
}

proof fn lemma_count_marked_le(s: Seq<bool>)
    ensures
        0 <= count_marked(s) <= s.len(),
    decreases s.len(),
{
    if s.len() > 0 {
        lemma_count_marked_le(s.drop_last());
    }
}

proof fn lemma_count_marked_update(s: Seq<bool>, i: int)
    requires
        0 <= i < s.len(),
        !s[i],
    ensures
        count_marked(s.update(i, true)) == count_marked(s) + 1,
    decreases s.len(),
{
    if i == s.len() - 1 {
        assert(s.update(i, true).drop_last() =~= s.drop_last());
    } else {
        assert(s.update(i, true).drop_last() =~= s.drop_last().update(i, true));
        lemma_count_marked_update(s.drop_last(), i);
    }
}

/// The deep view of a vector of byte vectors indexes to the views of its
/// entries.
proof fn lemma_vecvec_deep_view(v: &Vec<Vec<u8>>)
    ensures
        v.deep_view().len() == v@.len(),
        forall|k: int| 0 <= k < v@.len() ==> v.deep_view()[k] == v@[k]@,
{
    assert forall|k: int| 0 <= k < v@.len() implies v.deep_view()[k] == v@[k]@ by {
        assert(v@[k].deep_view() =~= v@[k]@);
    }
}

/// Takes the table of a permutation of the slot indices (entry `i` names
/// the resident of slot `i`) and returns a vector representing its disjoint
/// cycles including cycles with length 1, sorted by descending length.
#[verifier::loop_isolation(false)]
#[verifier::rlimit(100)]
pub fn disjoint_cycle_decompose(perm: &Vec<u8>) -> (cycles: Vec<Vec<u8>>)
    requires
        perm@.len() <= 256,
        forall|i: int| 0 <= i < perm@.len() ==> #[trigger] perm@[i] < perm@.len(),
        forall|i: int, j: int| 0 <= i < j < perm@.len() ==> perm@[i] != perm@[j],
    ensures
        cycle_decomposition_of(perm@, cycles.deep_view()),
{
    let n = perm.len();
    proof {
        // the permutation is injective, stated symmetrically
        assert forall|i: int, j: int|
            0 <= i < n && 0 <= j < n && i != j implies perm@[i] != perm@[j] by {
            if i < j {
            } else {
                assert(0 <= j < i < n);
            }
        }
    }
    let mut visited: Vec<bool> = Vec::new();
    while visited.len() < n
        invariant
            visited@.len() <= n,
            forall|w: int| 0 <= w < visited@.len() ==> !(#[trigger] visited@[w]),
        decreases n - visited@.len(),
    {
        visited.push(false);
    }

    let mut cycles: Vec<Vec<u8>> = Vec::new();
    proof {
        lemma_vecvec_deep_view(&cycles);
    }
    let mut v: usize = 0;
    while v < n
        invariant
            visited@.len() == n,
            v <= n,
            forall|w: int|
                0 <= w < n ==> ((#[trigger] visited@[w]) <==> cycles_contain(
                    cycles.deep_view(),
                    w as u8,
                )),
            forall|k: int|
                0 <= k < cycles.deep_view().len() ==> cycle_follows(
                    perm@,
                    #[trigger] cycles.deep_view()[k],
                ),
            cycles_distinct(cycles.deep_view()),
            forall|w: int| 0 <= w < v ==> #[trigger] visited@[w],
        decreases n - v,
    {
        if !visited[v] {
            let ghost cs0 = cycles.deep_view();
            let ghost visited0 = visited@;
            let mut cycle: Vec<u8> = Vec::new();
            let mut cur: usize = v;
            let mut done = false;
            while !done
                invariant
                    visited@.len() == n,
                    !done ==> cur < n && !visited@[cur as int] && !visited0[cur as int],
                    !done && cycle@.len() == 0 ==> cur == v,
                    !done && cycle@.len() >= 1 ==> cycle@[0] == v as u8 && cur != v && perm@[
                        cycle@[cycle@.len() - 1] as int
                    ] == cur as u8,
                    done ==> cycle@.len() >= 1 && cycle@[0] == v as u8 && perm@[
                        cycle@[cycle@.len() - 1] as int
                    ] == cycle@[0],
                    forall|j: int| 0 <= j < cycle@.len() ==> #[trigger] cycle@[j] < n,
                    forall|j: int|
                        #![trigger cycle@[j]]
                        0 <= j < cycle@.len() - 1 ==> cycle@[j + 1] == perm@[cycle@[j] as int],
                    forall|j1: int, j2: int|
                        0 <= j1 < j2 < cycle@.len() ==> cycle@[j1] != cycle@[j2],
                    !done ==> forall|j: int|
                        0 <= j < cycle@.len() ==> #[trigger] cycle@[j] != cur as u8,
                    forall|w: int|
                        0 <= w < n ==> ((#[trigger] visited@[w]) <==> (visited0[w]
                            || cycle@.contains(w as u8))),
                    forall|j: int| 0 <= j < cycle@.len() ==> !visited0[#[trigger] cycle@[j] as int],
                decreases n - count_marked(visited@),
            {
                let ghost cyc0 = cycle@;
                let ghost visited_pre = visited@;
                proof {
                    lemma_count_marked_le(visited@);
                    lemma_count_marked_update(visited@, cur as int);
                }
                cycle.push(cur as u8);
                visited[cur] = true;
                proof {
                    lemma_count_marked_le(visited@);
                    assert(cycle@ =~= cyc0.push(cur as u8));
                    // the extended walk still follows the permutation
                    assert forall|j: int|
                        0 <= j < cycle@.len() - 1 implies cycle@[j + 1]
                        == perm@[cycle@[j] as int] by {
                        if j == cyc0.len() - 1 {
                            assert(cycle@[j] == cyc0[j]);
                            assert(cycle@[j + 1] == cur as u8);
                        }
                    }
                    // membership in the extended walk
                    assert forall|w: int| 0 <= w < n implies ((#[trigger] visited@[w]) <==> (
                    visited0[w] || cycle@.contains(w as u8))) by {
                        if visited@[w] {
                            if visited_pre[w] {
                                if !visited0[w] {
                                    let j = choose|j: int|
                                        0 <= j < cyc0.len() && cyc0[j] == w as u8;
                                    assert(cycle@[j] == w as u8);
                                }
                            } else {
                                assert(w == cur as int);
                                assert(cycle@[cycle@.len() - 1] == w as u8);
                            }
                        }
                        if cycle@.contains(w as u8) {
                            let j = choose|j: int| 0 <= j < cycle@.len() && cycle@[j] == w as u8;
                            if j < cyc0.len() {
                                assert(cyc0[j] == w as u8);
                                assert(visited_pre[w]);
                            } else {
                                assert(w as u8 == cur as u8);
                                assert(w == cur as int);
                            }
                        }
                    }
                }
                let next = perm[cur] as usize;
                if next == v {
                    done = true;
                    proof {
                        assert(cycle@[0] == v as u8);
                        assert(perm@[cycle@[cycle@.len() - 1] as int] == cycle@[0]);
                    }
                } else {
                    proof {
                        // the successor has not been reached by this walk:
                        // its in-walk predecessor would collide with the end
                        assert forall|j: int|
                            0 <= j < cycle@.len() implies #[trigger] cycle@[j] != next as u8 by {
                            if cycle@[j] == next as u8 {
                                if j == 0 {
                                    assert(cycle@[0] == v as u8);
                                    assert(next != v);
                                } else {
                                    assert(cycle@[j] == perm@[cycle@[j - 1] as int]);
                                    assert(perm@[cycle@[cycle@.len() - 1] as int] == next as u8);
                                    assert(cycle@[j - 1] == cycle@[cycle@.len() - 1]);
                                    assert(j - 1 == cycle@.len() - 1);
                                }
                            }
                        }
                        // nor does it lie in a finished cycle: those are
                        // closed under the permutation, and its predecessor
                        // would have to be the walk's current end
                        assert(!visited0[next as int]) by {
                            if visited0[next as int] {
                                assert(cycles_contain(cs0, next as u8));
                                let (k, j) = choose|k: int, j: int|
                                    #![trigger cs0[k][j]]
                                    0 <= k < cs0.len() && 0 <= j < cs0[k].len()
                                        && cs0[k][j] == next as u8;
                                assert(cycle_follows(perm@, cs0[k]));
                                if j > 0 {
                                    let pred = cs0[k][j - 1];
                                    assert(perm@[pred as int] == next as u8);
                                    assert(pred as int == cur as int);
                                    assert(cycles_contain(cs0, pred));
                                    assert(visited0[cur as int]);
                                } else {
                                    let pred = cs0[k][cs0[k].len() - 1];
                                    assert(perm@[pred as int] == cs0[k][0]);
                                    assert(pred as int == cur as int);
                                    assert(cycles_contain(cs0, pred));
                                    assert(visited0[cur as int]);
                                }
                            }
                        }
                        assert(!visited@[next as int]);
                    }
                    cur = next;
                }
            }
            let ghost walk = cycle@;
            cycles.push(cycle);
            proof {
                lemma_vecvec_deep_view(&cycles);
                let cs1 = cycles.deep_view();
                assert(cs1 =~= cs0.push(walk));
                // every finished cycle, old or new, follows the permutation
                assert forall|k: int|
                    0 <= k < cs1.len() implies cycle_follows(perm@, #[trigger] cs1[k]) by {
                    if k < cs0.len() {
                        assert(cs1[k] == cs0[k]);
                    } else {
                        assert(cs1[k] == walk);
                    }
                }
                // the visited marks still name exactly the finished members
                assert forall|w: int|
                    0 <= w < n implies ((#[trigger] visited@[w]) <==> cycles_contain(
                    cs1,
                    w as u8,
                )) by {
                    if visited@[w] {
                        if visited0[w] {
                            let (k, j) = choose|k: int, j: int|
                                #![trigger cs0[k][j]]
                                0 <= k < cs0.len() && 0 <= j < cs0[k].len()
                                    && cs0[k][j] == w as u8;
                            assert(cs1[k][j] == w as u8);
                        } else {
                            let j = choose|j: int| 0 <= j < walk.len() && walk[j] == w as u8;
                            assert(cs1[cs0.len() as int][j] == w as u8);
                        }
                    }
                    if cycles_contain(cs1, w as u8) {
                        let (k, j) = choose|k: int, j: int|
                            #![trigger cs1[k][j]]
                            0 <= k < cs1.len() && 0 <= j < cs1[k].len() && cs1[k][j]
                                == w as u8;
                        if k < cs0.len() {
                            assert(cs0[k][j] == w as u8);
                            assert(cycles_contain(cs0, w as u8));
                        } else {
                            assert(walk[j] == w as u8);
                            assert(walk.contains(w as u8));
                        }
                    }
                }
                // no slot occurs twice across old and new cycles
                assert forall|k1: int, j1: int, k2: int, j2: int|
                    #![trigger cs1[k1][j1], cs1[k2][j2]]
                    0 <= k1 < cs1.len() && 0 <= j1 < cs1[k1].len() && 0 <= k2 < cs1.len() && 0
                        <= j2 < cs1[k2].len() && cs1[k1][j1] == cs1[k2][j2] implies k1 == k2 && j1
                    == j2 by {
                    if k1 < cs0.len() && k2 < cs0.len() {
                        assert(cs0[k1][j1] == cs1[k1][j1]);
                        assert(cs0[k2][j2] == cs1[k2][j2]);
                    } else if k1 < cs0.len() && k2 >= cs0.len() {
                        assert(cs0[k1][j1] == cs1[k1][j1]);
                        assert(cs1[k2] == walk);
                        assert(cycles_contain(cs0, cs0[k1][j1]));
                        assert(visited0[cs0[k1][j1] as int]);
                        assert(!visited0[walk[j2] as int]);
                    } else if k1 >= cs0.len() && k2 < cs0.len() {
                        assert(cs0[k2][j2] == cs1[k2][j2]);
                        assert(cs1[k1] == walk);
                        assert(cycles_contain(cs0, cs0[k2][j2]));
                        assert(visited0[cs0[k2][j2] as int]);
                        assert(!visited0[walk[j1] as int]);
                    } else {
                        assert(cs1[k1] == walk);
                        assert(cs1[k2] == walk);
                        if j1 < j2 {
                            assert(walk[j1] != walk[j2]);
                        } else if j2 < j1 {
                            assert(walk[j2] != walk[j1]);
                        }
                    }
                }
                // v itself is now visited
                assert(walk[0] == v as u8);
                assert(walk.contains(v as u8));
                assert(visited@[v as int]);
            }
        }
        v = v + 1;
    }

    proof {
        assert forall|vv: u8| vv < n implies cycles_contain(cycles.deep_view(), vv) by {
            assert(visited@[vv as int]);
        }
    }
    // Sort the cycles by length, longest first
    let ghost n_cycles = cycles@.len();
    let mut a: usize = 0;
    while a < cycles.len()
        invariant
            cycles@.len() == n_cycles,
            a <= n_cycles,
            forall|k: int|
                0 <= k < cycles.deep_view().len() ==> cycle_follows(
                    perm@,
                    #[trigger] cycles.deep_view()[k],
                ),
            cycles_distinct(cycles.deep_view()),
            forall|vv: u8| vv < n ==> cycles_contain(cycles.deep_view(), vv),
            forall|k1: int, k2: int|
                #![trigger cycles@[k1], cycles@[k2]]
                0 <= k1 < k2 < a ==> cycles@[k1]@.len() >= cycles@[k2]@.len(),
            forall|k1: int, k2: int|
                #![trigger cycles@[k1], cycles@[k2]]
                0 <= k1 < a && a <= k2 < n_cycles ==> cycles@[k1]@.len() >= cycles@[k2]@.len(),
        decreases n_cycles - a,
    {
        let mut best: usize = a;
        let mut b: usize = a + 1;
        while b < cycles.len()
            invariant
                a <= best < b <= n_cycles,
                cycles@.len() == n_cycles,
                forall|k: int|
                    a <= k < b ==> cycles@[best as int]@.len() >= #[trigger] cycles@[k]@.len(),
            decreases n_cycles - b,
        {
            if cycles[b].len() > cycles[best].len() {
                best = b;
            }
            b = b + 1;
        }
        if best != a {
            let ghost pre = cycles@;
            let ghost pre_deep = cycles.deep_view();
            proof {
                lemma_vecvec_deep_view(&cycles);
            }
            let ca = cycles[a].clone();
            let cb = cycles[best].clone();
            proof {
                assert(ca@ =~= pre[a as int]@);
                assert(cb@ =~= pre[best as int]@);
            }
            cycles[a] = cb;
            cycles[best] = ca;
            proof {
                lemma_vecvec_deep_view(&cycles);
                let cs1 = cycles.deep_view();
                // the swap relocates two cycles and fixes the rest
                assert forall|k: int| 0 <= k < n_cycles implies cs1[k] == (if k == a as int {
                    pre_deep[best as int]
                } else if k == best as int {
                    pre_deep[a as int]
                } else {
                    pre_deep[k]
                }) by {
                    assert(cs1[k] == cycles@[k]@);
                }
                assert forall|k: int|
                    0 <= k < cs1.len() implies cycle_follows(perm@, #[trigger] cs1[k]) by {}
                assert forall|k1: int, j1: int, k2: int, j2: int|
                    #![trigger cs1[k1][j1], cs1[k2][j2]]
                    0 <= k1 < cs1.len() && 0 <= j1 < cs1[k1].len() && 0 <= k2 < cs1.len() && 0
                        <= j2 < cs1[k2].len() && cs1[k1][j1] == cs1[k2][j2] implies k1 == k2 && j1
                    == j2 by {
                    let p1: int = if k1 == a as int {
                        best as int
                    } else if k1 == best as int {
                        a as int
                    } else {
                        k1
                    };
                    let p2: int = if k2 == a as int {
                        best as int
                    } else if k2 == best as int {
                        a as int
                    } else {
                        k2
                    };
                    assert(cs1[k1] == pre_deep[p1]);
                    assert(cs1[k2] == pre_deep[p2]);
                    assert(pre_deep[p1][j1] == pre_deep[p2][j2]);
                }
                assert forall|vv: u8| vv < n implies cycles_contain(cs1, vv) by {
                    assert(cycles_contain(pre_deep, vv));
                    let (k, j) = choose|k: int, j: int|
                        #![trigger pre_deep[k][j]]
                        0 <= k < pre_deep.len() && 0 <= j < pre_deep[k].len()
                            && pre_deep[k][j] == vv;
                    let p: int = if k == a as int {
                        best as int
                    } else if k == best as int {
                        a as int
                    } else {
                        k
                    };
                    assert(cs1[p] == pre_deep[k]);
                    assert(cs1[p][j] == vv);
                }
            }
        }
        a = a + 1;
    }
    proof {
        lemma_vecvec_deep_view(&cycles);
        assert forall|k1: int, k2: int|
            #![trigger cycles.deep_view()[k1].len(), cycles.deep_view()[k2].len()]
            0 <= k1 < k2 < cycles.deep_view().len() implies cycles.deep_view()[k1].len()
            >= cycles.deep_view()[k2].len() by {
            assert(cycles@[k1]@.len() >= cycles@[k2]@.len());
        }
    }
    cycles
}

/// Map corner cubicles to cubies.
#[derive(Clone, Copy, Eq, PartialEq, Debug)]
pub struct CornerPermutation {
    m: [Corner; 8],
}

impl View for CornerPermutation {
    type V = Seq<Corner>;

    closed spec fn view(&self) -> Seq<Corner> {
        self.m@
    }
}

impl CornerPermutation {
    /// Create a solved permutation.
    pub fn new() -> (s: CornerPermutation)
        ensures
            s@ == corner_identity(),
            corner_perm_wf(s@),
    {
        let s = CornerPermutation {
            m: [
                Corner::UFL,
                Corner::URF,
                Corner::UBR,
                Corner::ULB,
                Corner::DBL,
                Corner::DLF,
                Corner::DFR,
                Corner::DRB,
            ],
        };
        proof {
            assert(s@ =~= corner_identity());
        }
        s
    }

    /// Get the cubie located in a particular cubicle.
    pub fn get(&self, cubicle: Corner) -> (c: Corner)
        ensures
            c == self@[spec_corner_index(cubicle)],
    {
        self.m[corner_index(cubicle)]
    }

    /// Apply a move and determine which cubies end up where.
    ///
    /// Each move induces a single 4-cycle on the corner slots; all four new
    /// assignments are computed from a snapshot of the old mapping.
    pub fn permute(&mut self, m: Move)
        ensures
            final(self)@ == spec_corner_permute(old(self)@, m),
            corner_perm_wf(old(self)@) ==> corner_perm_wf(final(self)@),
    {
        let cycle: (Corner, Corner, Corner, Corner) = match m {
            Move::F => (Corner::URF, Corner::DFR, Corner::DLF, Corner::UFL),
            Move::R => (Corner::UBR, Corner::DRB, Corner::DFR, Corner::URF),
            Move::U => (Corner::URF, Corner::UFL, Corner::ULB, Corner::UBR),
            Move::B => (Corner::ULB, Corner::DBL, Corner::DRB, Corner::UBR),
            Move::L => (Corner::UFL, Corner::DLF, Corner::DBL, Corner::ULB),
            Move::D => (Corner::DRB, Corner::DBL, Corner::DLF, Corner::DFR),
            Move::FPrime => (Corner::URF, Corner::UFL, Corner::DLF, Corner::DFR),
            Move::RPrime => (Corner::UBR, Corner::URF, Corner::DFR, Corner::DRB),
            Move::UPrime => (Corner::URF, Corner::UBR, Corner::ULB, Corner::UFL),
            Move::BPrime => (Corner::ULB, Corner::UBR, Corner::DRB, Corner::DBL),
            Move::LPrime => (Corner::UFL, Corner::ULB, Corner::DBL, Corner::DLF),
            Move::DPrime => (Corner::DRB, Corner::DFR, Corner::DLF, Corner::DBL),
        };
        let snapshot = self.m;
        self.m[corner_index(cycle.1)] = snapshot[corner_index(cycle.0)];
        self.m[corner_index(cycle.2)] = snapshot[corner_index(cycle.1)];
        self.m[corner_index(cycle.3)] = snapshot[corner_index(cycle.2)];
        self.m[corner_index(cycle.0)] = snapshot[corner_index(cycle.3)];
        proof {
            reveal(corner_src);
            assert(self.m@ =~= spec_corner_permute(old(self)@, m));
            if corner_perm_wf(old(self)@) {
                lemma_move_tables(m);
                let t = corner_src(m);
                let u = corner_src(inverse_move(m));
                assert forall|i: int, j: int|
                    0 <= i < j < 8 implies self.m@[i] != self.m@[j] by {
                    if self.m@[i] == self.m@[j] {
                        assert(old(self)@[t[i]] == old(self)@[t[j]]);
                        assert(u[t[i]] == u[t[j]]);
                    }
                }
            }
        }
    }

    /// The disjoint cycles of the current assignment over slot indices,
    /// longest first: the diagnostic view of the permutation.
    pub fn cycles(&self) -> (r: Vec<Vec<u8>>)
        requires
            corner_perm_wf(self@),
        ensures
            cycle_decomposition_of(
                Seq::new(8, |k: int| spec_corner_index(self@[k]) as u8),
                r.deep_view(),
            ),
    {
        let mut p: Vec<u8> = Vec::new();
        let mut i: usize = 0;
        while i < 8
            invariant
                i <= 8,
                p@.len() == i,
                forall|k: int| 0 <= k < i ==> #[trigger] p@[k] == spec_corner_index(self@[k]) as u8,
            decreases 8 - i,
        {
            p.push(corner_index(self.m[i]) as u8);
            i = i + 1;
        }
        proof {
            assert(p@ =~= Seq::new(8, |k: int| spec_corner_index(self@[k]) as u8));
            assert(forall|k: int| 0 <= k < 8 ==> #[trigger] p@[k] < 8);
            assert forall|i1: int, i2: int| 0 <= i1 < i2 < 8 implies p@[i1] != p@[i2] by {
                assert(self@[i1] != self@[i2]);
                assert(forall|a: Corner, b: Corner|
                    a != b ==> spec_corner_index(a) != spec_corner_index(b));
            }
        }
        disjoint_cycle_decompose(&p)
    }
}

/// Map edge cubicles to cubies.
#[derive(Clone, Copy, Eq, PartialEq, Debug)]
pub struct EdgePermutation {
    m: [Edge; 12],
}

impl View for EdgePermutation {
    type V = Seq<Edge>;

    closed spec fn view(&self) -> Seq<Edge> {
        self.m@
    }
}

impl EdgePermutation {
    /// Create a new solved permutation.
    pub fn new() -> (s: EdgePermutation)
        ensures
            s@ == edge_identity(),
            edge_perm_wf(s@),
    {
        let s = EdgePermutation {
            m: [
                Edge::UB,
                Edge::UR,
                Edge::UF,
                Edge::UL,
                Edge::LB,
                Edge::RB,
                Edge::RF,
                Edge::LF,
                Edge::DB,
                Edge::DR,
                Edge::DF,
                Edge::DL,
            ],
        };
        proof {
            assert(s@ =~= edge_identity());
        }
        s
    }

    /// Get the cubie located in a particular cubicle.
    pub fn get(&self, cubicle: Edge) -> (e: Edge)
        ensures
            e == self@[spec_edge_index(cubicle)],
    {
        self.m[edge_index(cubicle)]
    }

    /// Apply a move and determine which cubies end up where.
    pub fn permute(&mut self, m: Move)
        ensures
            final(self)@ == spec_edge_permute(old(self)@, m),
            edge_perm_wf(old(self)@) ==> edge_perm_wf(final(self)@),
    {
        let cycle: (Edge, Edge, Edge, Edge) = match m {
            Move::F => (Edge::UF, Edge::RF, Edge::DF, Edge::LF),
            Move::R => (Edge::UR, Edge::RB, Edge::DR, Edge::RF),
            Move::U => (Edge::UB, Edge::UR, Edge::UF, Edge::UL),
            Move::B => (Edge::UB, Edge::LB, Edge::DB, Edge::RB),
            Move::L => (Edge::UL, Edge::LF, Edge::DL, Edge::LB),
            Move::D => (Edge::DF, Edge::DR, Edge::DB, Edge::DL),
            Move::FPrime => (Edge::UF, Edge::LF, Edge::DF, Edge::RF),
            Move::RPrime => (Edge::UR, Edge::RF, Edge::DR, Edge::RB),
            Move::UPrime => (Edge::UB, Edge::UL, Edge::UF, Edge::UR),
            Move::BPrime => (Edge::UB, Edge::RB, Edge::DB, Edge::LB),
            Move::LPrime => (Edge::UL, Edge::LB, Edge::DL, Edge::LF),
            Move::DPrime => (Edge::DF, Edge::DL, Edge::DB, Edge::DR),
        };
        let snapshot = self.m;
        self.m[edge_index(cycle.1)] = snapshot[edge_index(cycle.0)];
        self.m[edge_index(cycle.2)] = snapshot[edge_index(cycle.1)];
        self.m[edge_index(cycle.3)] = snapshot[edge_index(cycle.2)];
        self.m[edge_index(cycle.0)] = snapshot[edge_index(cycle.3)];
        proof {
            reveal(edge_src);
            assert(self.m@ =~= spec_edge_permute(old(self)@, m));
            if edge_perm_wf(old(self)@) {
                lemma_move_tables(m);
                let t = edge_src(m);
                let u = edge_src(inverse_move(m));
                assert forall|i: int, j: int|
                    0 <= i < j < 12 implies self.m@[i] != self.m@[j] by {
                    if self.m@[i] == self.m@[j] {
                        assert(old(self)@[t[i]] == old(self)@[t[j]]);
                        assert(u[t[i]] == u[t[j]]);
                    }
                }
            }
        }
    }

    /// The disjoint cycles of the current assignment over slot indices,
    /// longest first: the diagnostic view of the permutation.
    pub fn cycles(&self) -> (r: Vec<Vec<u8>>)
        requires
            edge_perm_wf(self@),
        ensures
            cycle_decomposition_of(
                Seq::new(12, |k: int| spec_edge_index(self@[k]) as u8),
                r.deep_view(),
            ),
    {
        let mut p: Vec<u8> = Vec::new();
        let mut i: usize = 0;
        while i < 12
            invariant
                i <= 12,
                p@.len() == i,
                forall|k: int| 0 <= k < i ==> #[trigger] p@[k] == spec_edge_index(self@[k]) as u8,
            decreases 12 - i,
        {
            p.push(edge_index(self.m[i]) as u8);
            i = i + 1;
        }
        proof {
            assert(p@ =~= Seq::new(12, |k: int| spec_edge_index(self@[k]) as u8));
            assert(forall|k: int| 0 <= k < 12 ==> #[trigger] p@[k] < 12);
            assert forall|i1: int, i2: int| 0 <= i1 < i2 < 12 implies p@[i1] != p@[i2] by {
                assert(self@[i1] != self@[i2]);
                assert(forall|a: Edge, b: Edge|
                    a != b ==> spec_edge_index(a) != spec_edge_index(b));
            }
        }
        disjoint_cycle_decompose(&p)
    }
}

/// Swap values in a corner orientation vector: entry `i` of the result is
/// entry `indices[i]` of the input, all read from one snapshot.
pub fn swap_x(values: [u8; 8], indices: &[u8; 8]) -> (r: [u8; 8])
    requires
        forall|i: int| 0 <= i < 8 ==> indices@[i] < 8,
    ensures
        r@ == Seq::new(8, |i: int| values@[indices@[i] as int]),
{
    let r = [
        values[indices[0] as usize],
        values[indices[1] as usize],
        values[indices[2] as usize],
        values[indices[3] as usize],
        values[indices[4] as usize],
        values[indices[5] as usize],
        values[indices[6] as usize],
        values[indices[7] as usize],
    ];
    proof {
        assert(r@ =~= Seq::new(8, |i: int| values@[indices@[i] as int]));
    }
    r
}

/// Add twist addends to a corner orientation vector, slotwise mod 3.
pub fn add_x(values: [u8; 8], addends: &[u8; 8]) -> (r: [u8; 8])
    requires
        forall|i: int| 0 <= i < 8 ==> values@[i] < 3,
        forall|i: int| 0 <= i < 8 ==> addends@[i] < 3,
    ensures
        r@ == Seq::new(8, |i: int| ((values@[i] + addends@[i]) % 3) as u8),
{
    let r = [
        (values[0] + addends[0]) % 3,
        (values[1] + addends[1]) % 3,
        (values[2] + addends[2]) % 3,
        (values[3] + addends[3]) % 3,
        (values[4] + addends[4]) % 3,
        (values[5] + addends[5]) % 3,
        (values[6] + addends[6]) % 3,
        (values[7] + addends[7]) % 3,
    ];
    proof {
        assert(r@ =~= Seq::new(8, |i: int| ((values@[i] + addends@[i]) % 3) as u8));
    }
    r
}

/// Swap values in an edge orientation vector.
pub fn swap_y(values: [u8; 12], indices: &[u8; 12]) -> (r: [u8; 12])
    requires
        forall|i: int| 0 <= i < 12 ==> indices@[i] < 12,
    ensures
        r@ == Seq::new(12, |i: int| values@[indices@[i] as int]),
{
    let r = [
        values[indices[0] as usize],
        values[indices[1] as usize],
        values[indices[2] as usize],
        values[indices[3] as usize],
        values[indices[4] as usize],
        values[indices[5] as usize],
        values[indices[6] as usize],
        values[indices[7] as usize],
        values[indices[8] as usize],
        values[indices[9] as usize],
        values[indices[10] as usize],
        values[indices[11] as usize],
    ];
    proof {
        assert(r@ =~= Seq::new(12, |i: int| values@[indices@[i] as int]));
    }
    r
}

/// Add flip addends to an edge orientation vector, slotwise mod 2.
#[verifier::rlimit(100)]
pub fn add_y(values: [u8; 12], addends: &[u8; 12]) -> (r: [u8; 12])
    requires
        forall|i: int| 0 <= i < 12 ==> values@[i] < 2,
        forall|i: int| 0 <= i < 12 ==> addends@[i] < 2,
    ensures
        r@ == Seq::new(12, |i: int| ((values@[i] + addends@[i]) % 2) as u8),
{
    let r = [
        (values[0] + addends[0]) % 2,
        (values[1] + addends[1]) % 2,
        (values[2] + addends[2]) % 2,
        (values[3] + addends[3]) % 2,
        (values[4] + addends[4]) % 2,
        (values[5] + addends[5]) % 2,
        (values[6] + addends[6]) % 2,
        (values[7] + addends[7]) % 2,
        (values[8] + addends[8]) % 2,
        (values[9] + addends[9]) % 2,
        (values[10] + addends[10]) % 2,
        (values[11] + addends[11]) % 2,
    ];
    proof {
        assert(r@ =~= Seq::new(12, |i: int| ((values@[i] + addends@[i]) % 2) as u8));
    }
    r
}

/// Maintain the state information for a Rubik's cube.
#[derive(Clone, Copy, Eq, PartialEq, Debug)]
pub struct Cube {
    sigma: CornerPermutation,
    tau: EdgePermutation,
    x: [u8; 8],
    y: [u8; 12],
}

impl View for Cube {
    type V = CubeView;

    closed spec fn view(&self) -> CubeView {
        CubeView { sigma: self.sigma@, tau: self.tau@, x: self.x@, y: self.y@ }
    }
}

impl Cube {
    /// Well-formedness of the cube's state.
    pub open spec fn wf(&self) -> bool {
        cube_view_wf(self@)
    }

    /// Create a new cube in the solved state.
    pub fn new() -> (c: Cube)
        ensures
            c.wf(),
            cube_solved(c@),
    {
        let c = Cube {
            sigma: CornerPermutation::new(),
            tau: EdgePermutation::new(),
            x: [0u8; 8],
            y: [0u8; 12],
        };
        proof {
            assert(c@ =~= solved_view());
        }
        c
    }

    /// Apply a single move to the cube: permute both cubicle-to-cubie
    /// assignments along the move's 4-cycles, then update both orientation
    /// vectors by the move's swap/addend tables.
    pub fn apply_move(&mut self, m: Move)
        requires
            old(self).wf(),
        ensures
            final(self).wf(),
            final(self)@ == spec_apply_move(old(self)@, m),
    {
        // Compute sigma and tau
        self.sigma.permute(m);
        self.tau.permute(m);

        // Compute the corner orientation vector
        let (swap_indices, addends): ([u8; 8], [u8; 8]) = match m {
            Move::F => ([5, 0, 2, 3, 4, 6, 1, 7], [1, 2, 0, 0, 0, 2, 1, 0]),
            Move::R => ([0, 6, 1, 3, 4, 5, 7, 2], [0, 1, 2, 0, 0, 0, 2, 1]),
            Move::U => ([1, 2, 3, 0, 4, 5, 6, 7], [0u8; 8]),
            Move::B => ([0, 1, 7, 2, 3, 5, 6, 4], [0, 0, 1, 2, 1, 0, 0, 2]),
            Move::L => ([3, 1, 2, 4, 5, 0, 6, 7], [2, 0, 0, 1, 2, 1, 0, 0]),
            Move::D => ([0, 1, 2, 3, 7, 4, 5, 6], [0u8; 8]),
            Move::FPrime => ([1, 6, 2, 3, 4, 0, 5, 7], [1, 2, 0, 0, 0, 2, 1, 0]),
            Move::RPrime => ([0, 2, 7, 3, 4, 5, 1, 6], [0, 1, 2, 0, 0, 0, 2, 1]),
            Move::UPrime => ([3, 0, 1, 2, 4, 5, 6, 7], [0u8; 8]),
            Move::BPrime => ([0, 1, 3, 4, 7, 5, 6, 2], [0, 0, 1, 2, 1, 0, 0, 2]),
            Move::LPrime => ([5, 1, 2, 0, 3, 4, 6, 7], [2, 0, 0, 1, 2, 1, 0, 0]),
            Move::DPrime => ([0, 1, 2, 3, 5, 6, 7, 4], [0u8; 8]),
        };
        proof {
            reveal(corner_src);
            reveal(corner_addends);
            assert(forall|i: int| 0 <= i < 8 ==> swap_indices@[i] == corner_src(m)[i]);
            assert(forall|i: int| 0 <= i < 8 ==> addends@[i] == corner_addends(m)[i]);
        }
        self.x = swap_x(self.x, &swap_indices);
        self.x = add_x(self.x, &addends);
        proof {
            assert(self.x@ =~= spec_corner_orient(old(self)@.x, m));
        }

        // Compute the edge orientation vector
        let (swap_indices, addends): ([u8; 12], [u8; 12]) = match m {
            Move::F => ([0, 1, 7, 3, 4, 5, 2, 10, 8, 9, 6, 11], [0, 0, 1, 0, 0, 0, 1, 1, 0, 0, 1, 0]),
            Move::R => ([0, 6, 2, 3, 4, 1, 9, 7, 8, 5, 10, 11], [0u8; 12]),
            Move::U => ([3, 0, 1, 2, 4, 5, 6, 7, 8, 9, 10, 11], [0u8; 12]),
            Move::B => ([5, 1, 2, 3, 0, 8, 6, 7, 4, 9, 10, 11], [1, 0, 0, 0, 1, 1, 0, 0, 1, 0, 0, 0]),
            Move::L => ([0, 1, 2, 4, 11, 5, 6, 3, 8, 9, 10, 7], [0u8; 12]),
            Move::D => ([0, 1, 2, 3, 4, 5, 6, 7, 9, 10, 11, 8], [0u8; 12]),
            Move::FPrime => ([0, 1, 6, 3, 4, 5, 10, 2, 8, 9, 7, 11], [0, 0, 1, 0, 0, 0, 1, 1, 0, 0, 1, 0]),
            Move::RPrime => ([0, 5, 2, 3, 4, 9, 1, 7, 8, 6, 10, 11], [0u8; 12]),
            Move::UPrime => ([1, 2, 3, 0, 4, 5, 6, 7, 8, 9, 10, 11], [0u8; 12]),
            Move::BPrime => ([4, 1, 2, 3, 8, 0, 6, 7, 5, 9, 10, 11], [1, 0, 0, 0, 1, 1, 0, 0, 1, 0, 0, 0]),
            Move::LPrime => ([0, 1, 2, 7, 3, 5, 6, 11, 8, 9, 10, 4], [0u8; 12]),
            Move::DPrime => ([0, 1, 2, 3, 4, 5, 6, 7, 11, 8, 9, 10], [0u8; 12]),
        };
        proof {
            reveal(edge_src);
            reveal(edge_addends);
            assert(forall|i: int| 0 <= i < 12 ==> swap_indices@[i] == edge_src(m)[i]);
            assert(forall|i: int| 0 <= i < 12 ==> addends@[i] == edge_addends(m)[i]);
        }
        self.y = swap_y(self.y, &swap_indices);
        self.y = add_y(self.y, &addends);
        proof {
            assert(self.y@ =~= spec_edge_orient(old(self)@.y, m));
            assert(self@ =~= spec_apply_move(old(self)@, m));
            lemma_apply_move_wf(old(self)@, m);
        }
    }

    /// Determine whether the cube is in the solved state.
    pub fn is_solved(&self) -> (r: bool)
        ensures
            r == cube_solved(self@),
    {
        let sigma_id = self.sigma.m[0] == Corner::UFL && self.sigma.m[1] == Corner::URF
            && self.sigma.m[2] == Corner::UBR && self.sigma.m[3] == Corner::ULB
            && self.sigma.m[4] == Corner::DBL && self.sigma.m[5] == Corner::DLF
            && self.sigma.m[6] == Corner::DFR && self.sigma.m[7] == Corner::DRB;
        let tau_id = self.tau.m[0] == Edge::UB && self.tau.m[1] == Edge::UR
            && self.tau.m[2] == Edge::UF && self.tau.m[3] == Edge::UL
            && self.tau.m[4] == Edge::LB && self.tau.m[5] == Edge::RB
            && self.tau.m[6] == Edge::RF && self.tau.m[7] == Edge::LF
            && self.tau.m[8] == Edge::DB && self.tau.m[9] == Edge::DR
            && self.tau.m[10] == Edge::DF && self.tau.m[11] == Edge::DL;
        let x_zero = self.x[0] == 0 && self.x[1] == 0 && self.x[2] == 0 && self.x[3] == 0
            && self.x[4] == 0 && self.x[5] == 0 && self.x[6] == 0 && self.x[7] == 0;
        let y_zero = self.y[0] == 0 && self.y[1] == 0 && self.y[2] == 0 && self.y[3] == 0
            && self.y[4] == 0 && self.y[5] == 0 && self.y[6] == 0 && self.y[7] == 0
            && self.y[8] == 0 && self.y[9] == 0 && self.y[10] == 0 && self.y[11] == 0;
        let r = sigma_id && tau_id && x_zero && y_zero;
        proof {
            if r {
                assert(self@ =~= solved_view());
            } else {
                assert(self@ != solved_view());
            }
        }
        r
    }

    /// Get the cubie faces visible on one face of the cube. Faces are stored
    /// such that the top row of the face is in the first three elements, the
    /// next row is stored in the next three elements, and the bottom row is
    /// stored in the last three elements.
    #[verifier::spinoff_prover]
    #[verifier::rlimit(100)]
    pub fn get_face(&self, face: Face) -> (r: [Face; 9])
        ensures
            r@ == spec_get_face(self@, face),
    {
        // Find the corner cubicles located in this face clockwise from top left
        let corners: [Corner; 4] = match face {
            Face::F => [Corner::UFL, Corner::URF, Corner::DFR, Corner::DLF],
            Face::R => [Corner::URF, Corner::UBR, Corner::DRB, Corner::DFR],
            Face::U => [Corner::ULB, Corner::UBR, Corner::URF, Corner::UFL],
            Face::B => [Corner::UBR, Corner::ULB, Corner::DBL, Corner::DRB],
            Face::L => [Corner::ULB, Corner::UFL, Corner::DLF, Corner::DBL],
            Face::D => [Corner::DLF, Corner::DFR, Corner::DRB, Corner::DBL],
        };

        // Find the edge cubicles in the face clockwise from the top
        let edges: [Edge; 4] = match face {
            Face::F => [Edge::UF, Edge::RF, Edge::DF, Edge::LF],
            Face::R => [Edge::UR, Edge::RB, Edge::DR, Edge::RF],
            Face::U => [Edge::UB, Edge::UR, Edge::UF, Edge::UL],
            Face::B => [Edge::UB, Edge::LB, Edge::DB, Edge::RB],
            Face::L => [Edge::UL, Edge::LF, Edge::DL, Edge::LB],
            Face::D => [Edge::DF, Edge::DR, Edge::DB, Edge::DL],
        };
        proof {
            assert(corners@ =~= face_corners(face));
            assert(edges@ =~= face_edges(face));
        }

        // Find the visible face of each cubie of interest: resident cubie,
        // its orientation, and the cubicle's decomposition combined
        let c0 = get_corner_face(corners[0], self.sigma.get(corners[0]), face,
            self.get_corner_orientation(corners[0]));
        let c1 = get_corner_face(corners[1], self.sigma.get(corners[1]), face,
            self.get_corner_orientation(corners[1]));
        let c2 = get_corner_face(corners[2], self.sigma.get(corners[2]), face,
            self.get_corner_orientation(corners[2]));
        let c3 = get_corner_face(corners[3], self.sigma.get(corners[3]), face,
            self.get_corner_orientation(corners[3]));
        let e0 = get_edge_face(edges[0], self.tau.get(edges[0]), face,
            self.get_edge_orientation(edges[0]));
        let e1 = get_edge_face(edges[1], self.tau.get(edges[1]), face,
            self.get_edge_orientation(edges[1]));
        let e2 = get_edge_face(edges[2], self.tau.get(edges[2]), face,
            self.get_edge_orientation(edges[2]));
        let e3 = get_edge_face(edges[3], self.tau.get(edges[3]), face,
            self.get_edge_orientation(edges[3]));

        // Returned structure lists the faces clockwise from top left
        let r = [c0, e0, c1, e3, face, e1, c3, e2, c2];
        proof {
            assert(c0 == spec_corner_sticker(self@, face, face_corners(face)[0]));
            assert(c1 == spec_corner_sticker(self@, face, face_corners(face)[1]));
            assert(c2 == spec_corner_sticker(self@, face, face_corners(face)[2]));
            assert(c3 == spec_corner_sticker(self@, face, face_corners(face)[3]));
            assert(e0 == spec_edge_sticker(self@, face, face_edges(face)[0]));
            assert(e1 == spec_edge_sticker(self@, face, face_edges(face)[1]));
            assert(e2 == spec_edge_sticker(self@, face, face_edges(face)[2]));
            assert(e3 == spec_edge_sticker(self@, face, face_edges(face)[3]));
            assert(r@ =~= spec_get_face(self@, face));
        }
        r
    }


    /// Apply a random series of moves to scramble the cube.
    ///
    /// # Arguments
    /// move_count: The number of random moves to apply to the cube.
    pub fn scramble(&mut self, move_count: u8)
        requires
            old(self).wf(),
        ensures
            final(self).wf(),
            exists|ms: Seq<Move>|
                ms.len() == move_count && final(self)@ == spec_apply_seq(old(self)@, ms),
    {
        let moves: [Move; 12] = [
            Move::F,
            Move::R,
            Move::U,
            Move::B,
            Move::L,
            Move::D,
            Move::FPrime,
            Move::RPrime,
            Move::UPrime,
            Move::BPrime,
            Move::LPrime,
            Move::DPrime,
        ];
        let ghost mut ms: Seq<Move> = Seq::empty();
        let mut k: u8 = 0;
        while k < move_count
            invariant
                self.wf(),
                k <= move_count,
                ms.len() == k,
                self@ == spec_apply_seq(old(self)@, ms),
            decreases move_count - k,
        {
            let b: u8 = rand::random();
            let idx = (b % 12) as usize;
            let m = moves[idx];
            proof {
                lemma_apply_seq_push(old(self)@, ms, m);
            }
            self.apply_move(m);
            proof {
                ms = ms.push(m);
            }
            k = k + 1;
        }
        proof {
            assert(ms.len() == move_count && self@ == spec_apply_seq(old(self)@, ms));
        }
    }

    /// Apply a string of moves to a cube: tokens are a face letter out of
    /// FRUBLD, optionally followed by `2` (apply twice) or a prime mark
    /// (apply the inverse).
    ///
    /// # Arguments
    /// moves: A move or moves to apply to the cube, e.g. FRUU'R'F'
    pub fn apply_moves(&mut self, moves: &str)
        requires
            old(self).wf(),
            valid_notation(moves@),
        ensures
            final(self).wf(),
            final(self)@ == spec_apply_seq(old(self)@, parse_notation(moves@)),
    {
        let n = moves.unicode_len();
        let mut movelist: Vec<Move> = Vec::new();
        let mut i: usize = 0;
        proof {
            assert(moves@.skip(0) =~= moves@);
            assert(Seq::<Move>::empty() + parse_notation(moves@) =~= parse_notation(moves@));
        }
        while i < n
            invariant
                self@ == old(self)@,
                self.wf(),
                n == moves@.len(),
                i <= n,
                valid_notation(moves@.skip(i as int)),
                parse_notation(moves@) == movelist@ + parse_notation(moves@.skip(i as int)),
            decreases n - i,
        {
            let ghost ml0 = movelist@;
            let ghost rest = moves@.skip(i as int);
            let c = moves.get_char(i);
            proof {
                assert(rest[0] == moves@[i as int]);
            }
            if i + 1 < n && moves.get_char(i + 1) == '2' {
                let m0 = base_move_of(c);
                movelist.push(m0);
                movelist.push(m0);
                proof {
                    assert(rest[1] == moves@[i + 1]);
                    assert(rest.skip(2) =~= moves@.skip(i + 2));
                    assert(parse_notation(rest) == seq![m0, m0] + parse_notation(rest.skip(2)));
                    assert(movelist@ =~= ml0 + seq![m0, m0]);
                    assert(ml0 + (seq![m0, m0] + parse_notation(rest.skip(2)))
                        =~= movelist@ + parse_notation(rest.skip(2)));
                }
                i = i + 2;
            } else if i + 1 < n && is_prime_char_exec(moves.get_char(i + 1)) {
                let m0 = prime_move_of(c);
                movelist.push(m0);
                proof {
                    assert(rest[1] == moves@[i + 1]);
                    assert(rest.skip(2) =~= moves@.skip(i + 2));
                    assert(parse_notation(rest) == seq![m0] + parse_notation(rest.skip(2)));
                    assert(movelist@ =~= ml0 + seq![m0]);
                    assert(ml0 + (seq![m0] + parse_notation(rest.skip(2)))
                        =~= movelist@ + parse_notation(rest.skip(2)));
                }
                i = i + 2;
            } else {
                let m0 = base_move_of(c);
                movelist.push(m0);
                proof {
                    if i + 1 < n {
                        assert(rest[1] == moves@[i + 1]);
                    }
                    assert(rest.skip(1) =~= moves@.skip(i + 1));
                    assert(parse_notation(rest) == seq![m0] + parse_notation(rest.skip(1)));
                    assert(movelist@ =~= ml0 + seq![m0]);
                    assert(ml0 + (seq![m0] + parse_notation(rest.skip(1)))
                        =~= movelist@ + parse_notation(rest.skip(1)));
                }
                i = i + 1;
            }
        }
        proof {
            assert(moves@.skip(n as int) =~= Seq::<char>::empty());
            assert(parse_notation(moves@) =~= movelist@);
        }

        let ghost target = parse_notation(moves@);
        let mut j: usize = 0;
        while j < movelist.len()
            invariant
                self.wf(),
                j <= movelist.len(),
                movelist@ == target,
                self@ == spec_apply_seq(old(self)@, target.take(j as int)),
            decreases movelist.len() - j,
        {
            let m = movelist[j];
            proof {
                lemma_apply_seq_push(old(self)@, target.take(j as int), m);
                assert(target.take(j as int).push(m) =~= target.take(j as int + 1));
            }
            self.apply_move(m);
            j = j + 1;
        }
        proof {
            assert(target.take(movelist@.len() as int) =~= target);
        }
    }

    /// Solve the cube using the given method.
    ///
    /// Returns a vector of the moves used to solve the cube, which are also
    /// applied to the cube itself: a non-empty result leaves it solved, and
    /// an already-solved cube yields an empty result.
    pub fn solve<T: crate::solver::Solver>(&mut self, solver: &mut T) -> (moves: Vec<Move>)
        requires
            old(self).wf(),
        ensures
            final(self).wf(),
            final(self)@ == spec_apply_seq(old(self)@, moves@),
            moves@.len() > 0 ==> cube_solved(final(self)@),
            cube_solved(old(self)@) ==> moves@ == Seq::<Move>::empty(),
    {
        let moves = solver.find_solution(&*self);
        let ghost target = moves@;
        let mut j: usize = 0;
        while j < moves.len()
            invariant
                self.wf(),
                j <= moves.len(),
                moves@ == target,
                self@ == spec_apply_seq(old(self)@, target.take(j as int)),
            decreases moves.len() - j,
        {
            let m = moves[j];
            proof {
                lemma_apply_seq_push(old(self)@, target.take(j as int), m);
                assert(target.take(j as int).push(m) =~= target.take(j as int + 1));
            }
            self.apply_move(m);
            j = j + 1;
        }
        proof {
            assert(target.take(moves@.len() as int) =~= target);
        }
        moves
    }

    /// Get the orientation of a corner cubicle.
    fn get_corner_orientation(&self, c: Corner) -> (o: u8)
        ensures
            o == self@.x[spec_corner_index(c)],
    {
        self.x[corner_index(c)]
    }

    /// Get the orientation of an edge cubicle.
    fn get_edge_orientation(&self, e: Edge) -> (o: u8)
        ensures
            o == self@.y[spec_edge_index(e)],
    {
        self.y[edge_index(e)]
    }
}

/// A move leaves every well-formed state well-formed: the slot relocation is
/// itself a bijection, and the new orientation entries stay below the modulus.
pub proof fn lemma_apply_move_wf(v: CubeView, m: Move)
    requires
        cube_view_wf(v),
    ensures
        cube_view_wf(spec_apply_move(v, m)),
{
    lemma_move_tables(m);
    let w = spec_apply_move(v, m);
    let t = corner_src(m);
    let u = corner_src(inverse_move(m));
    assert forall|i: int, j: int| 0 <= i < j < 8 implies w.sigma[i] != w.sigma[j] by {
        if w.sigma[i] == w.sigma[j] {
            assert(v.sigma[t[i]] == v.sigma[t[j]]);
            assert(u[t[i]] == u[t[j]]);
        }
    }
    let te = edge_src(m);
    let ue = edge_src(inverse_move(m));
    assert forall|i: int, j: int| 0 <= i < j < 12 implies w.tau[i] != w.tau[j] by {
        if w.tau[i] == w.tau[j] {
            assert(v.tau[te[i]] == v.tau[te[j]]);
            assert(ue[te[i]] == ue[te[j]]);
        }
    }
}

/// Applying a move and then its declared inverse restores any well-formed
/// state; the moves compose to the identity transition.
/// Relocating by a table and then by its left inverse restores a sequence.
proof fn lemma_reindex_compose_id<T>(s: Seq<T>, t: Seq<int>, u: Seq<int>)
    requires
        t.len() == s.len(),
        u.len() == s.len(),
        forall|i: int| 0 <= i < s.len() ==> 0 <= #[trigger] t[i] < s.len(),
        forall|i: int| 0 <= i < s.len() ==> 0 <= #[trigger] u[i] < s.len(),
        forall|i: int| 0 <= i < s.len() ==> t[#[trigger] u[i]] == i,
    ensures
        reindex(reindex(s, t), u) == s,
{
    let s1 = reindex(s, t);
    let s2 = reindex(s1, u);
    assert forall|i: int| 0 <= i < s.len() implies s2[i] == s[i] by {
        assert(s2[i] == s1[u[i]]);
        assert(s1[u[i]] == s[t[u[i]]]);
    }
    assert(s2 =~= s);
}

/// Two orientation updates whose relocation tables compose to the identity
/// and whose addends cancel slotwise restore the orientation vector.
proof fn lemma_orient_compose_id(x: Seq<u8>, t: Seq<int>, a: Seq<int>, u: Seq<int>, b: Seq<int>, md: int)
    requires
        md == 2 || md == 3,
        t.len() == x.len(),
        a.len() == x.len(),
        u.len() == x.len(),
        b.len() == x.len(),
        forall|i: int| 0 <= i < x.len() ==> #[trigger] x[i] < md,
        forall|i: int| 0 <= i < x.len() ==> 0 <= #[trigger] t[i] < x.len(),
        forall|i: int| 0 <= i < x.len() ==> 0 <= #[trigger] a[i] < md,
        forall|i: int| 0 <= i < x.len() ==> 0 <= #[trigger] u[i] < x.len(),
        forall|i: int| 0 <= i < x.len() ==> 0 <= #[trigger] b[i] < md,
        forall|i: int| 0 <= i < x.len() ==> t[#[trigger] u[i]] == i,
        forall|i: int| 0 <= i < x.len() ==> (a[#[trigger] u[i]] + b[i]) % md == 0,
    ensures
        orient_step(orient_step(x, t, a, md), u, b, md) == x,
{
    let x1 = orient_step(x, t, a, md);
    let x2 = orient_step(x1, u, b, md);
    assert forall|i: int| 0 <= i < x.len() implies x2[i] == x[i] by {
        assert(x2[i] == ((x1[u[i]] + b[i]) % md) as u8);
        assert(x1[u[i]] == ((x[t[u[i]]] + a[u[i]]) % md) as u8);
        assert(x[t[u[i]]] == x[i]);
        assert((a[u[i]] + b[i]) % md == 0);
    }
    assert(x2 =~= x);
}

/// Relocating four times by a table whose fourth iterate is the identity
/// restores a sequence.
proof fn lemma_reindex_four_id<T>(s: Seq<T>, t: Seq<int>)
    requires
        t.len() == s.len(),
        forall|i: int| 0 <= i < s.len() ==> 0 <= #[trigger] t[i] < s.len(),
        forall|i: int| 0 <= i < s.len() ==> t[t[t[#[trigger] t[i]]]] == i,
    ensures
        reindex(reindex(reindex(reindex(s, t), t), t), t) == s,
{
    let s1 = reindex(s, t);
    let s2 = reindex(s1, t);
    let s3 = reindex(s2, t);
    let s4 = reindex(s3, t);
    assert forall|i: int| 0 <= i < s.len() implies s4[i] == s[i] by {
        assert(s4[i] == s3[t[i]]);
        assert(s3[t[i]] == s2[t[t[i]]]);
        assert(s2[t[t[i]]] == s1[t[t[t[i]]]]);
        assert(s1[t[t[t[i]]]] == s[t[t[t[t[i]]]]]);
    }
    assert(s4 =~= s);
}

/// One modular addition of a reduced value and an addend below the modulus
/// either stays put or wraps exactly once.
proof fn lemma_mod_step(p: int, a: int, md: int)
    requires
        0 < md,
        0 <= p < md,
        0 <= a < md,
    ensures
        p + a < md ==> (p + a) % md == p + a,
        p + a >= md ==> (p + a) % md == p + a - md,
{
    if p + a < md {
        vstd::arithmetic::div_mod::lemma_small_mod((p + a) as nat, md as nat);
    } else {
        vstd::arithmetic::div_mod::lemma_mod_sub_multiples_vanish(p + a, md);
        vstd::arithmetic::div_mod::lemma_small_mod((p + a - md) as nat, md as nat);
    }
}

/// Chained modular addition of four addends that cancel modulo `md` is the
/// identity on a reduced value.
proof fn lemma_mod_cancel4(p: int, a1: int, a2: int, a3: int, a4: int, md: int)
    requires
        0 < md,
        0 <= p < md,
        0 <= a1 < md,
        0 <= a2 < md,
        0 <= a3 < md,
        0 <= a4 < md,
        (a1 + a2 + a3 + a4) % md == 0,
    ensures
        (((((((p + a1) % md) + a2) % md) + a3) % md) + a4) % md == p,
{
    let p1 = (p + a1) % md;
    let p2 = (p1 + a2) % md;
    let p3 = (p2 + a3) % md;
    lemma_mod_step(p, a1, md);
    lemma_mod_step(p1, a2, md);
    lemma_mod_step(p2, a3, md);
    lemma_mod_step(p3, a4, md);
    let s = a1 + a2 + a3 + a4;
    assert(s == 0 || s == md || s == 2 * md || s == 3 * md) by {
        if s < md {
            vstd::arithmetic::div_mod::lemma_small_mod(s as nat, md as nat);
        } else if s < 2 * md {
            vstd::arithmetic::div_mod::lemma_mod_sub_multiples_vanish(s, md);
            vstd::arithmetic::div_mod::lemma_small_mod((s - md) as nat, md as nat);
        } else if s < 3 * md {
            vstd::arithmetic::div_mod::lemma_mod_sub_multiples_vanish(s, md);
            vstd::arithmetic::div_mod::lemma_mod_sub_multiples_vanish(s - md, md);
            vstd::arithmetic::div_mod::lemma_small_mod((s - 2 * md) as nat, md as nat);
        } else {
            vstd::arithmetic::div_mod::lemma_mod_sub_multiples_vanish(s, md);
            vstd::arithmetic::div_mod::lemma_mod_sub_multiples_vanish(s - md, md);
            vstd::arithmetic::div_mod::lemma_mod_sub_multiples_vanish(s - 2 * md, md);
            vstd::arithmetic::div_mod::lemma_small_mod((s - 3 * md) as nat, md as nat);
        }
    }
}

/// Four orientation updates by one move's tables restore the orientation
/// vector when the relocation has period four and the four addends gathered
/// along each slot's orbit cancel modulo `md`.
proof fn lemma_orient_four_id(x: Seq<u8>, t: Seq<int>, a: Seq<int>, md: int)
    requires
        md == 2 || md == 3,
        t.len() == x.len(),
        a.len() == x.len(),
        forall|i: int| 0 <= i < x.len() ==> #[trigger] x[i] < md,
        forall|i: int| 0 <= i < x.len() ==> 0 <= #[trigger] t[i] < x.len(),
        forall|i: int| 0 <= i < x.len() ==> 0 <= #[trigger] a[i] < md,
        forall|i: int| 0 <= i < x.len() ==> t[t[t[#[trigger] t[i]]]] == i,
        forall|i: int| 0 <= i < x.len() ==> (a[t[t[#[trigger] t[i]]]] + a[t[t[i]]] + a[t[i]] + a[i]) % md == 0,
    ensures
        orient_step(orient_step(orient_step(orient_step(x, t, a, md), t, a, md), t, a, md), t, a, md) == x,
{
    let x1 = orient_step(x, t, a, md);
    let x2 = orient_step(x1, t, a, md);
    let x3 = orient_step(x2, t, a, md);
    let x4 = orient_step(x3, t, a, md);
    assert forall|i: int| 0 <= i < x.len() implies x4[i] == x[i] by {
        assert(x4[i] == ((x3[t[i]] + a[i]) % md) as u8);
        assert(x3[t[i]] == ((x2[t[t[i]]] + a[t[i]]) % md) as u8);
        assert(x2[t[t[i]]] == ((x1[t[t[t[i]]]] + a[t[t[i]]]) % md) as u8);
        assert(x1[t[t[t[i]]]] == ((x[t[t[t[t[i]]]]] + a[t[t[t[i]]]]) % md) as u8);
        assert(x[t[t[t[t[i]]]]] == x[i]);
        assert((a[t[t[t[i]]]] + a[t[t[i]]] + a[t[i]] + a[i]) % md == 0) by {
            assert(t[t[t[t[i]]]] == i);
        }
        lemma_mod_cancel4(x[i] as int, a[t[t[t[i]]]], a[t[t[i]]], a[t[i]], a[i], md);
    }
    assert(x4 =~= x);
}

/// Applying a move and then its declared inverse restores any well-formed
/// state; the moves compose to the identity transition.
pub proof fn lemma_move_then_inverse(v: CubeView, m: Move)
    requires
        cube_view_wf(v),
    ensures
        spec_apply_move(spec_apply_move(v, m), inverse_move(m)) == v,
{
    lemma_move_tables(m);
    let mi = inverse_move(m);
    lemma_reindex_compose_id(v.sigma, corner_src(m), corner_src(mi));
    lemma_reindex_compose_id(v.tau, edge_src(m), edge_src(mi));
    lemma_orient_compose_id(v.x, corner_src(m), corner_addends(m), corner_src(mi), corner_addends(mi), 3);
    lemma_orient_compose_id(v.y, edge_src(m), edge_addends(m), edge_src(mi), edge_addends(mi), 2);
    assert(spec_apply_move(spec_apply_move(v, m), mi) =~= v);
}

/// Every single face turn has period four: applying the same move four times
/// returns any well-formed state to its pre-application value.
pub proof fn lemma_move_period_four(v: CubeView, m: Move)
    requires
        cube_view_wf(v),
    ensures
        spec_apply_move(spec_apply_move(spec_apply_move(spec_apply_move(v, m), m), m), m) == v,
{
    lemma_move_tables(m);
    lemma_move_tables_period(m);
    lemma_reindex_four_id(v.sigma, corner_src(m));
    lemma_reindex_four_id(v.tau, edge_src(m));
    lemma_orient_four_id(v.x, corner_src(m), corner_addends(m), 3);
    lemma_orient_four_id(v.y, edge_src(m), edge_addends(m), 2);
    assert(spec_apply_move(spec_apply_move(spec_apply_move(spec_apply_move(v, m), m), m), m) =~= v);
}

/// No single move leaves the solved state solved: each face turn displaces
/// at least one corner cubie.
pub proof fn lemma_move_unsolves(v: CubeView, m: Move)
    requires
        cube_solved(v),
    ensures
        !cube_solved(spec_apply_move(v, m)),
{
    reveal(corner_src);
    reveal(corner_addends);
    let w = spec_apply_move(v, m);
    match m {
        Move::F | Move::U | Move::L | Move::FPrime | Move::UPrime | Move::LPrime => {
            assert(w.sigma[0] != corner_identity()[0]);
        },
        Move::R | Move::RPrime => {
            assert(w.sigma[1] != corner_identity()[1]);
        },
        Move::B | Move::BPrime => {
            assert(w.sigma[2] != corner_identity()[2]);
        },
        Move::D | Move::DPrime => {
            assert(w.sigma[4] != corner_identity()[4]);
        },
    }
}

/// On a solved cube every face shows nine stickers of its own color.
#[verifier::rlimit(100)]
pub proof fn lemma_solved_face(f: Face)
    ensures
        spec_get_face(solved_view(), f) == Seq::new(9, |i: int| f),
{
    assert(spec_get_face(solved_view(), f) =~= Seq::new(9, |i: int| f));
}

/// The state after a sequence of moves, applied left to right.
pub open spec fn spec_apply_seq(v: CubeView, ms: Seq<Move>) -> CubeView
    decreases ms.len(),
{
    if ms.len() <= 0 {
        v
    } else {
        spec_apply_seq(spec_apply_move(v, ms[0]), ms.skip(1))
    }
}

/// A sequence of moves leaves a well-formed state well-formed.
pub proof fn lemma_apply_seq_wf(v: CubeView, ms: Seq<Move>)
    requires
        cube_view_wf(v),
    ensures
        cube_view_wf(spec_apply_seq(v, ms)),
    decreases ms.len(),
{
    if ms.len() > 0 {
        lemma_apply_move_wf(v, ms[0]);
        lemma_apply_seq_wf(spec_apply_move(v, ms[0]), ms.skip(1));
    }
}

/// Appending one move to a sequence applies it after the sequence.
pub proof fn lemma_apply_seq_push(v: CubeView, ms: Seq<Move>, m: Move)
    ensures
        spec_apply_seq(v, ms.push(m)) == spec_apply_move(spec_apply_seq(v, ms), m),
    decreases ms.len(),
{
    if ms.len() == 0 {
        assert(ms.push(m).skip(1) =~= Seq::<Move>::empty());
        assert(ms.push(m)[0] == m);
        assert(spec_apply_seq(v, ms.push(m))
            == spec_apply_seq(spec_apply_move(v, m), Seq::<Move>::empty()));
        assert(spec_apply_seq(spec_apply_move(v, m), Seq::<Move>::empty())
            == spec_apply_move(v, m));
        assert(spec_apply_seq(v, ms) == v);
    } else {
        assert(ms.push(m)[0] == ms[0]);
        assert(ms.push(m).skip(1) =~= ms.skip(1).push(m));
        lemma_apply_seq_push(spec_apply_move(v, ms[0]), ms.skip(1), m);
        assert(spec_apply_seq(v, ms.push(m))
            == spec_apply_seq(spec_apply_move(v, ms[0]), ms.skip(1).push(m)));
        assert(spec_apply_seq(v, ms) == spec_apply_seq(spec_apply_move(v, ms[0]), ms.skip(1)));
    }
}

/// The element-wise inverse of a move sequence, in reverse order.
pub open spec fn inverse_seq(ms: Seq<Move>) -> Seq<Move> {
    Seq::new(ms.len(), |i: int| inverse_move(ms[ms.len() - 1 - i]))
}

/// Round trip: applying a sequence of moves and then the sequence's
/// element-wise inverses in reverse order restores the original state.
pub proof fn lemma_apply_seq_round_trip(v: CubeView, ms: Seq<Move>)
    requires
        cube_view_wf(v),
    ensures
        spec_apply_seq(spec_apply_seq(v, ms), inverse_seq(ms)) == v,
    decreases ms.len(),
{
    if ms.len() == 0 {
        assert(inverse_seq(ms) =~= Seq::<Move>::empty());
    } else {
        let w = spec_apply_move(v, ms[0]);
        lemma_apply_move_wf(v, ms[0]);
        lemma_apply_seq_round_trip(w, ms.skip(1));
        // inverse_seq(ms) is inverse_seq(ms.skip(1)) with inverse_move(ms[0]) appended
        assert(inverse_seq(ms) =~= inverse_seq(ms.skip(1)).push(inverse_move(ms[0])));
        lemma_apply_seq_push(spec_apply_seq(v, ms), inverse_seq(ms.skip(1)), inverse_move(ms[0]));
        assert(spec_apply_seq(v, ms) == spec_apply_seq(w, ms.skip(1)));
        assert(spec_apply_seq(spec_apply_seq(v, ms), inverse_seq(ms.skip(1))) == w);
        lemma_move_then_inverse(v, ms[0]);
    }
}

/// In every well-formed state the corner assignment is a bijection: each of
/// the 8 corner cubies occupies exactly one slot, none is missing.
pub proof fn lemma_corner_perm_covers(s: Seq<Corner>)
    requires
        corner_perm_wf(s),
    ensures
        forall|c: Corner| s.contains(c),
{
    let t = Seq::new(8, |i: int| spec_corner_index(s[i]));
    assert forall|c: Corner| s.contains(c) by {
        assert(forall|a: Corner, b: Corner| spec_corner_index(a) == spec_corner_index(b) ==> a == b);
        lemma_int_pigeonhole(t, 8, spec_corner_index(c));
        let i = choose|i: int| 0 <= i < 8 && t[i] == spec_corner_index(c);
        assert(s[i] == c);
    }
}

/// In every well-formed state the edge assignment is a bijection: each of
/// the 12 edge cubies occupies exactly one slot, none is missing.
pub proof fn lemma_edge_perm_covers(s: Seq<Edge>)
    requires
        edge_perm_wf(s),
    ensures
        forall|e: Edge| s.contains(e),
{
    let t = Seq::new(12, |i: int| spec_edge_index(s[i]));
    assert forall|e: Edge| s.contains(e) by {
        assert(forall|a: Edge, b: Edge| spec_edge_index(a) == spec_edge_index(b) ==> a == b);
        lemma_int_pigeonhole(t, 12, spec_edge_index(e));
        let i = choose|i: int| 0 <= i < 12 && t[i] == spec_edge_index(e);
        assert(s[i] == e);
    }
}

/// Every state reachable from the solved cube by any sequence of moves is
/// well-formed, and its permutation mappings are bijections: the resident
/// cubies of the 8 corner slots are exactly the 8 corner cubies, and those
/// of the 12 edge slots exactly the 12 edge cubies.
pub proof fn lemma_reachable_state_bijective(ms: Seq<Move>)
    ensures
        cube_view_wf(spec_apply_seq(solved_view(), ms)),
        forall|c: Corner| spec_apply_seq(solved_view(), ms).sigma.contains(c),
        forall|e: Edge| spec_apply_seq(solved_view(), ms).tau.contains(e),
{
    assert(cube_view_wf(solved_view()));
    lemma_apply_seq_wf(solved_view(), ms);
    lemma_corner_perm_covers(spec_apply_seq(solved_view(), ms).sigma);
    lemma_edge_perm_covers(spec_apply_seq(solved_view(), ms).tau);
}

/// Pigeonhole: a duplicate-free sequence of `n` values drawn from `0..n`
/// attains every value in `0..n`.
proof fn lemma_int_pigeonhole(s: Seq<int>, n: int, v: int)
    requires
        s.len() == n,
        forall|i: int| 0 <= i < n ==> 0 <= #[trigger] s[i] < n,
        forall|i: int, j: int| 0 <= i < j < n ==> s[i] != s[j],
        0 <= v < n,
    ensures
        exists|i: int| 0 <= i < n && s[i] == v,
{
    if !(exists|i: int| 0 <= i < n && s[i] == v) {
        assert(s.no_duplicates());
        s.unique_seq_to_set();
        let range = vstd::set_lib::set_int_range(0, n);
        vstd::set_lib::lemma_int_range(0, n);
        let smaller = range.remove(v);
        assert(s.to_set().subset_of(smaller)) by {
            assert forall|x: int| s.to_set().contains(x) implies smaller.contains(x) by {
                assert(s.contains(x));
                let i = choose|i: int| 0 <= i < s.len() && s[i] == x;
                assert(0 <= x < n);
                assert(x != v);
            }
        }
        vstd::set_lib::lemma_len_subset(s.to_set(), smaller);
        assert(smaller.len() == n - 1);
        assert(false);
    }
}

/// Concrete facts about the per-move tables that the structural lemmas rely
/// on: the relocation tables of a move and of its inverse compose to the
/// identity in both orders, every table entry is in range, and the twist and
/// flip addends of a move and of its inverse cancel slotwise.
proof fn lemma_move_tables(m: Move)
    ensures
        corner_src(m).len() == 8,
        corner_addends(m).len() == 8,
        corner_src(inverse_move(m)).len() == 8,
        corner_addends(inverse_move(m)).len() == 8,
        edge_src(m).len() == 12,
        edge_addends(m).len() == 12,
        edge_src(inverse_move(m)).len() == 12,
        edge_addends(inverse_move(m)).len() == 12,
        forall|i: int| 0 <= i < 8 ==> 0 <= #[trigger] corner_addends(inverse_move(m))[i] < 3,
        forall|i: int| 0 <= i < 12 ==> 0 <= #[trigger] edge_addends(inverse_move(m))[i] < 2,
        forall|i: int| 0 <= i < 8 ==> 0 <= #[trigger] corner_src(m)[i] < 8,
        forall|i: int| 0 <= i < 8 ==> 0 <= #[trigger] corner_addends(m)[i] < 3,
        forall|i: int| 0 <= i < 8 ==> corner_src(inverse_move(m))[#[trigger] corner_src(m)[i]] == i,
        forall|i: int| 0 <= i < 8 ==> corner_src(m)[#[trigger] corner_src(inverse_move(m))[i]] == i,
        forall|i: int| 0 <= i < 8 ==> 0 <= #[trigger] corner_src(inverse_move(m))[i] < 8,
        forall|i: int| 0 <= i < 8 ==> (corner_addends(m)[corner_src(inverse_move(m))[i]]
            + corner_addends(inverse_move(m))[i]) % 3 == 0,
        forall|i: int| 0 <= i < 12 ==> 0 <= #[trigger] edge_src(m)[i] < 12,
        forall|i: int| 0 <= i < 12 ==> 0 <= #[trigger] edge_addends(m)[i] < 2,
        forall|i: int| 0 <= i < 12 ==> edge_src(inverse_move(m))[#[trigger] edge_src(m)[i]] == i,
        forall|i: int| 0 <= i < 12 ==> edge_src(m)[#[trigger] edge_src(inverse_move(m))[i]] == i,
        forall|i: int| 0 <= i < 12 ==> 0 <= #[trigger] edge_src(inverse_move(m))[i] < 12,
        forall|i: int| 0 <= i < 12 ==> (edge_addends(m)[edge_src(inverse_move(m))[i]]
            + edge_addends(inverse_move(m))[i]) % 2 == 0,
{
    reveal(corner_src);
    reveal(corner_addends);
    reveal(edge_src);
    reveal(edge_addends);
}

/// Concrete facts behind four-fold periodicity: iterating a move's slot
/// relocation four times is the identity, and the four twist/flip addends
/// accumulated along the way cancel modulo the orientation modulus.
proof fn lemma_move_tables_period(m: Move)
    ensures
        forall|i: int| 0 <= i < 8 ==>
            corner_src(m)[corner_src(m)[corner_src(m)[#[trigger] corner_src(m)[i]]]] == i,
        forall|i: int| 0 <= i < 8 ==> (corner_addends(m)[corner_src(m)[corner_src(m)[#[trigger] corner_src(m)[i]]]]
            + corner_addends(m)[corner_src(m)[corner_src(m)[i]]]
            + corner_addends(m)[corner_src(m)[i]]
            + corner_addends(m)[i]) % 3 == 0,
        forall|i: int| 0 <= i < 12 ==>
            edge_src(m)[edge_src(m)[edge_src(m)[#[trigger] edge_src(m)[i]]]] == i,
        forall|i: int| 0 <= i < 12 ==> (edge_addends(m)[edge_src(m)[edge_src(m)[#[trigger] edge_src(m)[i]]]]
            + edge_addends(m)[edge_src(m)[edge_src(m)[i]]]
            + edge_addends(m)[edge_src(m)[i]]
            + edge_addends(m)[i]) % 2 == 0,
{
    reveal(corner_src);
    reveal(corner_addends);
    reveal(edge_src);
    reveal(edge_addends);
}

/// Relies on rand::random to draw the random bytes that pick scramble moves;
/// nothing is assumed about the value drawn.
pub assume_specification<T>[ rand::random::<T> ]() -> (r: T)
    where
        rand::distributions::Standard: rand::distributions::Distribution<T>,
;

/// Perform a superflip on a cube: the applied sequence flips every edge in
/// its place, so starting from solved the result is not solved.
pub fn superflip(cube: &Cube) -> (c: Cube)
    requires
        cube.wf(),
    ensures
        c.wf(),
        c@ == spec_apply_seq(cube@, parse_notation("UR2FBRB2RU2LB2RU'D'R2FR'LB2U2F2"@)),
{
    let mut c = cube.clone();
    proof {
        reveal_strlit("UR2FBRB2RU2LB2RU'D'R2FR'LB2U2F2");
        assert(valid_notation("UR2FBRB2RU2LB2RU'D'R2FR'LB2U2F2"@)) by {
            reveal_with_fuel(valid_notation, 25);
        }
    }
    c.apply_moves("UR2FBRB2RU2LB2RU'D'R2FR'LB2U2F2");
    c
}

} // verus!
