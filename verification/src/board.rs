//! The board: a fixed 4x4 grid of tile ranks, with the pure shift/merge
//! arithmetic that underlies every move of the game.
use vstd::prelude::*;

verus! {

/// A tile's displayed value: 0 (empty), 1, 2, 3, 6, 12, 24, ...
pub type Rank = i32;

/// The board is WIDTH x WIDTH cells.
pub const WIDTH: usize = 4;

/// The largest rank reachable on a 4x4 grid: once a tile carries this value
/// no further combination of it is possible in practice.
pub const MAX_RANK: Rank = 98304;

/// The four push directions. Down and Right push toward increasing indices,
/// Up and Left toward decreasing indices.
#[derive(Clone, Copy, Debug, PartialEq, Eq, Hash, Structural)]
pub enum Direction {
    Down,
    Up,
    Left,
    Right,
}

/// The four directions in their canonical order.
pub fn all_directions() -> (r: [Direction; 4])
    ensures
        r@ =~= seq![Direction::Down, Direction::Up, Direction::Left, Direction::Right],
{
    let mut r: [Direction; 4] = [Direction::Down; 4];
    r[1] = Direction::Up;
    r[2] = Direction::Left;
    r[3] = Direction::Right;
    r
}

/// Ranks small enough that doubling one stays within `i32`.
pub open spec fn rank_ok(r: i32) -> bool {
    -0x4000_0000 < r && r < 0x4000_0000
}

/// The merge rule for two adjacent tiles:
/// an empty cell merges with nothing; 1 and 2 (in either order) merge to 3;
/// equal ranks other than 1 and 2 merge to their double; nothing else merges.
pub open spec fn spec_combine(a: i32, b: i32) -> Option<i32> {
    if a == 0 || b == 0 {
        None
    } else if (a == 1 && b == 2) || (a == 2 && b == 1) {
        Some(3i32)
    } else if a == b && a != 1 && a != 2 {
        Some((2 * a) as i32)
    } else {
        None
    }
}

/// Returns the merged rank for two adjacent tiles, or None when they do not merge.
pub fn combine(in1: Rank, in2: Rank) -> (r: Option<Rank>)
    requires
        rank_ok(in1),
        rank_ok(in2),
    ensures
        r == spec_combine(in1, in2),
{
    if in1 == 0 || in2 == 0 {
        None
    } else if (in1 == 1 && in2 == 2) || (in1 == 2 && in2 == 1) {
        Some(3)
    } else if in1 == in2 && !(in1 == 1 || in1 == 2) {
        Some(2 * in1)
    } else {
        None
    }
}

/// Every cell of a section (or of a whole board) is small enough to double.
pub open spec fn sec_ok(s: Seq<i32>) -> bool {
    forall|j: int| 0 <= j < s.len() ==> rank_ok(#[trigger] s[j])
}

/// One step of the downward shift scan: cells 0..3 are visited in order,
/// building `out` from an all-zero line. Once a gap or a merge has opened a
/// hole (`will_shift`), every later cell simply falls one position down.
pub open spec fn sd_step(s: Seq<i32>, i: int, out: Seq<i32>, will_shift: bool, moved: bool) -> (
    Seq<i32>,
    bool,
)
    decreases 3 - i,
{
    if i < 0 || i >= 3 {
        (out, moved)
    } else {
        let bot = s[i];
        let top = s[i + 1];
        if bot == 0 || will_shift {
            sd_step(s, i + 1, out.update(i, top), true, moved || top != 0)
        } else if spec_combine(bot, top) is Some {
            sd_step(s, i + 1, out.update(i, spec_combine(bot, top)->0), true, true)
        } else {
            sd_step(s, i + 1, out.update(i, bot).update(i + 1, top), will_shift, moved)
        }
    }
}

pub open spec fn zero4() -> Seq<i32> {
    seq![0i32, 0i32, 0i32, 0i32]
}

/// The full downward shift of one 4-cell line, and whether any cell moved.
pub open spec fn spec_shift_down(s: Seq<i32>) -> (Seq<i32>, bool) {
    sd_step(s, 0, zero4(), false, false)
}

pub open spec fn spec_rev4(s: Seq<i32>) -> Seq<i32> {
    seq![s[3], s[2], s[1], s[0]]
}

/// A shift toward increasing indices is the downward shift of the reversed line.
pub open spec fn spec_shift(s: Seq<i32>, increasing: bool) -> (Seq<i32>, bool) {
    if increasing {
        let r = spec_shift_down(spec_rev4(s));
        (spec_rev4(r.0), r.1)
    } else {
        spec_shift_down(s)
    }
}

/// Compacts a 4-cell line toward index 0, merging at most one adjacent pair.
/// Returns the new line and whether any cell actually moved.
pub fn shift_down(in_sec: &[Rank; 4]) -> (r: ([Rank; 4], bool))
    requires
        sec_ok(in_sec@),
    ensures
        r.0@ == spec_shift_down(in_sec@).0,
        r.1 == spec_shift_down(in_sec@).1,
{
    let mut out_sec: [Rank; 4] = [0; 4];
    // If we have a movement, then all following blocks will shift down and
    // will not combine.
    let mut will_shift = false;
    // Whether any cell actually moved, which is what the caller reports.
    let mut block_moved = false;
    proof {
        assert(out_sec@ =~= zero4());
    }
    for in_x in 0..3
        invariant
            sec_ok(in_sec@),
            in_sec@.len() == 4,
            out_sec@.len() == 4,
            spec_shift_down(in_sec@) == sd_step(
                in_sec@,
                in_x as int,
                out_sec@,
                will_shift,
                block_moved,
            ),
    {
        let bot = in_sec[in_x];
        let top = in_sec[in_x + 1];
        if bot == 0 || will_shift {
            out_sec[in_x] = top;
            will_shift = true;
            if top != 0 {
                block_moved = true;
            }
        } else if let Some(new_val) = combine(bot, top) {
            out_sec[in_x] = new_val;
            will_shift = true;
            block_moved = true;
        } else {
            out_sec[in_x] = bot;
            out_sec[in_x + 1] = top;
        }
    }
    (out_sec, block_moved)
}

/// Compacts a 4-cell line toward one end: toward index 3 when `increasing`,
/// toward index 0 otherwise. Returns the new line and whether any cell moved.
pub fn shift(in_sec: &[Rank; 4], increasing: bool) -> (r: ([Rank; 4], bool))
    requires
        sec_ok(in_sec@),
    ensures
        r.0@ == spec_shift(in_sec@, increasing).0,
        r.1 == spec_shift(in_sec@, increasing).1,
{
    if increasing {
        let mut rev: [Rank; 4] = [0; 4];
        rev[0] = in_sec[3];
        rev[1] = in_sec[2];
        rev[2] = in_sec[1];
        rev[3] = in_sec[0];
        proof {
            assert(rev@ =~= spec_rev4(in_sec@));
        }
        let (out, moved) = shift_down(&rev);
        let mut back: [Rank; 4] = [0; 4];
        back[0] = out[3];
        back[1] = out[2];
        back[2] = out[1];
        back[3] = out[0];
        proof {
            assert(back@ =~= spec_rev4(spec_shift_down(rev@).0));
        }
        (back, moved)
    } else {
        shift_down(in_sec)
    }
}

/// The sum of the four cells of a line, as an unbounded integer.
pub open spec fn sec_sum(s: Seq<i32>) -> int {
    s[0] + s[1] + s[2] + s[3]
}

/// Every cell of a line (or of a whole board) is non-negative.
pub open spec fn sec_nonneg(s: Seq<i32>) -> bool {
    forall|j: int| 0 <= j < s.len() ==> #[trigger] s[j] >= 0
}

/// Merging conserves value: the merged tile carries the sum of the pair.
pub proof fn lemma_combine_sum(a: i32, b: i32)
    requires
        rank_ok(a),
        rank_ok(b),
    ensures
        spec_combine(a, b) is Some ==> spec_combine(a, b)->0 == a + b,
{
}

/// Structural facts about one downward shift: the line keeps its length and
/// its total value; a line that reports no movement is unchanged; a line that
/// moved has an empty cell at its top end; non-negative lines stay so; an
/// all-zero line never reports movement.
pub proof fn lemma_shift_down_props(s: Seq<i32>)
    requires
        s.len() == 4,
        sec_ok(s),
    ensures
        spec_shift_down(s).0.len() == 4,
        sec_sum(spec_shift_down(s).0) == sec_sum(s),
        spec_shift_down(s).1 ==> spec_shift_down(s).0[3] == 0,
        !spec_shift_down(s).1 ==> spec_shift_down(s).0 =~= s,
        sec_nonneg(s) ==> sec_nonneg(spec_shift_down(s).0),
        (forall|j: int| 0 <= j < 4 ==> s[j] == 0) ==> !spec_shift_down(s).1,
{
    reveal_with_fuel(sd_step, 5);
    lemma_combine_sum(s[0], s[1]);
    lemma_combine_sum(s[1], s[2]);
    lemma_combine_sum(s[2], s[3]);
    assert(spec_shift_down(s).0 =~= spec_shift_down(s).0);
}

/// The index of the cell at the open end of a shifted line.
pub open spec fn open_slot(increasing: bool) -> int {
    if increasing {
        0
    } else {
        3
    }
}

/// The same structural facts for a shift in either orientation.
pub proof fn lemma_shift_props(s: Seq<i32>, increasing: bool)
    requires
        s.len() == 4,
        sec_ok(s),
    ensures
        spec_shift(s, increasing).0.len() == 4,
        sec_sum(spec_shift(s, increasing).0) == sec_sum(s),
        spec_shift(s, increasing).1 ==> spec_shift(s, increasing).0[open_slot(increasing)] == 0,
        !spec_shift(s, increasing).1 ==> spec_shift(s, increasing).0 =~= s,
        sec_nonneg(s) ==> sec_nonneg(spec_shift(s, increasing).0),
        (forall|j: int| 0 <= j < 4 ==> s[j] == 0) ==> !spec_shift(s, increasing).1,
{
    if increasing {
        let r = spec_rev4(s);
        assert(sec_ok(r));
        lemma_shift_down_props(r);
        let o = spec_shift_down(r).0;
        assert(spec_shift(s, increasing).0 == spec_rev4(o));
        if !spec_shift_down(r).1 {
            assert(spec_rev4(o) =~= s);
        }
    } else {
        lemma_shift_down_props(s);
    }
}

// ---------------------------------------------------------------------------
// The board itself
// ---------------------------------------------------------------------------
/// A 4x4 grid of ranks, row-major; cell (row, col) lives at index 4*row + col.
#[derive(Clone, Copy, Debug, PartialEq, Eq, Hash)]
pub struct Board {
    blocks: [Rank; 16],
}

impl View for Board {
    type V = Seq<i32>;

    closed spec fn view(&self) -> Seq<i32> {
        self.blocks@
    }
}

/// A board always views as exactly sixteen cells.
pub broadcast proof fn lemma_board_view_len(b: Board)
    ensures
        (#[trigger] b.view()).len() == 16,
{
}

pub open spec fn empty_board() -> Seq<i32> {
    Seq::new(16, |i: int| 0i32)
}

/// A well-sized board whose cells can all still be doubled without overflow.
pub open spec fn board_ok(b: Seq<i32>) -> bool {
    b.len() == 16 && sec_ok(b)
}

pub open spec fn spec_row(b: Seq<i32>, r: int) -> Seq<i32> {
    seq![b[4 * r], b[4 * r + 1], b[4 * r + 2], b[4 * r + 3]]
}

pub open spec fn spec_col(b: Seq<i32>, c: int) -> Seq<i32> {
    seq![b[c], b[4 + c], b[8 + c], b[12 + c]]
}

pub open spec fn spec_set_row(b: Seq<i32>, r: int, s: Seq<i32>) -> Seq<i32> {
    b.update(4 * r, s[0]).update(4 * r + 1, s[1]).update(4 * r + 2, s[2]).update(4 * r + 3, s[3])
}

pub open spec fn spec_set_col(b: Seq<i32>, c: int, s: Seq<i32>) -> Seq<i32> {
    b.update(c, s[0]).update(4 + c, s[1]).update(8 + c, s[2]).update(12 + c, s[3])
}

pub open spec fn spec_vertical(d: Direction) -> bool {
    d == Direction::Down || d == Direction::Up
}

pub open spec fn spec_increasing(d: Direction) -> bool {
    d == Direction::Down || d == Direction::Right
}

/// Section `i` of the board for direction `d`: column `i` for vertical pushes,
/// row `i` for horizontal ones.
pub open spec fn spec_section(b: Seq<i32>, d: Direction, i: int) -> Seq<i32> {
    if spec_vertical(d) {
        spec_col(b, i)
    } else {
        spec_row(b, i)
    }
}

pub open spec fn spec_put_section(b: Seq<i32>, d: Direction, i: int, s: Seq<i32>) -> Seq<i32> {
    if spec_vertical(d) {
        spec_set_col(b, i, s)
    } else {
        spec_set_row(b, i, s)
    }
}

/// Shoving shifts each of the four sections independently, writing a section
/// back only when it moved; the second component reports whether any moved.
pub open spec fn shove_rec(b: Seq<i32>, d: Direction, i: int) -> (Seq<i32>, bool)
    decreases 4 - i,
{
    if i < 0 || i >= 4 {
        (b, false)
    } else {
        let sh = spec_shift(spec_section(b, d, i), spec_increasing(d));
        let b2 = if sh.1 {
            spec_put_section(b, d, i, sh.0)
        } else {
            b
        };
        let rest = shove_rec(b2, d, i + 1);
        (rest.0, sh.1 || rest.1)
    }
}

pub open spec fn spec_shove(b: Seq<i32>, d: Direction) -> (Seq<i32>, bool) {
    shove_rec(b, d, 0)
}

/// The board cell at the open edge of section `i` after a push in `d`:
/// Down opens row 0, Up row 3, Left column 3, Right column 0.
pub open spec fn spec_open_cell(d: Direction, i: int) -> int {
    match d {
        Direction::Down => i,
        Direction::Up => 12 + i,
        Direction::Left => 4 * i + 3,
        Direction::Right => 4 * i,
    }
}

/// Writing one section back changes exactly that section, and changes the
/// board total by the difference of the section totals.
pub proof fn lemma_put_section(b: Seq<i32>, d: Direction, i: int, s: Seq<i32>)
    requires
        b.len() == 16,
        0 <= i < 4,
        s.len() == 4,
    ensures
        spec_put_section(b, d, i, s).len() == 16,
        spec_section(spec_put_section(b, d, i, s), d, i) =~= s,
        forall|j: int|
            0 <= j < 4 && j != i ==> spec_section(spec_put_section(b, d, i, s), d, j)
                =~= spec_section(b, d, j),
        board_sum(spec_put_section(b, d, i, s)) == board_sum(b) - sec_sum(spec_section(b, d, i))
            + sec_sum(s),
        sec_nonneg(b) && sec_nonneg(s) ==> sec_nonneg(spec_put_section(b, d, i, s)),
{
    let p = spec_put_section(b, d, i, s);
    if sec_nonneg(b) && sec_nonneg(s) {
        assert forall|j: int| 0 <= j < p.len() implies p[j] >= 0 by {
            assert(b[j] >= 0);
        }
    }
}

/// The sum of all sixteen cells, as an unbounded integer.
pub open spec fn board_sum(b: Seq<i32>) -> int {
    b[0] + b[1] + b[2] + b[3] + b[4] + b[5] + b[6] + b[7] + b[8] + b[9] + b[10] + b[11] + b[12]
        + b[13] + b[14] + b[15]
}

#[verifier::rlimit(50)]
pub proof fn lemma_shove_rec_props(b: Seq<i32>, d: Direction, i: int)
    requires
        b.len() == 16,
        0 <= i <= 4,
        forall|j: int| i <= j < 4 ==> sec_ok(#[trigger] spec_section(b, d, j)),
    ensures
        shove_rec(b, d, i).0.len() == 16,
        board_sum(shove_rec(b, d, i).0) == board_sum(b),
        !shove_rec(b, d, i).1 ==> shove_rec(b, d, i).0 =~= b,
        shove_rec(b, d, i).1 ==> exists|k: int|
            i <= k < 4 && shove_rec(b, d, i).0[spec_open_cell(d, k)] == 0,
        sec_nonneg(b) ==> sec_nonneg(shove_rec(b, d, i).0),
        forall|j: int|
            0 <= j < i ==> spec_section(shove_rec(b, d, i).0, d, j) == spec_section(b, d, j),
        (forall|j: int| 0 <= j < 16 ==> b[j] == 0) ==> !shove_rec(b, d, i).1,
    decreases 4 - i,
{
    if i >= 4 {
    } else {
        let sec = spec_section(b, d, i);
        lemma_shift_props(sec, spec_increasing(d));
        let sh = spec_shift(sec, spec_increasing(d));
        let b2 = if sh.1 {
            spec_put_section(b, d, i, sh.0)
        } else {
            b
        };
        if sh.1 {
            lemma_put_section(b, d, i, sh.0);
        }
        assert forall|j: int| i + 1 <= j < 4 implies sec_ok(#[trigger] spec_section(b2, d, j)) by {
            assert(sec_ok(spec_section(b, d, j)));
            if sh.1 {
                assert(spec_section(b2, d, j) =~= spec_section(b, d, j));
            }
        }
        lemma_shove_rec_props(b2, d, i + 1);
        let fin = shove_rec(b, d, i).0;
        assert(fin == shove_rec(b2, d, i + 1).0);
        if sh.1 {
            // the freed cell at the open edge of section i survives the rest
            assert(spec_section(fin, d, i) == spec_section(b2, d, i));
            assert(spec_section(b2, d, i)[open_slot(spec_increasing(d))] == 0);
            assert(spec_section(fin, d, i)[open_slot(spec_increasing(d))] == fin[spec_open_cell(
                d,
                i,
            )]);
            assert(fin[spec_open_cell(d, i)] == 0);
        }
        if shove_rec(b, d, i).1 && !sh.1 {
            assert(shove_rec(b2, d, i + 1).1);
        }
        if forall|j: int| 0 <= j < 16 ==> b[j] == 0 {
            assert(forall|j: int| 0 <= j < 4 ==> sec[j] == 0);
            assert(!sh.1);
        }
    }
}

/// Structural facts about a whole shove: the total value is conserved; a shove
/// that reports no movement leaves the board unchanged; one that moved has
/// opened at least one cell on the edge row or column for that direction;
/// non-negative boards stay non-negative; an all-zero board never moves.
pub proof fn lemma_shove_props(b: Seq<i32>, d: Direction)
    requires
        board_ok(b),
    ensures
        spec_shove(b, d).0.len() == 16,
        board_sum(spec_shove(b, d).0) == board_sum(b),
        !spec_shove(b, d).1 ==> spec_shove(b, d).0 =~= b,
        spec_shove(b, d).1 ==> exists|k: int|
            0 <= k < 4 && spec_shove(b, d).0[spec_open_cell(d, k)] == 0,
        sec_nonneg(b) ==> sec_nonneg(spec_shove(b, d).0),
        (forall|j: int| 0 <= j < 16 ==> b[j] == 0) ==> !spec_shove(b, d).1,
{
    assert forall|j: int| 0 <= j < 4 implies sec_ok(#[trigger] spec_section(b, d, j)) by {
        let s = spec_section(b, d, j);
        assert forall|k: int| 0 <= k < s.len() implies rank_ok(#[trigger] s[k]) by {
            assert(rank_ok(b[4 * j + k]));
            assert(rank_ok(b[4 * k + j]));
        }
    }
    lemma_shove_rec_props(b, d, 0);
}

impl Board {
    /// An empty board.
    pub fn new() -> (b: Board)
        ensures
            b@ == empty_board(),
    {
        let b = Board { blocks: [0; 16] };
        proof {
            assert(b@ =~= empty_board());
        }
        b
    }

    /// A board filled row by row from the given sections.
    pub fn from_rows(rows: &[[Rank; 4]; 4]) -> (b: Board)
        ensures
            b@.len() == 16,
            forall|i: int| 0 <= i < 4 ==> #[trigger] spec_row(b@, i) == rows@[i]@,
    {
        let mut board = Board::new();
        for i in 0..4
            invariant
                board@.len() == 16,
                forall|r: int, c: int|
                    0 <= r < i && 0 <= c < 4 ==> board@[4 * r + c] == #[trigger] rows@[r]@[c],
        {
            for c in 0..4
                invariant
                    0 <= i < 4,
                    board@.len() == 16,
                    forall|r: int, cc: int|
                        0 <= r < i && 0 <= cc < 4 ==> board@[4 * r + cc] == #[trigger] rows@[r]@[cc],
                    forall|cc: int|
                        0 <= cc < c ==> board@[4 * (i as int) + cc] == #[trigger] rows@[i as int]@[cc],
            {
                board.set_value(i, c, rows[i][c]);
            }
        }
        proof {
            assert forall|i: int| 0 <= i < 4 implies #[trigger] spec_row(board@, i) == rows@[i]@ by {
                assert(spec_row(board@, i) =~= rows@[i]@);
            }
        }
        board
    }

    /// Whether every cell is empty.
    pub fn is_empty(&self) -> (e: bool)
        ensures
            e == (self@ == empty_board()),
    {
        let mut i: usize = 0;
        while i < 16
            invariant
                0 <= i <= 16,
                forall|j: int| 0 <= j < i ==> self@[j] == 0,
            decreases 16 - i,
        {
            if self.blocks[i] != 0 {
                proof {
                    assert(self@[i as int] != 0);
                    assert(empty_board()[i as int] == 0);
                }
                return false;
            }
            i = i + 1;
        }
        proof {
            assert(self@ =~= empty_board());
        }
        true
    }

    /// The four cells of row `r`.
    pub fn get_row(&self, r: usize) -> (s: [Rank; 4])
        requires
            r < 4,
        ensures
            s@ == spec_row(self@, r as int),
    {
        let mut s: [Rank; 4] = [0; 4];
        s[0] = self.blocks[r * 4];
        s[1] = self.blocks[r * 4 + 1];
        s[2] = self.blocks[r * 4 + 2];
        s[3] = self.blocks[r * 4 + 3];
        proof {
            assert(s@ =~= spec_row(self@, r as int));
        }
        s
    }

    /// Replaces row `r` with the given cells.
    pub fn set_row(&mut self, r: usize, sec: &[Rank; 4])
        requires
            r < 4,
        ensures
            final(self)@ == spec_set_row(old(self)@, r as int, sec@),
    {
        self.blocks[r * 4] = sec[0];
        self.blocks[r * 4 + 1] = sec[1];
        self.blocks[r * 4 + 2] = sec[2];
        self.blocks[r * 4 + 3] = sec[3];
        proof {
            assert(self@ =~= spec_set_row(old(self)@, r as int, sec@));
        }
    }

    /// All four rows, top to bottom.
    pub fn rows(&self) -> (rs: [[Rank; 4]; 4])
        ensures
            forall|i: int| 0 <= i < 4 ==> #[trigger] rs@[i]@ == spec_row(self@, i),
    {
        let mut rs: [[Rank; 4]; 4] = [[0; 4]; 4];
        rs[0] = self.get_row(0);
        rs[1] = self.get_row(1);
        rs[2] = self.get_row(2);
        rs[3] = self.get_row(3);
        rs
    }

    /// The four cells of column `c`.
    pub fn get_col(&self, c: usize) -> (s: [Rank; 4])
        requires
            c < 4,
        ensures
            s@ == spec_col(self@, c as int),
    {
        let mut s: [Rank; 4] = [0; 4];
        s[0] = self.blocks[c];
        s[1] = self.blocks[4 + c];
        s[2] = self.blocks[8 + c];
        s[3] = self.blocks[12 + c];
        proof {
            assert(s@ =~= spec_col(self@, c as int));
        }
        s
    }

    /// Replaces column `c` with the given cells.
    pub fn set_col(&mut self, c: usize, sec: &[Rank; 4])
        requires
            c < 4,
        ensures
            final(self)@ == spec_set_col(old(self)@, c as int, sec@),
    {
        self.blocks[c] = sec[0];
        self.blocks[4 + c] = sec[1];
        self.blocks[8 + c] = sec[2];
        self.blocks[12 + c] = sec[3];
        proof {
            assert(self@ =~= spec_set_col(old(self)@, c as int, sec@));
        }
    }

    /// All four columns, left to right.
    pub fn cols(&self) -> (cs: [[Rank; 4]; 4])
        ensures
            forall|i: int| 0 <= i < 4 ==> #[trigger] cs@[i]@ == spec_col(self@, i),
    {
        let mut cs: [[Rank; 4]; 4] = [[0; 4]; 4];
        cs[0] = self.get_col(0);
        cs[1] = self.get_col(1);
        cs[2] = self.get_col(2);
        cs[3] = self.get_col(3);
        cs
    }

    /// A snapshot of all sixteen cells, row-major.
    pub fn values(&self) -> (v: [Rank; 16])
        ensures
            v@ == self@,
    {
        self.blocks
    }

    /// Writes one cell.
    pub fn set_value(&mut self, row: usize, col: usize, value: Rank)
        requires
            row < 4,
            col < 4,
        ensures
            final(self)@ == old(self)@.update(4 * (row as int) + col as int, value),
    {
        self.blocks[row * 4 + col] = value;
    }

    /// Pushes the whole board in direction `d`, shifting every row or column;
    /// returns whether any cell moved.
    pub fn shove(&mut self, d: Direction) -> (moved: bool)
        requires
            board_ok(old(self)@),
        ensures
            final(self)@ == spec_shove(old(self)@, d).0,
            moved == spec_shove(old(self)@, d).1,
    {
        let increasing = matches!(d, Direction::Down | Direction::Right);
        let vertical = matches!(d, Direction::Down | Direction::Up);
        let mut modified = false;
        let ghost b0 = self@;
        for i in 0..4
            invariant
                self@.len() == 16,
                b0.len() == 16,
                increasing == spec_increasing(d),
                vertical == spec_vertical(d),
                forall|j: int| i <= j < 4 ==> spec_section(self@, d, j) == spec_section(b0, d, j),
                sec_ok(b0),
                spec_shove(b0, d).0 == shove_rec(self@, d, i as int).0,
                spec_shove(b0, d).1 == (modified || shove_rec(self@, d, i as int).1),
        {
            let section = if vertical {
                self.get_col(i)
            } else {
                self.get_row(i)
            };
            proof {
                assert(section@ == spec_section(self@, d, i as int));
                assert(section@ == spec_section(b0, d, i as int));
                assert forall|k: int| 0 <= k < section@.len() implies rank_ok(
                    #[trigger] section@[k],
                ) by {
                    assert(rank_ok(b0[4 * (i as int) + k]));
                    assert(rank_ok(b0[4 * k + i as int]));
                }
            }
            let (new_sec, sec_moved) = shift(&section, increasing);
            let ghost before = self@;
            if sec_moved {
                modified = true;
                if vertical {
                    self.set_col(i, &new_sec);
                } else {
                    self.set_row(i, &new_sec);
                }
                proof {
                    lemma_shift_props(section@, increasing);
                    lemma_put_section(before, d, i as int, new_sec@);
                    assert forall|j: int| i + 1 <= j < 4 implies spec_section(self@, d, j)
                        == spec_section(b0, d, j) by {
                        assert(spec_section(self@, d, j) =~= spec_section(before, d, j));
                    }
                }
            }
        }
        modified
    }
}

// ---------------------------------------------------------------------------
// Laws of the shift
// ---------------------------------------------------------------------------
/// A line already compacted toward the push direction: no empty cell stands
/// between the push end and any tile.
pub open spec fn compacted(s: Seq<i32>, increasing: bool) -> bool {
    if increasing {
        forall|i: int| 0 <= i < 3 ==> (#[trigger] s[i + 1] == 0 ==> s[i] == 0)
    } else {
        forall|i: int| 0 <= i < 3 ==> (#[trigger] s[i] == 0 ==> s[i + 1] == 0)
    }
}

/// No two adjacent cells of the line can merge.
pub open spec fn no_adjacent_merge(s: Seq<i32>) -> bool {
    forall|i: int| 0 <= i < 3 ==> #[trigger] spec_combine(s[i], s[i + 1]) is None
}

/// Law: shifting a fully compacted line with no mergeable adjacent pair
/// reports no movement and returns the identical line.
pub proof fn lemma_shift_idempotent(s: Seq<i32>, increasing: bool)
    requires
        s.len() == 4,
        compacted(s, increasing),
        no_adjacent_merge(s),
    ensures
        spec_shift(s, increasing).0 =~= s,
        !spec_shift(s, increasing).1,
{
    reveal_with_fuel(sd_step, 5);
    if increasing {
        let r = spec_rev4(s);
        assert(compacted(r, false));
        assert forall|i: int| 0 <= i < 3 implies #[trigger] spec_combine(r[i], r[i + 1]) is None by {
            assert(spec_combine(s[2 - i], s[3 - i]) is None);
        }
        assert(spec_shift_down(r).0 =~= r);
        assert(spec_rev4(spec_shift_down(r).0) =~= s);
    } else {
        assert(spec_shift_down(s).0 =~= s);
    }
}

/// Law: a line of four equal mergeable tiles merges exactly one pair per
/// pass: the pair at the push end becomes their double, the rest fall one
/// place, and no second merge happens in the same pass.
pub proof fn lemma_single_merge_per_pass(v: i32)
    requires
        rank_ok(v),
        v != 0,
        v != 1,
        v != 2,
    ensures
        spec_shift_down(seq![v, v, v, v]).0 =~= seq![(2 * v) as i32, v, v, 0i32],
        spec_shift_down(seq![v, v, v, v]).1,
{
    reveal_with_fuel(sd_step, 5);
    assert(spec_shift_down(seq![v, v, v, v]).0 =~= seq![(2 * v) as i32, v, v, 0i32]);
}

} // verus!
