//! The game state machine: a board, the per-direction move cache, the
//! deterministic spawn policy, scoring, and terminal detection.
use crate::board;
use crate::board::{
    board_ok, board_sum, empty_board, lemma_put_section, lemma_shift_props, lemma_shove_props,
    rank_ok, sec_nonneg, sec_ok, spec_combine, spec_increasing, spec_open_cell, spec_row,
    spec_section, spec_shove, shove_rec, Board, Direction, Rank,
};
use crate::render;
use crate::render::{spec_cell_blank, spec_row_chars};
use crate::rng;
use crate::rng::xoshiro_stream;
use vstd::prelude::*;
use vstd::string::StringExecFns;

verus! {

broadcast use crate::board::lemma_board_view_len;

pub type Score = i64;

/// Updates beyond this count are refused so that rank and counter arithmetic
/// can never overflow; no real game comes near it.
pub const MAX_MOVES: i32 = 0x0800_0000;

// ---------------------------------------------------------------------------
// Scoring
// ---------------------------------------------------------------------------
pub open spec fn pow3(k: nat) -> int
    decreases k,
{
    if k == 0 {
        1
    } else {
        3 * pow3((k - 1) as nat)
    }
}

pub open spec fn pow2s(k: nat) -> int
    decreases k,
{
    if k == 0 {
        1
    } else {
        2 * pow2s((k - 1) as nat)
    }
}

/// The score one tile contributes: a rank 3 * 2^k scores 3^(k+1), so doubling
/// a tile triples its score; the seed tiles 1 and 2 score 0 and 1; an empty
/// cell scores 0.
pub open spec fn tile_score(r: int) -> int
    decreases r,
{
    if r <= 1 {
        0
    } else if r == 2 {
        1
    } else if r == 3 {
        3
    } else {
        3 * tile_score(r / 2)
    }
}

pub proof fn lemma_tile_score_nonneg(r: int)
    ensures
        tile_score(r) >= 0,
    decreases r,
{
    if r > 3 {
        lemma_tile_score_nonneg(r / 2);
    }
}

proof fn lemma_pow3_pos(k: nat)
    ensures
        pow3(k) >= 1,
    decreases k,
{
    if k > 0 {
        lemma_pow3_pos((k - 1) as nat);
    }
}

proof fn lemma_tile_score_bound(r: int, k: nat)
    requires
        r <= 3 * pow2s(k),
    ensures
        tile_score(r) <= pow3(k + 1),
    decreases k,
{
    lemma_pow3_pos(k);
    if r <= 3 {
    } else {
        if k == 0 {
            assert(false);
        } else {
            assert(3 * pow2s(k) == 6 * pow2s((k - 1) as nat));
            lemma_tile_score_bound(r / 2, (k - 1) as nat);
            lemma_tile_score_nonneg(r / 2);
        }
    }
}

/// Any rank that fits in an `i32` scores at most 3^31, which is below 2^50.
proof fn lemma_tile_score_i32(r: int)
    requires
        r < 0x8000_0000,
    ensures
        tile_score(r) <= 0x4_0000_0000_0000,
{
    reveal_with_fuel(pow2s, 32);
    assert(3 * pow2s(30) == 0xC000_0000);
    lemma_tile_score_bound(r, 30);
    reveal_with_fuel(pow3, 33);
    assert(pow3(31) == 617673396283947);
}

/// The score of a whole board: the sum of its sixteen tile scores.
pub open spec fn board_score(b: Seq<i32>) -> int {
    tile_score(b[0] as int) + tile_score(b[1] as int) + tile_score(b[2] as int) + tile_score(
        b[3] as int,
    ) + tile_score(b[4] as int) + tile_score(b[5] as int) + tile_score(b[6] as int) + tile_score(
        b[7] as int,
    ) + tile_score(b[8] as int) + tile_score(b[9] as int) + tile_score(b[10] as int) + tile_score(
        b[11] as int,
    ) + tile_score(b[12] as int) + tile_score(b[13] as int) + tile_score(b[14] as int)
        + tile_score(b[15] as int)
}

pub open spec fn sec_score(s: Seq<i32>) -> int {
    tile_score(s[0] as int) + tile_score(s[1] as int) + tile_score(s[2] as int) + tile_score(
        s[3] as int,
    )
}

spec fn score_prefix(b: Seq<i32>, i: int) -> int
    decreases i,
{
    if i <= 0 {
        0
    } else {
        score_prefix(b, i - 1) + tile_score(b[i - 1] as int)
    }
}

proof fn lemma_score_prefix_16(b: Seq<i32>)
    ensures
        score_prefix(b, 16) == board_score(b),
{
    reveal_with_fuel(score_prefix, 17);
}

/// The score of one tile, computed exactly in integers.
fn score_tile(rank: Rank) -> (s: i64)
    ensures
        s == tile_score(rank as int),
        0 <= s <= 0x4_0000_0000_0000,
    decreases rank,
{
    proof {
        lemma_tile_score_nonneg(rank as int);
        lemma_tile_score_i32(rank as int);
    }
    if rank <= 1 {
        0
    } else if rank == 2 {
        1
    } else if rank == 3 {
        3
    } else {
        let sub = score_tile(rank / 2);
        3 * sub
    }
}

// ---------------------------------------------------------------------------
// Score and rank-validity facts about merging and shoving
// ---------------------------------------------------------------------------
/// A rank of the progression 3, 6, 12, 24, ...: 3 times a power of two.
pub open spec fn is_pow3_rank(r: int) -> bool
    decreases r,
{
    r == 3 || (r > 3 && r % 2 == 0 && is_pow3_rank(r / 2))
}

/// The ranks a game can ever place on its board.
pub open spec fn valid_rank(r: int) -> bool {
    r == 0 || r == 1 || r == 2 || is_pow3_rank(r)
}

pub open spec fn board_valid(b: Seq<i32>) -> bool {
    forall|j: int| 0 <= j < b.len() ==> valid_rank(#[trigger] b[j] as int)
}

/// Merging two mergeable tiles at least triples the lesser score, so the
/// total score never drops; and the merge of two valid ranks is valid.
proof fn lemma_combine_good(a: i32, b: i32)
    requires
        rank_ok(a),
        rank_ok(b),
    ensures
        spec_combine(a, b) is Some ==> tile_score(spec_combine(a, b)->0 as int) >= tile_score(
            a as int,
        ) + tile_score(b as int),
        spec_combine(a, b) is Some && valid_rank(a as int) && valid_rank(b as int) ==> valid_rank(
            spec_combine(a, b)->0 as int,
        ),
{
    if spec_combine(a, b) is Some {
        let v = spec_combine(a, b)->0;
        if (a == 1 && b == 2) || (a == 2 && b == 1) {
            assert(tile_score(3) == 3);
            assert(is_pow3_rank(3));
        } else {
            assert(a == b && a != 0 && a != 1 && a != 2);
            if a >= 3 {
                assert(v == 2 * a);
                assert(v as int / 2 == a as int);
                assert(tile_score(v as int) == 3 * tile_score(a as int));
                lemma_tile_score_nonneg(a as int);
            } else {
                assert(v as int <= 1);
                assert(tile_score(v as int) == 0);
                assert(tile_score(a as int) == 0);
                assert(!valid_rank(a as int));
            }
        }
    }
}

/// One shifted line never loses score, and keeps its ranks valid.
proof fn lemma_shift_down_game(s: Seq<i32>)
    requires
        s.len() == 4,
        sec_ok(s),
    ensures
        sec_score(board::spec_shift_down(s).0) >= sec_score(s),
        (forall|j: int| 0 <= j < 4 ==> valid_rank(#[trigger] s[j] as int)) ==> (forall|j: int|
            0 <= j < 4 ==> valid_rank(#[trigger] board::spec_shift_down(s).0[j] as int)),
{
    reveal_with_fuel(board::sd_step, 5);
    lemma_combine_good(s[0], s[1]);
    lemma_combine_good(s[1], s[2]);
    lemma_combine_good(s[2], s[3]);
    lemma_tile_score_nonneg(s[0] as int);
    lemma_tile_score_nonneg(s[1] as int);
    lemma_tile_score_nonneg(s[2] as int);
    lemma_tile_score_nonneg(s[3] as int);
    assert(tile_score(0) == 0);
}

proof fn lemma_shift_game(s: Seq<i32>, increasing: bool)
    requires
        s.len() == 4,
        sec_ok(s),
    ensures
        sec_score(board::spec_shift(s, increasing).0) >= sec_score(s),
        (forall|j: int| 0 <= j < 4 ==> valid_rank(#[trigger] s[j] as int)) ==> (forall|j: int|
            0 <= j < 4 ==> valid_rank(#[trigger] board::spec_shift(s, increasing).0[j] as int)),
{
    if increasing {
        let r = board::spec_rev4(s);
        assert(sec_ok(r));
        lemma_shift_down_game(r);
        if forall|j: int| 0 <= j < 4 ==> valid_rank(#[trigger] s[j] as int) {
            assert(forall|j: int| 0 <= j < 4 ==> valid_rank(#[trigger] r[j] as int));
        }
    } else {
        lemma_shift_down_game(s);
    }
}

#[verifier::rlimit(100)]
proof fn lemma_put_section_score(b: Seq<i32>, d: Direction, i: int, s: Seq<i32>)
    requires
        b.len() == 16,
        0 <= i < 4,
        s.len() == 4,
    ensures
        board_score(board::spec_put_section(b, d, i, s)) == board_score(b) - sec_score(
            spec_section(b, d, i),
        ) + sec_score(s),
        board_valid(b) && (forall|j: int| 0 <= j < 4 ==> valid_rank(#[trigger] s[j] as int))
            ==> board_valid(board::spec_put_section(b, d, i, s)),
{
    let p = board::spec_put_section(b, d, i, s);
    if i == 0 {
        assert(board_score(p) == board_score(b) - sec_score(spec_section(b, d, i)) + sec_score(s));
    } else if i == 1 {
        assert(board_score(p) == board_score(b) - sec_score(spec_section(b, d, i)) + sec_score(s));
    } else if i == 2 {
        assert(board_score(p) == board_score(b) - sec_score(spec_section(b, d, i)) + sec_score(s));
    } else {
        assert(board_score(p) == board_score(b) - sec_score(spec_section(b, d, i)) + sec_score(s));
    }
    if board_valid(b) && (forall|j: int| 0 <= j < 4 ==> valid_rank(#[trigger] s[j] as int)) {
        assert forall|j: int| 0 <= j < p.len() implies valid_rank(#[trigger] p[j] as int) by {
            assert(valid_rank(b[j] as int));
        }
    }
}

#[verifier::rlimit(50)]
proof fn lemma_shove_rec_game(b: Seq<i32>, d: Direction, i: int)
    requires
        b.len() == 16,
        0 <= i <= 4,
        forall|j: int| i <= j < 4 ==> sec_ok(#[trigger] spec_section(b, d, j)),
    ensures
        board_score(shove_rec(b, d, i).0) >= board_score(b),
        board_valid(b) ==> board_valid(shove_rec(b, d, i).0),
    decreases 4 - i,
{
    if i >= 4 {
    } else {
        let sec = spec_section(b, d, i);
        lemma_shift_props(sec, spec_increasing(d));
        lemma_shift_game(sec, spec_increasing(d));
        let sh = board::spec_shift(sec, spec_increasing(d));
        let b2 = if sh.1 {
            board::spec_put_section(b, d, i, sh.0)
        } else {
            b
        };
        if sh.1 {
            lemma_put_section(b, d, i, sh.0);
            lemma_put_section_score(b, d, i, sh.0);
            if board_valid(b) {
                assert forall|j: int| 0 <= j < 4 implies valid_rank(#[trigger] sec[j] as int) by {
                    assert(valid_rank(b[4 * i + j] as int));
                    assert(valid_rank(b[4 * j + i] as int));
                }
            }
        }
        assert forall|j: int| i + 1 <= j < 4 implies sec_ok(#[trigger] spec_section(b2, d, j)) by {
            assert(sec_ok(spec_section(b, d, j)));
            if sh.1 {
                assert(spec_section(b2, d, j) =~= spec_section(b, d, j));
            }
        }
        lemma_shove_rec_game(b2, d, i + 1);
    }
}

/// A shove never lowers the board score, and keeps every rank valid.
proof fn lemma_shove_game(b: Seq<i32>, d: Direction)
    requires
        board_ok(b),
    ensures
        board_score(spec_shove(b, d).0) >= board_score(b),
        board_valid(b) ==> board_valid(spec_shove(b, d).0),
{
    assert forall|j: int| 0 <= j < 4 implies sec_ok(#[trigger] spec_section(b, d, j)) by {
        let s = spec_section(b, d, j);
        assert forall|k: int| 0 <= k < s.len() implies rank_ok(#[trigger] s[k]) by {
            assert(rank_ok(b[4 * j + k]));
            assert(rank_ok(b[4 * k + j]));
        }
    }
    lemma_shove_rec_game(b, d, 0);
}

/// Writing one cell changes the board score and total by that cell alone.
proof fn lemma_board_update(b: Seq<i32>, c: int, v: i32)
    requires
        b.len() == 16,
        0 <= c < 16,
    ensures
        board_score(b.update(c, v)) == board_score(b) - tile_score(b[c] as int) + tile_score(
            v as int,
        ),
        board_sum(b.update(c, v)) == board_sum(b) - b[c] + v,
{
}

/// Each cell of a non-negative board is at most the board total.
proof fn lemma_cell_le_sum(b: Seq<i32>, j: int)
    requires
        b.len() == 16,
        sec_nonneg(b),
        0 <= j < 16,
    ensures
        b[j] <= board_sum(b),
{
    assert(b[0] >= 0 && b[1] >= 0 && b[2] >= 0 && b[3] >= 0 && b[4] >= 0 && b[5] >= 0 && b[6] >= 0
        && b[7] >= 0 && b[8] >= 0 && b[9] >= 0 && b[10] >= 0 && b[11] >= 0 && b[12] >= 0 && b[13]
        >= 0 && b[14] >= 0 && b[15] >= 0);
    if j == 0 {
    } else if j == 1 {
    } else if j == 2 {
    } else if j == 3 {
    } else if j == 4 {
    } else if j == 5 {
    } else if j == 6 {
    } else if j == 7 {
    } else if j == 8 {
    } else if j == 9 {
    } else if j == 10 {
    } else if j == 11 {
    } else if j == 12 {
    } else if j == 13 {
    } else if j == 14 {
    } else {
    }
}

// ---------------------------------------------------------------------------
// The mathematical model of a game
// ---------------------------------------------------------------------------
/// Everything that determines a game's future: the board, the announced next
/// rank, the spawn-bias accumulator, the flags and counters, the optional
/// move log, and the seed. The random source needs no state of its own: the
/// n-th draw of a game is element 1 + 2*num_moves (or 2 + 2*num_moves) of the
/// seeded stream, so the draw position is determined by the move count.
pub ghost struct GameModel {
    pub board: Seq<i32>,
    pub next_rank: int,
    pub parity: int,
    pub empty: bool,
    pub num_moves: int,
    pub moves: Option<Seq<Direction>>,
    pub seed: u64,
}

/// The board a move in direction `d` would produce, or None when the move is
/// not available: a shove must change something, except that a still-empty
/// board is kept available in every direction.
pub open spec fn spec_move_dest(b: Seq<i32>, d: Direction) -> Option<Seq<i32>> {
    let sh = spec_shove(b, d);
    if sh.1 || sh.0 == empty_board() {
        Some(sh.0)
    } else {
        None
    }
}

/// A move is accepted when the shove changes the board, or while the board is
/// still empty (the very first move is always accepted).
pub open spec fn spec_move_legal(m: GameModel, d: Direction) -> bool {
    spec_shove(m.board, d).1 || m.empty
}

/// No direction is available: the game is over.
pub open spec fn spec_terminal(b: Seq<i32>) -> bool {
    forall|d: Direction| spec_move_dest(b, d) is None
}

/// The available directions, in the canonical order Down, Up, Left, Right.
pub open spec fn spec_available(b: Seq<i32>) -> Seq<Direction> {
    (if spec_move_dest(b, Direction::Down) is Some {
        seq![Direction::Down]
    } else {
        Seq::empty()
    }) + (if spec_move_dest(b, Direction::Up) is Some {
        seq![Direction::Up]
    } else {
        Seq::empty()
    }) + (if spec_move_dest(b, Direction::Left) is Some {
        seq![Direction::Left]
    } else {
        Seq::empty()
    }) + (if spec_move_dest(b, Direction::Right) is Some {
        seq![Direction::Right]
    } else {
        Seq::empty()
    })
}

/// The sections (columns for a vertical push, rows for a horizontal one)
/// whose cell on the opened edge is free, in increasing order.
pub open spec fn spec_eligible(b: Seq<i32>, d: Direction) -> Seq<int> {
    (if b[spec_open_cell(d, 0)] == 0 {
        seq![0int]
    } else {
        Seq::empty()
    }) + (if b[spec_open_cell(d, 1)] == 0 {
        seq![1int]
    } else {
        Seq::empty()
    }) + (if b[spec_open_cell(d, 2)] == 0 {
        seq![2int]
    } else {
        Seq::empty()
    }) + (if b[spec_open_cell(d, 3)] == 0 {
        seq![3int]
    } else {
        Seq::empty()
    })
}

/// The rank the spawn policy announces next: a uniform draw in [0, 100) is
/// compared against 50 + 3*parity, so a surplus of spawned 2s biases the next
/// draws toward 1, and the other way round.
pub open spec fn spec_next_rank(m: GameModel) -> int {
    let draw = xoshiro_stream(m.seed, (2 + 2 * m.num_moves) as u64) as int % 100;
    if draw > 50 + 3 * m.parity {
        2
    } else {
        1
    }
}

/// The cell the spawned tile lands on: a uniform pick among the eligible
/// sections of the opened edge.
pub open spec fn spec_spawn_cell(m: GameModel, d: Direction) -> int {
    let bs = spec_shove(m.board, d).0;
    let elig = spec_eligible(bs, d);
    let k = xoshiro_stream(m.seed, (1 + 2 * m.num_moves) as u64) as int % elig.len() as int;
    spec_open_cell(d, elig[k])
}

/// One accepted move: shove, spawn the announced rank on the opened edge,
/// draw the next announcement, and advance the counters and the log.
pub open spec fn spec_step(m: GameModel, d: Direction) -> GameModel {
    let bs = spec_shove(m.board, d).0;
    let cell = spec_spawn_cell(m, d);
    GameModel {
        board: bs.update(cell, m.next_rank as i32),
        next_rank: spec_next_rank(m),
        parity: m.parity + (if m.next_rank == 2 {
            1int
        } else {
            -1int
        }),
        empty: false,
        num_moves: m.num_moves + 1,
        moves: match m.moves {
            Some(ms) => Some(ms.push(d)),
            None => None,
        },
        seed: m.seed,
    }
}

/// A freshly constructed game: empty board, one rank drawn ahead.
pub open spec fn spec_new_model(seed: u64, do_logging: bool) -> GameModel {
    GameModel {
        board: empty_board(),
        next_rank: 1 + xoshiro_stream(seed, 0) as int % 2,
        parity: 0,
        empty: true,
        num_moves: 0,
        moves: if do_logging {
            Some(Seq::<Direction>::empty())
        } else {
            None
        },
        seed,
    }
}

/// The model reached by constructing a game from `seed` and replaying the
/// moves in order; a move that would be refused leaves the model unchanged.
pub open spec fn spec_replay(seed: u64, do_logging: bool, ds: Seq<Direction>) -> GameModel
    decreases ds.len(),
{
    if ds.len() == 0 {
        spec_new_model(seed, do_logging)
    } else {
        let prev = spec_replay(seed, do_logging, ds.drop_last());
        if spec_move_legal(prev, ds.last()) {
            spec_step(prev, ds.last())
        } else {
            prev
        }
    }
}

/// The invariant of every reachable game model.
pub open spec fn wf_model(m: GameModel) -> bool {
    &&& m.board.len() == 16
    &&& sec_nonneg(m.board)
    &&& board_valid(m.board)
    &&& (m.next_rank == 1 || m.next_rank == 2)
    &&& m.num_moves >= 0
    &&& -m.num_moves - 1 <= m.parity <= m.num_moves + 1
    &&& board_sum(m.board) <= 2 * (m.num_moves + 1)
    &&& (m.empty <==> m.board == empty_board())
    &&& (m.moves matches Some(ms) ==> ms.len() == m.num_moves && m == spec_replay(m.seed, true, ms))
}

/// A fresh model satisfies the invariant.
pub proof fn lemma_new_model_wf(seed: u64, do_logging: bool)
    ensures
        wf_model(spec_new_model(seed, do_logging)),
{
    let m = spec_new_model(seed, do_logging);
    assert(board_sum(m.board) == 0);
    assert(board_valid(m.board));
    if do_logging {
        assert(spec_replay(seed, true, Seq::<Direction>::empty()) == m);
    }
}

/// Facts about the eligible list: every entry names a section whose edge
/// cell is free, and the list is non-empty as soon as one such cell exists.
proof fn lemma_eligible(b: Seq<i32>, d: Direction)
    requires
        b.len() == 16,
    ensures
        forall|j: int|
            0 <= j < spec_eligible(b, d).len() ==> (0 <= #[trigger] spec_eligible(b, d)[j] < 4
                && b[spec_open_cell(d, spec_eligible(b, d)[j])] == 0),
        (exists|k: int| 0 <= k < 4 && b[spec_open_cell(d, k)] == 0) ==> spec_eligible(b, d).len()
            > 0,
        spec_eligible(b, d).len() <= 4,
{
}

/// A cell index on the edge row or column that direction `d` opens.
pub open spec fn on_open_edge(d: Direction, c: int) -> bool {
    exists|i: int| 0 <= i < 4 && c == spec_open_cell(d, i)
}

/// The heart of one accepted move, at the model level: the eligible list is
/// never empty (so the spawn never fails), the invariant is preserved, the
/// score never drops, and the spawned tile carries the announced rank and
/// lands on a cell of the opened edge that the shove left free.
#[verifier::rlimit(50)]
pub proof fn lemma_step_props(m: GameModel, d: Direction)
    requires
        wf_model(m),
        spec_move_legal(m, d),
        m.num_moves < MAX_MOVES as int,
    ensures
        spec_eligible(spec_shove(m.board, d).0, d).len() > 0,
        spec_shove(m.board, d).0.len() == 16,
        wf_model(spec_step(m, d)),
        board_score(spec_step(m, d).board) >= board_score(m.board),
        0 <= spec_spawn_cell(m, d) < 16,
        on_open_edge(d, spec_spawn_cell(m, d)),
        spec_shove(m.board, d).0[spec_spawn_cell(m, d)] == 0,
        spec_step(m, d).board == spec_shove(m.board, d).0.update(
            spec_spawn_cell(m, d),
            m.next_rank as i32,
        ),
        board_sum(spec_step(m, d).board) <= 2 * (m.num_moves + 2),
{
    let b = m.board;
    assert forall|j: int| 0 <= j < 16 implies rank_ok(#[trigger] b[j]) by {
        lemma_cell_le_sum(b, j);
    }
    lemma_shove_props(b, d);
    lemma_shove_game(b, d);
    let bs = spec_shove(b, d).0;
    let moved = spec_shove(b, d).1;
    lemma_eligible(bs, d);
    if moved {
        assert(spec_eligible(bs, d).len() > 0);
    } else {
        // the board was empty, so the shove left it empty and every edge
        // cell of it is free
        assert(b == empty_board());
        assert(bs =~= b);
        assert(bs[spec_open_cell(d, 0)] == 0);
        assert(spec_eligible(bs, d).len() > 0);
    }
    let elig = spec_eligible(bs, d);
    let k = xoshiro_stream(m.seed, (1 + 2 * m.num_moves) as u64) as int % elig.len() as int;
    assert(0 <= k < elig.len());
    let cell = spec_spawn_cell(m, d);
    assert(0 <= elig[k] < 4 && bs[spec_open_cell(d, elig[k])] == 0);
    assert(0 <= cell < 16) by {
        assert(cell == spec_open_cell(d, elig[k]));
    }
    let m2 = spec_step(m, d);
    lemma_board_update(bs, cell, m.next_rank as i32);
    lemma_tile_score_nonneg(m.next_rank);
    lemma_tile_score_nonneg(0);
    // the new board is not empty: the spawned cell holds 1 or 2
    assert(m2.board[cell] == m.next_rank as i32);
    assert(m2.board != empty_board());
    // validity of the spawned rank
    assert(valid_rank(m.next_rank));
    assert forall|j: int| 0 <= j < m2.board.len() implies valid_rank(#[trigger] m2.board[j] as int) by {
        assert(board_valid(bs));
        if j != cell {
            assert(m2.board[j] == bs[j]);
        }
    }
    // the move log still replays to the model itself
    match m.moves {
        Some(ms) => {
            let ms2 = ms.push(d);
            assert(ms2.drop_last() =~= ms);
            assert(ms2.last() == d);
            assert(spec_replay(m.seed, true, ms2) == spec_step(m, d));
        },
        None => {},
    }
}

// ---------------------------------------------------------------------------
// The game itself
// ---------------------------------------------------------------------------
/// The seed and the moves actually played: enough to replay the whole game.
#[derive(Debug)]
pub struct GameLog {
    pub seed: u64,
    pub moves: Vec<Direction>,
}

/// The immutable snapshot produced when a game ends.
#[derive(Debug)]
pub struct GameResult {
    pub score: Score,
    pub num_moves: i32,
    pub final_board: Board,
    pub final_render: String,
    pub log: Option<GameLog>,
}

/// What `update` reports: the move was applied (and the game may have ended),
/// or the move was refused and nothing changed.
pub enum MoveResult {
    Moved(Option<GameResult>),
    Failed,
}

/// The cached outcome of shoving the current board in each direction.
struct ShiftCache {
    down: Option<Board>,
    up: Option<Board>,
    left: Option<Board>,
    right: Option<Board>,
}

spec fn dest_matches(e: Option<Board>, b: Seq<i32>, d: Direction) -> bool {
    match e {
        Some(bb) => spec_move_dest(b, d) == Some(bb@),
        None => spec_move_dest(b, d) is None,
    }
}

pub struct Game {
    pub cur_board: Board,
    next_rank: Rank,
    // (count of 2s - count of 1s) spawned so far; biases later draws
    parity: i32,
    // the next state for each direction the player could choose
    shifted_boards: ShiftCache,
    // whether no tile has been placed yet: the very first move is always legal
    empty: bool,
    num_moves: i32,
    logging: bool,
    moves: Vec<Direction>,
    // Unique identifier of this game: games are reproducible from it.
    pub seed: u64,
}

impl View for Game {
    type V = GameModel;

    closed spec fn view(&self) -> GameModel {
        GameModel {
            board: self.cur_board@,
            next_rank: self.next_rank as int,
            parity: self.parity as int,
            empty: self.empty,
            num_moves: self.num_moves as int,
            moves: if self.logging {
                Some(self.moves@)
            } else {
                None
            },
            seed: self.seed,
        }
    }
}

/// The sidebar line suffix and the grid: the first row is followed by the
/// upcoming rank, and empty cells print blank.
pub open spec fn spec_game_render(b: Seq<i32>, next: int) -> Seq<char> {
    spec_row_chars(spec_row(b, 0), true) + seq![' ', ' ', ' ', ' ', ' ', '|'] + spec_cell_blank(
        next,
    ) + seq!['|', ' ', '<', '-', ' ', 'n', 'e', 'x', 't', ' ', 'u', 'p'] + seq!['\r', '\n']
        + spec_row_chars(spec_row(b, 1), true) + seq!['\r', '\n'] + spec_row_chars(
        spec_row(b, 2),
        true,
    ) + seq!['\r', '\n'] + spec_row_chars(spec_row(b, 3), true)
}

/// The row and column the spawned tile goes to for section `i` of `d`.
fn open_cell(d: Direction, i: usize) -> (rc: (usize, usize))
    requires
        i < 4,
    ensures
        rc.0 < 4,
        rc.1 < 4,
        4 * rc.0 + rc.1 == spec_open_cell(d, i as int),
{
    match d {
        Direction::Down => (0, i),
        Direction::Up => (3, i),
        Direction::Left => (i, 3),
        Direction::Right => (i, 0),
    }
}

pub(crate) fn clone_directions(v: &Vec<Direction>) -> (out: Vec<Direction>)
    ensures
        out@ == v@,
{
    let mut out: Vec<Direction> = Vec::new();
    let mut i: usize = 0;
    while i < v.len()
        invariant
            0 <= i <= v.len(),
            out@ == v@.subrange(0, i as int),
        decreases v.len() - i,
    {
        out.push(v[i]);
        proof {
            assert(out@ =~= v@.subrange(0, i + 1));
        }
        i = i + 1;
    }
    proof {
        assert(out@ =~= v@);
    }
    out
}

impl Game {
    /// The cached move destinations agree with the current board.
    pub closed spec fn cache_ok(&self) -> bool {
        &&& dest_matches(self.shifted_boards.down, self.cur_board@, Direction::Down)
        &&& dest_matches(self.shifted_boards.up, self.cur_board@, Direction::Up)
        &&& dest_matches(self.shifted_boards.left, self.cur_board@, Direction::Left)
        &&& dest_matches(self.shifted_boards.right, self.cur_board@, Direction::Right)
    }

    /// The invariant every game satisfies between turns.
    pub open spec fn wf(&self) -> bool {
        wf_model(self@) && self.cache_ok()
    }

    /// Shoves a copy of the board in all four directions and records, per
    /// direction, the board a move there would produce, if any.
    fn take_all_moves(board: &Board) -> (c: ShiftCache)
        requires
            board_ok(board@),
        ensures
            dest_matches(c.down, board@, Direction::Down),
            dest_matches(c.up, board@, Direction::Up),
            dest_matches(c.left, board@, Direction::Left),
            dest_matches(c.right, board@, Direction::Right),
    {
        let mut b_down = *board;
        let moved_down = b_down.shove(Direction::Down);
        let down = if moved_down || b_down.is_empty() {
            Some(b_down)
        } else {
            None
        };
        let mut b_up = *board;
        let moved_up = b_up.shove(Direction::Up);
        let up = if moved_up || b_up.is_empty() {
            Some(b_up)
        } else {
            None
        };
        let mut b_left = *board;
        let moved_left = b_left.shove(Direction::Left);
        let left = if moved_left || b_left.is_empty() {
            Some(b_left)
        } else {
            None
        };
        let mut b_right = *board;
        let moved_right = b_right.shove(Direction::Right);
        let right = if moved_right || b_right.is_empty() {
            Some(b_right)
        } else {
            None
        };
        ShiftCache { down, up, left, right }
    }

    /// A new game: an empty board, every direction available, and the first
    /// spawn rank already drawn so it can be displayed. Games with the same
    /// seed are identical; a missing seed means seed 0.
    pub fn new(seed: Option<u64>, do_logging: bool) -> (g: Game)
        ensures
            g.wf(),
            g@ == spec_new_model(
                match seed {
                    Some(s) => s,
                    None => 0u64,
                },
                do_logging,
            ),
    {
        let seed_v: u64 = match seed {
            Some(s) => s,
            None => 0,
        };
        let first_draw = rng::draw_below(seed_v, 0, 2);
        let first_rank: Rank = 1 + (first_draw as i32);
        let new_board = Board::new();
        proof {
            assert(forall|j: int| 0 <= j < 16 ==> new_board@[j] == 0);
            assert(board_ok(new_board@));
        }
        let cache = Self::take_all_moves(&new_board);
        let g = Game {
            seed: seed_v,
            cur_board: new_board,
            shifted_boards: cache,
            empty: true,
            num_moves: 0,
            logging: do_logging,
            moves: Vec::new(),
            parity: 0,
            next_rank: first_rank,
        };
        proof {
            assert(g@ == spec_new_model(seed_v, do_logging));
            lemma_new_model_wf(seed_v, do_logging);
        }
        g
    }

    /// The number of accepted moves so far.
    pub fn num_moves(&self) -> (n: i32)
        ensures
            n as int == self@.num_moves,
    {
        self.num_moves
    }

    /// The exact integer score of a board: the sum of its tile scores.
    pub fn score(board: &Board) -> (s: Score)
        ensures
            s == board_score(board@),
    {
        let vals = board.values();
        let mut total: i64 = 0;
        let mut i: usize = 0;
        while i < 16
            invariant
                0 <= i <= 16,
                vals@ == board@,
                total == score_prefix(board@, i as int),
                0 <= total <= (i as int) * 0x4_0000_0000_0000,
            decreases 16 - i,
        {
            let t = score_tile(vals[i]);
            total = total + t;
            i = i + 1;
        }
        proof {
            lemma_score_prefix_16(board@);
        }
        total
    }

    pub fn cur_score(&self) -> (s: Score)
        ensures
            s == board_score(self@.board),
    {
        Game::score(&self.cur_board)
    }

    /// The directions whose cached destination exists, in canonical order;
    /// while the board is still empty every direction is reported.
    pub fn available_moves(&self) -> (v: Vec<Direction>)
        requires
            self.wf(),
        ensures
            v@ == spec_available(self@.board),
    {
        let mut next_moves: Vec<Direction> = Vec::new();
        if self.shifted_boards.down.is_some() {
            next_moves.push(Direction::Down);
        }
        if self.shifted_boards.up.is_some() {
            next_moves.push(Direction::Up);
        }
        if self.shifted_boards.left.is_some() {
            next_moves.push(Direction::Left);
        }
        if self.shifted_boards.right.is_some() {
            next_moves.push(Direction::Right);
        }
        proof {
            assert(next_moves@ =~= spec_available(self@.board));
        }
        if next_moves.len() == 0 && self.cur_board.is_empty() {
            // An empty board keeps all four cache entries populated, so this
            // override cannot in fact be reached; it is kept as written.
            let mut all: Vec<Direction> = Vec::new();
            all.push(Direction::Down);
            all.push(Direction::Up);
            all.push(Direction::Left);
            all.push(Direction::Right);
            proof {
                let b = self@.board;
                assert(board_ok(b));
                lemma_shove_props(b, Direction::Down);
                lemma_shove_props(b, Direction::Up);
                lemma_shove_props(b, Direction::Left);
                lemma_shove_props(b, Direction::Right);
                assert(all@ =~= spec_available(b));
            }
            all
        } else {
            next_moves
        }
    }

    /// The grid with the upcoming rank in the sidebar of the first row.
    pub fn render(&self) -> (s: String)
        requires
            self.wf(),
        ensures
            s@ == spec_game_render(self@.board, self@.next_rank),
    {
        let r0 = self.cur_board.get_row(0);
        let r1 = self.cur_board.get_row(1);
        let r2 = self.cur_board.get_row(2);
        let r3 = self.cur_board.get_row(3);
        proof {
            assert forall|j: int| 0 <= j < 4 implies #[trigger] r0@[j] >= 0 && r1@[j] >= 0
                && r2@[j] >= 0 && r3@[j] >= 0 by {
                assert(self@.board[j] >= 0);
                assert(self@.board[4 + j] >= 0);
                assert(self@.board[8 + j] >= 0);
                assert(self@.board[12 + j] >= 0);
            }
        }
        let mut s = String::new();
        render::push_row_chars(&mut s, &r0, true);
        let ghost s1 = s@;
        s.append("     |");
        proof {
            reveal_strlit("     |");
            assert(s@ =~= s1 + seq![' ', ' ', ' ', ' ', ' ', '|']);
        }
        render::push_cell(&mut s, self.next_rank, true);
        let ghost s2 = s@;
        s.append("| <- next up");
        proof {
            reveal_strlit("| <- next up");
            assert(s@ =~= s2 + seq!['|', ' ', '<', '-', ' ', 'n', 'e', 'x', 't', ' ', 'u', 'p']);
        }
        render::push_crlf(&mut s);
        render::push_row_chars(&mut s, &r1, true);
        render::push_crlf(&mut s);
        render::push_row_chars(&mut s, &r2, true);
        render::push_crlf(&mut s);
        render::push_row_chars(&mut s, &r3, true);
        proof {
            assert(s@ =~= spec_game_render(self@.board, self@.next_rank));
        }
        s
    }

    /// Whether the game has ended: no direction has a destination. If so,
    /// the final snapshot is produced.
    pub fn check_game_over(&self) -> (r: Option<GameResult>)
        requires
            self.wf(),
        ensures
            r is Some <==> spec_terminal(self@.board),
            r matches Some(gr) ==> gr.score == board_score(self@.board) && gr.num_moves as int
                == self@.num_moves && gr.final_board@ == self@.board && gr.final_render@
                == spec_game_render(self@.board, self@.next_rank) && (match self@.moves {
                Some(ms) => gr.log matches Some(l) && l.seed == self@.seed && l.moves@ == ms,
                None => gr.log is None,
            }),
    {
        let no_moves = self.shifted_boards.down.is_none() && self.shifted_boards.up.is_none()
            && self.shifted_boards.left.is_none() && self.shifted_boards.right.is_none();
        if !no_moves {
            proof {
                assert(!spec_terminal(self@.board)) by {
                    if self.shifted_boards.down is Some {
                        assert(spec_move_dest(self@.board, Direction::Down) is Some);
                    } else if self.shifted_boards.up is Some {
                        assert(spec_move_dest(self@.board, Direction::Up) is Some);
                    } else if self.shifted_boards.left is Some {
                        assert(spec_move_dest(self@.board, Direction::Left) is Some);
                    } else {
                        assert(spec_move_dest(self@.board, Direction::Right) is Some);
                    }
                }
            }
            return None;
        }
        proof {
            assert forall|d: Direction| spec_move_dest(self@.board, d) is None by {
                match d {
                    Direction::Down => assert(spec_move_dest(self@.board, Direction::Down) is None),
                    Direction::Up => assert(spec_move_dest(self@.board, Direction::Up) is None),
                    Direction::Left => assert(spec_move_dest(self@.board, Direction::Left) is None),
                    Direction::Right => assert(spec_move_dest(
                        self@.board,
                        Direction::Right,
                    ) is None),
                }
            }
        }
        let log = if self.logging {
            Some(GameLog { seed: self.seed, moves: clone_directions(&self.moves) })
        } else {
            None
        };
        Some(
            GameResult {
                score: self.cur_score(),
                num_moves: self.num_moves,
                final_board: self.cur_board,
                final_render: self.render(),
                log,
            },
        )
    }

    /// Consumes the announced rank and draws the next one, biased by parity.
    fn take_next_rank(&mut self) -> (ret: Rank)
        requires
            old(self)@.next_rank == 1 || old(self)@.next_rank == 2,
            0 <= old(self)@.num_moves < MAX_MOVES as int,
            -old(self)@.num_moves - 1 <= old(self)@.parity <= old(self)@.num_moves + 1,
        ensures
            ret as int == old(self)@.next_rank,
            final(self)@.next_rank == spec_next_rank(old(self)@),
            final(self)@.parity == old(self)@.parity + (if old(self)@.next_rank == 2 {
                1int
            } else {
                -1int
            }),
            final(self)@.board == old(self)@.board,
            final(self)@.empty == old(self)@.empty,
            final(self)@.num_moves == old(self)@.num_moves,
            final(self)@.moves == old(self)@.moves,
            final(self)@.seed == old(self)@.seed,
    {
        let ret = self.next_rank;
        let threshold: i32 = 50 + 3 * self.parity;
        let draw = rng::draw_below(self.seed, 2 + 2 * (self.num_moves as u64), 100) as i32;
        self.next_rank = if draw > threshold {
            2
        } else {
            1
        };
        if ret == 2 {
            self.parity = self.parity + 1;
        } else if ret == 1 {
            self.parity = self.parity - 1;
        }
        ret
    }

    /// The eligible sections on the edge `d` opens: those whose edge cell is
    /// free on the current board.
    fn eligible_cells(board: &Board, d: Direction) -> (v: Vec<usize>)
        ensures
            v@.map_values(|u: usize| u as int) == spec_eligible(board@, d),
            forall|j: int| 0 <= j < v@.len() ==> #[trigger] v@[j] < 4,
    {
        let vals = board.values();
        let mut v: Vec<usize> = Vec::new();
        let rc0 = open_cell(d, 0);
        if vals[4 * rc0.0 + rc0.1] == 0 {
            v.push(0);
        }
        let rc1 = open_cell(d, 1);
        if vals[4 * rc1.0 + rc1.1] == 0 {
            v.push(1);
        }
        let rc2 = open_cell(d, 2);
        if vals[4 * rc2.0 + rc2.1] == 0 {
            v.push(2);
        }
        let rc3 = open_cell(d, 3);
        if vals[4 * rc3.0 + rc3.1] == 0 {
            v.push(3);
        }
        proof {
            assert(v@.map_values(|u: usize| u as int) =~= spec_eligible(board@, d));
        }
        v
    }

    /// Attempts one move. A direction that changes nothing is refused once
    /// the game has begun; the very first move is always accepted. On
    /// success the board is shoved, the announced rank is spawned on the
    /// opened edge, the caches are rebuilt, and the game-over check runs.
    /// The score never drops across an accepted move.
    pub fn update(&mut self, d: Direction) -> (r: MoveResult)
        requires
            old(self).wf(),
            old(self)@.num_moves < MAX_MOVES as int,
        ensures
            final(self).wf(),
            board_score(final(self)@.board) >= board_score(old(self)@.board),
            !spec_move_legal(old(self)@, d) ==> final(self)@ == old(self)@ && r is Failed,
            spec_move_legal(old(self)@, d) ==> final(self)@ == spec_step(old(self)@, d) && (
            r matches MoveResult::Moved(go) && (go is Some <==> spec_terminal(final(self)@.board))
                && (go matches Some(gr) ==> gr.score == board_score(final(self)@.board)
                && gr.num_moves as int == final(self)@.num_moves && gr.final_board@
                == final(self)@.board && gr.final_render@ == spec_game_render(
                final(self)@.board,
                final(self)@.next_rank,
            ) && (match final(self)@.moves {
                Some(ms) => gr.log matches Some(l) && l.seed == old(self)@.seed && l.moves@ == ms,
                None => gr.log is None,
            }))),
    {
        proof {
            assert forall|j: int| 0 <= j < 16 implies rank_ok(#[trigger] old(self)@.board[j]) by {
                lemma_cell_le_sum(old(self)@.board, j);
            }
            lemma_shove_props(old(self)@.board, d);
        }
        let modified = self.cur_board.shove(d);
        if !(modified || self.empty) {
            // the shove moved nothing, so the board is exactly as it was
            proof {
                assert(self.cur_board@ =~= old(self)@.board);
                assert(self@ == old(self)@);
            }
            MoveResult::Failed
        } else {
            proof {
                lemma_step_props(old(self)@, d);
            }
            let elig = Self::eligible_cells(&self.cur_board, d);
            proof {
                assert(elig@.len() == spec_eligible(self.cur_board@, d).len());
                assert(elig@.len() > 0);
            }
            let kdraw = rng::draw_below(
                self.seed,
                1 + 2 * (self.num_moves as u64),
                elig.len() as u64,
            );
            let sel = elig[kdraw as usize];
            proof {
                let ghost_elig = spec_eligible(self.cur_board@, d);
                assert(elig@.map_values(|u: usize| u as int)[kdraw as int] == ghost_elig[
                    kdraw as int]);
                assert(sel as int == ghost_elig[kdraw as int]);
            }
            let rc = open_cell(d, sel);
            let new_val = self.take_next_rank();
            self.cur_board.set_value(rc.0, rc.1, new_val);
            self.num_moves = self.num_moves + 1;
            if self.logging {
                self.moves.push(d);
            }
            self.empty = false;
            proof {
                let m = old(self)@;
                let m2 = spec_step(m, d);
                assert((1 + 2 * (m.num_moves as u64) as int) as u64 == (1 + 2 * m.num_moves)
                    as u64);
                assert(kdraw as int == xoshiro_stream(m.seed, (1 + 2 * m.num_moves) as u64) as int
                    % spec_eligible(spec_shove(m.board, d).0, d).len() as int);
                assert(self@.board == m2.board);
                assert(self@ == m2);
                assert(wf_model(self@));
                assert forall|j: int| 0 <= j < 16 implies rank_ok(#[trigger] self@.board[j]) by {
                    lemma_cell_le_sum(self@.board, j);
                }
            }
            self.shifted_boards = Self::take_all_moves(&self.cur_board);
            let game_over = self.check_game_over();
            MoveResult::Moved(game_over)
        }
    }
}

// ---------------------------------------------------------------------------
// Laws of the game
// ---------------------------------------------------------------------------
/// Law: the score never decreases across an accepted move, so over any
/// sequence of accepted `update` calls the score is non-decreasing.
pub proof fn lemma_update_score_monotone(m: GameModel, d: Direction)
    requires
        wf_model(m),
        spec_move_legal(m, d),
        m.num_moves < MAX_MOVES as int,
    ensures
        board_score(spec_step(m, d).board) >= board_score(m.board),
{
    lemma_step_props(m, d);
}

/// Law: an accepted move spawns exactly the announced rank, on a cell that
/// the shove left free, strictly within the edge row or column the move
/// opened; nothing else is written after the shove.
pub proof fn lemma_spawn_legality(m: GameModel, d: Direction)
    requires
        wf_model(m),
        spec_move_legal(m, d),
        m.num_moves < MAX_MOVES as int,
    ensures
        0 <= spec_spawn_cell(m, d) < 16,
        on_open_edge(d, spec_spawn_cell(m, d)),
        spec_shove(m.board, d).0[spec_spawn_cell(m, d)] == 0,
        spec_step(m, d).board == spec_shove(m.board, d).0.update(
            spec_spawn_cell(m, d),
            m.next_rank as i32,
        ),
        spec_step(m, d).board[spec_spawn_cell(m, d)] == m.next_rank as i32,
{
    lemma_step_props(m, d);
}

/// Law: the game is over exactly when no move is reported available; no
/// direction is ever missed or invented by the availability list.
pub proof fn lemma_terminal_no_moves(b: Seq<i32>)
    ensures
        spec_terminal(b) <==> spec_available(b) == Seq::<Direction>::empty(),
{
    if spec_terminal(b) {
        assert(spec_available(b) =~= Seq::<Direction>::empty());
    }
    if spec_available(b) == Seq::<Direction>::empty() {
        assert forall|d: Direction| spec_move_dest(b, d) is None by {
            if spec_move_dest(b, d) is Some {
                assert(spec_available(b).len() > 0);
            }
        }
    }
}

/// Law: driving a fresh game through any sequence of update calls - refused
/// ones included - keeps the invariant, accepts at most one move per call,
/// and never lowers the score from one call to the next.
pub proof fn lemma_replay_props(seed: u64, do_logging: bool, ds: Seq<Direction>)
    requires
        ds.len() <= MAX_MOVES as int,
    ensures
        wf_model(spec_replay(seed, do_logging, ds)),
        spec_replay(seed, do_logging, ds).seed == seed,
        0 <= spec_replay(seed, do_logging, ds).num_moves <= ds.len(),
        ds.len() > 0 ==> board_score(spec_replay(seed, do_logging, ds).board) >= board_score(
            spec_replay(seed, do_logging, ds.drop_last()).board,
        ),
    decreases ds.len(),
{
    if ds.len() == 0 {
        lemma_new_model_wf(seed, do_logging);
    } else {
        lemma_replay_props(seed, do_logging, ds.drop_last());
        let prev = spec_replay(seed, do_logging, ds.drop_last());
        if spec_move_legal(prev, ds.last()) {
            lemma_step_props(prev, ds.last());
        }
    }
}

/// Law (determinism): a logged game replays to itself. Together with the
/// contracts of `new` and `update` - whose outcomes are pure functions of the
/// previous model and the move - two games built with the same seed and
/// driven with the same moves pass through the same models throughout.
pub proof fn lemma_log_replays_game(g: &Game)
    requires
        g.wf(),
        g@.moves is Some,
    ensures
        g@ == spec_replay(g@.seed, true, g@.moves->0),
{
}

} // verus!
