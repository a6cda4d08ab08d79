//! Attack sets as bitboards.
//!
//! Step pieces (knight, king, pawn) get their target sets from fixed offset
//! tables; sliders walk direction rays and stop in front of the first
//! blocker. For the slider helpers, "blockers" is the side-to-move's own
//! occupancy: in RBC, opponent pieces are transparent for blind move
//! generation, so a ray runs up to but not including the first own piece.
use vstd::prelude::*;
use vstd::std_specs::bits::{u64_leading_zeros, u64_trailing_zeros};

use crate::bits::{bit, group_bits, lemma_highest_bit, lemma_lowest_bit, lemma_zero_iff_empty};

verus! {

broadcast use group_bits;

// ---------------------------------------------------------------------------
// Board geometry
// ---------------------------------------------------------------------------

/// File of the square with index `i`.
pub open spec fn file_of(i: int) -> int {
    i % 8
}

/// Rank of the square with index `i`.
pub open spec fn rank_of(i: int) -> int {
    i / 8
}

/// `(f, r)` names a square of the board.
pub open spec fn on_board(f: int, r: int) -> bool {
    0 <= f < 8 && 0 <= r < 8
}

/// Index of the square at file `f` and rank `r`.
pub open spec fn sq_at(f: int, r: int) -> int {
    r * 8 + f
}

/// Moving from `from` by `(df, dr)` stays on the board and lands on `t`.
pub open spec fn step_hit(from: int, df: int, dr: int, t: int) -> bool {
    on_board(file_of(from) + df, rank_of(from) + dr) && t == sq_at(
        file_of(from) + df,
        rank_of(from) + dr,
    )
}

/// Some offset of the table moves `from` onto `t`.
pub open spec fn step_target(offsets: Seq<(i8, i8)>, from: int, t: int) -> bool {
    exists|k: int|
        0 <= k < offsets.len() && #[trigger] step_hit(from, offsets[k].0 as int, offsets[k].1 as int, t)
}

pub open spec fn knight_offsets() -> Seq<(i8, i8)> {
    seq![(1i8, 2i8), (2i8, 1i8), (2i8, -1i8), (1i8, -2i8), (-1i8, -2i8), (-2i8, -1i8), (-2i8, 1i8), (-1i8, 2i8)]
}

pub open spec fn king_offsets() -> Seq<(i8, i8)> {
    seq![(1i8, 0i8), (1i8, 1i8), (0i8, 1i8), (-1i8, 1i8), (-1i8, 0i8), (-1i8, -1i8), (0i8, -1i8), (1i8, -1i8)]
}

/// A knight on `from` attacks `t`.
pub open spec fn knight_target(from: int, t: int) -> bool {
    step_target(knight_offsets(), from, t)
}

/// A king on `from` attacks `t`.
pub open spec fn king_target(from: int, t: int) -> bool {
    step_target(king_offsets(), from, t)
}

/// Rank step of pawns of the color with index `color_idx` (0 is White).
pub open spec fn pawn_step(color_idx: int) -> int {
    if color_idx == 0 {
        1
    } else {
        -1
    }
}

/// A pawn of the given color on `from` attacks `t` (one step forward, one file aside).
pub open spec fn pawn_attack_target(color_idx: int, from: int, t: int) -> bool {
    step_hit(from, -1, pawn_step(color_idx), t) || step_hit(from, 1, pawn_step(color_idx), t)
}

/// A pawn of the given color on `from` pushes one step onto `t`.
pub open spec fn pawn_push_target(color_idx: int, from: int, t: int) -> bool {
    step_hit(from, 0, pawn_step(color_idx), t)
}

// ---------------------------------------------------------------------------
// Directions and rays
// ---------------------------------------------------------------------------

pub open spec fn dir_df(d: int) -> int {
    if d == 0 || d == 2 || d == 6 {
        1
    } else if d == 1 || d == 5 {
        0
    } else {
        -1
    }
}

pub open spec fn dir_dr(d: int) -> int {
    if d == 1 || d == 2 || d == 3 {
        1
    } else if d == 0 || d == 4 {
        0
    } else {
        -1
    }
}

/// Index change of one step in direction `d`.
pub open spec fn dir_delta(d: int) -> int {
    dir_dr(d) * 8 + dir_df(d)
}

/// `d * k` for a unit step `d` in `{-1, 0, 1}`.
pub open spec fn scale(d: int, k: int) -> int {
    if d == 1 {
        k
    } else if d == -1 {
        -k
    } else {
        0
    }
}

/// The `k`-th square from `from` in direction `d` is on the board.
pub open spec fn ray_on(from: int, d: int, k: int) -> bool {
    on_board(file_of(from) + scale(dir_df(d), k), rank_of(from) + scale(dir_dr(d), k))
}

/// Index of the `k`-th square from `from` in direction `d`.
pub open spec fn ray_point(from: int, d: int, k: int) -> int {
    sq_at(file_of(from) + scale(dir_df(d), k), rank_of(from) + scale(dir_dr(d), k))
}

/// `t` is the `k`-th square (`k >= 1`) from `from` in direction `d`.
pub open spec fn ray_hit(from: int, d: int, k: int, t: int) -> bool {
    k >= 1 && ray_on(from, d, k) && t == ray_point(from, d, k)
}

/// `t` lies on the ray from `from` in direction `d`.
pub open spec fn on_ray(from: int, d: int, t: int) -> bool {
    exists|k: int| #[trigger] ray_hit(from, d, k, t)
}

/// No square of the ray from `from` in direction `d`, from the first up to
/// the `k`-th, is set in `own`.
pub open spec fn ray_clear(own: u64, from: int, d: int, k: int) -> bool {
    forall|j: int| 1 <= j <= k ==> !#[trigger] bit(own, ray_point(from, d, j))
}

/// `t` is on the ray from `from` in direction `d`, and neither `t` nor any
/// square before it on the ray is set in `own`.
pub open spec fn slider_hit(own: u64, from: int, d: int, t: int) -> bool {
    exists|k: int| #[trigger] ray_hit(from, d, k, t) && ray_clear(own, from, d, k)
}

/// A rook on `from` with own pieces `own` reaches `t`.
pub open spec fn rook_target(own: u64, from: int, t: int) -> bool {
    slider_hit(own, from, 0, t) || slider_hit(own, from, 1, t) || slider_hit(own, from, 4, t)
        || slider_hit(own, from, 5, t)
}

/// A bishop on `from` with own pieces `own` reaches `t`.
pub open spec fn bishop_target(own: u64, from: int, t: int) -> bool {
    slider_hit(own, from, 2, t) || slider_hit(own, from, 3, t) || slider_hit(own, from, 6, t)
        || slider_hit(own, from, 7, t)
}

/// A queen on `from` with own pieces `own` reaches `t`.
pub open spec fn queen_target(own: u64, from: int, t: int) -> bool {
    rook_target(own, from, t) || bishop_target(own, from, t)
}

// ---------------------------------------------------------------------------
// Geometry lemmas
// ---------------------------------------------------------------------------

/// File and rank recover the coordinates of an on-board square.
pub proof fn lemma_sq_at(f: int, r: int)
    requires
        on_board(f, r),
    ensures
        file_of(sq_at(f, r)) == f,
        rank_of(sq_at(f, r)) == r,
        0 <= sq_at(f, r) < 64,
{
}

/// A step from `from` by `(df, dr)` lands on `t` exactly when `t`'s file and
/// rank differ from `from`'s by `df` and `dr`.
pub proof fn lemma_step_hit(from: int, df: int, dr: int, t: int)
    requires
        0 <= from < 64,
        0 <= t < 64,
    ensures
        step_hit(from, df, dr, t) <==> (file_of(t) - file_of(from) == df && rank_of(t) - rank_of(
            from,
        ) == dr),
{
    if file_of(t) - file_of(from) == df && rank_of(t) - rank_of(from) == dr {
        assert(t == rank_of(t) * 8 + file_of(t));
    }
    if step_hit(from, df, dr, t) {
        lemma_sq_at(file_of(from) + df, rank_of(from) + dr);
    }
}

/// On the board, the `k`-th ray square is `from + k * delta`.
pub proof fn lemma_ray_point(from: int, d: int, k: int)
    requires
        0 <= from < 64,
        0 <= d < 8,
        ray_on(from, d, k),
    ensures
        ray_point(from, d, k) == from + k * dir_delta(d),
        0 <= ray_point(from, d, k) < 64,
        file_of(ray_point(from, d, k)) == file_of(from) + scale(dir_df(d), k),
        rank_of(ray_point(from, d, k)) == rank_of(from) + scale(dir_dr(d), k),
{
    lemma_sq_at(file_of(from) + scale(dir_df(d), k), rank_of(from) + scale(dir_dr(d), k));
    assert(from == rank_of(from) * 8 + file_of(from));
    let df = dir_df(d);
    let dr = dir_dr(d);
    assert(scale(df, k) == k * df) by (nonlinear_arith)
        requires
            df == 1 || df == 0 || df == -1,
            scale(df, k) == (if df == 1 { k } else if df == -1 { -k } else { 0 }),
    ;
    assert(scale(dr, k) == k * dr) by (nonlinear_arith)
        requires
            dr == 1 || dr == 0 || dr == -1,
            scale(dr, k) == (if dr == 1 { k } else if dr == -1 { -k } else { 0 }),
    ;
    assert(k * dir_delta(d) == k * dr * 8 + k * df) by (nonlinear_arith)
        requires
            dir_delta(d) == dr * 8 + df,
    ;
}

/// A ray leaves the board at most once: squares before an on-board one are on it too.
pub proof fn lemma_ray_on_prefix(from: int, d: int, j: int, k: int)
    requires
        0 <= from < 64,
        0 <= d < 8,
        0 <= j <= k,
        ray_on(from, d, k),
    ensures
        ray_on(from, d, j),
{
}

/// Ray squares are at most seven steps away.
pub proof fn lemma_ray_on_bound(from: int, d: int, k: int)
    requires
        0 <= from < 64,
        0 <= d < 8,
        k >= 8,
    ensures
        !ray_on(from, d, k),
{
}

/// Different steps along a ray reach different squares.
pub proof fn lemma_ray_injective(from: int, d: int, j: int, k: int)
    requires
        0 <= from < 64,
        0 <= d < 8,
        ray_on(from, d, j),
        ray_on(from, d, k),
        ray_point(from, d, j) == ray_point(from, d, k),
    ensures
        j == k,
{
    lemma_ray_point(from, d, j);
    lemma_ray_point(from, d, k);
    assert(dir_delta(d) != 0);
    assert((j - k) * dir_delta(d) == 0) by (nonlinear_arith)
        requires
            from + j * dir_delta(d) == from + k * dir_delta(d),
    ;
    assert(j == k) by (nonlinear_arith)
        requires
            (j - k) * dir_delta(d) == 0,
            dir_delta(d) != 0,
    ;
}

/// Along a ray, squares farther away have larger indices in positive
/// directions and smaller indices in negative ones.
pub proof fn lemma_ray_order(from: int, d: int, j: int, k: int)
    requires
        0 <= from < 64,
        0 <= d < 8,
        ray_on(from, d, j),
        ray_on(from, d, k),
        j < k,
    ensures
        d < 4 ==> ray_point(from, d, j) < ray_point(from, d, k),
        d >= 4 ==> ray_point(from, d, j) > ray_point(from, d, k),
{
    lemma_ray_point(from, d, j);
    lemma_ray_point(from, d, k);
    if d < 4 {
        assert(dir_delta(d) > 0);
        assert(j * dir_delta(d) < k * dir_delta(d)) by (nonlinear_arith)
            requires
                j < k,
                dir_delta(d) > 0,
        ;
    } else {
        assert(dir_delta(d) < 0);
        assert(j * dir_delta(d) > k * dir_delta(d)) by (nonlinear_arith)
            requires
                j < k,
                dir_delta(d) < 0,
        ;
    }
}

/// The ray from the `kb`-th square continues the ray from `from`.
pub proof fn lemma_ray_shift(from: int, d: int, kb: int, j: int, t: int)
    requires
        0 <= from < 64,
        0 <= d < 8,
        kb >= 1,
        ray_on(from, d, kb),
    ensures
        ray_hit(ray_point(from, d, kb), d, j, t) <==> (j >= 1 && ray_hit(from, d, kb + j, t)),
{
    lemma_ray_point(from, d, kb);
    let b = ray_point(from, d, kb);
    assert(scale(dir_df(d), kb) + scale(dir_df(d), j) == scale(dir_df(d), kb + j));
    assert(scale(dir_dr(d), kb) + scale(dir_dr(d), j) == scale(dir_dr(d), kb + j));
}

/// The closest square of a ray that is set in `blockers`: the lowest set
/// bit in positive directions, the highest in negative ones.
pub open spec fn nearest_index(blockers: u64, d: int) -> int {
    if d < 4 {
        u64_trailing_zeros(blockers) as int
    } else {
        63 - u64_leading_zeros(blockers)
    }
}

/// When every set bit of `blockers` lies on the ray from `from`, the nearest
/// set bit is a ray square, and every ray square before it is clear.
pub proof fn lemma_nearest_blocker(blockers: u64, from: int, d: int) -> (kb: int)
    requires
        0 <= from < 64,
        0 <= d < 8,
        blockers != 0,
        forall|t: int| #[trigger] bit(blockers, t) ==> on_ray(from, d, t),
    ensures
        ray_hit(from, d, kb, nearest_index(blockers, d)),
        bit(blockers, nearest_index(blockers, d)),
        ray_clear(blockers, from, d, (kb - 1) as int),
{
    let b = nearest_index(blockers, d);
    if d < 4 {
        lemma_lowest_bit(blockers);
    } else {
        lemma_highest_bit(blockers);
    }
    assert(bit(blockers, b));
    assert(on_ray(from, d, b));
    let kb = choose|k: int| #[trigger] ray_hit(from, d, k, b);
    assert forall|j: int| 1 <= j <= kb - 1 implies !#[trigger] bit(
        blockers,
        ray_point(from, d, j),
    ) by {
        lemma_ray_on_prefix(from, d, j, kb);
        lemma_ray_order(from, d, j, kb);
        lemma_ray_point(from, d, j);
    }
    kb
}

// ---------------------------------------------------------------------------
// Executable tables
// ---------------------------------------------------------------------------

/// The direction with index `dir_idx`: E, N, NE, NW, W, S, SE, SW.
/// The first four increase the square index, the last four decrease it.
pub(crate) fn direction(dir_idx: usize) -> (r: (i8, i8))
    requires
        dir_idx < 8,
    ensures
        r.0 == dir_df(dir_idx as int),
        r.1 == dir_dr(dir_idx as int),
{
    match dir_idx {
        0 => (1, 0),
        1 => (0, 1),
        2 => (1, 1),
        3 => (-1, 1),
        4 => (-1, 0),
        5 => (0, -1),
        6 => (1, -1),
        _ => (-1, -1),
    }
}

/// The squares reached from `sq` by the given offsets, as a bitboard.
pub(crate) fn step_attacks(offsets: &Vec<(i8, i8)>, sq: u8) -> (r: u64)
    requires
        sq < 64,
        forall|k: int|
            0 <= k < offsets@.len() ==> -8 <= (#[trigger] offsets@[k]).0 <= 8 && -8 <= offsets@[k].1
                <= 8,
    ensures
        forall|t: int| bit(r, t) <==> step_target(offsets@, sq as int, t),
{
    let mut table: u64 = 0;
    let file: i8 = (sq % 8) as i8;
    let rank: i8 = (sq / 8) as i8;
    let mut i: usize = 0;
    while i < offsets.len()
        invariant
            i <= offsets@.len(),
            sq < 64,
            file == sq % 8,
            rank == sq / 8,
            forall|k: int|
                0 <= k < offsets@.len() ==> -8 <= (#[trigger] offsets@[k]).0 <= 8 && -8
                    <= offsets@[k].1 <= 8,
            forall|t: int|
                bit(table, t) <==> exists|k: int|
                    0 <= k < i && #[trigger] step_hit(
                        sq as int,
                        offsets@[k].0 as int,
                        offsets@[k].1 as int,
                        t,
                    ),
        decreases offsets@.len() - i,
    {
        let (df, dr) = offsets[i];
        let nf: i8 = file + df;
        let nr: i8 = rank + dr;
        let ghost old_table = table;
        if nf >= 0 && nf < 8 && nr >= 0 && nr < 8 {
            let target: u64 = (nr as u64) * 8 + (nf as u64);
            table = table | (1u64 << target);
            proof {
                lemma_sq_at(nf as int, nr as int);
            }
        }
        assert forall|t: int|
            bit(table, t) <==> exists|k: int|
                0 <= k < i + 1 && #[trigger] step_hit(
                    sq as int,
                    offsets@[k].0 as int,
                    offsets@[k].1 as int,
                    t,
                ) by {
            if step_hit(sq as int, df as int, dr as int, t) {
                assert(step_hit(sq as int, offsets@[i as int].0 as int, offsets@[i as int].1 as int, t));
            }
            if exists|k: int|
                0 <= k < i + 1 && #[trigger] step_hit(
                    sq as int,
                    offsets@[k].0 as int,
                    offsets@[k].1 as int,
                    t,
                ) {
                let k = choose|k: int|
                    0 <= k < i + 1 && #[trigger] step_hit(
                        sq as int,
                        offsets@[k].0 as int,
                        offsets@[k].1 as int,
                        t,
                    );
                if k < i {
                    assert(bit(old_table, t));
                }
            }
        }
        i += 1;
    }
    table
}

/// Knight offsets in table order.
pub(crate) fn knight_offset_table() -> (r: Vec<(i8, i8)>)
    ensures
        r@ == knight_offsets(),
{
    let r = vec![(1i8, 2i8), (2, 1), (2, -1), (1, -2), (-1, -2), (-2, -1), (-2, 1), (-1, 2)];
    assert(r@ =~= knight_offsets());
    r
}

/// King offsets in table order.
pub(crate) fn king_offset_table() -> (r: Vec<(i8, i8)>)
    ensures
        r@ == king_offsets(),
{
    let r = vec![(1i8, 0i8), (1, 1), (0, 1), (-1, 1), (-1, 0), (-1, -1), (0, -1), (1, -1)];
    assert(r@ =~= king_offsets());
    r
}

/// Squares a knight on `sq` attacks.
pub(crate) fn knight_attacks(sq: u8) -> (r: u64)
    requires
        sq < 64,
    ensures
        forall|t: int| bit(r, t) <==> knight_target(sq as int, t),
{
    let offsets = knight_offset_table();
    step_attacks(&offsets, sq)
}

/// Squares a king on `sq` attacks.
pub(crate) fn king_attacks(sq: u8) -> (r: u64)
    requires
        sq < 64,
    ensures
        forall|t: int| bit(r, t) <==> king_target(sq as int, t),
{
    let offsets = king_offset_table();
    step_attacks(&offsets, sq)
}

/// Squares a pawn of color `color_idx` (0 is White) on `sq` attacks.
pub(crate) fn pawn_attacks_for(color_idx: usize, sq: u8) -> (r: u64)
    requires
        sq < 64,
    ensures
        forall|t: int| bit(r, t) <==> pawn_attack_target(color_idx as int, sq as int, t),
{
    let mut table: u64 = 0;
    let dir: i8 = if color_idx == 0 {
        1
    } else {
        -1
    };
    let file: i8 = (sq % 8) as i8;
    let rank: i8 = (sq / 8) as i8;
    let nr: i8 = rank + dir;
    if nr >= 0 && nr < 8 {
        let lf: i8 = file - 1;
        if lf >= 0 {
            table = table | (1u64 << ((nr as u64) * 8 + (lf as u64)));
        }
        let rf: i8 = file + 1;
        if rf < 8 {
            table = table | (1u64 << ((nr as u64) * 8 + (rf as u64)));
        }
    }
    table
}

/// The square a pawn of color `color_idx` on `sq` pushes to, if it is on the board.
pub(crate) fn pawn_single_push_for(color_idx: usize, sq: u8) -> (r: u64)
    requires
        sq < 64,
    ensures
        forall|t: int| bit(r, t) <==> pawn_push_target(color_idx as int, sq as int, t),
{
    let mut table: u64 = 0;
    let dir: i8 = if color_idx == 0 {
        1
    } else {
        -1
    };
    let rank: i8 = (sq / 8) as i8;
    let nr: i8 = rank + dir;
    if nr >= 0 && nr < 8 {
        let target: u64 = if color_idx == 0 {
            (sq as u64) + 8
        } else {
            (sq as u64) - 8
        };
        table = 1u64 << target;
    }
    table
}

/// The full ray from `sq` in direction `dir_idx`, as a bitboard.
pub(crate) fn ray_for(dir_idx: usize, sq: u8) -> (r: u64)
    requires
        dir_idx < 8,
        sq < 64,
    ensures
        forall|t: int| bit(r, t) <==> on_ray(sq as int, dir_idx as int, t),
{
    let ghost d = dir_idx as int;
    let ghost from = sq as int;
    let (df, dr) = direction(dir_idx);
    let mut table: u64 = 0;
    let mut nf: i8 = (sq % 8) as i8 + df;
    let mut nr: i8 = (sq / 8) as i8 + dr;
    let mut step: i8 = 1;
    while step <= 7
        invariant_except_break
            1 <= step <= 8,
        invariant
            0 <= d < 8,
            0 <= from < 64,
            df == dir_df(d),
            dr == dir_dr(d),
            nf == file_of(from) + scale(dir_df(d), step as int),
            nr == rank_of(from) + scale(dir_dr(d), step as int),
            1 <= step,
            forall|t: int|
                bit(table, t) <==> exists|k: int| #[trigger] ray_hit(from, d, k, t) && k < step,
        ensures
            forall|t: int| bit(table, t) <==> on_ray(from, d, t),
        decreases 8 - step,
    {
        if nf < 0 || nf >= 8 || nr < 0 || nr >= 8 {
            assert forall|t: int| bit(table, t) <==> on_ray(from, d, t) by {
                if on_ray(from, d, t) {
                    let k = choose|k: int| #[trigger] ray_hit(from, d, k, t);
                    if k >= step {
                        lemma_ray_on_prefix(from, d, step as int, k);
                    }
                }
            }
            break;
        }
        let ghost old_table = table;
        let target: u64 = (nr as u64) * 8 + (nf as u64);
        table = table | (1u64 << target);
        proof {
            lemma_sq_at(nf as int, nr as int);
            assert(ray_hit(from, d, step as int, target as int));
            assert forall|t: int|
                bit(table, t) <==> exists|k: int| #[trigger] ray_hit(from, d, k, t) && k < step
                    + 1 by {
                if exists|k: int| #[trigger] ray_hit(from, d, k, t) && k < step + 1 {
                    let k = choose|k: int| #[trigger] ray_hit(from, d, k, t) && k < step + 1;
                    if k < step {
                        assert(bit(old_table, t));
                    }
                }
            }
        }
        step = step + 1;
        nf = nf + df;
        nr = nr + dr;
        if step == 8 {
            assert forall|t: int| bit(table, t) <==> on_ray(from, d, t) by {
                if on_ray(from, d, t) {
                    let k = choose|k: int| #[trigger] ray_hit(from, d, k, t);
                    if k >= 8 {
                        lemma_ray_on_bound(from, d, k);
                    }
                }
            }
        }
    }
    table
}

/// Whether moving in `dir_idx` increases the linear square index.
/// E, N, NE, NW are positive (closest blocker = lowest set bit).
/// W, S, SE, SW are negative (closest blocker = highest set bit).
pub(crate) fn dir_is_positive(dir_idx: usize) -> (r: bool)
    ensures
        r == (dir_idx < 4),
{
    dir_idx < 4
}

/// Index of the blocker nearest to the ray's origin among `blockers`.
pub(crate) fn closest_blocker(blockers: u64, dir_idx: usize) -> (r: usize)
    requires
        blockers != 0,
    ensures
        r == nearest_index(blockers, dir_idx as int),
        r < 64,
{
    if dir_is_positive(dir_idx) {
        proof {
            lemma_lowest_bit(blockers);
        }
        blockers.trailing_zeros() as usize
    } else {
        proof {
            lemma_highest_bit(blockers);
        }
        63 - (blockers.leading_zeros() as usize)
    }
}

/// The ray from `from_idx` in direction `dir_idx`, cut in front of the first
/// square set in `own`.
pub(crate) fn ray_attacks_one_dir(from_idx: usize, own: u64, dir_idx: usize) -> (r: u64)
    requires
        from_idx < 64,
        dir_idx < 8,
    ensures
        forall|t: int| bit(r, t) <==> slider_hit(own, from_idx as int, dir_idx as int, t),
{
    let ghost from = from_idx as int;
    let ghost d = dir_idx as int;
    let ray = ray_for(dir_idx, from_idx as u8);
    let blockers = ray & own;
    if blockers == 0 {
        proof {
            lemma_zero_iff_empty(blockers);
            assert forall|t: int| bit(ray, t) <==> slider_hit(own, from, d, t) by {
                if bit(ray, t) {
                    let k = choose|k: int| #[trigger] ray_hit(from, d, k, t);
                    assert forall|j: int| 1 <= j <= k implies !#[trigger] bit(
                        own,
                        ray_point(from, d, j),
                    ) by {
                        lemma_ray_on_prefix(from, d, j, k);
                        assert(ray_hit(from, d, j, ray_point(from, d, j)));
                        assert(!bit(blockers, ray_point(from, d, j)));
                    }
                }
            }
        }
        return ray;
    }
    let blocker_sq = closest_blocker(blockers, dir_idx);
    let beyond = ray_for(dir_idx, blocker_sq as u8);
    let blocker_and_beyond = beyond | (1u64 << (blocker_sq as u64));
    let result = ray & !blocker_and_beyond;
    proof {
        let kb = lemma_nearest_blocker(blockers, from, d);
        let b = blocker_sq as int;
        assert forall|t: int| bit(result, t) <==> slider_hit(own, from, d, t) by {
            if bit(result, t) {
                let k = choose|k: int| #[trigger] ray_hit(from, d, k, t);
                if k == kb {
                    assert(t == b);
                } else if k > kb {
                    lemma_ray_shift(from, d, kb, k - kb, t);
                    assert(ray_hit(b, d, k - kb, t));
                    assert(bit(beyond, t));
                } else {
                    assert forall|j: int| 1 <= j <= k implies !#[trigger] bit(
                        own,
                        ray_point(from, d, j),
                    ) by {
                        lemma_ray_on_prefix(from, d, j, k);
                        assert(ray_hit(from, d, j, ray_point(from, d, j)));
                        assert(!bit(blockers, ray_point(from, d, j)));
                    }
                    assert(ray_hit(from, d, k, t) && ray_clear(own, from, d, k));
                }
            }
            if slider_hit(own, from, d, t) {
                let k = choose|k: int| #[trigger] ray_hit(from, d, k, t) && ray_clear(own, from, d, k);
                assert(bit(own, b));
                if kb <= k {
                    assert(!bit(own, ray_point(from, d, kb)));
                }
                assert(bit(ray, t));
                if t == b {
                    lemma_ray_injective(from, d, k, kb);
                }
                if bit(beyond, t) {
                    let j = choose|j: int| #[trigger] ray_hit(b, d, j, t);
                    lemma_ray_shift(from, d, kb, j, t);
                    lemma_ray_injective(from, d, k, kb + j);
                }
            }
        }
    }
    result
}

/// Squares a rook on `from_idx` reaches before its own pieces `own`.
pub(crate) fn rook_attacks(from_idx: u8, own: u64) -> (r: u64)
    requires
        from_idx < 64,
    ensures
        forall|t: int| bit(r, t) <==> rook_target(own, from_idx as int, t),
{
    let from = from_idx as usize;
    ray_attacks_one_dir(from, own, 0) | ray_attacks_one_dir(from, own, 1) | ray_attacks_one_dir(
        from,
        own,
        4,
    ) | ray_attacks_one_dir(from, own, 5)
}

/// Squares a bishop on `from_idx` reaches before its own pieces `own`.
pub(crate) fn bishop_attacks(from_idx: u8, own: u64) -> (r: u64)
    requires
        from_idx < 64,
    ensures
        forall|t: int| bit(r, t) <==> bishop_target(own, from_idx as int, t),
{
    let from = from_idx as usize;
    ray_attacks_one_dir(from, own, 2) | ray_attacks_one_dir(from, own, 3) | ray_attacks_one_dir(
        from,
        own,
        6,
    ) | ray_attacks_one_dir(from, own, 7)
}

/// Squares a queen on `from_idx` reaches before its own pieces `own`.
pub(crate) fn queen_attacks(from_idx: u8, own: u64) -> (r: u64)
    requires
        from_idx < 64,
    ensures
        forall|t: int| bit(r, t) <==> queen_target(own, from_idx as int, t),
{
    rook_attacks(from_idx, own) | bishop_attacks(from_idx, own)
}

/// The direction index of the unit step `(df, dr)`, if it is one of the eight.
pub(crate) fn direction_index(df: i8, dr: i8) -> (r: Option<usize>)
    ensures
        r matches Some(d) ==> d < 8 && dir_df(d as int) == df && dir_dr(d as int) == dr,
        r is None <==> !(-1 <= df <= 1 && -1 <= dr <= 1 && (df != 0 || dr != 0)),
{
    match (df, dr) {
        (1, 0) => Some(0),
        (0, 1) => Some(1),
        (1, 1) => Some(2),
        (-1, 1) => Some(3),
        (-1, 0) => Some(4),
        (0, -1) => Some(5),
        (1, -1) => Some(6),
        (-1, -1) => Some(7),
        _ => None,
    }
}

} // verus!
