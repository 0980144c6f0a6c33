//! Placement enumeration and action-sequence planning.
//!
//! The enumerator simulates a pure vertical drop for every rotation and
//! horizontal offset, scores each resulting board, and picks the strictly
//! best candidate (ties go to the first found: rotation ascending, then
//! column ascending). The planner then runs a label-correcting shortest-path
//! search over (column, rotation) poses — rotations and steps cost 1, and
//! when the auto-repeat rate is zero a slide-to-wall edge costs the
//! delayed-auto-shift latency — and emits the action list to the target.
//! The single-hard-drop fallback is emitted exactly when no collision-free
//! action sequence connects the spawn pose to the target at all.

use vstd::prelude::*;

use crate::board::{
    clear_spec, spec_can_place, spec_lock, Board, BOARD_HEIGHT, BOARD_WIDTH,
};
use crate::evaluation::{
    spec_score, spec_weights, weights_bounded, EvaluationWeights, Strategy,
};
use crate::pieces::{
    spec_moved, spec_rotated, spec_spawn_position, Piece, PieceType, Placement,
};

verus! {

/// One primitive controller action emitted by the planner.
#[derive(Clone, Copy, Debug, PartialEq, Eq, Structural)]
pub enum Action {
    Rotate,
    RotateCcw,
    MoveLeft,
    MoveRight,
    MoveAllTheWayLeft,
    MoveAllTheWayRight,
    HardDrop,
}

/// The name under which each action is reported to the host.
pub open spec fn action_name(a: Action) -> Seq<char> {
    match a {
        Action::Rotate => "rotate"@,
        Action::RotateCcw => "rotate_ccw"@,
        Action::MoveLeft => "move_left"@,
        Action::MoveRight => "move_right"@,
        Action::MoveAllTheWayLeft => "move_all_the_way_left"@,
        Action::MoveAllTheWayRight => "move_all_the_way_right"@,
        Action::HardDrop => "hard_drop"@,
    }
}

/// An action's name.
pub fn action_str(a: Action) -> (r: &'static str)
    ensures
        r@ == action_name(a),
{
    match a {
        Action::Rotate => "rotate",
        Action::RotateCcw => "rotate_ccw",
        Action::MoveLeft => "move_left",
        Action::MoveRight => "move_right",
        Action::MoveAllTheWayLeft => "move_all_the_way_left",
        Action::MoveAllTheWayRight => "move_all_the_way_right",
        Action::HardDrop => "hard_drop",
    }
}

/// The comma-joined names of the first `i` actions.
pub open spec fn joined_upto(actions: Seq<Action>, i: int) -> Seq<char>
    decreases i,
{
    if i <= 0 {
        Seq::empty()
    } else if i == 1 {
        action_name(actions[0])
    } else {
        joined_upto(actions, i - 1) + seq![','] + action_name(actions[i - 1])
    }
}

/// The comma-joined names of a whole action list.
pub open spec fn joined_actions(actions: Seq<Action>) -> Seq<char> {
    joined_upto(actions, actions.len() as int)
}

/// Joins action names with commas, as the host interface reports them.
pub fn join_actions(actions: &Vec<Action>) -> (s: String)
    ensures
        s@ == joined_actions(actions@),
{
    let mut s = String::new();
    let mut i: usize = 0;
    while i < actions.len()
        invariant
            i <= actions@.len(),
            s@ == joined_upto(actions@, i as int),
        decreases actions@.len() - i,
    {
        if i > 0 {
            proof {
                reveal_strlit(",");
            }
            s.append(",");
        }
        s.append(action_str(actions[i]));
        i += 1;
    }
    s
}

/// An action's name as an owned string, as the decision interface returns
/// single actions.
pub fn action_string(a: Action) -> (s: String)
    ensures
        s@ == action_name(a),
{
    String::from_str(action_str(a))
}

/// The canonical spawn pose of a shape.
pub open spec fn spawn_piece(t: PieceType) -> Piece {
    Piece {
        piece_type: t,
        x: spec_spawn_position(t).0,
        y: spec_spawn_position(t).1,
        rotation: 0usize,
    }
}

/// The piece standing at a placement's pose.
pub open spec fn place_piece(t: PieceType, pl: Placement) -> Piece {
    Piece { piece_type: t, x: pl.x, y: pl.y, rotation: pl.rotation }
}

/// Pure vertical drop from a pose: keep moving one row down while the next
/// row is placeable. Mirrors the drop loop, including its out-of-grid guard.
pub open spec fn drop_from(rows: Seq<u32>, p: Piece) -> Option<i32>
    decreases 41 - p.y when p.y <= 41
{
    if spec_can_place(rows, spec_moved(p, 0, 1)) {
        if p.y + 1 > 40 {
            None
        } else {
            drop_from(rows, spec_moved(p, 0, 1))
        }
    } else {
        Some(p.y)
    }
}

/// Landing row of a shape dropped at column `x` with rotation `r`: start at
/// the top row; `None` when even the top row collides.
pub open spec fn landing_spec(rows: Seq<u32>, t: PieceType, x: i32, r: usize) -> Option<i32> {
    let p = Piece { piece_type: t, x, y: 0i32, rotation: r };
    if spec_can_place(rows, p) {
        drop_from(rows, p)
    } else {
        None
    }
}

proof fn lemma_drop_from_placeable(rows: Seq<u32>, p: Piece)
    requires
        spec_can_place(rows, p),
        0 <= p.y <= 40,
        drop_from(rows, p) is Some,
    ensures
        spec_can_place(rows, Piece { y: drop_from(rows, p)->0, ..p }),
    decreases 41 - p.y,
{
    let next = spec_moved(p, 0, 1);
    if spec_can_place(rows, next) {
        lemma_drop_from_placeable(rows, next);
        assert(Piece { y: drop_from(rows, next)->0, ..next } == Piece {
            y: drop_from(rows, p)->0,
            ..p
        });
    } else {
        assert(Piece { y: drop_from(rows, p)->0, ..p } == p);
    }
}

/// Enumerator soundness: a reported landing row is a pose the piece can
/// actually rest at.
pub proof fn lemma_landing_placeable(rows: Seq<u32>, t: PieceType, x: i32, r: usize)
    requires
        landing_spec(rows, t, x, r) is Some,
    ensures
        spec_can_place(
            rows,
            Piece { piece_type: t, x, y: landing_spec(rows, t, x, r)->0, rotation: r },
        ),
{
    let p = Piece { piece_type: t, x, y: 0i32, rotation: r };
    lemma_drop_from_placeable(rows, p);
}

/// Candidate placements of one rotation for columns `[x, 12)`, in ascending
/// column order.
pub open spec fn placements_for_rot(rows: Seq<u32>, t: PieceType, rot: usize, x: int) -> Seq<
    Placement,
>
    decreases 12 - x when x <= 12
{
    if x >= 12 {
        Seq::empty()
    } else {
        let rest = placements_for_rot(rows, t, rot, x + 1);
        let landing = landing_spec(rows, t, x as i32, rot);
        if landing is Some {
            seq![Placement { x: x as i32, y: landing->0, rotation: rot }] + rest
        } else {
            rest
        }
    }
}

/// Every reachable resting pose of a shape: rotations ascending, columns
/// `-2..12` ascending within each rotation. Distinct (rotation, column)
/// pairs make duplicates impossible.
pub open spec fn placements_spec(rows: Seq<u32>, t: PieceType) -> Seq<Placement> {
    placements_for_rot(rows, t, 0usize, -2) + placements_for_rot(rows, t, 1usize, -2)
        + placements_for_rot(rows, t, 2usize, -2) + placements_for_rot(rows, t, 3usize, -2)
}

/// The board predicted after locking a piece at a placement and clearing
/// full rows.
pub open spec fn predicted_rows(rows: Seq<u32>, t: PieceType, pl: Placement) -> Seq<u32> {
    clear_spec(spec_lock(rows, place_piece(t, pl)))
}

/// The best candidate among the first `n` placements, with its score: a
/// strictly higher score wins, a tie keeps the earlier candidate; unplaceable
/// candidates are skipped.
pub open spec fn best_of(
    rows: Seq<u32>,
    t: PieceType,
    w: EvaluationWeights,
    pls: Seq<Placement>,
    n: int,
) -> Option<(Placement, int)>
    decreases n,
{
    if n <= 0 {
        None
    } else {
        let prev = best_of(rows, t, w, pls, n - 1);
        let pl = pls[n - 1];
        if spec_can_place(rows, place_piece(t, pl)) {
            let sc = spec_score(predicted_rows(rows, t, pl), w);
            match prev {
                None => Some((pl, sc)),
                Some(b) => if sc > b.1 {
                    Some((pl, sc))
                } else {
                    Some(b)
                },
            }
        } else {
            prev
        }
    }
}

/// The placement the enumerator selects for a weight profile, if any
/// candidate survives.
pub open spec fn best_placement_spec(rows: Seq<u32>, t: PieceType, w: EvaluationWeights) -> Option<
    Placement,
> {
    let pls = placements_spec(rows, t);
    let b = best_of(rows, t, w, pls, pls.len() as int);
    if b is Some {
        let chosen = b->0;
        Some(chosen.0)
    } else {
        None
    }
}

/// The column the piece reaches by sliding left until blocked.
pub open spec fn slide_left(rows: Seq<u32>, p: Piece) -> Piece
    decreases p.x + 4 when p.x >= -4 via slide_left_decreases
{
    if spec_can_place(rows, spec_moved(p, -1, 0)) {
        slide_left(rows, spec_moved(p, -1, 0))
    } else {
        p
    }
}

#[via_fn]
proof fn slide_left_decreases(rows: Seq<u32>, p: Piece) {
    if spec_can_place(rows, spec_moved(p, -1, 0)) {
        crate::board::lemma_can_place_bounds(rows, spec_moved(p, -1, 0));
    }
}

/// The column the piece reaches by sliding right until blocked.
pub open spec fn slide_right(rows: Seq<u32>, p: Piece) -> Piece
    decreases 13 - p.x when p.x <= 13 via slide_right_decreases
{
    if spec_can_place(rows, spec_moved(p, 1, 0)) {
        slide_right(rows, spec_moved(p, 1, 0))
    } else {
        p
    }
}

#[via_fn]
proof fn slide_right_decreases(rows: Seq<u32>, p: Piece) {
    if spec_can_place(rows, spec_moved(p, 1, 0)) {
        crate::board::lemma_can_place_bounds(rows, spec_moved(p, 1, 0));
    }
}

/// The pose after one planner action, at unchanged height. A hard drop does
/// not move the pose in this search space.
pub open spec fn apply_action(rows: Seq<u32>, p: Piece, a: Action) -> Piece {
    match a {
        Action::Rotate => spec_rotated(p, true),
        Action::RotateCcw => spec_rotated(p, false),
        Action::MoveLeft => spec_moved(p, -1, 0),
        Action::MoveRight => spec_moved(p, 1, 0),
        Action::MoveAllTheWayLeft => slide_left(rows, p),
        Action::MoveAllTheWayRight => slide_right(rows, p),
        Action::HardDrop => p,
    }
}

/// Replays rotate/step actions from a pose, checking each resulting pose
/// against the static board at its unchanged height; `None` as soon as one
/// pose collides.
pub open spec fn replay(rows: Seq<u32>, p: Piece, actions: Seq<Action>) -> Option<Piece>
    decreases actions.len(),
{
    if actions.len() == 0 {
        Some(p)
    } else {
        let q = apply_action(rows, p, actions[0]);
        if spec_can_place(rows, q) {
            replay(rows, q, actions.drop_first())
        } else {
            None
        }
    }
}

/// No slide actions anywhere in the list.
pub open spec fn no_slides(actions: Seq<Action>) -> bool {
    forall|i: int|
        0 <= i < actions.len() ==> #[trigger] actions[i] != Action::MoveAllTheWayLeft && actions[i]
            != Action::MoveAllTheWayRight
}

/// Some collision-free rotate/step/slide sequence, checked at spawn height,
/// connects the spawn pose to the target column and rotation. When the
/// auto-repeat rate is nonzero the connecting sequence may not use slides,
/// matching the planner's edge set.
pub open spec fn pose_reachable(
    rows: Seq<u32>,
    t: PieceType,
    target_x: int,
    target_rot: int,
    arr: u32,
) -> bool {
    exists|actions: Seq<Action>|
        {
            let q = #[trigger] replay(rows, spawn_piece(t), actions);
            &&& q is Some
            &&& q->0.x as int == target_x
            &&& q->0.rotation as int == target_rot
            &&& (arr != 0 ==> no_slides(actions))
        }
}

/// A valid plan for a target pose: nonempty, ends in a hard drop, uses
/// slides only when the auto-repeat rate is zero; whenever the target is
/// reachable at all from the spawn pose, the plan's rotate/step prefix
/// replays, collision-free at spawn height, to exactly the target's column
/// and rotation; and the bare hard-drop fallback is emitted only when the
/// target is unreachable.
pub open spec fn plan_reaches(
    rows: Seq<u32>,
    t: PieceType,
    target_x: int,
    target_rot: int,
    arr: u32,
    plan: Seq<Action>,
) -> bool {
    &&& plan.len() >= 1
    &&& plan.last() == Action::HardDrop
    &&& (arr != 0 ==> no_slides(plan))
    &&& (pose_reachable(rows, t, target_x, target_rot, arr) ==> {
        let q = replay(rows, spawn_piece(t), plan.drop_last());
        &&& q is Some
        &&& q->0.x as int == target_x
        &&& q->0.rotation as int == target_rot
    })
    &&& (!pose_reachable(rows, t, target_x, target_rot, arr) ==> plan == seq![Action::HardDrop])
}

/// What the search promises of a returned plan, for a given weight profile:
/// the fallback when no placement survives, else a valid plan to the
/// selected placement.
pub open spec fn plan_ok_for_weights(
    rows: Seq<u32>,
    t: PieceType,
    w: EvaluationWeights,
    arr: u32,
    plan: Seq<Action>,
) -> bool {
    let bp = best_placement_spec(rows, t, w);
    if bp is Some {
        plan_reaches(rows, t, bp->0.x as int, bp->0.rotation as int, arr, plan)
    } else {
        plan == seq![Action::HardDrop]
    }
}

/// `plan_ok_for_weights` under a strategy's own weight profile.
pub open spec fn search_plan_ok(
    rows: Seq<u32>,
    t: PieceType,
    strategy: Strategy,
    arr: u32,
    plan: Seq<Action>,
) -> bool {
    plan_ok_for_weights(rows, t, spec_weights(strategy), arr, plan)
}

/// The search's outcome: the comma-joined action names of the plan.
#[derive(Clone, Debug, Default)]
pub struct SearchResult {
    pub best_move: String,
}

/// A scored candidate: the board predicted after the placement, and its
/// evaluator score.
#[derive(Clone, Debug)]
pub struct PlacementEvaluation {
    pub score: i64,
    pub predicted_board: Board,
}

/// One frontier entry of the planner's shortest-path search.
struct SearchState {
    cost: u64,
    piece: Piece,
    path: Vec<Action>,
}

/// A frontier entry is sound: replaying its path from the spawn pose yields
/// exactly its piece, every intermediate pose collision-free; the pose is
/// inside the geometry's column range; and slides appear only when the
/// auto-repeat rate is zero.
spec fn state_ok(rows: Seq<u32>, t: PieceType, s: SearchState, arr: u32) -> bool {
    &&& replay(rows, spawn_piece(t), s.path@) == Some(s.piece)
    &&& planner_pose(t, s.piece)
    &&& (arr != 0 ==> no_slides(s.path@))
}

/// A pose the planner's search space can hold: the piece type, the fixed
/// spawn height, a column in the geometry's range, a rotation index.
spec fn planner_pose(t: PieceType, p: Piece) -> bool {
    &&& p.piece_type == t
    &&& p.y == spawn_piece(t).y
    &&& -3 <= p.x <= 9
    &&& p.rotation < 4
}

/// Some frontier entry stands exactly at the pose of table entry `k`, at
/// its current best-known cost.
spec fn open_at(open: Seq<SearchState>, vis: Seq<u64>, k: int) -> bool {
    exists|i: int|
        0 <= i < open.len() && key_spec(#[trigger] open[i].piece) == k && open[i].cost == vis[k]
}

/// The neighbor reached over one edge has its table entry set and no worse
/// than following the edge from cost `u`.
spec fn edge_relaxed(vis: Seq<u64>, u: int, v: Piece, c: int) -> bool {
    &&& vis[key_spec(v)] != u64::MAX
    &&& vis[key_spec(v)] as int <= u + c
}

/// Every outgoing planner edge of a pose has been relaxed: each
/// collision-free rotation and step neighbor at cost 1, and — when the
/// auto-repeat rate is zero and the slide actually moves — each slide
/// neighbor at the delayed-auto-shift cost.
spec fn pose_relaxed(rows: Seq<u32>, p: Piece, vis: Seq<u64>, arr: u32, das: u32) -> bool {
    let u = vis[key_spec(p)] as int;
    &&& (spec_can_place(rows, spec_rotated(p, true)) ==> edge_relaxed(
        vis,
        u,
        spec_rotated(p, true),
        1,
    ))
    &&& (spec_can_place(rows, spec_rotated(p, false)) ==> edge_relaxed(
        vis,
        u,
        spec_rotated(p, false),
        1,
    ))
    &&& (spec_can_place(rows, spec_moved(p, -1, 0)) ==> edge_relaxed(
        vis,
        u,
        spec_moved(p, -1, 0),
        1,
    ))
    &&& (spec_can_place(rows, spec_moved(p, 1, 0)) ==> edge_relaxed(vis, u, spec_moved(p, 1, 0), 1))
    &&& (arr == 0 && slide_left(rows, p).x != p.x && spec_can_place(rows, slide_left(rows, p))
        ==> edge_relaxed(vis, u, slide_left(rows, p), das as int))
    &&& (arr == 0 && slide_right(rows, p).x != p.x && spec_can_place(rows, slide_right(rows, p))
        ==> edge_relaxed(vis, u, slide_right(rows, p), das as int))
}

/// Every set table entry other than the exempt one is accounted for: its
/// pose either still stands on the frontier at its best-known cost, or all
/// of its outgoing edges have been relaxed. (The exempt entry is the pose
/// being expanded mid-iteration; `-1` exempts nothing.)
spec fn table_settled(
    rows: Seq<u32>,
    t: PieceType,
    open: Seq<SearchState>,
    vis: Seq<u64>,
    arr: u32,
    das: u32,
    exempt: int,
) -> bool {
    forall|p: Piece|
        planner_pose(t, p) && vis[#[trigger] key_spec(p)] != u64::MAX && key_spec(p) != exempt
            ==> open_at(open, vis, key_spec(p)) || pose_relaxed(rows, p, vis, arr, das)
}

/// The best-known-cost table index of a pose.
spec fn key_spec(p: Piece) -> int {
    (p.x + 3) * 4 + p.rotation
}

/// Entries of the best-known-cost table that have been set.
spec fn count_set(s: Seq<u64>) -> int
    decreases s.len(),
{
    if s.len() == 0 {
        0int
    } else {
        count_set(s.drop_last()) + if s.last() != u64::MAX {
            1int
        } else {
            0int
        }
    }
}

proof fn lemma_count_set_bounds(s: Seq<u64>)
    ensures
        0 <= count_set(s) <= s.len(),
    decreases s.len(),
{
    if s.len() > 0 {
        lemma_count_set_bounds(s.drop_last());
    }
}

proof fn lemma_count_set_all_max(s: Seq<u64>)
    requires
        forall|i: int| 0 <= i < s.len() ==> #[trigger] s[i] == u64::MAX,
    ensures
        count_set(s) == 0,
    decreases s.len(),
{
    if s.len() > 0 {
        lemma_count_set_all_max(s.drop_last());
    }
}

proof fn lemma_count_set_update(s: Seq<u64>, i: int, v: u64)
    requires
        0 <= i < s.len(),
        v != u64::MAX,
    ensures
        count_set(s.update(i, v)) == count_set(s) + if s[i] == u64::MAX {
            1int
        } else {
            0int
        },
    decreases s.len(),
{
    if i == s.len() - 1 {
        assert(s.update(i, v).drop_last() =~= s.drop_last());
    } else {
        lemma_count_set_update(s.drop_last(), i, v);
        assert(s.update(i, v).drop_last() =~= s.drop_last().update(i, v));
    }
}

/// Sum of the best-known-cost table, the potential that shows the planner's
/// search terminates: every relaxation strictly lowers one entry.
spec fn sum_vals(s: Seq<u64>) -> int
    decreases s.len(),
{
    if s.len() == 0 {
        0int
    } else {
        sum_vals(s.drop_last()) + s.last()
    }
}

proof fn lemma_sum_vals_nonneg(s: Seq<u64>)
    ensures
        sum_vals(s) >= 0,
    decreases s.len(),
{
    if s.len() > 0 {
        lemma_sum_vals_nonneg(s.drop_last());
    }
}

proof fn lemma_sum_vals_update(s: Seq<u64>, i: int, v: u64)
    requires
        0 <= i < s.len(),
    ensures
        sum_vals(s.update(i, v)) == sum_vals(s) - s[i] + v,
    decreases s.len(),
{
    if i == s.len() - 1 {
        assert(s.update(i, v).drop_last() =~= s.drop_last());
    } else {
        lemma_sum_vals_update(s.drop_last(), i, v);
        assert(s.update(i, v).drop_last() =~= s.drop_last().update(i, v));
    }
}

/// The cost table is sound: 52 entries, and every set entry is at most one
/// action's worst cost for each entry that has ever been set.
spec fn table_ok(vis: Seq<u64>, cost_unit: u64) -> bool {
    &&& vis.len() == 52
    &&& forall|i: int|
        0 <= i < 52 && #[trigger] vis[i] != u64::MAX ==> vis[i] as int <= cost_unit as int
            * count_set(vis)
}

/// Every frontier entry is sound, and its pose's table entry has been set
/// at or below the entry's own cost (labels only ever improve).
spec fn frontier_ok(
    rows: Seq<u32>,
    t: PieceType,
    open: Seq<SearchState>,
    vis: Seq<u64>,
    arr: u32,
) -> bool {
    forall|i: int|
        0 <= i < open.len() ==> state_ok(rows, t, #[trigger] open[i], arr) && vis[key_spec(
            open[i].piece,
        )] != u64::MAX && vis[key_spec(open[i].piece)] <= open[i].cost
}

/// Distinct planner poses have distinct table entries.
proof fn lemma_key_injective(a: Piece, b: Piece)
    requires
        -3 <= a.x <= 9,
        a.rotation < 4,
        -3 <= b.x <= 9,
        b.rotation < 4,
        a.piece_type == b.piece_type,
        a.y == b.y,
        key_spec(a) == key_spec(b),
    ensures
        a == b,
{
    assert(a.x == b.x && a.rotation == b.rotation);
}

/// A slide changes only the column, and only monotonically; a slide that
/// did not move left the piece untouched.
proof fn lemma_slide_left_fields(rows: Seq<u32>, p: Piece)
    requires
        p.x >= -4,
    ensures
        ({
            let q = slide_left(rows, p);
            &&& q.piece_type == p.piece_type
            &&& q.y == p.y
            &&& q.rotation == p.rotation
            &&& q.x <= p.x
            &&& (q.x == p.x ==> q == p)
        }),
    decreases p.x + 4,
{
    if spec_can_place(rows, spec_moved(p, -1, 0)) {
        crate::board::lemma_can_place_bounds(rows, spec_moved(p, -1, 0));
        lemma_slide_left_fields(rows, spec_moved(p, -1, 0));
    }
}

proof fn lemma_slide_right_fields(rows: Seq<u32>, p: Piece)
    requires
        p.x <= 13,
    ensures
        ({
            let q = slide_right(rows, p);
            &&& q.piece_type == p.piece_type
            &&& q.y == p.y
            &&& q.rotation == p.rotation
            &&& q.x >= p.x
            &&& (q.x == p.x ==> q == p)
        }),
    decreases 13 - p.x,
{
    if spec_can_place(rows, spec_moved(p, 1, 0)) {
        crate::board::lemma_can_place_bounds(rows, spec_moved(p, 1, 0));
        lemma_slide_right_fields(rows, spec_moved(p, 1, 0));
    }
}

/// Completeness of the settled table: once every set entry is fully relaxed
/// (an emptied frontier), the endpoint of any collision-free action sequence
/// from the spawn pose has its table entry set.
proof fn lemma_path_settled(
    rows: Seq<u32>,
    t: PieceType,
    vis: Seq<u64>,
    arr: u32,
    das: u32,
    actions: Seq<Action>,
)
    requires
        vis.len() == 52,
        vis[key_spec(spawn_piece(t))] != u64::MAX,
        forall|p: Piece|
            planner_pose(t, p) && vis[#[trigger] key_spec(p)] != u64::MAX ==> pose_relaxed(
                rows,
                p,
                vis,
                arr,
                das,
            ),
        replay(rows, spawn_piece(t), actions) is Some,
        arr != 0 ==> no_slides(actions),
    ensures
        ({
            let q = replay(rows, spawn_piece(t), actions)->0;
            planner_pose(t, q) && vis[key_spec(q)] != u64::MAX
        }),
    decreases actions.len(),
{
    if actions.len() == 0 {
        assert(spec_spawn_position(t).0 == 3i32);
        assert(spawn_piece(t).rotation == 0usize);
    } else {
        let prefix = actions.drop_last();
        let a = actions.last();
        assert(prefix.push(a) =~= actions);
        lemma_replay_push(rows, spawn_piece(t), prefix, a);
        if arr != 0 {
            assert forall|i: int| 0 <= i < prefix.len() implies #[trigger] prefix[i]
                != Action::MoveAllTheWayLeft && prefix[i] != Action::MoveAllTheWayRight by {
                assert(prefix[i] == actions[i]);
            }
        }
        lemma_path_settled(rows, t, vis, arr, das, prefix);
        let u = replay(rows, spawn_piece(t), prefix)->0;
        let q = apply_action(rows, u, a);
        assert(spec_can_place(rows, q));
        crate::board::lemma_can_place_bounds(rows, q);
        assert(pose_relaxed(rows, u, vis, arr, das));
        match a {
            Action::Rotate => {},
            Action::RotateCcw => {},
            Action::MoveLeft => {},
            Action::MoveRight => {},
            Action::MoveAllTheWayLeft => {
                if arr != 0 {
                    assert(actions[actions.len() - 1] == a);
                    assert(false);
                }
                lemma_slide_left_fields(rows, u);
                if q.x == u.x {
                    assert(q == u);
                }
            },
            Action::MoveAllTheWayRight => {
                if arr != 0 {
                    assert(actions[actions.len() - 1] == a);
                    assert(false);
                }
                lemma_slide_right_fields(rows, u);
                if q.x == u.x {
                    assert(q == u);
                }
            },
            Action::HardDrop => {
                assert(q == u);
            },
        }
    }
}

proof fn lemma_no_slides_push(path: Seq<Action>, a: Action)
    requires
        no_slides(path),
        a != Action::MoveAllTheWayLeft,
        a != Action::MoveAllTheWayRight,
    ensures
        no_slides(path.push(a)),
{
    assert forall|i: int| 0 <= i < path.push(a).len() implies #[trigger] path.push(a)[i]
        != Action::MoveAllTheWayLeft && path.push(a)[i] != Action::MoveAllTheWayRight by {
        if i < path.len() {
            assert(path.push(a)[i] == path[i]);
        } else {
            assert(path.push(a)[i] == a);
        }
    }
}

/// A cost bounded by the table potential stays bounded as entries get set.
proof fn lemma_relax_cost_mono(cost: u64, cost_unit: u64, count_old: int, count_new: int)
    requires
        cost as int <= cost_unit as int * count_old,
        count_old <= count_new,
    ensures
        cost as int <= cost_unit as int * count_new,
{
    assert(cost_unit as int * count_old <= cost_unit as int * count_new) by (nonlinear_arith)
        requires
            count_old <= count_new,
            cost_unit >= 0,
    ;
}

/// Extending a replayed path by one action: the result is the applied pose
/// when it is collision-free, else the whole replay fails.
proof fn lemma_replay_push(rows: Seq<u32>, p: Piece, actions: Seq<Action>, a: Action)
    ensures
        replay(rows, p, actions.push(a)) == (match replay(rows, p, actions) {
            Some(q) => {
                let q2 = apply_action(rows, q, a);
                if spec_can_place(rows, q2) {
                    Some(q2)
                } else {
                    None::<Piece>
                }
            },
            None => None::<Piece>,
        }),
    decreases actions.len(),
{
    if actions.len() == 0 {
        assert(actions.push(a)[0] == a);
        assert(actions.push(a).drop_first() =~= actions);
    } else {
        let q = apply_action(rows, p, actions[0]);
        assert(actions.push(a)[0] == actions[0]);
        assert(actions.push(a).drop_first() =~= actions.drop_first().push(a));
        if spec_can_place(rows, q) {
            lemma_replay_push(rows, q, actions.drop_first(), a);
        }
    }
}

/// Copies an action list.
fn clone_path(v: &Vec<Action>) -> (r: Vec<Action>)
    ensures
        r@ == v@,
{
    let mut r: Vec<Action> = Vec::new();
    let mut i: usize = 0;
    while i < v.len()
        invariant
            i <= v@.len(),
            r@ == v@.take(i as int),
        decreases v@.len() - i,
    {
        r.push(v[i]);
        proof {
            assert(v@.take(i as int).push(v@[i as int]) =~= v@.take(i as int + 1));
        }
        i += 1;
    }
    proof {
        assert(v@.take(v@.len() as int) =~= v@);
    }
    r
}

/// The best-known-cost table index of a pose, executable form.
fn key_of(piece: &Piece) -> (k: usize)
    requires
        -3 <= piece.x <= 9,
        piece.rotation < 4,
    ensures
        k as int == key_spec(*piece),
        k < 52,
{
    ((piece.x + 3) as usize) * 4 + piece.rotation
}

/// One edge relaxation of the planner's search: when the candidate pose is
/// collision-free and the accumulated cost strictly improves the best known
/// cost of its (column, rotation) entry, record the new cost and enqueue the
/// extended path. The contract tracks everything the completeness argument
/// needs: existing frontier entries are kept in place, labels only improve,
/// a changed label belongs to the candidate and is freshly open, and after
/// the call the candidate's label is at most `cost + action_cost`.
#[verifier::rlimit(100)]
fn relax(
    board: &Board,
    piece_type: PieceType,
    open_set: &mut Vec<SearchState>,
    visited: &mut Vec<u64>,
    cost: u64,
    path: &Vec<Action>,
    cand: Piece,
    action: Action,
    action_cost: u64,
    arr: u32,
    cost_unit: u64,
    das: u32,
    exempt: Ghost<int>,
)
    requires
        1 <= cost_unit <= 0x1_0000_0000,
        action_cost <= cost_unit,
        cost as int <= cost_unit as int * count_set(old(visited)@),
        table_ok(old(visited)@, cost_unit),
        frontier_ok(board.rows@, piece_type, old(open_set)@, old(visited)@, arr),
        table_settled(board.rows@, piece_type, old(open_set)@, old(visited)@, arr, das, exempt@),
        cand.piece_type == piece_type,
        cand.y == spawn_piece(piece_type).y,
        spec_can_place(board.rows@, cand) ==> replay(
            board.rows@,
            spawn_piece(piece_type),
            path@.push(action),
        ) == Some(cand),
        arr != 0 ==> no_slides(path@.push(action)),
    ensures
        table_ok(final(visited)@, cost_unit),
        frontier_ok(board.rows@, piece_type, final(open_set)@, final(visited)@, arr),
        table_settled(board.rows@, piece_type, final(open_set)@, final(visited)@, arr, das, exempt@),
        count_set(final(visited)@) >= count_set(old(visited)@),
        sum_vals(final(visited)@) <= sum_vals(old(visited)@),
        sum_vals(final(visited)@) == sum_vals(old(visited)@) ==> final(open_set)@ == old(
            open_set,
        )@ && final(visited)@ == old(visited)@,
        final(open_set)@.len() >= old(open_set)@.len(),
        forall|i: int| 0 <= i < old(open_set)@.len() ==> final(open_set)@[i] == #[trigger] old(
            open_set,
        )@[i],
        forall|k: int| 0 <= k < 52 ==> #[trigger] final(visited)@[k] <= old(visited)@[k],
        forall|k: int|
            0 <= k < 52 && old(visited)@[k] != u64::MAX ==> #[trigger] final(visited)@[k]
                != u64::MAX,
        forall|k: int|
            0 <= k < 52 && #[trigger] final(visited)@[k] != old(visited)@[k] ==> k == key_spec(cand)
                && spec_can_place(board.rows@, cand) && open_at(
                final(open_set)@,
                final(visited)@,
                k,
            ),
        forall|k: int|
            0 <= k < 52 && #[trigger] open_at(old(open_set)@, old(visited)@, k)
                && final(visited)@[k] == old(visited)@[k] ==> open_at(
                final(open_set)@,
                final(visited)@,
                k,
            ),
        spec_can_place(board.rows@, cand) ==> final(visited)@[key_spec(cand)] != u64::MAX
            && final(visited)@[key_spec(cand)] as int <= cost + action_cost,
{
    let ghost rows = board.rows@;
    if board.can_place_piece(&cand) {
        proof {
            crate::board::lemma_can_place_bounds(rows, cand);
            lemma_count_set_bounds(visited@);
            assert(cost_unit as int * count_set(visited@) <= 0x1_0000_0000 * 52)
                by (nonlinear_arith)
                requires
                    0 <= count_set(visited@) <= 52,
                    0 <= cost_unit <= 0x1_0000_0000,
            ;
        }
        let ckey = key_of(&cand);
        let new_cost = cost + action_cost;
        if new_cost < visited[ckey] {
            let ghost vis_pre = visited@;
            let ghost count_pre = count_set(visited@);
            visited[ckey] = new_cost;
            proof {
                lemma_count_set_update(vis_pre, ckey as int, new_cost);
                lemma_sum_vals_update(vis_pre, ckey as int, new_cost);
                lemma_sum_vals_nonneg(visited@);
                let count_new = count_set(visited@);
                assert(cost_unit as int * count_pre + cost_unit as int == cost_unit as int * (
                count_pre + 1)) by (nonlinear_arith);
                assert forall|i: int| 0 <= i < 52 && #[trigger] visited@[i] != u64::MAX implies
                    visited@[i] as int <= cost_unit as int * count_new by {
                    if i != ckey as int {
                        assert(vis_pre[i] != u64::MAX);
                        assert(cost_unit as int * count_set(vis_pre) <= cost_unit as int
                            * count_new) by (nonlinear_arith)
                            requires
                                count_set(vis_pre) <= count_new,
                                cost_unit >= 0,
                        ;
                    }
                }
            }
            let mut new_path = clone_path(path);
            new_path.push(action);
            let ghost pre_open = open_set@;
            open_set.push(SearchState { cost: new_cost, piece: cand, path: new_path });
            proof {
                let ghost n = pre_open.len() as int;
                assert(open_set@[n].cost == new_cost && open_set@[n].piece == cand);
                assert(open_at(open_set@, visited@, ckey as int));
                assert forall|i: int| 0 <= i < open_set@.len() implies state_ok(
                    rows,
                    piece_type,
                    #[trigger] open_set@[i],
                    arr,
                ) && visited@[key_spec(open_set@[i].piece)] != u64::MAX && visited@[key_spec(
                    open_set@[i].piece,
                )] <= open_set@[i].cost by {
                    if i < pre_open.len() {
                        assert(open_set@[i] == pre_open[i]);
                        assert(state_ok(rows, piece_type, pre_open[i], arr));
                        if key_spec(pre_open[i].piece) == ckey as int {
                        } else {
                            assert(visited@[key_spec(pre_open[i].piece)] == vis_pre[key_spec(
                                pre_open[i].piece,
                            )]);
                        }
                    } else {
                        assert(open_set@[i].path@ == path@.push(action));
                    }
                }
                assert forall|k: int|
                    0 <= k < 52 && #[trigger] open_at(pre_open, vis_pre, k) && visited@[k]
                        == vis_pre[k] implies open_at(open_set@, visited@, k) by {
                    let i = choose|i: int|
                        0 <= i < pre_open.len() && key_spec(#[trigger] pre_open[i].piece) == k
                            && pre_open[i].cost == vis_pre[k];
                    assert(open_set@[i] == pre_open[i]);
                }
                assert forall|p: Piece|
                    planner_pose(piece_type, p) && visited@[#[trigger] key_spec(p)] != u64::MAX
                        && key_spec(p) != exempt@ implies open_at(open_set@, visited@, key_spec(p))
                    || pose_relaxed(rows, p, visited@, arr, das) by {
                    let k = key_spec(p);
                    if visited@[k] == vis_pre[k] {
                        assert(vis_pre[k] != u64::MAX);
                        if open_at(pre_open, vis_pre, k) {
                            assert(open_at(open_set@, visited@, k));
                        } else {
                            assert(pose_relaxed(rows, p, vis_pre, arr, das));
                            let u = visited@[k] as int;
                            if spec_can_place(rows, spec_rotated(p, true)) {
                                crate::board::lemma_can_place_bounds(rows, spec_rotated(p, true));
                            }
                            if spec_can_place(rows, spec_rotated(p, false)) {
                                crate::board::lemma_can_place_bounds(rows, spec_rotated(p, false));
                            }
                            if spec_can_place(rows, spec_moved(p, -1, 0)) {
                                crate::board::lemma_can_place_bounds(rows, spec_moved(p, -1, 0));
                            }
                            if spec_can_place(rows, spec_moved(p, 1, 0)) {
                                crate::board::lemma_can_place_bounds(rows, spec_moved(p, 1, 0));
                            }
                            if spec_can_place(rows, slide_left(rows, p)) {
                                crate::board::lemma_can_place_bounds(rows, slide_left(rows, p));
                            }
                            if spec_can_place(rows, slide_right(rows, p)) {
                                crate::board::lemma_can_place_bounds(rows, slide_right(rows, p));
                            }
                            assert(pose_relaxed(rows, p, visited@, arr, das));
                        }
                    } else {
                        assert(k == ckey as int);
                        assert(open_at(open_set@, visited@, k));
                    }
                }
            }
        } else {
            proof {
                assert(visited@[ckey as int] as int <= cost + action_cost);
            }
        }
    }
}

/// The placement enumerator and sequence planner.
pub struct SearchEngine {}

impl SearchEngine {
    pub fn new() -> (e: Self)
        ensures
            true,
    {
        Self {  }
    }

    /// The landing row of a piece dropped from the top of the grid at its
    /// column and rotation; `None` when even the top row collides.
    pub fn find_landing_position(&self, board: &Board, piece: &Piece) -> (r: Option<i32>)
        ensures
            r == landing_spec(board.rows@, piece.piece_type, piece.x, piece.rotation),
    {
        let mut test_piece = Piece { y: 0, ..*piece };
        let ghost base = test_piece;
        if !board.can_place_piece(&test_piece) {
            return None;
        }
        loop
            invariant_except_break
                0 <= test_piece.y <= 40,
                base == (Piece {
                    piece_type: piece.piece_type,
                    x: piece.x,
                    y: 0i32,
                    rotation: piece.rotation,
                }),
                spec_can_place(board.rows@, base),
                test_piece == (Piece { y: test_piece.y, ..base }),
                spec_can_place(board.rows@, test_piece),
                drop_from(board.rows@, base) == drop_from(board.rows@, test_piece),
            ensures
                drop_from(board.rows@, base) == Some(test_piece.y),
            decreases 41 - test_piece.y,
        {
            let next = test_piece.moved(0, 1);
            let ghost prev = test_piece;
            if board.can_place_piece(&next) {
                test_piece = next;
                if test_piece.y > BOARD_HEIGHT as i32 {
                    proof {
                        assert(next == spec_moved(prev, 0, 1));
                        assert(drop_from(board.rows@, prev) == None::<i32>);
                    }
                    return None;
                }
                proof {
                    assert(next == spec_moved(prev, 0, 1));
                    assert(drop_from(board.rows@, prev) == drop_from(board.rows@, next));
                }
            } else {
                break ;
            }
        }
        Some(test_piece.y)
    }

    /// Every reachable resting pose of the shape: for each rotation and each
    /// over-scanned column offset, the pure vertical drop's landing row, in
    /// enumeration order. Distinct (rotation, column) pairs cannot collide,
    /// so no deduplication is needed.
    pub fn generate_all_placements(&self, board: &Board, piece_type: PieceType) -> (r: Vec<
        Placement,
    >)
        ensures
            r@ == placements_spec(board.rows@, piece_type),
    {
        let mut placements: Vec<Placement> = Vec::new();
        let ghost rows = board.rows@;
        let mut rotation: usize = 0;
        while rotation < 4
            invariant
                rotation <= 4,
                rows == board.rows@,
                placements@ == prefix_placements(rows, piece_type, rotation as int),
            decreases 4 - rotation,
        {
            let ghost before = placements@;
            let mut x: i32 = -2;
            while x < BOARD_WIDTH as i32 + 2
                invariant
                    -2 <= x <= 12,
                    rotation < 4,
                    rows == board.rows@,
                    placements@ + placements_for_rot(rows, piece_type, rotation, x as int) == before
                        + placements_for_rot(rows, piece_type, rotation, -2),
                decreases 12 - x,
            {
                let piece = Piece::new(piece_type, x, 0).with_rotation(rotation);
                let landing = self.find_landing_position(board, &piece);
                proof {
                    let rest = placements_for_rot(rows, piece_type, rotation, x as int + 1);
                    let lnd = landing_spec(rows, piece_type, x, rotation);
                    assert(placements_for_rot(rows, piece_type, rotation, x as int) == (if lnd
                        is Some {
                        seq![Placement { x, y: lnd->0, rotation }] + rest
                    } else {
                        rest
                    }));
                }
                if let Some(landing_y) = landing {
                    let placement = Placement::new(piece.x, landing_y, rotation);
                    let ghost pre = placements@;
                    placements.push(placement);
                    proof {
                        assert(placements@ =~= pre + seq![placement]);
                        assert((pre + seq![placement]) + placements_for_rot(
                            rows,
                            piece_type,
                            rotation,
                            x as int + 1,
                        ) =~= pre + (seq![placement] + placements_for_rot(
                            rows,
                            piece_type,
                            rotation,
                            x as int + 1,
                        )));
                    }
                }
                x += 1;
            }
            proof {
                assert(placements_for_rot(rows, piece_type, rotation, 12) =~= Seq::empty());
                assert(placements@ + Seq::empty() =~= placements@);
                assert(before + placements_for_rot(rows, piece_type, rotation, -2)
                    =~= prefix_placements(rows, piece_type, rotation as int + 1));
            }
            rotation += 1;
        }
        proof {
            let r0 = placements_for_rot(rows, piece_type, 0usize, -2);
            let r1 = placements_for_rot(rows, piece_type, 1usize, -2);
            let r2 = placements_for_rot(rows, piece_type, 2usize, -2);
            let r3 = placements_for_rot(rows, piece_type, 3usize, -2);
            assert(prefix_placements(rows, piece_type, 0) == Seq::<Placement>::empty());
            assert(prefix_placements(rows, piece_type, 1) == prefix_placements(
                rows,
                piece_type,
                0,
            ) + r0);
            assert(prefix_placements(rows, piece_type, 2) == prefix_placements(
                rows,
                piece_type,
                1,
            ) + r1);
            assert(prefix_placements(rows, piece_type, 3) == prefix_placements(
                rows,
                piece_type,
                2,
            ) + r2);
            assert(prefix_placements(rows, piece_type, 4) == prefix_placements(
                rows,
                piece_type,
                3,
            ) + r3);
            assert(prefix_placements(rows, piece_type, 4) =~= placements_spec(rows, piece_type));
        }
        placements
    }

    /// Plans the minimum-cost action list from the shape's spawn pose to the
    /// chosen (column, rotation): a label-correcting shortest-path search
    /// over poses held at spawn height, rotations and steps at cost 1, and —
    /// when the auto-repeat rate is zero — slide-to-wall edges at the
    /// delayed-auto-shift cost. Falls back to a single hard drop when the
    /// target cannot be reached.
    #[verifier::rlimit(100)]
    pub fn generate_move_sequence(
        &self,
        board: &Board,
        piece_type: PieceType,
        placement: &Placement,
        arr: u32,
        das: u32,
    ) -> (plan: Vec<Action>)
        ensures
            plan_reaches(
                board.rows@,
                piece_type,
                placement.x as int,
                placement.rotation as int,
                arr,
                plan@,
            ),
    {
        let ghost rows = board.rows@;
        let ghost target_key = (placement.x + 3) * 4 + placement.rotation as int;
        let start_piece = Piece::spawn(piece_type);
        let cost_unit: u64 = if das == 0 {
            1
        } else {
            das as u64
        };
        let mut open_set: Vec<SearchState> = Vec::new();
        let start_path: Vec<Action> = Vec::new();
        open_set.push(SearchState { cost: 0, piece: start_piece, path: start_path });
        let mut visited: Vec<u64> = vec![u64::MAX; 52];
        proof {
            lemma_count_set_all_max(visited@);
        }
        let spawn_key = key_of(&start_piece);
        let ghost vis_init = visited@;
        visited[spawn_key] = 0;
        proof {
            lemma_count_set_update(vis_init, spawn_key as int, 0u64);
            lemma_sum_vals_nonneg(visited@);
            assert(start_piece == spawn_piece(piece_type));
            assert(replay(rows, spawn_piece(piece_type), Seq::empty()) == Some(start_piece));
            assert(open_set@[0].cost == 0 && open_set@[0].piece == start_piece);
            assert(open_at(open_set@, visited@, spawn_key as int));
            assert forall|p: Piece|
                planner_pose(piece_type, p) && visited@[#[trigger] key_spec(p)] != u64::MAX
                    implies open_at(open_set@, visited@, key_spec(p)) || pose_relaxed(
                rows,
                p,
                visited@,
                arr,
                das,
            ) by {
                assert(key_spec(p) == spawn_key as int);
            }
        }
        while open_set.len() > 0
            invariant
                rows == board.rows@,
                1 <= cost_unit <= 0x1_0000_0000,
                cost_unit as int == (if das == 0 {
                    1int
                } else {
                    das as int
                }),
                target_key == (placement.x + 3) * 4 + placement.rotation as int,
                table_ok(visited@, cost_unit),
                frontier_ok(rows, piece_type, open_set@, visited@, arr),
                table_settled(rows, piece_type, open_set@, visited@, arr, das, -1),
                visited@[key_spec(spawn_piece(piece_type))] != u64::MAX,
                (-3 <= placement.x <= 9 && placement.rotation < 4 && visited@[target_key]
                    != u64::MAX) ==> open_at(open_set@, visited@, target_key),
                sum_vals(visited@) >= 0,
            decreases sum_vals(visited@), open_set@.len(),
        {
            let mut best_idx: usize = 0;
            let mut j: usize = 1;
            while j < open_set.len()
                invariant
                    open_set@.len() > 0,
                    best_idx < open_set@.len(),
                    j <= open_set@.len(),
                decreases open_set@.len() - j,
            {
                let better = open_set[j].cost < open_set[best_idx].cost || (open_set[j].cost
                    == open_set[best_idx].cost && open_set[j].path.len()
                    < open_set[best_idx].path.len());
                if better {
                    best_idx = j;
                }
                j += 1;
            }
            let ghost prev_open = open_set@;
            let st = open_set.swap_remove(best_idx);
            proof {
                assert(st == prev_open[best_idx as int]);
                assert(state_ok(rows, piece_type, st, arr));
                assert forall|i: int| 0 <= i < open_set@.len() implies state_ok(
                    rows,
                    piece_type,
                    #[trigger] open_set@[i],
                    arr,
                ) && visited@[key_spec(open_set@[i].piece)] != u64::MAX && visited@[key_spec(
                    open_set@[i].piece,
                )] <= open_set@[i].cost by {
                    if i == best_idx as int {
                        assert(open_set@[i] == prev_open[prev_open.len() - 1]);
                    } else {
                        assert(open_set@[i] == prev_open[i]);
                    }
                }
                // every open witness other than the removed entry survives
                assert forall|k: int|
                    0 <= k < 52 && #[trigger] open_at(prev_open, visited@, k) && !(k == key_spec(
                        st.piece,
                    ) && st.cost == visited@[k]) implies open_at(open_set@, visited@, k) by {
                    let i = choose|i: int|
                        0 <= i < prev_open.len() && key_spec(#[trigger] prev_open[i].piece) == k
                            && prev_open[i].cost == visited@[k];
                    assert(i != best_idx as int);
                    if i == prev_open.len() - 1 {
                        assert(open_set@[best_idx as int] == prev_open[i]);
                    } else {
                        assert(open_set@[i] == prev_open[i]);
                    }
                }
            }
            let cost = st.cost;
            let piece = st.piece;
            let path = st.path;
            if piece.x == placement.x && piece.rotation == placement.rotation {
                let mut final_path = path;
                let ghost prefix = final_path@;
                final_path.push(Action::HardDrop);
                proof {
                    assert(final_path@.drop_last() =~= prefix);
                    assert(final_path@.last() == Action::HardDrop);
                    if arr != 0 {
                        assert forall|i: int| 0 <= i < final_path@.len() implies #[trigger]
                        final_path@[i] != Action::MoveAllTheWayLeft && final_path@[i]
                            != Action::MoveAllTheWayRight by {
                            if i < prefix.len() {
                                assert(final_path@[i] == prefix[i]);
                            }
                        }
                    }
                    // the returned path itself witnesses reachability
                    assert(replay(rows, spawn_piece(piece_type), prefix) == Some(piece));
                    assert(pose_reachable(
                        rows,
                        piece_type,
                        placement.x as int,
                        placement.rotation as int,
                        arr,
                    ));
                }
                return final_path;
            }
            proof {
                // the popped pose is not the target, so its table entry is not
                // the target's
                if -3 <= placement.x <= 9 && placement.rotation < 4 && key_spec(piece)
                    == target_key {
                    let tp = Piece {
                        piece_type,
                        x: placement.x,
                        y: spawn_piece(piece_type).y,
                        rotation: placement.rotation,
                    };
                    lemma_key_injective(piece, tp);
                    assert(false);
                }
                // re-establish the settled table with the popped pose exempt,
                // and the target-openness clause
                assert forall|p: Piece|
                    planner_pose(piece_type, p) && visited@[#[trigger] key_spec(p)] != u64::MAX
                        && key_spec(p) != key_spec(piece) implies open_at(
                    open_set@,
                    visited@,
                    key_spec(p),
                ) || pose_relaxed(rows, p, visited@, arr, das) by {}
            }
            let key = key_of(&piece);
            let best_known = visited[key];
            if cost > best_known {
                proof {
                    // a stale pop removed no witness: the removed entry's cost
                    // exceeds its pose's label
                    assert forall|p: Piece|
                        planner_pose(piece_type, p) && visited@[#[trigger] key_spec(p)]
                            != u64::MAX implies open_at(open_set@, visited@, key_spec(p))
                        || pose_relaxed(rows, p, visited@, arr, das) by {}
                }
                continue ;
            }
            proof {
                lemma_count_set_bounds(visited@);
                assert(visited@[key_spec(piece)] != u64::MAX);
                assert(visited@[key_spec(piece)] == cost);
                assert(cost as int <= cost_unit as int * count_set(visited@));
            }
            let ghost count_head = count_set(visited@);
            let ghost popped_key = key_spec(piece);
            let cand_cw = piece.rotated(true);
            proof {
                lemma_relax_cost_mono(cost, cost_unit, count_head, count_set(visited@));
                lemma_replay_push(rows, spawn_piece(piece_type), path@, Action::Rotate);
                if arr != 0 {
                    lemma_no_slides_push(path@, Action::Rotate);
                }
            }
            relax(
                board,
                piece_type,
                &mut open_set,
                &mut visited,
                cost,
                &path,
                cand_cw,
                Action::Rotate,
                1,
                arr,
                cost_unit,
                das,
                Ghost(popped_key),
            );
            proof {
                if visited@[popped_key] as int != cost as int {
                    crate::board::lemma_can_place_bounds(rows, cand_cw);
                    lemma_key_injective(cand_cw, piece);
                    assert(false);
                }
                if -3 <= placement.x <= 9 && placement.rotation < 4 && visited@[target_key]
                    != u64::MAX {
                    assert(open_at(open_set@, visited@, target_key));
                }
            }
            let cand_ccw = piece.rotated(false);
            proof {
                lemma_relax_cost_mono(cost, cost_unit, count_head, count_set(visited@));
                lemma_replay_push(rows, spawn_piece(piece_type), path@, Action::RotateCcw);
                if arr != 0 {
                    lemma_no_slides_push(path@, Action::RotateCcw);
                }
            }
            relax(
                board,
                piece_type,
                &mut open_set,
                &mut visited,
                cost,
                &path,
                cand_ccw,
                Action::RotateCcw,
                1,
                arr,
                cost_unit,
                das,
                Ghost(popped_key),
            );
            proof {
                if visited@[popped_key] as int != cost as int {
                    crate::board::lemma_can_place_bounds(rows, cand_ccw);
                    lemma_key_injective(cand_ccw, piece);
                    assert(false);
                }
                if -3 <= placement.x <= 9 && placement.rotation < 4 && visited@[target_key]
                    != u64::MAX {
                    assert(open_at(open_set@, visited@, target_key));
                }
            }
            let cand_left = piece.moved(-1, 0);
            proof {
                lemma_relax_cost_mono(cost, cost_unit, count_head, count_set(visited@));
                lemma_replay_push(rows, spawn_piece(piece_type), path@, Action::MoveLeft);
                if arr != 0 {
                    lemma_no_slides_push(path@, Action::MoveLeft);
                }
            }
            relax(
                board,
                piece_type,
                &mut open_set,
                &mut visited,
                cost,
                &path,
                cand_left,
                Action::MoveLeft,
                1,
                arr,
                cost_unit,
                das,
                Ghost(popped_key),
            );
            proof {
                if visited@[popped_key] as int != cost as int {
                    crate::board::lemma_can_place_bounds(rows, cand_left);
                    lemma_key_injective(cand_left, piece);
                    assert(false);
                }
                if -3 <= placement.x <= 9 && placement.rotation < 4 && visited@[target_key]
                    != u64::MAX {
                    assert(open_at(open_set@, visited@, target_key));
                }
            }
            let cand_right = piece.moved(1, 0);
            proof {
                lemma_relax_cost_mono(cost, cost_unit, count_head, count_set(visited@));
                lemma_replay_push(rows, spawn_piece(piece_type), path@, Action::MoveRight);
                if arr != 0 {
                    lemma_no_slides_push(path@, Action::MoveRight);
                }
            }
            relax(
                board,
                piece_type,
                &mut open_set,
                &mut visited,
                cost,
                &path,
                cand_right,
                Action::MoveRight,
                1,
                arr,
                cost_unit,
                das,
                Ghost(popped_key),
            );
            proof {
                if visited@[popped_key] as int != cost as int {
                    crate::board::lemma_can_place_bounds(rows, cand_right);
                    lemma_key_injective(cand_right, piece);
                    assert(false);
                }
                if -3 <= placement.x <= 9 && placement.rotation < 4 && visited@[target_key]
                    != u64::MAX {
                    assert(open_at(open_set@, visited@, target_key));
                }
            }
            if arr == 0 {
                let mut left_piece = piece;
                loop
                    invariant_except_break
                        rows == board.rows@,
                        left_piece.piece_type == piece.piece_type,
                        left_piece.y == piece.y,
                        left_piece.rotation == piece.rotation,
                        left_piece.rotation < 4,
                        -3 <= left_piece.x <= 9,
                        slide_left(rows, left_piece) == slide_left(rows, piece),
                    ensures
                        left_piece == slide_left(rows, piece),
                        left_piece.piece_type == piece.piece_type,
                        left_piece.y == piece.y,
                        left_piece.rotation == piece.rotation,
                        -3 <= left_piece.x <= 9,
                    decreases left_piece.x + 3,
                {
                    let next = left_piece.moved(-1, 0);
                    if board.can_place_piece(&next) {
                        proof {
                            crate::board::lemma_can_place_bounds(rows, next);
                            assert(next == spec_moved(left_piece, -1, 0));
                        }
                        left_piece = next;
                    } else {
                        break ;
                    }
                }
                if left_piece.x != piece.x {
                    proof {
                        lemma_relax_cost_mono(cost, cost_unit, count_head, count_set(visited@));
                        lemma_replay_push(rows, spawn_piece(piece_type), path@, Action::MoveAllTheWayLeft);
                        if arr != 0 {
                            lemma_no_slides_push(path@, Action::MoveAllTheWayLeft);
                        }
                    }
                    relax(
                        board,
                        piece_type,
                        &mut open_set,
                        &mut visited,
                        cost,
                        &path,
                        left_piece,
                        Action::MoveAllTheWayLeft,
                        das as u64,
                        arr,
                        cost_unit,
                        das,
                        Ghost(popped_key),
                    );
                    proof {
                        if visited@[popped_key] as int != cost as int {
                            crate::board::lemma_can_place_bounds(rows, left_piece);
                            lemma_key_injective(left_piece, piece);
                            assert(false);
                        }
                        if -3 <= placement.x <= 9 && placement.rotation < 4 && visited@[target_key]
                            != u64::MAX {
                            assert(open_at(open_set@, visited@, target_key));
                        }
                    }
                }
                let mut right_piece = piece;
                loop
                    invariant_except_break
                        rows == board.rows@,
                        right_piece.piece_type == piece.piece_type,
                        right_piece.y == piece.y,
                        right_piece.rotation == piece.rotation,
                        right_piece.rotation < 4,
                        -3 <= right_piece.x <= 9,
                        slide_right(rows, right_piece) == slide_right(rows, piece),
                    ensures
                        right_piece == slide_right(rows, piece),
                        right_piece.piece_type == piece.piece_type,
                        right_piece.y == piece.y,
                        right_piece.rotation == piece.rotation,
                        -3 <= right_piece.x <= 9,
                    decreases 9 - right_piece.x,
                {
                    let next = right_piece.moved(1, 0);
                    if board.can_place_piece(&next) {
                        proof {
                            crate::board::lemma_can_place_bounds(rows, next);
                            assert(next == spec_moved(right_piece, 1, 0));
                        }
                        right_piece = next;
                    } else {
                        break ;
                    }
                }
                if right_piece.x != piece.x {
                    proof {
                        lemma_relax_cost_mono(cost, cost_unit, count_head, count_set(visited@));
                        lemma_replay_push(rows, spawn_piece(piece_type), path@, Action::MoveAllTheWayRight);
                        if arr != 0 {
                            lemma_no_slides_push(path@, Action::MoveAllTheWayRight);
                        }
                    }
                    relax(
                        board,
                        piece_type,
                        &mut open_set,
                        &mut visited,
                        cost,
                        &path,
                        right_piece,
                        Action::MoveAllTheWayRight,
                        das as u64,
                        arr,
                        cost_unit,
                        das,
                        Ghost(popped_key),
                    );
                    proof {
                        if visited@[popped_key] as int != cost as int {
                            crate::board::lemma_can_place_bounds(rows, right_piece);
                            lemma_key_injective(right_piece, piece);
                            assert(false);
                        }
                        if -3 <= placement.x <= 9 && placement.rotation < 4 && visited@[target_key]
                            != u64::MAX {
                            assert(open_at(open_set@, visited@, target_key));
                        }
                    }
                }
            }
            proof {
                lemma_sum_vals_nonneg(visited@);
                assert(visited@[popped_key] == cost);
                assert(pose_relaxed(rows, piece, visited@, arr, das)) by {
                    if spec_can_place(rows, spec_rotated(piece, true)) {
                        crate::board::lemma_can_place_bounds(rows, spec_rotated(piece, true));
                    }
                    if spec_can_place(rows, spec_rotated(piece, false)) {
                        crate::board::lemma_can_place_bounds(rows, spec_rotated(piece, false));
                    }
                    if spec_can_place(rows, spec_moved(piece, -1, 0)) {
                        crate::board::lemma_can_place_bounds(rows, spec_moved(piece, -1, 0));
                    }
                    if spec_can_place(rows, spec_moved(piece, 1, 0)) {
                        crate::board::lemma_can_place_bounds(rows, spec_moved(piece, 1, 0));
                    }
                    if spec_can_place(rows, slide_left(rows, piece)) {
                        crate::board::lemma_can_place_bounds(rows, slide_left(rows, piece));
                    }
                    if spec_can_place(rows, slide_right(rows, piece)) {
                        crate::board::lemma_can_place_bounds(rows, slide_right(rows, piece));
                    }
                };
                assert forall|p2: Piece|
                    planner_pose(piece_type, p2) && visited@[#[trigger] key_spec(p2)]
                        != u64::MAX implies open_at(open_set@, visited@, key_spec(p2))
                    || pose_relaxed(rows, p2, visited@, arr, das) by {
                    if key_spec(p2) == popped_key {
                        lemma_key_injective(p2, piece);
                    }
                }
            }
        }
        proof {
            if pose_reachable(rows, piece_type, placement.x as int, placement.rotation as int, arr) {
                let acts = choose|actions: Seq<Action>|
                    {
                        let q = #[trigger] replay(rows, spawn_piece(piece_type), actions);
                        &&& q is Some
                        &&& q->0.x as int == placement.x as int
                        &&& q->0.rotation as int == placement.rotation as int
                        &&& (arr != 0 ==> no_slides(actions))
                    };
                assert forall|p: Piece|
                    planner_pose(piece_type, p) && visited@[#[trigger] key_spec(p)] != u64::MAX
                        implies pose_relaxed(rows, p, visited@, arr, das) by {
                    assert(!open_at(open_set@, visited@, key_spec(p)));
                };
                lemma_path_settled(rows, piece_type, visited@, arr, das, acts);
                let q = replay(rows, spawn_piece(piece_type), acts)->0;
                assert(key_spec(q) == target_key);
                assert(open_at(open_set@, visited@, target_key));
                assert(false);
            }
        }
        let mut fallback: Vec<Action> = Vec::new();
        fallback.push(Action::HardDrop);
        proof {
            assert(fallback@ =~= seq![Action::HardDrop]);
            assert forall|i: int| 0 <= i < fallback@.len() implies #[trigger] fallback@[i]
                != Action::MoveAllTheWayLeft && fallback@[i] != Action::MoveAllTheWayRight by {}
        }
        fallback
    }

    /// Scores one candidate: copy the board, lock the piece, clear lines,
    /// evaluate. `None` — and no lock — when the pose cannot be placed.
    pub fn evaluate_placement(
        &self,
        board: &Board,
        piece_type: PieceType,
        placement: &Placement,
        weights: &EvaluationWeights,
    ) -> (r: Option<PlacementEvaluation>)
        requires
            weights_bounded(*weights),
        ensures
            (r is Some) == spec_can_place(board.rows@, place_piece(piece_type, *placement)),
            r is Some ==> r->0.predicted_board.rows@ == predicted_rows(
                board.rows@,
                piece_type,
                *placement,
            ),
            r is Some ==> r->0.score as int == spec_score(
                predicted_rows(board.rows@, piece_type, *placement),
                *weights,
            ),
    {
        let piece = Piece::new(piece_type, placement.x, placement.y).with_rotation(
            placement.rotation,
        );
        if !board.can_place_piece(&piece) {
            return None;
        }
        let mut predicted_board = board.clone();
        predicted_board.lock_piece(&piece);
        predicted_board.clear_lines();
        let score = predicted_board.evaluate(weights).score;
        Some(PlacementEvaluation { score, predicted_board })
    }
    /// Enumerates and scores every placement of the piece, selects the one
    /// with the strictly highest score (first found wins a tie), and plans
    /// the action sequence to it; a bare hard drop when nothing can be
    /// placed.
    pub fn find_best_move_for_strategy(
        &self,
        board: &Board,
        current_piece: PieceType,
        weights: &EvaluationWeights,
        arr: u32,
        das: u32,
    ) -> (plan: Vec<Action>)
        requires
            weights_bounded(*weights),
        ensures
            plan_ok_for_weights(board.rows@, current_piece, *weights, arr, plan@),
    {
        let ghost rows = board.rows@;
        let all_placements = self.generate_all_placements(board, current_piece);
        let mut best: Option<(Placement, i64)> = None;
        let mut idx: usize = 0;
        while idx < all_placements.len()
            invariant
                idx <= all_placements@.len(),
                rows == board.rows@,
                weights_bounded(*weights),
                all_placements@ == placements_spec(rows, current_piece),
                (best is Some) == (best_of(rows, current_piece, *weights, all_placements@, idx as int)
                    is Some),
                best is Some ==> {
                    let b = best_of(rows, current_piece, *weights, all_placements@, idx as int)->0;
                    let chosen = best->0;
                    chosen.0 == b.0 && chosen.1 as int == b.1
                },
            decreases all_placements@.len() - idx,
        {
            let placement = all_placements[idx];
            if let Some(ev) = self.evaluate_placement(board, current_piece, &placement, weights) {
                let replace = match &best {
                    None => true,
                    Some(b) => ev.score > b.1,
                };
                if replace {
                    best = Some((placement, ev.score));
                }
            }
            idx += 1;
        }
        match best {
            None => {
                let mut plan: Vec<Action> = Vec::new();
                plan.push(Action::HardDrop);
                proof {
                    assert(plan@ =~= seq![Action::HardDrop]);
                }
                plan
            },
            Some((bp, _score)) => self.generate_move_sequence(board, current_piece, &bp, arr, das),
        }
    }

    /// Runs one full decision: weights from the strategy, enumerate, select,
    /// plan. The result carries the plan's comma-joined action names. The
    /// next piece is accepted but does not yet take part in scoring.
    pub fn search(
        &mut self,
        board: &Board,
        current_piece: PieceType,
        _next_piece: Option<PieceType>,
        strategy: Strategy,
        arr: u32,
        das: u32,
        _debug: bool,
    ) -> (result: SearchResult)
        ensures
            *final(self) == *old(self),
            exists|plan: Seq<Action>|
                search_plan_ok(board.rows@, current_piece, strategy, arr, plan)
                    && result.best_move@ == #[trigger] joined_actions(plan),
    {
        let weights = EvaluationWeights::new(strategy);
        let plan = self.find_best_move_for_strategy(board, current_piece, &weights, arr, das);
        let best_move = join_actions(&plan);
        proof {
            assert(search_plan_ok(board.rows@, current_piece, strategy, arr, plan@) && best_move@
                == joined_actions(plan@));
        }
        SearchResult { best_move }
    }
}

proof fn lemma_can_place_on_empty(rows: Seq<u32>, p: Piece)
    requires
        rows.len() == 40,
        forall|y: int| 0 <= y < 40 ==> #[trigger] rows[y] == 0u32,
        crate::pieces::offset_valid(p.piece_type, p.rotation as int, p.x as int),
        0 <= p.y,
        p.y + 3 < 40,
    ensures
        spec_can_place(rows, p),
{
    let mo = crate::pieces::mask_spec(p.piece_type, p.rotation as int, p.x as int);
    assert forall|i: int| 0 <= i < 4 implies #[trigger] crate::board::window_row_ok(
        rows,
        p.y as int,
        mo->0,
        i,
    ) by {
        let z = mo->0[i] as u32;
        assert(0u32 & z == 0) by (bit_vector);
    }
}

/// Dropping ends at a resting row whenever the geometry window has a
/// nonempty row: the piece cannot fall past the grid's bottom.
proof fn lemma_drop_from_some(rows: Seq<u32>, p: Piece, j: int)
    requires
        0 <= p.y <= 40,
        0 <= j < 4,
        crate::pieces::mask_spec(p.piece_type, p.rotation as int, p.x as int)->0[j] != 0,
    ensures
        drop_from(rows, p) is Some,
    decreases 41 - p.y,
{
    let next = spec_moved(p, 0, 1);
    if spec_can_place(rows, next) {
        assert(crate::board::window_row_ok(rows, next.y as int, crate::pieces::mask_spec(
            next.piece_type,
            next.rotation as int,
            next.x as int,
        )->0, j));
        assert(next.y + j < 40);
        lemma_drop_from_some(rows, next, j);
    }
}

proof fn lemma_placements_rot_nonempty(rows: Seq<u32>, t: PieceType, rot: usize, x: int, x0: int)
    requires
        -2 <= x <= x0 < 12,
        landing_spec(rows, t, x0 as i32, rot) is Some,
    ensures
        placements_for_rot(rows, t, rot, x).len() > 0,
    decreases x0 - x,
{
    if x < x0 {
        lemma_placements_rot_nonempty(rows, t, rot, x + 1, x0);
    }
}

/// Enumerator completeness: on an empty board, every shape yields at least
/// one valid placement (column 3 with rotation 0 always lands).
pub proof fn lemma_enumerator_complete_on_empty(rows: Seq<u32>, t: PieceType)
    requires
        rows.len() == 40,
        forall|y: int| 0 <= y < 40 ==> #[trigger] rows[y] == 0u32,
    ensures
        placements_spec(rows, t).len() > 0,
{
    crate::pieces::lemma_blocks_bounds(t, 0);
    let p = Piece { piece_type: t, x: 3i32, y: 0i32, rotation: 0usize };
    assert(crate::pieces::offset_valid(t, 0, 3));
    lemma_can_place_on_empty(rows, p);
    crate::pieces::lemma_mask_has_block_row(t, 0, 3);
    let j = choose|j: int|
        0 <= j < 4 && #[trigger] crate::pieces::mask_spec(t, 0, 3)->0[j] != 0;
    lemma_drop_from_some(rows, p, j);
    assert(landing_spec(rows, t, 3i32, 0usize) is Some);
    lemma_placements_rot_nonempty(rows, t, 0usize, -2, 3);
}

/// The concatenated placements of rotations `0..r`.
pub open spec fn prefix_placements(rows: Seq<u32>, t: PieceType, r: int) -> Seq<Placement>
    decreases r,
{
    if r <= 0 {
        Seq::empty()
    } else {
        prefix_placements(rows, t, r - 1) + placements_for_rot(rows, t, (r - 1) as usize, -2)
    }
}

} // verus!
