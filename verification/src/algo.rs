//! The search engine: a persistent game tree of explored positions,
//! minimax and principal-variation search with alpha-beta pruning over
//! it, and the driver that picks the bot's move.

use vstd::prelude::*;
use crate::board::{
    Board, Input, Tile, idx, spec_add_value_checked, spec_double_free_three, spec_tile_at,
};
use crate::color::{Color, spec_inverse};
use crate::heuristic::{heuristic, pruning_heuristic, spec_heuristic, spec_near_stone};
use crate::players::{Algorithm, PlayerType, Players, spec_get_player, spec_next_player, spec_players_finished};

verus! {

/// The early-exit threshold: a branch this good at sufficient depth
/// stops sibling exploration.
pub const AVERAGE_PRUNNING: i32 = 79536431;

/// One explored position: the snapshot it holds, the move that
/// produced it from its parent, its explored children, and the
/// memoized evaluator score of the snapshot.
pub struct Tree {
    /// The grid of this position.
    pub board: Board,
    /// The players of this position.
    pub players: Players,
    /// The flat index of the move that produced this position.
    pub input: usize,
    /// The explored positions one move deeper.
    pub children: Vec<Tree>,
    /// The evaluator's score of this snapshot, computed once.
    pub score: i32,
}

/// The move at flat index `i` is one the search may play on `b` for
/// the side to move in `p`: in bounds, empty, near an existing stone,
/// and free of the double-free-three restriction.
pub open spec fn spec_move_legal(b: Board, p: Players, i: int) -> bool {
    &&& 0 <= i < b.board@.len()
    &&& b.board@[i] == Tile::Empty
    &&& spec_near_stone(b, i % (b.size as int), i / (b.size as int), 1)
    &&& !spec_double_free_three(
        b,
        i % (b.size as int),
        i / (b.size as int),
        p.current_player.color,
    )
}

/// A child holds exactly the position its recorded move produces from
/// the parent snapshot: the move is legal there, the grid is the
/// parent grid after captures and placement, and the players are the
/// parent players after crediting captures and passing the turn.
pub open spec fn spec_child_link(parent: Tree, c: Tree) -> bool {
    let x = c.input as int % (parent.board.size as int);
    let y = c.input as int / (parent.board.size as int);
    let after = spec_add_value_checked(parent.board, parent.players, x, y);
    &&& spec_move_legal(parent.board, parent.players, c.input as int)
    &&& c.board.board@ == after.0
    &&& c.board.size == parent.board.size
    &&& c.board.alignement_nb == parent.board.alignement_nb
    &&& c.board.capture_range == parent.board.capture_range
    &&& c.players == spec_next_player(after.1)
}

/// The structural invariant of a search tree: every node's snapshot
/// is well formed and every child is the position its move produces
/// from its parent.
pub open spec fn tree_ok(t: Tree) -> bool
    decreases t,
{
    &&& t.board.wf()
    &&& t.players.wf()
    &&& t.board.capture_range == t.players.capture_range
    &&& t.input < t.board.board@.len()
    &&& forall|i: int|
        0 <= i < t.children@.len() ==> tree_ok(#[trigger] t.children@[i]) && spec_child_link(
            t,
            t.children@[i],
        )
}

impl Tree {
    /// A fresh leaf for a snapshot, scored once by the evaluator.
    pub fn new(board: Board, players: Players, input: usize, default_color: Color) -> (r: Tree)
        requires
            board.wf(),
            players.wf(),
            input < board.board@.len(),
        ensures
            r.board == board,
            r.players == players,
            r.input == input,
            r.children@.len() == 0,
            r.score as int == spec_heuristic(board, players, default_color),
    {
        let score = heuristic(&board, &players, default_color);
        Tree { board, players, input, children: Vec::new(), score }
    }

    /// Appends one explored child.
    pub fn push(&mut self, child: Tree)
        ensures
            final(self).children@ == old(self).children@.push(child),
            final(self).board == old(self).board,
            final(self).players == old(self).players,
            final(self).input == old(self).input,
            final(self).score == old(self).score,
    {
        self.children.push(child);
    }

    /// The grid of this position.
    pub fn board(&self) -> (r: &Board)
        ensures
            r == &self.board,
    {
        &self.board
    }

    /// The players of this position.
    pub fn players(&self) -> (r: &Players)
        ensures
            r == &self.players,
    {
        &self.players
    }

    /// The first child whose snapshot equals the given one, in
    /// insertion order, if any: lookup is over direct children only,
    /// never recursive.
    pub fn find(&self, board: &Board, players: &Players) -> (r: Option<&Tree>)
        ensures
            (match spec_first_match(self.children@, *board, *players) {
                Some(i) => r matches Some(c) && c == &self.children@[i],
                None => r is None,
            }),
            (match r {
                Some(c) => exists|i: int|
                    0 <= i < self.children@.len() && c == &self.children@[i]
                        && #[trigger] spec_snapshot_eq(self.children@[i], *board, *players),
                None => forall|i: int|
                    0 <= i < self.children@.len() ==> !#[trigger] spec_snapshot_eq(
                        self.children@[i],
                        *board,
                        *players,
                    ),
            }),
    {
        let n = self.children.len();
        let mut i: usize = 0;
        while i < n
            invariant
                0 <= i <= n,
                n == self.children@.len(),
                spec_first_match(self.children@, *board, *players) == spec_first_match_from(
                    self.children@,
                    *board,
                    *players,
                    i as int,
                ),
                forall|j: int|
                    0 <= j < i ==> !#[trigger] spec_snapshot_eq(self.children@[j], *board, *players),
            decreases n - i,
        {
            let c = &self.children[i];
            if c.board.eq(board) && c.players == *players {
                proof {
                    assert(spec_snapshot_eq(self.children@[i as int], *board, *players));
                    assert(spec_first_match_from(self.children@, *board, *players, i as int)
                        == Some(i as int));
                }
                return Some(&self.children[i]);
            }
            i = i + 1;
        }
        None
    }
}

/// A stored snapshot equals the given one: same cells, same rule
/// parameters, same players.
pub open spec fn spec_snapshot_eq(t: Tree, board: Board, players: Players) -> bool {
    &&& t.board.board@ == board.board@
    &&& t.board.size == board.size
    &&& t.board.alignement_nb == board.alignement_nb
    &&& t.board.capture_range == board.capture_range
    &&& t.players == players
}

/// The index of the first child at or after `i` whose snapshot equals
/// the given one, if any.
pub open spec fn spec_first_match_from(cs: Seq<Tree>, b: Board, p: Players, i: int) -> Option<int>
    decreases cs.len() - i,
{
    if i < 0 || i >= cs.len() {
        None
    } else if spec_snapshot_eq(cs[i], b, p) {
        Some(i)
    } else {
        spec_first_match_from(cs, b, p, i + 1)
    }
}

/// The index of the first child whose snapshot equals the given one,
/// in insertion order, if any.
pub open spec fn spec_first_match(cs: Seq<Tree>, b: Board, p: Players) -> Option<int> {
    spec_first_match_from(cs, b, p, 0)
}

/// The index of the first child at or after `i` whose memoized score
/// is the maximal terminal verdict, if any.
pub open spec fn spec_first_win_from(cs: Seq<Tree>, i: int) -> Option<int>
    decreases cs.len() - i,
{
    if i < 0 || i >= cs.len() {
        None
    } else if cs[i].score == i32::MAX {
        Some(i)
    } else {
        spec_first_win_from(cs, i + 1)
    }
}

/// The index of the first child whose memoized score is the maximal
/// terminal verdict — a cached forced win.
pub open spec fn spec_first_win(cs: Seq<Tree>) -> Option<int> {
    spec_first_win_from(cs, 0)
}

/// Whether the children list already holds a child for move `i`.
fn contains_input(children: &Vec<Tree>, i: usize) -> (r: bool)
    ensures
        r == exists|k: int| 0 <= k < children@.len() && (#[trigger] children@[k].input) == i,
{
    let n = children.len();
    let mut k: usize = 0;
    while k < n
        invariant
            0 <= k <= n,
            n == children@.len(),
            forall|j: int| 0 <= j < k ==> (#[trigger] children@[j].input) != i,
        decreases n - k,
    {
        if children[k].input == i {
            return true;
        }
        k = k + 1;
    }
    false
}

/// Whether `a` may stand before `b` in a child list sorted for the
/// given direction.
pub open spec fn spec_score_le(a: Tree, b: Tree, desc: bool) -> bool {
    if desc {
        a.score >= b.score
    } else {
        a.score <= b.score
    }
}

/// Expands one ply under `tree`: for every cell of its grid that the
/// proximity pruning and the legality check admit and that has no
/// child yet, pushes a freshly scored child position; then sorts the
/// children by score in the reply ordering of the calling algorithm.
/// A position already won by capture grows no children.
#[verifier::rlimit(100)]
pub fn play_everything(tree: Tree, default_color: Color, is_minimax: bool) -> (r: Tree)
    requires
        tree_ok(tree),
    ensures
        tree_ok(r),
        r.board == tree.board,
        r.players == tree.players,
        r.input == tree.input,
        r.score == tree.score,
        forall|i: int|
            0 <= i < r.children@.len() - 1 ==> spec_score_le(
                #[trigger] r.children@[i],
                r.children@[i + 1],
                tree.players.current_player.color == default_color || !is_minimax,
            ),
        !spec_players_finished(tree.players).0 ==> forall|m: int|
            #[trigger] spec_move_legal(tree.board, tree.players, m) ==> exists|k: int|
                0 <= k < r.children@.len() && (#[trigger] r.children@[k].input) == m,
{
    let mut tree = tree;
    let ghost t0 = tree;
    let fin = tree.players.is_finished();
    if !fin.0 {
        let total = tree.board.get_total_tiles();
        let mut i: usize = 0;
        while i < total
            invariant
                0 <= i <= total,
                total == tree.board.board@.len(),
                tree_ok(tree),
                tree.board == t0.board,
                tree.players == t0.players,
                tree.input == t0.input,
                tree.score == t0.score,
                !spec_players_finished(tree.players).0,
                forall|m: int|
                    0 <= m < i && #[trigger] spec_move_legal(tree.board, tree.players, m)
                        ==> exists|k: int|
                        0 <= k < tree.children@.len() && (#[trigger] tree.children@[k].input) == m,
            decreases total - i,
        {
            let ghost pre = tree;
            let input = tree.board.get_input(i);
            let mut added = false;
            if tree.board.get_index(i) == Tile::Empty && !contains_input(&tree.children, i)
                && pruning_heuristic(input, &tree.board) && tree.board.check_add_value_algo(
                input,
                &tree.players,
            ).is_ok() {
                let mut new_board = tree.board.clone();
                let ghost nb0 = new_board;
                let mut new_players = tree.players;
                proof {
                    assert(spec_get_player(tree.players, tree.players.current_player.color).captured
                        + 8 * tree.players.capture_range <= usize::MAX);
                }
                new_board.add_value_checked(input, &mut new_players);
                new_players.next_player();
                proof {
                    assert(spec_move_legal(tree.board, tree.players, i as int));
                    crate::board::lemma_add_value_checked_same(
                        nb0,
                        tree.board,
                        tree.players,
                        input.0 as int,
                        input.1 as int,
                    );
                }
                let child = Tree::new(new_board, new_players, i, default_color);
                proof {
                    assert(tree_ok(child));
                    assert(spec_child_link(tree, child));
                }
                tree.push(child);
                added = true;
                proof {
                    assert(tree.children@[tree.children@.len() - 1].input == i);
                    assert forall|j: int|
                        0 <= j < tree.children@.len() implies tree_ok(
                        #[trigger] tree.children@[j],
                    ) && spec_child_link(tree, tree.children@[j]) by {
                        if j < tree.children@.len() - 1 {
                            assert(tree.children@[j] == pre.children@[j]);
                            assert(tree_ok(pre.children@[j]) && spec_child_link(
                                pre,
                                pre.children@[j],
                            ));
                        }
                    }
                    assert(tree_ok(tree));
                }
            }
            proof {
                assert forall|m: int|
                    0 <= m < i + 1 && #[trigger] spec_move_legal(tree.board, tree.players, m)
                        implies exists|k: int|
                    0 <= k < tree.children@.len() && (#[trigger] tree.children@[k].input)
                        == m by {
                    if m < i {
                        let kk = choose|k: int|
                            0 <= k < pre.children@.len() && (#[trigger] pre.children@[k].input)
                                == m;
                        assert(tree.children@[kk].input == m);
                    } else {
                        assert(m == i);
                        if added {
                            assert(tree.children@[tree.children@.len() - 1].input == m);
                        } else {
                            assert(spec_move_legal(tree.board, tree.players, i as int));
                            assert(exists|k: int|
                                0 <= k < tree.children@.len() && (
                                #[trigger] tree.children@[k].input) == i);
                        }
                    }
                }
            }
            i = i + 1;
        }
    }
    let desc = tree.players.get_current_player().get_player_color() == default_color
        || !is_minimax;
    sort_children(&mut tree, desc);
    tree
}

/// Sorts the children of `tree` by score with a stable insertion
/// sort: descending when `desc`, ascending otherwise.
#[verifier::rlimit(100)]
fn sort_children(tree: &mut Tree, desc: bool)
    requires
        tree_ok(*old(tree)),
    ensures
        tree_ok(*final(tree)),
        final(tree).board == old(tree).board,
        final(tree).players == old(tree).players,
        final(tree).input == old(tree).input,
        final(tree).score == old(tree).score,
        final(tree).children@.len() == old(tree).children@.len(),
        forall|i: int|
            0 <= i < final(tree).children@.len() - 1 ==> spec_score_le(
                #[trigger] final(tree).children@[i],
                final(tree).children@[i + 1],
                desc,
            ),
        forall|k: int|
            0 <= k < old(tree).children@.len() ==> exists|j: int|
                0 <= j < final(tree).children@.len() && final(tree).children@[j].input == (
                #[trigger] old(tree).children@[k]).input,
{
    let ghost orig_tree = *tree;
    let ghost orig = tree.children@;
    let mut out: Vec<Tree> = Vec::new();
    let ghost mut taken: int = 0;
    while tree.children.len() > 0
        invariant
            out@.len() + tree.children@.len() == orig.len(),
            taken == out@.len(),
            tree.children@ == orig.subrange(taken as int, orig.len() as int),
            tree.board == orig_tree.board,
            tree.players == orig_tree.players,
            tree.input == orig_tree.input,
            tree.score == orig_tree.score,
            forall|i: int|
                0 <= i < orig.len() ==> tree_ok(#[trigger] orig[i]) && spec_child_link(
                    orig_tree,
                    orig[i],
                ),
            forall|i: int|
                0 <= i < out@.len() ==> tree_ok(#[trigger] out@[i]) && spec_child_link(
                    orig_tree,
                    out@[i],
                ),
            forall|i: int|
                0 <= i < out@.len() - 1 ==> spec_score_le(#[trigger] out@[i], out@[i + 1], desc),
            forall|k: int|
                0 <= k < taken ==> exists|j: int|
                    0 <= j < out@.len() && out@[j].input == (#[trigger] orig[k]).input,
        decreases tree.children@.len(),
    {
        let c = tree.children.remove(0);
        proof {
            assert(c == orig[taken as int]);
            assert(tree.children@ =~= orig.subrange(taken + 1, orig.len() as int));
        }
        let pos = insert_position(&out, c.score, desc);
        let ghost prev_out = out@;
        out.insert(pos, c);
        proof {
            taken = taken + 1;
            assert forall|i: int|
                0 <= i < out@.len() - 1 implies spec_score_le(
                #[trigger] out@[i],
                out@[i + 1],
                desc,
            ) by {
                if i + 1 < pos {
                    assert(out@[i] == prev_out[i] && out@[i + 1] == prev_out[i + 1]);
                } else if i + 1 == pos {
                    assert(out@[i] == prev_out[i] && out@[i + 1] == c);
                } else if i == pos {
                    assert(out@[i] == c && out@[i + 1] == prev_out[i]);
                } else {
                    assert(out@[i] == prev_out[i - 1] && out@[i + 1] == prev_out[i]);
                }
            }
            assert forall|k: int| 0 <= k < taken implies exists|j: int|
                0 <= j < out@.len() && out@[j].input == (#[trigger] orig[k]).input by {
                if k == taken - 1 {
                    assert(out@[pos as int].input == orig[k].input);
                } else {
                    let jj = choose|j: int|
                        0 <= j < prev_out.len() && prev_out[j].input == orig[k].input;
                    if jj < pos {
                        assert(out@[jj].input == orig[k].input);
                    } else {
                        assert(out@[jj + 1].input == orig[k].input);
                    }
                }
            }
            assert forall|i: int|
                0 <= i < out@.len() implies tree_ok(#[trigger] out@[i]) && spec_child_link(
                orig_tree,
                out@[i],
            ) by {
                if i < pos {
                    assert(out@[i] == prev_out[i]);
                } else if i == pos {
                    assert(out@[i] == c);
                } else {
                    assert(out@[i] == prev_out[i - 1]);
                }
            }
        }
    }
    tree.children = out;
    proof {
        assert(orig.subrange(taken as int, orig.len() as int).len() == 0);
    }
}

/// The first position of a list sorted for `desc` where an element
/// with score `sc` must stand to keep the order: the first stored
/// element that has to come strictly after it.
fn insert_position(out: &Vec<Tree>, sc: i32, desc: bool) -> (r: usize)
    ensures
        r <= out@.len(),
        forall|i: int| 0 <= i < r ==> !spec_score_lt_key(#[trigger] out@[i], sc as int, desc),
        r < out@.len() ==> spec_score_lt_key(out@[r as int], sc as int, desc),
{
    let n = out.len();
    let mut k: usize = 0;
    while k < n
        invariant
            0 <= k <= n,
            n == out@.len(),
            forall|i: int| 0 <= i < k ==> !spec_score_lt_key(#[trigger] out@[i], sc as int, desc),
        decreases n - k,
    {
        let strictly_after = if desc {
            out[k].score < sc
        } else {
            out[k].score > sc
        };
        if strictly_after {
            return k;
        }
        k = k + 1;
    }
    n
}

/// The stored element must come strictly after a new element with
/// score `sc` in the `desc` order.
pub open spec fn spec_score_lt_key(t: Tree, sc: int, desc: bool) -> bool {
    if desc {
        t.score < sc
    } else {
        t.score > sc
    }
}


/// Two boards agreeing on cells and rule parameters admit exactly the
/// same search moves for the same players.
#[verifier::rlimit(100)]
pub proof fn lemma_move_legal_same(b1: Board, b2: Board, p: Players, i: int)
    requires
        b1.board@ == b2.board@,
        b1.size == b2.size,
        b1.alignement_nb == b2.alignement_nb,
        b1.capture_range == b2.capture_range,
    ensures
        spec_move_legal(b1, p, i) == spec_move_legal(b2, p, i),
{
    reveal(crate::board::spec_double_free_three);
    assert(crate::board::spec_free_three_count(
        b1.board@,
        b1.size as int,
        i % (b1.size as int),
        i / (b1.size as int),
        p.current_player.color,
    ) == crate::board::spec_free_three_count(
        b2.board@,
        b2.size as int,
        i % (b2.size as int),
        i / (b2.size as int),
        p.current_player.color,
    ));
    let x = i % (b1.size as int);
    let y = i / (b1.size as int);
    if spec_near_stone(b1, x, y, 1) {
        let (ox, oy) = choose|ox: int, oy: int|
            -1 <= ox <= 1 && -1 <= oy <= 1 && (ox == -1 || ox == 1 || oy == -1 || oy == 1) && (
            #[trigger] spec_tile_at(b1, x + ox, y + oy)) matches Tile::Color(_);
        assert(spec_tile_at(b2, x + ox, y + oy) == spec_tile_at(b1, x + ox, y + oy));
        assert(spec_near_stone(b2, x, y, 1));
    }
    if spec_near_stone(b2, x, y, 1) {
        let (ox, oy) = choose|ox: int, oy: int|
            -1 <= ox <= 1 && -1 <= oy <= 1 && (ox == -1 || ox == 1 || oy == -1 || oy == 1) && (
            #[trigger] spec_tile_at(b2, x + ox, y + oy)) matches Tile::Color(_);
        assert(spec_tile_at(b1, x + ox, y + oy) == spec_tile_at(b2, x + ox, y + oy));
        assert(spec_near_stone(b1, x, y, 1));
    }
}

/// The saturating sign flip of the principal-variation search: the
/// smallest representable score flips to the largest, every other
/// score to its exact negation.
pub open spec fn spec_neg_i32(v: int) -> int {
    if v == i32::MIN {
        i32::MAX as int
    } else {
        -v
    }
}

/// The saturating sign flip of the principal-variation search.
fn neg_i32(v: i32) -> (r: i32)
    ensures
        r as int == spec_neg_i32(v as int),
{
    if v == i32::MIN {
        i32::MAX
    } else {
        -v
    }
}

/// Minimax with alpha-beta pruning over one subtree, maximising at
/// the searching side's nodes and minimising at the opponent's.  At
/// depth zero, at a node whose memoized score is already a terminal
/// verdict, or once the shared early-exit flag is raised, the
/// memoized score is returned unchanged without expanding anything.
/// Maximising nodes explore at most `depth.0 + 3` best-ranked
/// children; a score at or beyond the early-exit threshold at
/// sufficient total depth `depth.1` stops the node at once.
pub fn minimax(
    depth: (usize, usize),
    maximizing_player: bool,
    alpha: i32,
    beta: i32,
    default_color: Color,
    tree: Tree,
    abort: bool,
) -> (r: (i32, Tree))
    requires
        tree_ok(tree),
        depth.0 <= 10,
    ensures
        tree_ok(r.1),
        r.1.board == tree.board,
        r.1.players == tree.players,
        r.1.input == tree.input,
        r.1.score == tree.score,
        (depth.0 == 0 || tree.score == i32::MAX || tree.score == i32::MIN || abort) ==> r == (
            tree.score,
            tree,
        ),
        (depth.0 >= 1 && tree.score != i32::MAX && tree.score != i32::MIN && !abort
            && !spec_players_finished(tree.players).0) ==> forall|m: int|
            #[trigger] spec_move_legal(tree.board, tree.players, m) ==> exists|k: int|
                0 <= k < r.1.children@.len() && (#[trigger] r.1.children@[k].input) == m,
    decreases depth.0,
{
    if depth.0 == 0 || tree.score == i32::MAX || tree.score == i32::MIN || abort {
        let sc = tree.score;
        return (sc, tree);
    }
    let mut t = play_everything(tree, default_color, true);
    if maximizing_player {
        let mut value: i32 = i32::MIN;
        let mut alpha = alpha;
        let end = if t.children.len() > depth.0 + 2 {
            depth.0 + 3
        } else {
            t.children.len()
        };
        let mut i: usize = 0;
        while i < end
            invariant
                0 <= i <= end,
                end <= t.children@.len(),
                tree_ok(t),
                t.board == tree.board,
                t.players == tree.players,
                t.input == tree.input,
                t.score == tree.score,
                1 <= depth.0 <= 10,
                tree.score != i32::MAX,
                tree.score != i32::MIN,
                !abort,
                !spec_players_finished(tree.players).0 ==> forall|m: int|
                    #[trigger] spec_move_legal(tree.board, tree.players, m) ==> exists|k: int|
                        0 <= k < t.children@.len() && (#[trigger] t.children@[k].input) == m,
            decreases end - i,
        {
            let ghost pre = t;
            let child = t.children.remove(i);
            let (v, child2) = minimax(
                (depth.0 - 1, depth.1),
                false,
                alpha,
                beta,
                default_color,
                child,
                abort,
            );
            t.children.insert(i, child2);
            proof {
                assert(t.children@ =~= pre.children@.update(i as int, child2));
                assert forall|j: int|
                    0 <= j < t.children@.len() implies tree_ok(#[trigger] t.children@[j])
                    && spec_child_link(t, t.children@[j]) by {
                    if j != i {
                        assert(t.children@[j] == pre.children@[j]);
                    }
                }
                if !spec_players_finished(tree.players).0 {
                    assert forall|m: int|
                        #[trigger] spec_move_legal(tree.board, tree.players, m) implies exists|k: int|
                        0 <= k < t.children@.len() && (#[trigger] t.children@[k].input) == m by {
                        let kk = choose|k: int|
                            0 <= k < pre.children@.len() && (#[trigger] pre.children@[k].input)
                                == m;
                        if kk == i as int {
                            assert(t.children@[kk] == child2);
                            assert(child2.input == pre.children@[kk].input);
                        } else {
                            assert(t.children@[kk] == pre.children@[kk]);
                        }
                        assert(t.children@[kk].input == m);
                    }
                }
            }
            value = if v > value {
                v
            } else {
                value
            };
            if value >= beta || (value >= AVERAGE_PRUNNING && depth.1 >= 5) {
                return (value, t);
            }
            alpha = if value > alpha {
                value
            } else {
                alpha
            };
            i = i + 1;
        }
        (value, t)
    } else {
        let mut value: i32 = i32::MAX;
        let mut beta = beta;
        let mut i: usize = 0;
        while i < t.children.len()
            invariant
                0 <= i <= t.children@.len(),
                tree_ok(t),
                t.board == tree.board,
                t.players == tree.players,
                t.input == tree.input,
                t.score == tree.score,
                1 <= depth.0 <= 10,
                tree.score != i32::MAX,
                tree.score != i32::MIN,
                !abort,
                !spec_players_finished(tree.players).0 ==> forall|m: int|
                    #[trigger] spec_move_legal(tree.board, tree.players, m) ==> exists|k: int|
                        0 <= k < t.children@.len() && (#[trigger] t.children@[k].input) == m,
            decreases t.children@.len() - i,
        {
            let ghost pre = t;
            let child = t.children.remove(i);
            let (v, child2) = minimax(
                (depth.0 - 1, depth.1),
                true,
                alpha,
                beta,
                default_color,
                child,
                abort,
            );
            t.children.insert(i, child2);
            proof {
                assert(t.children@ =~= pre.children@.update(i as int, child2));
                assert forall|j: int|
                    0 <= j < t.children@.len() implies tree_ok(#[trigger] t.children@[j])
                    && spec_child_link(t, t.children@[j]) by {
                    if j != i {
                        assert(t.children@[j] == pre.children@[j]);
                    }
                }
                if !spec_players_finished(tree.players).0 {
                    assert forall|m: int|
                        #[trigger] spec_move_legal(tree.board, tree.players, m) implies exists|k: int|
                        0 <= k < t.children@.len() && (#[trigger] t.children@[k].input) == m by {
                        let kk = choose|k: int|
                            0 <= k < pre.children@.len() && (#[trigger] pre.children@[k].input)
                                == m;
                        if kk == i as int {
                            assert(t.children@[kk] == child2);
                            assert(child2.input == pre.children@[kk].input);
                        } else {
                            assert(t.children@[kk] == pre.children@[kk]);
                        }
                        assert(t.children@[kk].input == m);
                    }
                }
            }
            value = if v < value {
                v
            } else {
                value
            };
            if alpha >= value || (value <= -AVERAGE_PRUNNING && depth.1 >= 5) {
                return (value, t);
            }
            beta = if value < beta {
                value
            } else {
                beta
            };
            i = i + 1;
        }
        (value, t)
    }
}

/// Principal-variation search: a negamax formulation that probes every
/// child after the first with a null window and re-searches with a
/// full window only when the probe lands strictly inside the current
/// bounds.  At depth zero or at a memoized terminal verdict the score
/// is returned as seen from `color`, sign-flipped when the side to
/// move differs.
pub fn pvs(tree: Tree, depth: usize, alpha: i32, beta: i32, color: Color) -> (r: (i32, Tree))
    requires
        tree_ok(tree),
        depth <= 10,
        i32::MIN < alpha,
        alpha < beta,
    ensures
        tree_ok(r.1),
        r.1.board == tree.board,
        r.1.players == tree.players,
        r.1.input == tree.input,
        r.1.score == tree.score,
        (depth == 0 || tree.score == i32::MAX || tree.score == i32::MIN) ==> r.1 == tree && r.0
            as int == (if tree.players.current_player.color == color {
            tree.score as int
        } else {
            spec_neg_i32(tree.score as int)
        }),
        (depth >= 1 && tree.score != i32::MAX && tree.score != i32::MIN
            && !spec_players_finished(tree.players).0) ==> forall|m: int|
            #[trigger] spec_move_legal(tree.board, tree.players, m) ==> exists|k: int|
                0 <= k < r.1.children@.len() && (#[trigger] r.1.children@[k].input) == m,
    decreases depth,
{
    if depth == 0 || tree.score == i32::MAX || tree.score == i32::MIN {
        if tree.players.get_current_player().get_player_color() == color {
            let sc = tree.score;
            return (sc, tree);
        } else {
            let sc = neg_i32(tree.score);
            return (sc, tree);
        }
    }
    let expansion_color = tree.players.get_current_player().get_player_color().get_inverse_color();
    let mut t = play_everything(tree, expansion_color, false);
    let mut alpha = alpha;
    let mut i: usize = 0;
    while i < t.children.len()
        invariant
            0 <= i <= t.children@.len(),
            tree_ok(t),
            t.board == tree.board,
            t.players == tree.players,
            t.input == tree.input,
            t.score == tree.score,
            1 <= depth <= 10,
            tree.score != i32::MAX,
            tree.score != i32::MIN,
            i32::MIN < alpha,
            alpha < beta,
            !spec_players_finished(tree.players).0 ==> forall|m: int|
                #[trigger] spec_move_legal(tree.board, tree.players, m) ==> exists|k: int|
                    0 <= k < t.children@.len() && (#[trigger] t.children@[k].input) == m,
        decreases t.children@.len() - i,
    {
        let ghost pre = t;
        let child = t.children.remove(i);
        let (score, child_out): (i32, Tree) = if i == 0 {
            let nb = neg_i32(beta);
            let na = neg_i32(alpha);
            let (s, c2) = pvs(child, depth - 1, nb, na, color);
            (neg_i32(s), c2)
        } else {
            let na = neg_i32(alpha);
            let na1 = na - 1;
            let (s, c2a) = pvs(child, depth - 1, na1, na, color);
            let probe = neg_i32(s);
            if alpha < probe && probe < beta {
                let nb = neg_i32(beta);
                let ns = neg_i32(probe);
                let (s2, c2b) = pvs(c2a, depth - 1, nb, ns, color);
                (neg_i32(s2), c2b)
            } else {
                (probe, c2a)
            }
        };
        t.children.insert(i, child_out);
        proof {
            assert(t.children@ =~= pre.children@.update(i as int, child_out));
            assert forall|j: int|
                0 <= j < t.children@.len() implies tree_ok(#[trigger] t.children@[j])
                && spec_child_link(t, t.children@[j]) by {
                if j != i {
                    assert(t.children@[j] == pre.children@[j]);
                }
            }
            if !spec_players_finished(tree.players).0 {
                assert forall|m: int|
                    #[trigger] spec_move_legal(tree.board, tree.players, m) implies exists|k: int|
                    0 <= k < t.children@.len() && (#[trigger] t.children@[k].input) == m by {
                    let kk = choose|k: int|
                        0 <= k < pre.children@.len() && (#[trigger] pre.children@[k].input) == m;
                    if kk == i as int {
                        assert(t.children@[kk] == child_out);
                        assert(child_out.input == pre.children@[kk].input);
                    } else {
                        assert(t.children@[kk] == pre.children@[kk]);
                    }
                    assert(t.children@[kk].input == m);
                }
            }
        }
        alpha = if score > alpha {
            score
        } else {
            alpha
        };
        if alpha >= beta {
            return (alpha, t);
        }
        i = i + 1;
    }
    (alpha, t)
}



/// Every cell of the grid is empty.
pub open spec fn spec_board_all_empty(b: Board) -> bool {
    forall|j: int| 0 <= j < b.board@.len() ==> #[trigger] b.board@[j] == Tile::Empty
}

/// The returned subtree is a position the bot may legally reach from
/// the current state by playing its recorded move: the move passes
/// the search's own screening, and the subtree's snapshot is exactly
/// the state that move produces.
pub open spec fn spec_choice_ok(b: Board, p: Players, t: Tree) -> bool {
    let x = t.input as int % (b.size as int);
    let y = t.input as int / (b.size as int);
    let after = spec_add_value_checked(b, p, x, y);
    &&& tree_ok(t)
    &&& t.input < b.board@.len()
    &&& spec_move_legal(b, p, t.input as int)
    &&& t.board.board@ == after.0
    &&& t.board.size == b.size
    &&& t.board.alignement_nb == b.alignement_nb
    &&& t.board.capture_range == b.capture_range
    &&& t.players == spec_next_player(after.1)
}

/// A stored child of a node whose snapshot equals the current state is
/// a choice the bot may play now.
proof fn lemma_link_transfers(parent: Tree, c: Tree, board: Board, players: Players)
    requires
        tree_ok(c),
        spec_child_link(parent, c),
        spec_snapshot_eq(parent, board, players),
    ensures
        spec_choice_ok(board, players, c),
{
    let x = c.input as int % (board.size as int);
    let y = c.input as int / (board.size as int);
    lemma_move_legal_same(parent.board, board, players, c.input as int);
    crate::board::lemma_add_value_checked_same(parent.board, board, players, x, y);
}


/// The algorithm the side to move runs; meaningful only for a bot.
pub open spec fn spec_bot_algorithm(p: Players) -> Algorithm {
    match p.current_player.player_type {
        PlayerType::Bot(a) => a,
        PlayerType::Human => Algorithm::Minimax,
    }
}

/// The score a one-ply search assigns to playing move `i` on `b`: the
/// evaluator's verdict on the resulting snapshot, seen from the side
/// to move — sign-flipped under the negamax convention of the
/// principal-variation search, whose probe runs from the opponent.
pub open spec fn spec_depth_one_score(b: Board, p: Players, i: int, algorithm: Algorithm) -> int {
    let x = i % (b.size as int);
    let y = i / (b.size as int);
    let after = spec_add_value_checked(b, p, x, y);
    let np = spec_next_player(after.1);
    let h = crate::heuristic::spec_heuristic_s(
        after.0,
        b.size as int,
        b.alignement_nb as int,
        b.capture_range as int,
        np,
        p.current_player.color,
    );
    match algorithm {
        Algorithm::Minimax => h,
        Algorithm::Pvs => if np.current_player.color == p.current_player.color {
            h
        } else {
            spec_neg_i32(h)
        },
    }
}

/// Folds the one-ply scores of the remaining cells into the best
/// `(score, move)` pair seen so far; the first of equal scores wins.
pub open spec fn spec_depth_one_fold(
    b: Board,
    p: Players,
    algorithm: Algorithm,
    i: int,
    best: Option<(int, int)>,
) -> Option<(int, int)>
    decreases b.board@.len() - i,
{
    if i < 0 || i >= b.board@.len() {
        best
    } else {
        let best2 = if spec_move_legal(b, p, i) {
            let sc = spec_depth_one_score(b, p, i, algorithm);
            match best {
                None => Some((sc, i)),
                Some(bv) => if sc > bv.0 {
                    Some((sc, i))
                } else {
                    best
                },
            }
        } else {
            best
        };
        spec_depth_one_fold(b, p, algorithm, i + 1, best2)
    }
}

/// The `(score, move)` pair a one-ply search picks on `b`, if any
/// cell survives the screening.
pub open spec fn spec_depth_one_choice(b: Board, p: Players, algorithm: Algorithm) -> Option<
    (int, int),
> {
    spec_depth_one_fold(b, p, algorithm, 0, None)
}

/// The cached-tree fast path applies: the supplied tree from the
/// previous turn has a child whose snapshot equals the current state,
/// and that child has explored children to resume from.
pub open spec fn spec_cache_hit(calculated_tree: Option<Tree>, b: Board, p: Players) -> bool {
    match calculated_tree {
        Some(t) => match spec_first_match(t.children@, b, p) {
            Some(fi) => t.children@[fi].children@.len() > 0,
            None => false,
        },
        None => false,
    }
}

/// The score a depth-one search reads off a cached child: its
/// memoized evaluator score, sign-flipped under the negamax convention
/// of the principal-variation search when the child's side to move
/// differs from the searching side.
pub open spec fn spec_cached_d1_score(c: Tree, algorithm: Algorithm, color: Color) -> int {
    match algorithm {
        Algorithm::Minimax => c.score as int,
        Algorithm::Pvs => if c.players.current_player.color == color {
            c.score as int
        } else {
            spec_neg_i32(c.score as int)
        },
    }
}

/// Folds the cached children's depth-one scores over positions
/// `[i, end)` into the best `(score, position)` pair seen so far; the
/// first of equal scores wins.
pub open spec fn spec_cached_fold(
    cs: Seq<Tree>,
    algorithm: Algorithm,
    color: Color,
    i: int,
    end: int,
    best: Option<(int, int)>,
) -> Option<(int, int)>
    decreases end - i,
{
    if i < 0 || i >= end || i >= cs.len() {
        best
    } else {
        let sc = spec_cached_d1_score(cs[i], algorithm, color);
        let best2 = match best {
            None => Some((sc, i)),
            Some(bv) => if sc > bv.0 {
                Some((sc, i))
            } else {
                best
            },
        };
        spec_cached_fold(cs, algorithm, color, i + 1, end, best2)
    }
}

/// The `(score, position)` pair a depth-one search picks among the
/// cached children: the best-ranked prefix of soft beam width
/// `depth + 3` is examined, the first maximal score wins.
pub open spec fn spec_cached_choice(
    cs: Seq<Tree>,
    depth: int,
    algorithm: Algorithm,
    color: Color,
) -> Option<(int, int)> {
    let end = if cs.len() > depth + 2 {
        depth + 3
    } else {
        cs.len() as int
    };
    spec_cached_fold(cs, algorithm, color, 0, end, None)
}

/// Search determinism at depth one: the move choice is a pure
/// function of the board, the players and the algorithm, so two runs
/// from identical inputs pick the same move.  (Deeper searches are
/// sequential too, but their choice is not pinned to a function here.)
pub proof fn lemma_depth_one_deterministic(
    b: Board,
    p: Players,
    algorithm: Algorithm,
    r1: Option<(int, int)>,
    r2: Option<(int, int)>,
)
    requires
        r1 == spec_depth_one_choice(b, p, algorithm),
        r2 == spec_depth_one_choice(b, p, algorithm),
    ensures
        r1 == r2,
{
}

/// Picks the bot's move for the current state.  An entirely empty
/// grid is answered with the centre cell at once, without any search.
/// Otherwise, when the supplied tree from the previous turn holds a
/// child matching the current state, its cached children are searched
/// — the first child already carrying the maximal score is returned
/// without further search — and when no usable tree exists every
/// nearby legal cell is explored afresh.  The best-scoring branch
/// wins; equal scores keep the branch enumerated first.  When nothing
/// survives the screening the centre cell is played without search.
/// The chosen branch's subtree is returned for reuse next turn.
#[verifier::rlimit(100)]
pub fn get_bot_input(
    players: Players,
    board: &Board,
    calculated_tree: Option<Tree>,
    depth: usize,
) -> (r: (Input, Option<Tree>))
    requires
        board.wf(),
        players.wf(),
        board.capture_range == players.capture_range,
        1 <= depth <= 10,
        players.current_player.player_type matches PlayerType::Bot(_),
        !spec_players_finished(players).0,
        calculated_tree matches Some(t) ==> tree_ok(t),
    ensures
        spec_board_all_empty(*board) ==> r == ((board.size as usize / 2, board.size as usize / 2), None::<Tree>),
        r.0.0 < board.size,
        r.0.1 < board.size,
        r.1 is None ==> r.0 == ((board.size as usize / 2, board.size as usize / 2)),
        !spec_board_all_empty(*board) ==> ((r.1 is Some) <==> exists|m: int|
            spec_move_legal(*board, players, m)),
        (match r.1 {
            Some(t) => spec_choice_ok(*board, players, t) && r.0.0 as int == t.input as int % (
            board.size as int) && r.0.1 as int == t.input as int / (board.size as int),
            None => true,
        }),
        !spec_board_all_empty(*board) ==> (match calculated_tree {
            Some(t) => (match spec_first_match(t.children@, *board, players) {
                Some(fi) => {
                    let cached = t.children@[fi].children@;
                    cached.len() > 0 ==> (match spec_first_win(cached) {
                        Some(wi) => r.1 == Some(cached[wi]) && r.0.0 as int == cached[wi].input
                            as int % (board.size as int) && r.0.1 as int == cached[wi].input
                            as int / (board.size as int),
                        None => true,
                    })
                },
                None => true,
            }),
            None => true,
        }),
        !spec_board_all_empty(*board) ==> (match calculated_tree {
            Some(t) => (match spec_first_match(t.children@, *board, players) {
                Some(fi) => {
                    let cached = t.children@[fi].children@;
                    (depth == 1 && cached.len() > 0 && spec_first_win(cached) is None) ==> (
                    match spec_cached_choice(
                        cached,
                        depth as int,
                        spec_bot_algorithm(players),
                        players.current_player.color,
                    ) {
                        Some(bv) => r.1 == Some(cached[bv.1]) && r.0.0 as int == cached[bv.1].input
                            as int % (board.size as int) && r.0.1 as int == cached[bv.1].input
                            as int / (board.size as int),
                        None => false,
                    })
                },
                None => true,
            }),
            None => true,
        }),
        (depth == 1 && !spec_cache_hit(calculated_tree, *board, players)
            && !spec_board_all_empty(*board)) ==> (
        match spec_depth_one_choice(*board, players, spec_bot_algorithm(players)) {
            Some(bv) => r.0.0 as int == bv.1 % (board.size as int) && r.0.1 as int == bv.1 / (
            board.size as int) && r.1 is Some,
            None => r.0 == ((board.size as usize / 2, board.size as usize / 2)) && r.1 is None,
        }),
{
    let color = players.get_current_player().get_player_color();
    let size = board.get_size();
    let total = board.get_total_tiles();
    let mut all_empty = true;
    let mut j: usize = 0;
    while j < total
        invariant
            0 <= j <= total,
            total == board.board@.len(),
            board.wf(),
            all_empty == (forall|t: int| 0 <= t < j ==> #[trigger] board.board@[t] == Tile::Empty),
        decreases total - j,
    {
        if board.get_index(j) != Tile::Empty {
            all_empty = false;
        }
        j = j + 1;
    }
    if all_empty {
        return ((size / 2, size / 2), None);
    }
    let algorithm = match players.get_current_player().get_player_type() {
        PlayerType::Bot(a) => a,
        PlayerType::Human => {
            proof {
                assert(false);
            }
            Algorithm::Minimax
        },
    };
    let ghost ct0 = calculated_tree;
    let ghost d1 = depth == 1 && !spec_cache_hit(calculated_tree, *board, players);
    let ghost cd1 = depth == 1;
    let ghost mut best_k: int = 0;
    let mut abort = false;
    let mut best_score: i32 = 0;
    let mut best_input: usize = 0;
    let mut has_best = false;
    let mut best_tree: Option<Tree> = None;
    match calculated_tree {
        Some(tree) => {
            let ghost t0 = tree;
            let mut tree = tree;
            let n = tree.children.len();
            let mut fidx: usize = 0;
            let mut found = false;
            while fidx < n && !found
                invariant
                    0 <= fidx <= n,
                    n == tree.children@.len(),
                    tree == t0,
                    tree_ok(tree),
                    board.wf(),
                    spec_first_match(t0.children@, *board, players) == spec_first_match_from(
                        t0.children@,
                        *board,
                        players,
                        fidx as int,
                    ),
                    found ==> fidx < n && spec_snapshot_eq(
                        tree.children@[fidx as int],
                        *board,
                        players,
                    ),
                decreases n - fidx + (if found { 0int } else { 1int }),
            {
                let c = &tree.children[fidx];
                if c.board.eq(board) && c.players == players {
                    found = true;
                } else {
                    proof {
                        assert(!spec_snapshot_eq(t0.children@[fidx as int], *board, players));
                    }
                    fidx = fidx + 1;
                }
            }
            if found {
                proof {
                    assert(spec_first_match_from(t0.children@, *board, players, fidx as int)
                        == Some(fidx as int));
                }
                let sub = tree.children.remove(fidx);
                proof {
                    assert(sub == t0.children@[fidx as int]);
                    assert(tree_ok(sub));
                    assert(spec_snapshot_eq(sub, *board, players));
                }
                if sub.children.len() > 0 {
                    let mut sub = sub;
                    let ghost subg = sub;
                    let m = sub.children.len();
                    let mut widx: usize = 0;
                    let mut wfound = false;
                    while widx < m && !wfound
                        invariant
                            0 <= widx <= m,
                            m == sub.children@.len(),
                            sub == subg,
                            tree_ok(sub),
                            spec_first_win(subg.children@) == spec_first_win_from(
                                subg.children@,
                                widx as int,
                            ),
                            wfound ==> widx < m && sub.children@[widx as int].score == i32::MAX,
                        decreases m - widx + (if wfound { 0int } else { 1int }),
                    {
                        if sub.children[widx].score == i32::MAX {
                            wfound = true;
                        } else {
                            proof {
                                assert(subg.children@[widx as int].score != i32::MAX);
                            }
                            widx = widx + 1;
                        }
                    }
                    if wfound {
                        proof {
                            assert(spec_first_win_from(subg.children@, widx as int) == Some(
                                widx as int,
                            ));
                        }
                        let fin = sub.children.remove(widx);
                        proof {
                            assert(fin == subg.children@[widx as int]);
                            assert(tree_ok(fin) && spec_child_link(subg, fin));
                            lemma_link_transfers(subg, fin, *board, players);
                            assert(spec_move_legal(*board, players, fin.input as int));
                            assert(spec_cache_hit(ct0, *board, players));
                        }
                        let inp = board.get_input(fin.input);
                        return (inp, Some(fin));
                    }
                    proof {
                        assert(spec_first_win(subg.children@) is None);
                    }
                    let end = if sub.children.len() > depth + 2 {
                        depth + 3
                    } else {
                        sub.children.len()
                    };
                    let ghost subch = sub.children@;
                    proof {
                        assert(subch == subg.children@);
                    }
                    let mut k: usize = 0;
                    while k < end
                        invariant
                            0 <= k <= end,
                            1 <= end <= subch.len(),
                            sub.children@ == subch.subrange(k as int, subch.len() as int),
                            board.wf(),
                            players.wf(),
                            1 <= depth <= 10,
                            forall|i: int|
                                0 <= i < subch.len() ==> tree_ok(#[trigger] subch[i])
                                    && spec_child_link(subg, subch[i]),
                            spec_snapshot_eq(subg, *board, players),
                            k >= 1 ==> has_best,
                            k == 0 ==> !has_best,
                            has_best ==> (match best_tree {
                                Some(bt) => spec_choice_ok(*board, players, bt) && bt.input
                                    == best_input,
                                None => false,
                            }),
                            color == players.current_player.color,
                            algorithm == spec_bot_algorithm(players),
                            cd1 == (depth == 1),
                            end as int == (if subch.len() > depth + 2 {
                                depth + 3
                            } else {
                                subch.len() as int
                            }),
                            cd1 ==> spec_cached_fold(
                                subch,
                                algorithm,
                                color,
                                k as int,
                                end as int,
                                (if has_best {
                                    Some((best_score as int, best_k))
                                } else {
                                    None
                                }),
                            ) == spec_cached_choice(subch, depth as int, algorithm, color),
                            cd1 && has_best ==> 0 <= best_k < subch.len() && best_tree == Some(
                                subch[best_k],
                            ) && best_input == subch[best_k].input,
                        decreases end - k,
                    {
                        let child = sub.children.remove(0);
                        proof {
                            assert(child == subch[k as int]);
                            assert(sub.children@ =~= subch.subrange(k + 1, subch.len() as int));
                        }
                        let (score, child2) = match algorithm {
                            Algorithm::Minimax => minimax(
                                (depth - 1, depth),
                                false,
                                i32::MIN,
                                i32::MAX,
                                color,
                                child,
                                abort,
                            ),
                            Algorithm::Pvs => pvs(child, depth - 1, i32::MIN + 1, i32::MAX, color),
                        };
                        proof {
                            lemma_link_transfers(subg, child2, *board, players);
                            if cd1 {
                                assert(child2 == subch[k as int]);
                                assert(score as int == spec_cached_d1_score(
                                    subch[k as int],
                                    algorithm,
                                    color,
                                ));
                            }
                        }
                        if score >= AVERAGE_PRUNNING && depth >= 5 {
                            abort = true;
                        }
                        let ghost prev: Option<(int, int)> = if has_best {
                            Some((best_score as int, best_k))
                        } else {
                            None
                        };
                        if !has_best || score > best_score {
                            has_best = true;
                            best_score = score;
                            best_input = child2.input;
                            best_tree = Some(child2);
                            proof {
                                best_k = k as int;
                            }
                        }
                        proof {
                            if cd1 {
                                assert(spec_cached_fold(
                                    subch,
                                    algorithm,
                                    color,
                                    k as int,
                                    end as int,
                                    prev,
                                ) == spec_cached_fold(
                                    subch,
                                    algorithm,
                                    color,
                                    k + 1,
                                    end as int,
                                    (if has_best {
                                        Some((best_score as int, best_k))
                                    } else {
                                        None
                                    }),
                                ));
                            }
                        }
                        k = k + 1;
                    }
                    proof {
                        assert(spec_cache_hit(ct0, *board, players));
                        if cd1 {
                            assert(spec_cached_choice(subch, depth as int, algorithm, color)
                                == Some((best_score as int, best_k)));
                        }
                        assert(has_best);
                        let bt = best_tree->Some_0;
                        assert(spec_move_legal(*board, players, bt.input as int));
                    }
                    let inp = board.get_input(best_input);
                    return (inp, best_tree);
                }
                proof {
                    assert(t0.children@[fidx as int].children@.len() == 0);
                    assert(!spec_cache_hit(ct0, *board, players));
                }
            } else {
                proof {
                    assert(fidx == n);
                    assert(spec_first_match(t0.children@, *board, players) is None);
                    assert(!spec_cache_hit(ct0, *board, players));
                }
            }
        },
        None => {
            proof {
                assert(!spec_cache_hit(ct0, *board, players));
            }
        },
    }
    let mut i: usize = 0;
    while i < total
        invariant
            0 <= i <= total,
            total == board.board@.len(),
            board.wf(),
            players.wf(),
            board.capture_range == players.capture_range,
            !spec_players_finished(players).0,
            1 <= depth <= 10,
            color == players.current_player.color,
            algorithm == spec_bot_algorithm(players),
            has_best ==> (match best_tree {
                Some(bt) => spec_choice_ok(*board, players, bt) && bt.input == best_input,
                None => false,
            }),
            has_best == (exists|m: int|
                0 <= m < i && #[trigger] spec_move_legal(*board, players, m)),
            d1 ==> depth == 1 && !abort,
            d1 ==> spec_depth_one_fold(
                *board,
                players,
                algorithm,
                i as int,
                (if has_best {
                    Some((best_score as int, best_input as int))
                } else {
                    None
                }),
            ) == spec_depth_one_choice(*board, players, algorithm),
        decreases total - i,
    {
        let ghost prev_best: Option<(int, int)> = if has_best {
            Some((best_score as int, best_input as int))
        } else {
            None
        };
        let ghost was_legal = spec_move_legal(*board, players, i as int);
        if board.get_index(i) == Tile::Empty {
            let input = board.get_input(i);
            if pruning_heuristic(input, board) && board.check_add_value_algo(
                input,
                &players,
            ).is_ok() {
                let mut new_board = board.clone();
                let ghost nb0 = new_board;
                let mut new_players = players;
                new_board.add_value_checked(input, &mut new_players);
                new_players.next_player();
                proof {
                    assert(spec_move_legal(*board, players, i as int));
                    crate::board::lemma_add_value_checked_same(
                        nb0,
                        *board,
                        players,
                        input.0 as int,
                        input.1 as int,
                    );
                }
                let ghost nb_snapshot = new_board;
                let ghost np_snapshot = new_players;
                let t = Tree::new(new_board, new_players, i, color);
                proof {
                    assert(spec_choice_ok(*board, players, t));
                }
                let (score, t2) = match algorithm {
                    Algorithm::Minimax => minimax(
                        (depth - 1, depth),
                        false,
                        i32::MIN,
                        i32::MAX,
                        color,
                        t,
                        abort,
                    ),
                    Algorithm::Pvs => pvs(t, depth - 1, i32::MIN + 1, i32::MAX, color),
                };
                proof {
                    if d1 {
                        reveal(crate::heuristic::spec_heuristic);
                        let after = spec_add_value_checked(
                            *board,
                            players,
                            i as int % (board.size as int),
                            i as int / (board.size as int),
                        );
                        assert(nb_snapshot.board@ == after.0);
                        assert(np_snapshot == spec_next_player(after.1));
                        assert(score as int == spec_depth_one_score(
                            *board,
                            players,
                            i as int,
                            algorithm,
                        ));
                    }
                }
                if score >= AVERAGE_PRUNNING && depth >= 5 {
                    abort = true;
                }
                if !has_best || score > best_score {
                    has_best = true;
                    best_score = score;
                    best_input = t2.input;
                    best_tree = Some(t2);
                }
            }
        }
        proof {
            if was_legal {
                assert(has_best);
            } else {
                assert forall|m: int|
                    0 <= m < i + 1 && #[trigger] spec_move_legal(*board, players, m) implies 0 <= m
                    < i by {
                    if m == i {
                        assert(false);
                    }
                }
            }
            if d1 {
                let cur: Option<(int, int)> = if has_best {
                    Some((best_score as int, best_input as int))
                } else {
                    None
                };
                if was_legal {
                    assert(spec_depth_one_fold(*board, players, algorithm, i as int, prev_best)
                        == spec_depth_one_fold(*board, players, algorithm, i + 1, cur));
                } else {
                    assert(cur == prev_best);
                    assert(spec_depth_one_fold(*board, players, algorithm, i as int, prev_best)
                        == spec_depth_one_fold(*board, players, algorithm, i + 1, cur));
                }
            }
        }
        i = i + 1;
    }
    proof {
        if d1 {
            assert(spec_depth_one_fold(
                *board,
                players,
                algorithm,
                total as int,
                (if has_best {
                    Some((best_score as int, best_input as int))
                } else {
                    None
                }),
            ) == (if has_best {
                Some((best_score as int, best_input as int))
            } else {
                None::<(int, int)>
            }));
        }
    }
    proof {
        assert forall|m: int| #[trigger]
            spec_move_legal(*board, players, m) implies 0 <= m < total by {}
    }
    if has_best {
        let inp = board.get_input(best_input);
        (inp, best_tree)
    } else {
        ((size / 2, size / 2), None)
    }
}


} // verus!
