use vstd::prelude::*;
use std::collections::VecDeque;
use crate::grid::{Grid, in_rect};
use crate::types::{FloorTile, Position};

verus! {

/// The destination cannot be reached from the start.
#[derive(PartialEq, Eq, Structural, Clone, Copy, Debug)]
pub enum PathError {
    NoPath,
}

pub open spec fn south(p: Position) -> Position {
    Position { x: p.x, y: (p.y + 1) as i32 }
}

pub open spec fn east(p: Position) -> Position {
    Position { x: (p.x + 1) as i32, y: p.y }
}

pub open spec fn north(p: Position) -> Position {
    Position { x: p.x, y: (p.y - 1) as i32 }
}

pub open spec fn west(p: Position) -> Position {
    Position { x: (p.x - 1) as i32, y: p.y }
}

/// Two cells that share a side.
pub open spec fn adjacent(p: Position, q: Position) -> bool {
    ||| p.x == q.x && (p.y - q.y == 1 || q.y - p.y == 1)
    ||| p.y == q.y && (p.x - q.x == 1 || q.x - p.x == 1)
}

/// A cell that a route may enter: a Path tile, or the destination itself.
pub open spec fn walkable(board: Map<Position, FloorTile>, dest: Position, p: Position) -> bool {
    board.contains_key(p) && (board[p] == FloorTile::Path || p == dest)
}

/// A route on the board from `start` to `dest`: it starts on the board, each
/// step moves to a side neighbour, and every cell after the first is walkable.
pub open spec fn is_route(
    board: Map<Position, FloorTile>,
    start: Position,
    dest: Position,
    route: Seq<Position>,
) -> bool {
    &&& route.len() >= 1
    &&& route[0] == start
    &&& route.last() == dest
    &&& board.contains_key(start)
    &&& forall|i: int| 0 < i < route.len() ==> walkable(board, dest, #[trigger] route[i])
    &&& forall|i: int| 0 <= i < route.len() - 1 ==> adjacent(#[trigger] route[i], route[i + 1])
}

/// A route without its first cell is a route from its second cell.
pub proof fn lemma_route_tail(
    board: Map<Position, FloorTile>,
    start: Position,
    dest: Position,
    route: Seq<Position>,
)
    requires
        is_route(board, start, dest, route),
        route.len() >= 2,
    ensures
        is_route(board, route[1], dest, route.drop_first()),
{
    let t = route.drop_first();
    assert(walkable(board, dest, route[1]));
    assert forall|i: int| 0 < i < t.len() implies walkable(board, dest, #[trigger] t[i]) by {
        assert(t[i] == route[i + 1]);
    }
    assert forall|i: int| 0 <= i < t.len() - 1 implies adjacent(#[trigger] t[i], t[i + 1]) by {
        assert(t[i] == route[i + 1]);
        assert(t[i + 1] == route[i + 2]);
    }
}

/// Whether `p` can be reached from `start` in at most `n` steps.
pub open spec fn reach(
    board: Map<Position, FloorTile>,
    start: Position,
    dest: Position,
    n: nat,
    p: Position,
) -> bool
    decreases n,
{
    if n == 0 {
        p == start && board.contains_key(start)
    } else {
        let m = (n - 1) as nat;
        ||| reach(board, start, dest, m, p)
        ||| walkable(board, dest, p) && {
            ||| reach(board, start, dest, m, south(p))
            ||| reach(board, start, dest, m, east(p))
            ||| reach(board, start, dest, m, north(p))
            ||| reach(board, start, dest, m, west(p))
        }
    }
}

/// The fewest steps that reach `p` from `start`, when some number does.
pub open spec fn least_steps(
    board: Map<Position, FloorTile>,
    start: Position,
    dest: Position,
    p: Position,
) -> nat {
    choose|n: nat|
        #[trigger] reach(board, start, dest, n, p) && (n == 0 || !reach(board, start, dest, (n - 1) as nat, p))
}

/// The neighbour of `cur` that a route reaching `cur` in `d` steps comes
/// from: the first of south, east, north and west reached in `d - 1` steps.
pub open spec fn back_step(
    board: Map<Position, FloorTile>,
    start: Position,
    dest: Position,
    cur: Position,
    d: nat,
) -> Position {
    let m = (d - 1) as nat;
    if reach(board, start, dest, m, south(cur)) {
        south(cur)
    } else if reach(board, start, dest, m, east(cur)) {
        east(cur)
    } else if reach(board, start, dest, m, north(cur)) {
        north(cur)
    } else {
        west(cur)
    }
}

/// The route of `d` steps that ends at `cur`, traced back by `back_step`.
pub open spec fn walk_back(
    board: Map<Position, FloorTile>,
    start: Position,
    dest: Position,
    cur: Position,
    d: nat,
) -> Seq<Position>
    decreases d,
{
    if d == 0 {
        seq![cur]
    } else {
        walk_back(board, start, dest, back_step(board, start, dest, cur, d), (d - 1) as nat).push(cur)
    }
}

/// The route that the pathfinder returns from `start` to `dest`.
pub open spec fn shortest_route(board: Map<Position, FloorTile>, start: Position, dest: Position) -> Seq<
    Position,
> {
    walk_back(board, start, dest, dest, least_steps(board, start, dest, dest))
}

proof fn lemma_least_steps(
    board: Map<Position, FloorTile>,
    start: Position,
    dest: Position,
    p: Position,
    n: nat,
)
    requires
        reach(board, start, dest, n, p),
        n == 0 || !reach(board, start, dest, (n - 1) as nat, p),
    ensures
        least_steps(board, start, dest, p) == n,
{
    let k = least_steps(board, start, dest, p);
    assert(reach(board, start, dest, k, p) && (k == 0 || !reach(board, start, dest, (k - 1) as nat, p)));
    if k < n {
        lemma_reach_mono(board, start, dest, k, (n - 1) as nat, p);
    } else if n < k {
        lemma_reach_mono(board, start, dest, n, (k - 1) as nat, p);
    }
}

proof fn lemma_reach_on_board(
    board: Map<Position, FloorTile>,
    start: Position,
    dest: Position,
    n: nat,
    p: Position,
)
    requires
        reach(board, start, dest, n, p),
    ensures
        board.contains_key(p),
    decreases n,
{
    if n > 0 && reach(board, start, dest, (n - 1) as nat, p) {
        lemma_reach_on_board(board, start, dest, (n - 1) as nat, p);
    }
}

proof fn lemma_reach_mono(
    board: Map<Position, FloorTile>,
    start: Position,
    dest: Position,
    a: nat,
    b: nat,
    p: Position,
)
    requires
        a <= b,
        reach(board, start, dest, a, p),
    ensures
        reach(board, start, dest, b, p),
    decreases b - a,
{
    if a < b {
        lemma_reach_mono(board, start, dest, a, (b - 1) as nat, p);
    }
}

/// Once a round adds no cell, no later round does.
proof fn lemma_reach_fixpoint(
    board: Map<Position, FloorTile>,
    start: Position,
    dest: Position,
    r: nat,
    n: nat,
    p: Position,
)
    requires
        forall|q: Position|
            #[trigger] reach(board, start, dest, r + 1, q) ==> reach(board, start, dest, r, q),
        reach(board, start, dest, n, p),
    ensures
        reach(board, start, dest, r, p),
    decreases n,
{
    if n <= r {
        lemma_reach_mono(board, start, dest, n, r, p);
    } else {
        let m = (n - 1) as nat;
        if reach(board, start, dest, m, p) {
            lemma_reach_fixpoint(board, start, dest, r, m, p);
        } else {
            if reach(board, start, dest, m, south(p)) {
                lemma_reach_fixpoint(board, start, dest, r, m, south(p));
            } else if reach(board, start, dest, m, east(p)) {
                lemma_reach_fixpoint(board, start, dest, r, m, east(p));
            } else if reach(board, start, dest, m, north(p)) {
                lemma_reach_fixpoint(board, start, dest, r, m, north(p));
            } else {
                lemma_reach_fixpoint(board, start, dest, r, m, west(p));
            }
            assert(reach(board, start, dest, r + 1, p));
        }
    }
}

/// A side neighbour of a cell on a board no wider or taller than `i32::MAX`
/// is one of the four cells that `reach` looks at.
proof fn lemma_adjacent_is_neighbour(q: Position, p: Position)
    requires
        adjacent(q, p),
        0 <= p.x < i32::MAX,
        0 <= p.y < i32::MAX,
    ensures
        q == south(p) || q == east(p) || q == north(p) || q == west(p),
{
}

/// Every prefix of a route reaches its last cell in as many steps.
proof fn lemma_route_reaches(
    board: Map<Position, FloorTile>,
    start: Position,
    dest: Position,
    route: Seq<Position>,
    i: int,
    w: int,
    h: int,
)
    requires
        is_route(board, start, dest, route),
        0 <= i < route.len(),
        w <= i32::MAX,
        h <= i32::MAX,
        forall|p: Position| #[trigger] board.contains_key(p) ==> in_rect(w, h, p),
    ensures
        reach(board, start, dest, i as nat, route[i]),
    decreases i,
{
    if i > 0 {
        lemma_route_reaches(board, start, dest, route, i - 1, w, h);
        let p = route[i];
        let q = route[i - 1];
        assert(walkable(board, dest, p));
        assert(adjacent(q, p));
        lemma_adjacent_is_neighbour(q, p);
    }
}

spec fn is_set() -> spec_fn(Option<usize>) -> bool {
    |o: Option<usize>| o is Some
}

/// Invariant of the search after `r` rounds: `dist` records, for each cell
/// reached within `r - 1` steps, the fewest steps that reach it.
spec fn dist_exact(
    board: Map<Position, FloorTile>,
    start: Position,
    dest: Position,
    dist: Map<Position, Option<usize>>,
    r: nat,
) -> bool {
    &&& forall|p: Position| #[trigger] dist.contains_key(p) <==> board.contains_key(p)
    &&& forall|p: Position|
        #[trigger] dist.contains_key(p) && dist[p] is Some ==> {
            let e = dist[p]->Some_0 as nat;
            &&& e < r
            &&& reach(board, start, dest, e, p)
            &&& e > 0 ==> !reach(board, start, dest, (e - 1) as nat, p)
        }
    &&& forall|p: Position|
        #[trigger] dist.contains_key(p) && dist[p] is None ==> !reach(
            board,
            start,
            dest,
            (r - 1) as nat,
            p,
        )
}

/// During a round, a cell counts as settled before the round exactly when it
/// is reached within `r - 1` steps.
proof fn lemma_settled_iff(
    board: Map<Position, FloorTile>,
    start: Position,
    dest: Position,
    before: Map<Position, Option<usize>>,
    now: Map<Position, Option<usize>>,
    r: usize,
    q: Position,
)
    requires
        r >= 1,
        dist_exact(board, start, dest, before, r as nat),
        forall|p: Position| #[trigger] now.contains_key(p) <==> board.contains_key(p),
        forall|p: Position| #[trigger]
            now.contains_key(p) ==> now[p] == before[p] || (before[p] is None && (now[p] == Some(r)
                || now[p] is None)),
    ensures
        (now.contains_key(q) && now[q] is Some && now[q]->Some_0 < r) <==> reach(
            board,
            start,
            dest,
            (r - 1) as nat,
            q,
        ),
{
    let m = (r - 1) as nat;
    if reach(board, start, dest, m, q) {
        lemma_reach_on_board(board, start, dest, m, q);
        assert(now.contains_key(q));
        assert(before.contains_key(q));
    }
    if now.contains_key(q) && now[q] is Some && now[q]->Some_0 < r {
        assert(before.contains_key(q));
        assert(before[q] == now[q]);
        let e2 = before[q]->Some_0 as nat;
        lemma_reach_mono(board, start, dest, e2, m, q);
    }
}

/// Whether `q` lies on the board and was set in an earlier round.
fn settled_before(dist: &Grid<Option<usize>>, q: Position, r: usize) -> (b: bool)
    requires
        dist.wf(),
    ensures
        b == (dist@.contains_key(q) && dist@[q] is Some && dist@[q]->Some_0 < r),
{
    match dist.get(q) {
        Some(Some(e)) => *e < r,
        _ => false,
    }
}

/// Whether `q` lies on the board with a recorded distance of exactly `e`.
fn settled_at(dist: &Grid<Option<usize>>, q: Position, e: usize) -> (b: bool)
    requires
        dist.wf(),
    ensures
        b == (dist@.contains_key(q) && dist@[q] == Some(e)),
{
    match dist.get(q) {
        Some(Some(d)) => *d == e,
        _ => false,
    }
}

/// Breadth-first search over the board's Path tiles from `from_pos` to
/// `enemy_location` (the two ends may lie on any tile). On success the route
/// holds every cell from start to destination, both included, no route is
/// shorter, and among the shortest it is `shortest_route`: traced back from
/// the destination, each step goes to the first of the south, east, north
/// and west neighbours that lies one step nearer the start.
pub fn compute_path_to_enemy(
    from_pos: Position,
    floor_tiles: &Grid<FloorTile>,
    enemy_location: Position,
) -> (r: Result<VecDeque<Position>, PathError>)
    requires
        floor_tiles.wf(),
    ensures
        match r {
            Ok(route) => {
                &&& route@ == shortest_route(floor_tiles@, from_pos, enemy_location)
                &&& is_route(floor_tiles@, from_pos, enemy_location, route@)
                &&& forall|other: Seq<Position>|
                    is_route(floor_tiles@, from_pos, enemy_location, other) ==> route@.len()
                        <= other.len()
            },
            Err(_) => forall|other: Seq<Position>|
                !is_route(floor_tiles@, from_pos, enemy_location, other),
        },
{
    let ghost board = floor_tiles@;
    let ghost start = from_pos;
    let ghost dest = enemy_location;
    let w = floor_tiles.width();
    let h = floor_tiles.height();
    proof {
        floor_tiles.lemma_dom();
        floor_tiles.lemma_dims();
    }
    if !floor_tiles.contains(from_pos) || !floor_tiles.contains(enemy_location) {
        proof {
            assert forall|other: Seq<Position>| !is_route(board, start, dest, other) by {
                if is_route(board, start, dest, other) {
                    lemma_route_reaches(board, start, dest, other, other.len() - 1, w as int, h as int);
                    lemma_reach_on_board(board, start, dest, (other.len() - 1) as nat, dest);
                }
            }
        }
        return Err(PathError::NoPath);
    }
    let mut dist: Grid<Option<usize>> = Grid::filled(w, h, None);
    proof {
        assert(!is_set()(dist@[from_pos]));
        assert(is_set()(Some(0usize)));
    }
    dist.set(from_pos, Some(0));
    proof {
        dist.lemma_count_bound(is_set());
    }
    let mut r: usize = 1;
    assert(dist_exact(board, start, dest, dist@, 1)) by {
        assert(reach(board, start, dest, 0, start));
    }
    let mut arrived = settled_before(&dist, enemy_location, r);
    while !arrived
        invariant
            arrived == (dist@.contains_key(dest) && dist@[dest] is Some && dist@[dest]->Some_0 < r),
            w * h <= usize::MAX,
            floor_tiles.wf(),
            board == floor_tiles@,
            dest == enemy_location,
            start == from_pos,
            dist.wf(),
            w == floor_tiles.spec_width(),
            h == floor_tiles.spec_height(),
            w <= i32::MAX,
            h <= i32::MAX,
            dist.spec_width() == w,
            dist.spec_height() == h,
            forall|p: Position| #[trigger] board.contains_key(p) <==> in_rect(w as int, h as int, p),
            board.contains_key(start),
            board.contains_key(dest),
            1 <= r,
            r <= dist.count(is_set()),
            dist.count(is_set()) <= w * h,
            dist_exact(board, start, dest, dist@, r as nat),
        decreases w * h - dist.count(is_set()),
    {
        let ghost before = dist@;
        let ghost count_before = dist.count(is_set());
        proof {
            assert(dist@.contains_key(dest));
            assert(!(dist@.contains_key(dest) && dist@[dest] is Some && dist@[dest]->Some_0 < r));
            assert(before[dest] is None);
        }
        let mut changed = false;
        let mut y: usize = 0;
        while y < h
            invariant
                floor_tiles.wf(),
                board == floor_tiles@,
                dest == enemy_location,
                start == from_pos,
                dist.wf(),
                w == floor_tiles.spec_width(),
                h == floor_tiles.spec_height(),
                w <= i32::MAX,
                h <= i32::MAX,
                dist.spec_width() == w,
                dist.spec_height() == h,
                forall|p: Position| #[trigger] board.contains_key(p) <==> in_rect(w as int, h as int, p),
                1 <= r,
                r <= dist.count(is_set()),
                dist_exact(board, start, dest, before, r as nat),
                y <= h,
                forall|p: Position| #[trigger] dist@.contains_key(p) <==> board.contains_key(p),
                forall|p: Position| #[trigger]
                    dist@.contains_key(p) ==> dist@[p] == if p.y < y {
                        if before[p] is Some {
                            before[p]
                        } else if reach(board, start, dest, r as nat, p) {
                            Some(r)
                        } else {
                            None
                        }
                    } else {
                        before[p]
                    },
                dist.count(is_set()) >= count_before,
                changed ==> dist.count(is_set()) > count_before,
                !changed ==> forall|p: Position| #[trigger] dist@.contains_key(p) ==> dist@[p] == before[p],
                before.contains_key(dest) && before[dest] is None,
            decreases h - y,
        {
            let mut x: usize = 0;
            while x < w
                invariant
                    floor_tiles.wf(),
                    board == floor_tiles@,
                    dest == enemy_location,
                    start == from_pos,
                    dist.wf(),
                    w == floor_tiles.spec_width(),
                    h == floor_tiles.spec_height(),
                    w <= i32::MAX,
                    h <= i32::MAX,
                    dist.spec_width() == w,
                    dist.spec_height() == h,
                    forall|p: Position| #[trigger] board.contains_key(p) <==> in_rect(w as int, h as int, p),
                    1 <= r,
                    r <= dist.count(is_set()),
                    dist_exact(board, start, dest, before, r as nat),
                    y < h,
                    x <= w,
                    forall|p: Position| #[trigger] dist@.contains_key(p) <==> board.contains_key(p),
                    forall|p: Position| #[trigger]
                        dist@.contains_key(p) ==> dist@[p] == if p.y < y || (p.y == y && p.x < x) {
                            if before[p] is Some {
                                before[p]
                            } else if reach(board, start, dest, r as nat, p) {
                                Some(r)
                            } else {
                                None
                            }
                        } else {
                            before[p]
                        },
                    dist.count(is_set()) >= count_before,
                changed ==> dist.count(is_set()) > count_before,
                    !changed ==> forall|p: Position| #[trigger] dist@.contains_key(p) ==> dist@[p] == before[p],
                    before.contains_key(dest) && before[dest] is None,
                decreases w - x,
            {
                let p = Position { x: x as i32, y: y as i32 };
                let unset = match dist.get(p) {
                    Some(None) => true,
                    _ => false,
                };
                if unset {
                    let open = match floor_tiles.get(p) {
                        Some(t) => *t == FloorTile::Path || p == enemy_location,
                        None => false,
                    };
                    let s = Position { x: p.x, y: p.y + 1 };
                    let e = Position { x: p.x + 1, y: p.y };
                    let n = Position { x: p.x, y: p.y - 1 };
                    let wv = Position { x: p.x - 1, y: p.y };
                    let near = settled_before(&dist, s, r) || settled_before(&dist, e, r)
                        || settled_before(&dist, n, r) || settled_before(&dist, wv, r);
                    proof {
                        let m = (r - 1) as nat;
                        assert(s == south(p) && e == east(p) && n == north(p) && wv == west(p));
                        // a neighbour was settled before this round exactly when
                        // it is reached within r - 1 steps
                        lemma_settled_iff(board, start, dest, before, dist@, r, s);
                        lemma_settled_iff(board, start, dest, before, dist@, r, e);
                        lemma_settled_iff(board, start, dest, before, dist@, r, n);
                        lemma_settled_iff(board, start, dest, before, dist@, r, wv);
                        assert(before.contains_key(p));
                        assert(board.contains_key(p));
                        assert(open == walkable(board, dest, p));
                        assert(!reach(board, start, dest, m, p));
                        assert(reach(board, start, dest, r as nat, p) == (open && near));
                    }
                    if open && near {
                        let ghost prev = dist@;
                        dist.set(p, Some(r));
                        changed = true;
                        proof {
                            assert(is_set()(Some(r)));
                            assert(!is_set()(prev[p]));
                        }
                    }
                }
                x = x + 1;
            }
            y = y + 1;
        }
        proof {
            dist.lemma_count_bound(is_set());
            assert forall|p: Position| #[trigger] dist@.contains_key(p) implies dist@[p] == (if before[p] is Some {
                before[p]
            } else if reach(board, start, dest, r as nat, p) {
                Some(r)
            } else {
                None
            }) by {
                assert(board.contains_key(p));
                assert(p.y < y);
            }
            if changed {
                let r1 = (r + 1) as nat;
                assert forall|p: Position| #[trigger] dist@.contains_key(p) && dist@[p] is Some implies {
                    let e = dist@[p]->Some_0 as nat;
                    &&& e < r1
                    &&& reach(board, start, dest, e, p)
                    &&& e > 0 ==> !reach(board, start, dest, (e - 1) as nat, p)
                } by {
                    assert(before.contains_key(p));
                }
                assert forall|p: Position| #[trigger] dist@.contains_key(p) && dist@[p] is None implies !reach(board, start, dest, (r1 - 1) as nat, p) by {
                    assert(before.contains_key(p));
                }
                assert(dist_exact(board, start, dest, dist@, r1));
            }
        }
        if !changed {
            // nothing was added: the reachable cells are all known, and the
            // destination is not among them
            proof {
                let rr = (r - 1) as nat;
                assert forall|q: Position| #[trigger] reach(board, start, dest, rr + 1, q) implies reach(
                    board,
                    start,
                    dest,
                    rr,
                    q,
                ) by {
                    lemma_reach_on_board(board, start, dest, rr + 1, q);
                    assert(dist@.contains_key(q));
                    assert(before.contains_key(q));
                    assert(dist@[q] == before[q]);
                    let e2 = before[q]->Some_0 as nat;
                    assert(reach(board, start, dest, e2, q));
                    lemma_reach_mono(board, start, dest, e2, rr, q);
                }
                assert forall|other: Seq<Position>| !is_route(board, start, dest, other) by {
                    if is_route(board, start, dest, other) {
                        let k = (other.len() - 1) as nat;
                        lemma_route_reaches(board, start, dest, other, k as int, w as int, h as int);
                        lemma_reach_fixpoint(board, start, dest, rr, k, dest);
                        assert(before.contains_key(dest));
                    }
                }
            }
            return Err(PathError::NoPath);
        }
        r = r + 1;
        arrived = settled_before(&dist, enemy_location, r);
    }
    proof {
        assert(dist@.contains_key(dest));
    }
    // walk back from the destination along cells whose distance falls by one
    let mut route: VecDeque<Position> = VecDeque::new();
    route.push_back(enemy_location);
    let mut cur = enemy_location;
    let mut d: usize = match dist.get(enemy_location) {
        Some(Some(e)) => *e,
        _ => 0,
    };
    let ghost total = d;
    proof {
        assert(walk_back(board, start, dest, dest, total as nat) =~= walk_back(board, start, dest, cur, d as nat) + route@.drop_first());
    }
    while d > 0
        invariant
            walk_back(board, start, dest, dest, total as nat) == walk_back(board, start, dest, cur, d as nat) + route@.drop_first(),
            floor_tiles.wf(),
            board == floor_tiles@,
            dest == enemy_location,
            start == from_pos,
            dist.wf(),
            w <= i32::MAX,
            h <= i32::MAX,
            forall|p: Position| #[trigger] board.contains_key(p) <==> in_rect(w as int, h as int, p),
            dist_exact(board, start, dest, dist@, r as nat),
            dist@.contains_key(cur),
            dist@[cur] == Some(d),
            dist@[dest] == Some(total),
            d <= total,
            route@.len() == total - d + 1,
            route@[0] == cur,
            route@.last() == dest,
            forall|i: int| 0 < i < route@.len() ==> walkable(board, dest, #[trigger] route@[i]),
            forall|i: int| 0 <= i < route@.len() - 1 ==> adjacent(#[trigger] route@[i], route@[i + 1]),
        decreases d,
    {
        let s = Position { x: cur.x, y: cur.y + 1 };
        let e = Position { x: cur.x + 1, y: cur.y };
        let n = Position { x: cur.x, y: cur.y - 1 };
        let wv = Position { x: cur.x - 1, y: cur.y };
        proof {
            let dd = d as nat;
            let m = (dd - 1) as nat;
            assert(s == south(cur) && e == east(cur) && n == north(cur) && wv == west(cur));
            assert(reach(board, start, dest, dd, cur));
            assert(!reach(board, start, dest, m, cur));
            assert(walkable(board, dest, cur));
            assert(reach(board, start, dest, m, s) || reach(board, start, dest, m, e) || reach(board, start, dest, m, n) || reach(board, start, dest, m, wv));
            assert forall|q: Position|
                (q == s || q == e || q == n || q == wv) && reach(board, start, dest, m, q) implies (
                dist@.contains_key(q) && dist@[q] == Some((d - 1) as usize)) by {
                lemma_reach_on_board(board, start, dest, m, q);
                assert(dist@.contains_key(q));
                if dist@[q] is None {
                    lemma_reach_mono(board, start, dest, m, (r - 1) as nat, q);
                } else {
                    let e2 = dist@[q]->Some_0 as nat;
                    assert(reach(board, start, dest, e2, q));
                    if e2 > m {
                        lemma_reach_mono(board, start, dest, m, (e2 - 1) as nat, q);
                    } else if e2 < m {
                        lemma_reach_mono(board, start, dest, e2, (m - 1) as nat, q);
                        assert(s == south(cur) && e == east(cur) && n == north(cur) && wv == west(cur));
                        assert(reach(board, start, dest, m, cur));
                    }
                }
            }
            assert(s == south(cur) && e == east(cur) && n == north(cur) && wv == west(cur));
        }
        let prev = if settled_at(&dist, s, d - 1) {
            s
        } else if settled_at(&dist, e, d - 1) {
            e
        } else if settled_at(&dist, n, d - 1) {
            n
        } else {
            wv
        };
        proof {
            assert(walkable(board, dest, cur));
            assert(dist@.contains_key(prev) && dist@[prev] == Some((d - 1) as usize));
            let m = (d - 1) as nat;
            // a neighbour holds distance d - 1 exactly when it is reached in d - 1 steps
            assert forall|q: Position| (q == s || q == e || q == n || q == wv) && dist@.contains_key(q)
                && dist@[q] == Some((d - 1) as usize) implies reach(board, start, dest, m, q) by {}
            assert(prev == back_step(board, start, dest, cur, d as nat));
        }
        let ghost old_route = route@;
        route.push_front(prev);
        proof {
            assert(route@ =~= seq![prev] + old_route);
            assert(old_route =~= seq![cur] + old_route.drop_first());
            assert(walk_back(board, start, dest, cur, d as nat) == walk_back(board, start, dest, prev, (d - 1) as nat).push(cur));
            assert(walk_back(board, start, dest, dest, total as nat) =~= walk_back(board, start, dest, prev, (d - 1) as nat) + route@.drop_first());
            assert forall|i: int| 0 < i < route@.len() implies walkable(board, dest, #[trigger] route@[i]) by {
                assert(route@[i] == old_route[i - 1]);
            }
            assert forall|i: int| 0 <= i < route@.len() - 1 implies adjacent(#[trigger] route@[i], route@[i + 1]) by {
                if i > 0 {
                    assert(route@[i] == old_route[i - 1]);
                }
            }
        }
        cur = prev;
        d = d - 1;
    }
    proof {
        assert(reach(board, start, dest, 0, cur));
        assert(is_route(board, start, dest, route@));
        let t = total as nat;
        assert(route@ =~= seq![cur] + route@.drop_first());
        assert(dist@.contains_key(dest));
        lemma_least_steps(board, start, dest, dest, t);
        assert(route@ == shortest_route(board, start, dest));
        assert forall|other: Seq<Position>| is_route(board, start, dest, other) implies route@.len()
            <= other.len() by {
            let k = (other.len() - 1) as nat;
            lemma_route_reaches(board, start, dest, other, k as int, w as int, h as int);
            if k < t {
                lemma_reach_mono(board, start, dest, k, (t - 1) as nat, dest);
            }
        }
    }
    Ok(route)
}

} // verus!
