//! The rules of a growth step, stated on the grid as a sequence of cells.
//!
//! A source cell pushes into the neighbour on each side that its permissions
//! name, unless the page ends there. A push into an unoccupied neighbour
//! proposes a new cell for it. Where several sources push into one neighbour,
//! the source with the largest index decides what is proposed.

use crate::cell::{Cell, CellType, Chromosome};
use crate::zorder::{column_of, interleave, lemma_decode_encode, lemma_encode_decode, row_of};
use vstd::prelude::*;

verus! {

/// Whether the page goes on in direction `d` from the cell at `(x, y)`.
pub open spec fn can_step(x: u32, y: u32, d: Chromosome) -> bool {
    &&& x < 64
    &&& y < 64
    &&& match d {
        Chromosome::North => y < 63,
        Chromosome::South => y > 0,
        Chromosome::East => x < 63,
        Chromosome::West => x > 0,
    }
}

/// The index of the cell next to `(x, y)` in direction `d`.
pub open spec fn neighbor(x: u32, y: u32, d: Chromosome) -> u32 {
    match d {
        Chromosome::North => interleave(x, (y + 1) as u32),
        Chromosome::South => interleave(x, (y - 1) as u32),
        Chromosome::East => interleave((x + 1) as u32, y),
        Chromosome::West => interleave((x - 1) as u32, y),
    }
}

/// Whether the page goes on in direction `d` from the cell with index `z`.
pub open spec fn can_leave(z: u32, d: Chromosome) -> bool {
    z < 4096 && can_step(column_of(z), row_of(z), d)
}

/// The index of the cell next to the cell with index `z` in direction `d`.
pub open spec fn neighbor_of(z: u32, d: Chromosome) -> u32 {
    neighbor(column_of(z), row_of(z), d)
}

/// Whether the source `s` pushes in direction `d`: the page goes on there and
/// the permissions of `s` name `d`.
pub open spec fn pushes(cells: Seq<Cell>, s: u32, d: Chromosome) -> bool {
    can_leave(s, d) && cells[s as int].permissions.permits(d)
}

/// Whether a push by the source `s` in direction `d` proposes a new cell: the
/// neighbour that it reaches is unoccupied.
pub open spec fn succeeds(cells: Seq<Cell>, s: u32, d: Chromosome) -> bool {
    pushes(cells, s, d) && cells[neighbor_of(s, d) as int].vacant()
}

/// Whether the cell `t` is pushed into from its side `e`, by one of the
/// pushes in `tried`. A push is a source with a direction.
pub open spec fn fed_from(
    cells: Seq<Cell>,
    tried: Set<(u32, Chromosome)>,
    t: u32,
    e: Chromosome,
) -> bool {
    &&& can_leave(t, e)
    &&& pushes(cells, neighbor_of(t, e), e.reverse())
    &&& tried.contains((neighbor_of(t, e), e.reverse()))
}

/// Of the sides `a` and `b` of the cell `t`, the one that decides: the one
/// that `t` is pushed into from, and where that holds of both, the side of
/// the source with the larger index.
pub open spec fn deciding_of(
    cells: Seq<Cell>,
    tried: Set<(u32, Chromosome)>,
    t: u32,
    a: Chromosome,
    b: Chromosome,
) -> Chromosome {
    if !fed_from(cells, tried, t, b) {
        a
    } else if !fed_from(cells, tried, t, a) {
        b
    } else if neighbor_of(t, a) > neighbor_of(t, b) {
        a
    } else {
        b
    }
}

/// The side of the cell `t` on which the source lies that decides what is
/// proposed for `t`.
pub open spec fn deciding_side(cells: Seq<Cell>, tried: Set<(u32, Chromosome)>, t: u32) -> Chromosome {
    deciding_of(
        cells,
        tried,
        t,
        deciding_of(cells, tried, t, Chromosome::North, Chromosome::South),
        deciding_of(cells, tried, t, Chromosome::East, Chromosome::West),
    )
}

/// Whether a new cell is proposed for `t`: it is unoccupied and pushed into
/// from some side.
pub open spec fn targeted(cells: Seq<Cell>, tried: Set<(u32, Chromosome)>, t: u32) -> bool {
    &&& t < 4096
    &&& cells[t as int].vacant()
    &&& exists|e: Chromosome| fed_from(cells, tried, t, e)
}

/// What the pushes in `tried` propose, by target index: a cell of type
/// `cell_type` grown in the direction of the deciding push.
pub open spec fn proposals_of(
    cells: Seq<Cell>,
    tried: Set<(u32, Chromosome)>,
    cell_type: CellType,
) -> Map<u32, Cell> {
    Map::new(
        |t: u32| targeted(cells, tried, t),
        |t: u32| Cell::grown(cell_type, deciding_side(cells, tried, t).reverse()),
    )
}

/// Every push of every source in `active`.
pub open spec fn all_pushes(active: Set<u32>) -> Set<(u32, Chromosome)> {
    Set::new(|p: (u32, Chromosome)| active.contains(p.0))
}

/// What a growth step from the frontier `active` proposes.
pub open spec fn proposals(cells: Seq<Cell>, active: Set<u32>, cell_type: CellType) -> Map<
    u32,
    Cell,
> {
    proposals_of(cells, all_pushes(active), cell_type)
}

/// The grid after the proposed values in `changes` are written into it: a
/// cell with a proposal takes its type and gate and keeps its permissions.
pub open spec fn committed(cells: Seq<Cell>, changes: Map<u32, Cell>) -> Seq<Cell> {
    Seq::new(
        cells.len(),
        |i: int|
            if changes.contains_key(i as u32) {
                cells[i].merged(changes[i as u32])
            } else {
                cells[i]
            },
    )
}

/// A growth step with its commit: the grid with the proposals written into
/// it, and the new frontier, which is the set of cells with a proposal.
pub open spec fn step(cells: Seq<Cell>, active: Set<u32>, cell_type: CellType) -> (Seq<Cell>, Set<u32>) {
    let changes = proposals(cells, active, cell_type);
    (committed(cells, changes), changes.dom())
}

/// The grid and the frontier after `n` growth steps, each committed.
pub open spec fn steps(cells: Seq<Cell>, active: Set<u32>, cell_type: CellType, n: nat) -> (
    Seq<Cell>,
    Set<u32>,
)
    decreases n,
{
    if n == 0 {
        (cells, active)
    } else {
        let next = step(cells, active, cell_type);
        steps(next.0, next.1, cell_type, (n - 1) as nat)
    }
}

/// The indices of the unoccupied cells.
pub open spec fn vacancies(cells: Seq<Cell>) -> Set<u32> {
    Set::new(|i: u32| i < cells.len() && cells[i as int].vacant())
}

/// The page does not wrap around. From a cell of the top row no step leads
/// north and from one of the rightmost column none leads east, nor south from
/// the bottom row or west from the leftmost column: growth there has no
/// neighbour to reach, and single-direction growth does not take such a cell
/// with such a direction.
pub proof fn lemma_edge_refused(x: u32, y: u32, d: Chromosome)
    requires
        (y >= 63 && d == Chromosome::North) || (x >= 63 && d == Chromosome::East) || (y == 0 && d
            == Chromosome::South) || (x == 0 && d == Chromosome::West),
    ensures
        !can_step(x, y, d),
        forall|cells: Seq<Cell>| x < 64 && y < 64 ==> !#[trigger] pushes(cells, interleave(x, y), d),
{
    if x < 64 && y < 64 {
        lemma_decode_encode(x, y);
    }
}

/// A step that the page allows stays inside it and moves by one cell along
/// one axis: nothing is reached across an edge.
pub proof fn lemma_step_stays_inside(x: u32, y: u32, d: Chromosome)
    requires
        can_step(x, y, d),
    ensures
        neighbor(x, y, d) < 4096,
        column_of(neighbor(x, y, d)) == match d {
            Chromosome::East => x + 1,
            Chromosome::West => x - 1,
            _ => x as int,
        },
        row_of(neighbor(x, y, d)) == match d {
            Chromosome::North => y + 1,
            Chromosome::South => y - 1,
            _ => y as int,
        },
        column_of(neighbor(x, y, d)) < 64,
        row_of(neighbor(x, y, d)) < 64,
{
    match d {
        Chromosome::North => lemma_decode_encode(x, (y + 1) as u32),
        Chromosome::South => lemma_decode_encode(x, (y - 1) as u32),
        Chromosome::East => lemma_decode_encode((x + 1) as u32, y),
        Chromosome::West => lemma_decode_encode((x - 1) as u32, y),
    }
}

/// The neighbour in direction `d` lies inside the page, one step away, and
/// the step back from it leads to the cell left.
pub proof fn lemma_neighbor(z: u32, d: Chromosome)
    requires
        can_leave(z, d),
    ensures
        neighbor_of(z, d) < 4096,
        neighbor_of(z, d) != z,
        can_leave(neighbor_of(z, d), d.reverse()),
        neighbor_of(neighbor_of(z, d), d.reverse()) == z,
        column_of(neighbor_of(z, d)) == match d {
            Chromosome::East => column_of(z) + 1,
            Chromosome::West => column_of(z) - 1,
            _ => column_of(z) as int,
        },
        row_of(neighbor_of(z, d)) == match d {
            Chromosome::North => row_of(z) + 1,
            Chromosome::South => row_of(z) - 1,
            _ => row_of(z) as int,
        },
{
    let x = column_of(z);
    let y = row_of(z);
    lemma_encode_decode(z);
    match d {
        Chromosome::North => lemma_decode_encode(x, (y + 1) as u32),
        Chromosome::South => lemma_decode_encode(x, (y - 1) as u32),
        Chromosome::East => lemma_decode_encode((x + 1) as u32, y),
        Chromosome::West => lemma_decode_encode((x - 1) as u32, y),
    }
}

/// The neighbours of a cell on two different sides are different cells.
pub proof fn lemma_sides_differ(t: u32, a: Chromosome, b: Chromosome)
    requires
        can_leave(t, a),
        can_leave(t, b),
        a != b,
    ensures
        neighbor_of(t, a) != neighbor_of(t, b),
{
    lemma_neighbor(t, a);
    lemma_neighbor(t, b);
}

/// What one more push adds to the proposals. The push is that of a source
/// whose index is at least that of every source that has pushed so far. Where
/// it succeeds, its proposal replaces what was proposed for the neighbour;
/// where it does not, the proposals stay as they were.
pub proof fn lemma_one_more_push(
    cells: Seq<Cell>,
    tried: Set<(u32, Chromosome)>,
    cell_type: CellType,
    s: u32,
    d: Chromosome,
)
    requires
        cells.len() == 4096,
        s < 4096,
        forall|p: (u32, Chromosome)| tried.contains(p) ==> p.0 <= s,
    ensures
        proposals_of(cells, tried.insert((s, d)), cell_type) == if succeeds(cells, s, d) {
            proposals_of(cells, tried, cell_type).insert(
                neighbor_of(s, d),
                Cell::grown(cell_type, d),
            )
        } else {
            proposals_of(cells, tried, cell_type)
        },
{
    let before = proposals_of(cells, tried, cell_type);
    let after = proposals_of(cells, tried.insert((s, d)), cell_type);
    let expected = if succeeds(cells, s, d) {
        before.insert(neighbor_of(s, d), Cell::grown(cell_type, d))
    } else {
        before
    };
    assert forall|t: u32| #[trigger] after.dom().contains(t) == expected.dom().contains(t) by {
        lemma_one_more_push_at(cells, tried, cell_type, s, d, t);
    }
    assert forall|t: u32| after.dom().contains(t) implies #[trigger] after[t] == expected[t] by {
        lemma_one_more_push_at(cells, tried, cell_type, s, d, t);
    }
    assert(after =~= expected);
}

/// What one more push changes for the cell `t`.
proof fn lemma_one_more_push_at(
    cells: Seq<Cell>,
    tried: Set<(u32, Chromosome)>,
    cell_type: CellType,
    s: u32,
    d: Chromosome,
    t: u32,
)
    requires
        cells.len() == 4096,
        s < 4096,
        forall|p: (u32, Chromosome)| tried.contains(p) ==> p.0 <= s,
    ensures
        targeted(cells, tried.insert((s, d)), t) == (targeted(cells, tried, t) || (succeeds(
            cells,
            s,
            d,
        ) && t == neighbor_of(s, d))),
        targeted(cells, tried.insert((s, d)), t) ==> deciding_side(cells, tried.insert((s, d)), t)
            == if succeeds(cells, s, d) && t == neighbor_of(s, d) {
            d.reverse()
        } else {
            deciding_side(cells, tried, t)
        },
{
    let more = tried.insert((s, d));
    if can_leave(s, d) {
        lemma_neighbor(s, d);
    }
    if t < 4096 {
        lemma_push_reaches(cells, tried, s, d, t, Chromosome::North);
        lemma_push_reaches(cells, tried, s, d, t, Chromosome::South);
        lemma_push_reaches(cells, tried, s, d, t, Chromosome::East);
        lemma_push_reaches(cells, tried, s, d, t, Chromosome::West);
        if pushes(cells, s, d) && t == neighbor_of(s, d) {
            assert(fed_from(cells, more, t, d.reverse()));
        } else {
            assert forall|e: Chromosome|
                fed_from(cells, more, t, e) == fed_from(cells, tried, t, e) by {
                lemma_push_reaches(cells, tried, s, d, t, e);
            }
        }
    }
}

/// How one more push changes whether the cell `t` is pushed into from its
/// side `e`: it is from then on if the push is the one that reaches `t` from
/// that side, and otherwise nothing changes. Any other source that pushes
/// into the cell reached has a smaller index than `s`.
proof fn lemma_push_reaches(
    cells: Seq<Cell>,
    tried: Set<(u32, Chromosome)>,
    s: u32,
    d: Chromosome,
    t: u32,
    e: Chromosome,
)
    requires
        s < 4096,
        t < 4096,
        forall|p: (u32, Chromosome)| tried.contains(p) ==> p.0 <= s,
    ensures
        fed_from(cells, tried.insert((s, d)), t, e) == (fed_from(cells, tried, t, e) || (pushes(
            cells,
            s,
            d,
        ) && t == neighbor_of(s, d) && e == d.reverse())),
        fed_from(cells, tried, t, e) ==> neighbor_of(t, e) <= s,
        can_leave(s, d) && t == neighbor_of(s, d) && e != d.reverse() && fed_from(
            cells,
            tried,
            t,
            e,
        ) ==> neighbor_of(t, e) < s,
{
    if can_leave(t, e) {
        lemma_neighbor(t, e);
    }
    if can_leave(s, d) {
        lemma_neighbor(s, d);
        if t == neighbor_of(s, d) && e != d.reverse() && can_leave(t, e) {
            lemma_sides_differ(t, e, d.reverse());
        }
    }
}

/// A proposal comes from a push. For every cell `t` with a proposal there is
/// a source in the frontier whose permissions name a direction `d` that
/// leads to `t`; `t` is unoccupied; the proposed cell has the type asked for
/// and its gate is the opposite of `d`; and no source with a larger index
/// pushes into `t`.
pub proof fn lemma_proposal_origin(
    cells: Seq<Cell>,
    active: Set<u32>,
    cell_type: CellType,
    t: u32,
) -> (push: (u32, Chromosome))
    requires
        cells.len() == 4096,
        proposals(cells, active, cell_type).contains_key(t),
    ensures
        active.contains(push.0),
        succeeds(cells, push.0, push.1),
        neighbor_of(push.0, push.1) == t,
        t < 4096,
        cells[t as int].vacant(),
        proposals(cells, active, cell_type)[t] == Cell::grown(cell_type, push.1),
        proposals(cells, active, cell_type)[t].gate == push.1.opposite_gate(),
        proposals(cells, active, cell_type)[t].cell_type == cell_type,
        forall|s: u32, d: Chromosome|
            active.contains(s) && pushes(cells, s, d) && neighbor_of(s, d) == t ==> s <= push.0,
{
    let tried = all_pushes(active);
    let e = deciding_side(cells, tried, t);
    assert(fed_from(cells, tried, t, e));
    lemma_neighbor(t, e);
    assert(e.reverse().reverse() == e);
    assert forall|s: u32, d: Chromosome|
        active.contains(s) && pushes(cells, s, d) && neighbor_of(s, d) == t implies s
        <= neighbor_of(t, e) by {
        lemma_neighbor(s, d);
        assert(d.reverse().reverse() == d);
        assert(tried.contains((s, d)));
        assert(fed_from(cells, tried, t, d.reverse()));
    }
    (neighbor_of(t, e), e.reverse())
}

/// A push that succeeds leaves a proposal: where a source of the frontier
/// pushes into an unoccupied cell, a change is proposed for that cell.
pub proof fn lemma_push_proposes(
    cells: Seq<Cell>,
    active: Set<u32>,
    cell_type: CellType,
    s: u32,
    d: Chromosome,
)
    requires
        cells.len() == 4096,
        active.contains(s),
        succeeds(cells, s, d),
    ensures
        proposals(cells, active, cell_type).contains_key(neighbor_of(s, d)),
{
    lemma_neighbor(s, d);
    assert(d.reverse().reverse() == d);
    assert(all_pushes(active).contains((s, d)));
    assert(fed_from(cells, all_pushes(active), neighbor_of(s, d), d.reverse()));
}

/// Nothing is proposed for an occupied cell, whatever pushes into it.
pub proof fn lemma_occupied_never_targeted(
    cells: Seq<Cell>,
    active: Set<u32>,
    cell_type: CellType,
    t: u32,
)
    requires
        t < cells.len(),
        !cells[t as int].vacant(),
    ensures
        !proposals(cells, active, cell_type).contains_key(t),
{
}

/// An empty frontier proposes nothing, so a step from it changes nothing.
pub proof fn lemma_step_exhausted(cells: Seq<Cell>, cell_type: CellType)
    ensures
        proposals(cells, Set::<u32>::empty(), cell_type) == Map::<u32, Cell>::empty(),
        step(cells, Set::<u32>::empty(), cell_type) == (cells, Set::<u32>::empty()),
{
    let changes = proposals(cells, Set::<u32>::empty(), cell_type);
    assert(changes =~= Map::<u32, Cell>::empty());
    assert(committed(cells, changes) =~= cells);
    assert(changes.dom() =~= Set::<u32>::empty());
}

/// What a committed step keeps. The grid keeps its length, every cell keeps
/// its permissions, and an occupied cell stays exactly as it was: occupancy
/// only ever grows. The cells that become occupied are those of the new
/// frontier, so the number of unoccupied cells falls by the size of the new
/// frontier.
pub proof fn lemma_step_occupies(cells: Seq<Cell>, active: Set<u32>, cell_type: CellType)
    requires
        cells.len() == 4096,
        cell_type != CellType::Empty,
    ensures
        step(cells, active, cell_type).0.len() == 4096,
        forall|i: int|
            0 <= i < 4096 ==> (#[trigger] step(cells, active, cell_type).0[i]).permissions
                == cells[i].permissions,
        forall|i: int|
            0 <= i < 4096 && !cells[i].vacant() ==> #[trigger] step(cells, active, cell_type).0[i]
                == cells[i],
        forall|i: u32|
            step(cells, active, cell_type).1.contains(i) ==> i < 4096 && cells[i as int].vacant()
                && !step(cells, active, cell_type).0[i as int].vacant(),
        vacancies(cells).finite(),
        step(cells, active, cell_type).1.finite(),
        vacancies(step(cells, active, cell_type).0) == vacancies(cells).difference(
            step(cells, active, cell_type).1,
        ),
        vacancies(step(cells, active, cell_type).0).len() == vacancies(cells).len() - step(
            cells,
            active,
            cell_type,
        ).1.len(),
{
    let changes = proposals(cells, active, cell_type);
    let after = committed(cells, changes);
    let frontier = changes.dom();
    crate::active::lemma_below_len(vacancies(cells), 4096);
    crate::active::lemma_below_len(frontier, 4096);
    assert(vacancies(after) =~= vacancies(cells).difference(frontier));
    assert(vacancies(cells).intersect(frontier) =~= frontier);
    vstd::set_lib::lemma_set_difference_len(vacancies(cells), frontier);
}

/// Once the frontier is empty it stays empty, and the grid stays as it is.
pub proof fn lemma_exhausted_stays(cells: Seq<Cell>, cell_type: CellType, n: nat)
    ensures
        steps(cells, Set::<u32>::empty(), cell_type, n) == (cells, Set::<u32>::empty()),
    decreases n,
{
    if n > 0 {
        lemma_step_exhausted(cells, cell_type);
        lemma_exhausted_stays(cells, cell_type, (n - 1) as nat);
    }
}

/// `n + 1` steps are `n` steps and one more.
pub proof fn lemma_steps_then_step(
    cells: Seq<Cell>,
    active: Set<u32>,
    cell_type: CellType,
    n: nat,
)
    ensures
        steps(cells, active, cell_type, n + 1) == step(
            steps(cells, active, cell_type, n).0,
            steps(cells, active, cell_type, n).1,
            cell_type,
        ),
    decreases n,
{
    reveal_with_fuel(steps, 2);
    if n > 0 {
        let next = step(cells, active, cell_type);
        lemma_steps_then_step(next.0, next.1, cell_type, (n - 1) as nat);
        assert(steps(cells, active, cell_type, n + 1) == steps(next.0, next.1, cell_type, n));
    }
}

/// Growth ends. Every step with a frontier that is not empty afterwards
/// occupies at least one cell, so after one step more than there are
/// unoccupied cells the frontier is empty, and it is empty after any larger
/// number of steps.
pub proof fn lemma_growth_ends(cells: Seq<Cell>, active: Set<u32>, cell_type: CellType, n: nat)
    requires
        cells.len() == 4096,
        cell_type != CellType::Empty,
        n > vacancies(cells).len(),
    ensures
        steps(cells, active, cell_type, n).1 == Set::<u32>::empty(),
    decreases n,
{
    let next = step(cells, active, cell_type);
    lemma_step_occupies(cells, active, cell_type);
    if next.1 =~= Set::<u32>::empty() {
        lemma_exhausted_stays(next.0, cell_type, (n - 1) as nat);
    } else {
        assert(next.1.len() > 0) by {
            if next.1.len() == 0 {
                assert(next.1 =~= Set::<u32>::empty());
            }
        }
        lemma_growth_ends(next.0, next.1, cell_type, (n - 1) as nat);
    }
}

} // verus!
