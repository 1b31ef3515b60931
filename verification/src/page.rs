//! One page of the grid: 4096 cells, the frontier of cells that grow next,
//! and the changes that the last growth step proposed.

use crate::active::{ascending, lemma_below_len, ActiveSet};
use crate::cell::{Cell, CellType, Chromosome, Gate, Permissions};
use crate::changes::ChangeBuffer;
use crate::growth::{
    all_pushes, can_step, committed, lemma_one_more_push, neighbor, proposals, proposals_of,
};
use crate::zorder::{
    column_of, interleave, lemma_encode_decode, row_of, xy_to_z, z_to_xy, PAGE_CELLS,
};
use rand::Rng;
use vstd::prelude::*;

verus! {

/// Which kind of cell a growth step produces.
#[derive(Clone, Copy, PartialEq, Eq, Structural, Debug)]
pub enum GrowthPhase {
    Axon,
    Dendrite,
}

impl GrowthPhase {
    /// The type of the cells that growth in this phase produces.
    pub open spec fn produces(self) -> CellType {
        match self {
            GrowthPhase::Axon => CellType::Axon,
            GrowthPhase::Dendrite => CellType::Dendrite,
        }
    }

    /// Computes [`GrowthPhase::produces`].
    pub fn cell_type(self) -> (t: CellType)
        ensures
            t == self.produces(),
    {
        match self {
            GrowthPhase::Axon => CellType::Axon,
            GrowthPhase::Dendrite => CellType::Dendrite,
        }
    }
}

/// Why a page could not be made.
#[derive(Clone, Copy, PartialEq, Eq, Structural, Debug)]
pub enum PageError {
    /// More seeds were asked for than the page has cells.
    TooManySeeds,
    /// The permissions handed in are not one set for each of the 4096 cells.
    WrongCellCount,
    /// A seed lies outside the page.
    SeedOutOfRange,
}

/// `Rng::gen_range` on the generator that `rand::thread_rng` hands out
/// returns a number of the half-open range from its first argument to its
/// second, and panics where that range is empty. Here the range starts at 0.
/// Which number comes is left open. `thread_rng` panics if the system gives it
/// no entropy for its first seed.
#[verifier::external_body]
fn random_below(bound: u32) -> (r: u32)
    requires
        bound > 0,
    ensures
        r < bound,
{
    rand::thread_rng().gen_range(0u32, bound)
}

/// The indices of the seeds in `samples`, in the order drawn.
pub open spec fn sample_indices(samples: Seq<(u32, Gate)>) -> Seq<u32> {
    Seq::new(samples.len(), |j: int| samples[j].0)
}

/// The grid that seeding makes. Cell `i` has the permissions `genes[i]`. A
/// cell that was drawn as a seed is a body whose gate is that of the last sample
/// that drew it; every other cell is empty with its gate north.
pub open spec fn seeded(genes: Seq<Permissions>, samples: Seq<(u32, Gate)>) -> Seq<Cell>
    decreases samples.len(),
{
    if samples.len() == 0 {
        Seq::new(
            genes.len(),
            |i: int| Cell { cell_type: CellType::Empty, gate: Gate::North, permissions: genes[i] },
        )
    } else {
        let last = samples.last();
        seeded(genes, samples.drop_last()).update(
            last.0 as int,
            Cell { cell_type: CellType::Body, gate: last.1, permissions: genes[last.0 as int] },
        )
    }
}

/// A 64 by 64 grid of cells with its growth frontier.
pub struct Page {
    cells: Vec<Cell>,
    active: ActiveSet,
    changes: ChangeBuffer,
}

/// The elements of a sequence with one more at its end are those of the
/// sequence and the one added.
proof fn lemma_push_to_set(s: Seq<u32>, v: u32)
    ensures
        s.push(v).to_set() == s.to_set().insert(v),
{
    assert forall|x: u32| s.push(v).to_set().contains(x) == s.to_set().insert(v).contains(x) by {
        if s.contains(x) {
            let j = choose|j: int| 0 <= j < s.len() && s[j] == x;
            assert(s.push(v)[j] == x);
            assert(s.push(v).contains(x));
        }
        if x == v {
            assert(s.push(v)[s.len() as int] == v);
            assert(s.push(v).contains(x));
        }
        if s.push(v).contains(x) {
            let j = choose|j: int| 0 <= j < s.push(v).len() && s.push(v)[j] == x;
            if j < s.len() {
                assert(s[j] == x);
                assert(s.contains(x));
            }
        }
    }
    assert(s.push(v).to_set() =~= s.to_set().insert(v));
}

/// Sampling with replacement: the distinct indices drawn are at most as many
/// as the samples, and exactly as many if and only if no index was drawn
/// twice.
pub proof fn lemma_sampled_count(indices: Seq<u32>)
    ensures
        indices.to_set().finite(),
        indices.to_set().len() <= indices.len(),
        indices.to_set().len() == indices.len() <==> indices.no_duplicates(),
{
    vstd::seq_lib::seq_to_set_is_finite(indices);
    indices.lemma_cardinality_of_set();
    if indices.no_duplicates() {
        indices.unique_seq_to_set();
    }
    if indices.to_set().len() == indices.len() {
        indices.lemma_no_dup_set_cardinality();
    }
}

/// The pushes of the first `n + 1` sources of an ascending frontier are
/// those of the first `n` and the four pushes of the next source, whose index
/// is larger than that of every source before it.
proof fn lemma_next_source(frontier: Seq<u32>, n: int)
    requires
        ascending(frontier),
        0 <= n < frontier.len(),
    ensures
        forall|p: (u32, Chromosome)|
            all_pushes(frontier.take(n).to_set()).contains(p) ==> p.0 < frontier[n],
        all_pushes(frontier.take(n + 1).to_set()) == all_pushes(frontier.take(n).to_set()).insert(
            (frontier[n], Chromosome::North),
        ).insert((frontier[n], Chromosome::South)).insert((frontier[n], Chromosome::East)).insert(
            (frontier[n], Chromosome::West),
        ),
{
    let before = frontier.take(n);
    let next = frontier.take(n + 1);
    let source = frontier[n];
    let grown = all_pushes(before.to_set()).insert((source, Chromosome::North)).insert(
        (source, Chromosome::South),
    ).insert((source, Chromosome::East)).insert((source, Chromosome::West));
    assert forall|p: (u32, Chromosome)| all_pushes(before.to_set()).contains(p) implies p.0
        < source by {
        let j = choose|j: int| 0 <= j < n && before[j] == p.0;
        assert(frontier[j] < frontier[n]);
    }
    assert forall|p: (u32, Chromosome)| grown.contains(p) == all_pushes(next.to_set()).contains(
        p,
    ) by {
        assert(p == (p.0, p.1));
        if before.contains(p.0) {
            let j = choose|j: int| 0 <= j < n && before[j] == p.0;
            assert(next[j] == p.0);
            assert(next.contains(p.0));
        }
        if p.0 == source {
            assert(next[n] == source);
            assert(next.contains(p.0));
        }
        if next.contains(p.0) {
            let j = choose|j: int| 0 <= j < n + 1 && next[j] == p.0;
            if j < n {
                assert(before[j] == p.0);
                assert(before.contains(p.0));
            }
        }
    }
    assert(grown =~= all_pushes(next.to_set()));
}

/// Whether the page goes on in direction `d` from the cell at `(x, y)`.
pub fn within(x: u32, y: u32, d: Chromosome) -> (b: bool)
    ensures
        b == can_step(x, y, d),
{
    x < 64 && y < 64 && match d {
        Chromosome::North => y < 63,
        Chromosome::South => y > 0,
        Chromosome::East => x < 63,
        Chromosome::West => x > 0,
    }
}

/// The index of the cell next to `(x, y)` in direction `d`.
pub fn neighbor_index(x: u32, y: u32, d: Chromosome) -> (z: u32)
    requires
        can_step(x, y, d),
    ensures
        z == neighbor(x, y, d),
        z < 4096,
{
    match d {
        Chromosome::North => xy_to_z(x, y + 1),
        Chromosome::South => xy_to_z(x, y - 1),
        Chromosome::East => xy_to_z(x + 1, y),
        Chromosome::West => xy_to_z(x - 1, y),
    }
}

impl Page {
    /// The grid, by linear index.
    pub closed spec fn cells(&self) -> Seq<Cell> {
        self.cells@
    }

    /// The frontier: the indices of the cells that grow in the next step.
    pub closed spec fn active(&self) -> Set<u32> {
        self.active@
    }

    /// The proposed cell values that are not committed yet, by target index.
    pub closed spec fn pending(&self) -> Map<u32, Cell> {
        self.changes@
    }

    /// The invariant of a page. The grid has 4096 cells. The frontier is a
    /// finite set of indices of the grid. A pending change is meant for an
    /// unoccupied cell of the frontier and holds an occupied one. A cell of
    /// the frontier is occupied, or a change is pending for it.
    pub open spec fn wf(&self) -> bool {
        &&& self.cells().len() == 4096
        &&& self.active().finite()
        &&& forall|i: u32| self.active().contains(i) ==> i < 4096
        &&& forall|k: u32| #[trigger]
            self.pending().contains_key(k) ==> self.active().contains(k) && self.cells()[k as int].vacant()
                && !self.pending()[k].vacant()
        &&& forall|i: u32|
            self.active().contains(i) ==> !self.cells()[i as int].vacant()
                || self.pending().contains_key(i)
    }

    /// A page with the permissions `genes`, one set for each cell, seeded with
    /// a body at each index in `samples`, which is the new frontier. An index
    /// may be drawn more than once: the frontier then has fewer elements than
    /// there are samples.
    pub fn from_samples(genes: &Vec<Permissions>, samples: &Vec<(u32, Gate)>) -> (made: Result<
        Page,
        PageError,
    >)
        ensures
            genes@.len() != 4096 ==> made == Err::<Page, PageError>(PageError::WrongCellCount),
            genes@.len() == 4096 && (exists|j: int|
                0 <= j < samples@.len() && samples@[j].0 >= 4096) ==> made == Err::<
                Page,
                PageError,
            >(PageError::SeedOutOfRange),
            genes@.len() == 4096 && (forall|j: int|
                0 <= j < samples@.len() ==> samples@[j].0 < 4096) ==> made is Ok,
            made matches Ok(page) ==> {
                &&& page.wf()
                &&& page.cells() == seeded(genes@, samples@)
                &&& page.active() == sample_indices(samples@).to_set()
                &&& page.pending() == Map::<u32, Cell>::empty()
                &&& page.active().len() <= samples@.len()
                &&& page.active().len() == samples@.len() <==> sample_indices(
                    samples@,
                ).no_duplicates()
                &&& forall|i: int|
                    #![trigger page.cells()[i]]
                    0 <= i < 4096 ==> page.cells()[i].permissions == genes@[i]
                        && page.cells()[i].cell_type == if page.active().contains(i as u32) {
                        CellType::Body
                    } else {
                        CellType::Empty
                    }
            },
    {
        if genes.len() != 4096 {
            return Err(PageError::WrongCellCount);
        }
        let mut cells: Vec<Cell> = Vec::with_capacity(4096);
        let mut i: usize = 0;
        while i < 4096
            invariant
                i <= 4096,
                genes@.len() == 4096,
                cells@.len() == i,
                forall|j: int|
                    0 <= j < i ==> #[trigger] cells@[j] == (Cell {
                        cell_type: CellType::Empty,
                        gate: Gate::North,
                        permissions: genes@[j],
                    }),
            decreases 4096 - i,
        {
            let mut cell = Cell::new();
            cell.set_chromosome(genes[i]);
            cells.push(cell);
            i = i + 1;
        }
        assert(cells@ =~= seeded(genes@, samples@.take(0)));
        let mut active = ActiveSet::new();
        assert(active@ =~= sample_indices(samples@.take(0)).to_set());
        let mut n: usize = 0;
        while n < samples.len()
            invariant
                n <= samples.len(),
                genes@.len() == 4096,
                cells@.len() == 4096,
                cells@ == seeded(genes@, samples@.take(n as int)),
                active@ == sample_indices(samples@.take(n as int)).to_set(),
                forall|j: int| 0 <= j < n ==> samples@[j].0 < 4096,
                forall|i: int|
                    #![trigger cells@[i]]
                    0 <= i < 4096 ==> cells@[i].permissions == genes@[i] && cells@[i].cell_type
                        == if active@.contains(i as u32) {
                        CellType::Body
                    } else {
                        CellType::Empty
                    },
            decreases samples.len() - n,
        {
            let (index, gate) = samples[n];
            if index >= PAGE_CELLS {
                return Err(PageError::SeedOutOfRange);
            }
            let mut cell = cells[index as usize];
            cell.set_cell_type(CellType::Body);
            cell.set_gate(gate);
            cells.set(index as usize, cell);
            active.insert(index);
            proof {
                let before = samples@.take(n as int);
                let next = samples@.take(n + 1);
                assert(next.drop_last() =~= before);
                assert(next.last() == samples@[n as int]);
                assert(sample_indices(next) =~= sample_indices(before).push(index));
                assert(sample_indices(next).to_set() =~= sample_indices(before).to_set().insert(
                    index,
                )) by {
                    lemma_push_to_set(sample_indices(before), index);
                }
            }
            n = n + 1;
        }
        proof {
            assert(samples@.take(n as int) =~= samples@);
            lemma_sampled_count(sample_indices(samples@));
            assert forall|i: u32| active@.contains(i) implies i < 4096 by {
                let j = choose|j: int|
                    0 <= j < samples@.len() && sample_indices(samples@)[j] == i;
                assert(samples@[j].0 < 4096);
            }
        }
        Ok(Page { cells, active, changes: ChangeBuffer::new() })
    }

    /// A page with random permissions in every cell, seeded with a body of
    /// random gate at each of `seeds` indices drawn at random, with
    /// replacement. Refuses more seeds than the page has cells.
    pub fn new(seeds: u32) -> (made: Result<Page, PageError>)
        ensures
            seeds > 4096 ==> made == Err::<Page, PageError>(PageError::TooManySeeds),
            seeds <= 4096 ==> made is Ok,
            made matches Ok(page) ==> {
                &&& page.wf()
                &&& page.pending() == Map::<u32, Cell>::empty()
                &&& page.active().len() <= seeds
                &&& exists|genes: Seq<Permissions>, samples: Seq<(u32, Gate)>|
                    {
                        &&& genes.len() == 4096
                        &&& samples.len() == seeds
                        &&& page.cells() == seeded(genes, samples)
                        &&& page.active() == sample_indices(samples).to_set()
                    }
                &&& forall|i: int|
                    #![trigger page.cells()[i]]
                    0 <= i < 4096 ==> page.cells()[i].cell_type == if page.active().contains(
                        i as u32,
                    ) {
                        CellType::Body
                    } else {
                        CellType::Empty
                    }
            },
    {
        if seeds > PAGE_CELLS {
            return Err(PageError::TooManySeeds);
        }
        let mut genes: Vec<Permissions> = Vec::with_capacity(4096);
        let mut i: usize = 0;
        while i < 4096
            invariant
                i <= 4096,
                genes@.len() == i,
            decreases 4096 - i,
        {
            genes.push(Permissions::from_bits(random_below(16)));
            i = i + 1;
        }
        let mut samples: Vec<(u32, Gate)> = Vec::new();
        let mut n: u32 = 0;
        while n < seeds
            invariant
                n <= seeds,
                samples@.len() == n,
                forall|j: int| 0 <= j < n ==> samples@[j].0 < 4096,
            decreases seeds - n,
        {
            let index: u32 = random_below(PAGE_CELLS);
            let gate = Gate::from_number(random_below(4));
            samples.push((index, gate));
            n = n + 1;
        }
        Page::from_samples(&genes, &samples)
    }

    /// The cell at column `x` and row `y`.
    pub fn get_cell(&self, x: u32, y: u32) -> (cell: &Cell)
        requires
            self.wf(),
            x < 64,
            y < 64,
        ensures
            *cell == self.cells()[interleave(x, y) as int],
    {
        let z: u32 = xy_to_z(x, y);
        &self.cells[z as usize]
    }

    /// The cell with linear index `index`.
    pub fn cell_at(&self, index: u32) -> (cell: &Cell)
        requires
            self.wf(),
            index < 4096,
        ensures
            *cell == self.cells()[index as int],
    {
        &self.cells[index as usize]
    }

    /// Whether the cell with linear index `index` is in the frontier.
    pub fn is_active(&self, index: u32) -> (b: bool)
        ensures
            b == self.active().contains(index),
    {
        self.active.contains(index)
    }

    /// Whether the frontier is empty: growth has come to its end.
    pub fn is_exhausted(&self) -> (b: bool)
        ensures
            b == (self.active() == Set::<u32>::empty()),
    {
        self.active.is_empty()
    }

    /// The size of the frontier.
    pub fn active_len(&self) -> (n: u32)
        requires
            self.wf(),
        ensures
            n == self.active().len(),
            n <= 4096,
    {
        proof {
            lemma_below_len(self.active@, 4096);
        }
        self.active.len() as u32
    }

    /// The frontier in ascending order.
    pub fn active_indices(&self) -> (indices: Vec<u32>)
        ensures
            ascending(indices@),
            indices@.to_set() == self.active(),
            indices@.len() == self.active().len(),
    {
        self.active.iterate()
    }

    /// The number of pending changes.
    pub fn pending_len(&self) -> (n: usize)
        ensures
            n == self.pending().len(),
    {
        self.changes.len()
    }

    /// The change pending for the cell with linear index `index`, if any.
    pub fn pending_change(&self, index: u32) -> (change: Option<Cell>)
        ensures
            change == (if self.pending().contains_key(index) {
                Some(self.pending()[index])
            } else {
                None
            }),
    {
        self.changes.get(index)
    }

    /// A rough estimate of the bytes that the page takes: 16 for each cell, 8
    /// for each index of the frontier and 16 for each pending change.
    pub fn memory(&self) -> (bytes: u32)
        requires
            self.wf(),
        ensures
            bytes == 65536 + 8 * self.active().len() + 16 * self.pending().len(),
    {
        proof {
            lemma_below_len(self.active@, 4096);
            assert forall|k: u32| self.changes@.dom().contains(k) implies k < 4096 by {
                assert(self.pending().contains_key(k));
            }
            lemma_below_len(self.changes@.dom(), 4096);
        }
        let cells: u32 = self.cells.len() as u32;
        let frontier: u32 = self.active.len() as u32;
        let changes: u32 = self.changes.len() as u32;
        cells * 16 + frontier * 8 + (changes + changes) * 8
    }

    /// The change that growth into `cell` makes: none if the cell is
    /// occupied, else a cell of the given type and gate with no permissions.
    /// The cell itself stays as it is.
    pub fn create_change(cell: &mut Cell, cell_type: CellType, gate: Gate) -> (change: Option<Cell>)
        ensures
            *final(cell) == *old(cell),
            change == (if old(cell).vacant() {
                Some(Cell { cell_type, gate, permissions: Permissions::decoded(0) })
            } else {
                None
            }),
    {
        if cell.get_cell_type() == CellType::Empty {
            let mut change = Cell::new();
            change.set_cell_type(cell_type);
            change.set_gate(gate);
            return Some(change);
        }
        None
    }

    /// Growth from the cell at `(x, y)` in one direction: the change proposed
    /// for the neighbour on that side, if the neighbour is unoccupied. The
    /// gate of the proposed cell faces back against the direction of growth.
    /// The grid stays as it is.
    pub fn grow_local(
        cells: &mut Vec<Cell>,
        x: u32,
        y: u32,
        cell_type: CellType,
        direction: Chromosome,
    ) -> (change: Option<Cell>)
        requires
            can_step(x, y, direction),
            neighbor(x, y, direction) < old(cells)@.len(),
        ensures
            final(cells)@ == old(cells)@,
            change == (if old(cells)@[neighbor(x, y, direction) as int].vacant() {
                Some(Cell::grown(cell_type, direction))
            } else {
                None
            }),
            change matches Some(c) ==> c.gate == direction.opposite_gate() && c.cell_type
                == cell_type,
    {
        let target: u32 = neighbor_index(x, y, direction);
        let gate = direction.gate_behind();
        let mut cell = cells[target as usize];
        Page::create_change(&mut cell, cell_type, gate)
    }

    /// One push of the source at `(x, y)`, after the pushes in `tried`.
    fn push(
        &mut self,
        source: u32,
        x: u32,
        y: u32,
        cell_type: CellType,
        d: Chromosome,
        Ghost(tried): Ghost<Set<(u32, Chromosome)>>,
    )
        requires
            old(self).cells@.len() == 4096,
            source < 4096,
            x == column_of(source),
            y == row_of(source),
            forall|p: (u32, Chromosome)| tried.contains(p) ==> p.0 <= source,
            old(self).changes@ == proposals_of(old(self).cells@, tried, cell_type),
            old(self).active@ == old(self).changes@.dom(),
        ensures
            final(self).cells@ == old(self).cells@,
            final(self).changes@ == proposals_of(
                old(self).cells@,
                tried.insert((source, d)),
                cell_type,
            ),
            final(self).active@ == final(self).changes@.dom(),
    {
        proof {
            lemma_one_more_push(self.cells@, tried, cell_type, source, d);
            lemma_encode_decode(source);
        }
        if self.cells[source as usize].chromosome_contains(d) {
            if within(x, y, d) {
                let target: u32 = neighbor_index(x, y, d);
                if let Some(change) = Page::grow_local(&mut self.cells, x, y, cell_type, d) {
                    self.changes.insert(target, change);
                    self.active.insert(target);
                    assert(self.active@ =~= self.changes@.dom());
                }
            }
        }
    }

    /// One growth step. With an empty frontier nothing changes and 0 is
    /// returned. Otherwise the pending changes are replaced by what the cells
    /// of the frontier propose, each cell pushing north, south, east and
    /// west as far as its permissions and the edge of the page allow, the
    /// frontier in ascending order; the new frontier is the set of cells with
    /// a proposal. The grid itself is not changed. Returns the size of the
    /// new frontier.
    pub fn grow(&mut self, phase: GrowthPhase) -> (count: u32)
        requires
            old(self).wf(),
        ensures
            final(self).wf(),
            final(self).cells() == old(self).cells(),
            old(self).active() == Set::<u32>::empty() ==> count == 0 && final(self).active()
                == old(self).active() && final(self).pending() == old(self).pending(),
            old(self).active() != Set::<u32>::empty() ==> final(self).pending() == proposals(
                old(self).cells(),
                old(self).active(),
                phase.produces(),
            ) && final(self).active() == final(self).pending().dom(),
            count == final(self).active().len(),
    {
        if self.active.is_empty() {
            return 0;
        }
        let cell_type = phase.cell_type();
        let frontier = self.active.iterate();
        self.active.clear();
        self.changes.clear();
        let ghost cells0 = self.cells@;
        let ghost active0 = old(self).active@;
        assert(proposals_of(cells0, all_pushes(frontier@.take(0).to_set()), cell_type)
            =~= Map::<u32, Cell>::empty());
        assert(self.active@ =~= self.changes@.dom());
        let mut n: usize = 0;
        while n < frontier.len()
            invariant
                n <= frontier.len(),
                self.cells@ == cells0,
                cells0.len() == 4096,
                ascending(frontier@),
                frontier@.to_set() == active0,
                forall|i: u32| active0.contains(i) ==> i < 4096,
                self.changes@ == proposals_of(
                    cells0,
                    all_pushes(frontier@.take(n as int).to_set()),
                    cell_type,
                ),
                self.active@ == self.changes@.dom(),
            decreases frontier.len() - n,
        {
            let source: u32 = frontier[n];
            assert(frontier@.to_set().contains(frontier@[n as int]));
            let (x, y) = z_to_xy(source);
            let ghost t0 = all_pushes(frontier@.take(n as int).to_set());
            let ghost t1 = t0.insert((source, Chromosome::North));
            let ghost t2 = t1.insert((source, Chromosome::South));
            let ghost t3 = t2.insert((source, Chromosome::East));
            proof {
                lemma_next_source(frontier@, n as int);
            }
            self.push(source, x, y, cell_type, Chromosome::North, Ghost(t0));
            self.push(source, x, y, cell_type, Chromosome::South, Ghost(t1));
            self.push(source, x, y, cell_type, Chromosome::East, Ghost(t2));
            self.push(source, x, y, cell_type, Chromosome::West, Ghost(t3));
            n = n + 1;
        }
        proof {
            assert(frontier@.take(n as int) =~= frontier@);
            assert forall|i: u32| self.active@.contains(i) implies i < 4096 by {}
            lemma_below_len(self.active@, 4096);
        }
        self.changes.len() as u32
    }

    /// Commits the pending changes: each is written into the cell it is meant
    /// for, which takes the proposed type and gate and keeps its permissions.
    /// No change is pending afterwards. The frontier stays.
    pub fn update(&mut self)
        requires
            old(self).wf(),
        ensures
            final(self).wf(),
            final(self).cells() == committed(old(self).cells(), old(self).pending()),
            final(self).pending() == Map::<u32, Cell>::empty(),
            final(self).active() == old(self).active(),
    {
        let pairs = self.changes.entries();
        let ghost cells0 = self.cells@;
        let ghost pending0 = self.changes@;
        let ghost mut seen = Set::<u32>::empty();
        assert forall|k: u32| pending0.contains_key(k) implies k < 4096 by {
            assert(self.pending().contains_key(k));
        }
        let mut n: usize = 0;
        while n < pairs.len()
            invariant
                n <= pairs.len(),
                self.active@ == old(self).active@,
                self.cells@.len() == 4096,
                cells0.len() == 4096,
                pairs@.to_set() == pending0.kv_pairs(),
                forall|k: u32| pending0.contains_key(k) ==> k < 4096,
                forall|j: int| 0 <= j < n ==> seen.contains(#[trigger] pairs@[j].0),
                forall|k: u32| seen.contains(k) ==> pending0.contains_key(k),
                forall|i: int|
                    0 <= i < 4096 ==> #[trigger] self.cells@[i] == (if seen.contains(i as u32) {
                        cells0[i].merged(pending0[i as u32])
                    } else {
                        cells0[i]
                    }),
            decreases pairs.len() - n,
        {
            let (k, change) = pairs[n];
            assert(pairs@.to_set().contains(pairs@[n as int]));
            assert(pending0.contains_key(k) && pending0[k] == change);
            let mut cell = self.cells[k as usize];
            cell.set_cell_type(change.get_cell_type());
            cell.set_gate(change.get_gate());
            self.cells.set(k as usize, cell);
            proof {
                seen = seen.insert(k);
            }
            n = n + 1;
        }
        self.changes.clear();
        proof {
            assert forall|k: u32| pending0.contains_key(k) implies seen.contains(k) by {
                assert(pending0.kv_pairs().contains((k, pending0[k])));
                let j = choose|j: int| 0 <= j < pairs@.len() && pairs@[j] == (k, pending0[k]);
                assert(seen.contains(pairs@[j].0));
            }
            assert(self.cells@ =~= committed(cells0, pending0));
            assert forall|i: u32| self.active().contains(i) implies !self.cells()[i as int].vacant() by {
                assert(old(self).active().contains(i));
                assert(i < 4096);
                assert(!old(self).cells()[i as int].vacant() || old(self).pending().contains_key(i));
                if old(self).pending().contains_key(i) {
                    assert(!old(self).pending()[i].vacant());
                }
            }
        }
    }
}

} // verus!
