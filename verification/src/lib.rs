//! Generation-by-generation growth of axons and dendrites on a square grid.
//!
//! A [`page::Page`] is a 64 by 64 grid of cells addressed by a Z-order index.
//! Every cell carries a fixed set of directions in which it may grow. A growth
//! step expands the current frontier into unoccupied neighbours and proposes
//! the new cells; a commit writes the proposals into the grid.

pub mod active;
pub mod cell;
pub mod changes;
pub mod growth;
pub mod page;
pub mod zorder;

use crate::cell::{Cell, CellType, Gate, Permissions};
use crate::growth::{lemma_step_exhausted, lemma_step_occupies, lemma_steps_then_step, step, steps, vacancies};
use crate::page::{sample_indices, seeded, GrowthPhase, Page, PageError};
use crate::zorder::interleave;
use vstd::prelude::*;

verus! {

/// The number of seeds of the simulation that [`Cajal::default`] makes.
pub const DEFAULT_SEEDS: u32 = 205;

/// A growth simulation on one page. Every growth step is committed at once,
/// so that no change is pending between two calls.
pub struct Cajal {
    page: Page,
    phase: GrowthPhase,
}

impl Cajal {
    /// The grid, by linear index.
    pub closed spec fn cells(&self) -> Seq<Cell> {
        self.page.cells()
    }

    /// The frontier.
    pub closed spec fn active(&self) -> Set<u32> {
        self.page.active()
    }

    /// The phase of growth: which kind of cell the steps produce.
    pub closed spec fn phase(&self) -> GrowthPhase {
        self.phase
    }

    /// The invariant of a simulation: that of its page, with no change
    /// pending.
    pub closed spec fn wf(&self) -> bool {
        self.page.wf() && self.page.pending() == Map::<u32, Cell>::empty()
    }

    /// What the invariant means for the grid and the frontier: 4096 cells,
    /// and a frontier of occupied cells of the grid.
    pub proof fn lemma_wf(&self)
        requires
            self.wf(),
        ensures
            self.cells().len() == 4096,
            self.active().finite(),
            forall|i: u32|
                self.active().contains(i) ==> i < 4096 && !self.cells()[i as int].vacant(),
    {
    }

    /// A simulation on `page` in the given phase. Changes that are pending in
    /// `page` are committed.
    pub fn from_page(page: Page, phase: GrowthPhase) -> (sim: Cajal)
        requires
            page.wf(),
        ensures
            sim.wf(),
            sim.cells() == crate::growth::committed(page.cells(), page.pending()),
            sim.active() == page.active(),
            sim.phase() == phase,
    {
        let mut page = page;
        page.update();
        Cajal { page, phase }
    }

    /// A simulation on a fresh random page with `seeds` seeds, growing axons.
    /// Refuses more seeds than a page has cells.
    pub fn with_seeds(seeds: u32) -> (made: Result<Cajal, PageError>)
        ensures
            seeds > 4096 ==> made == Err::<Cajal, PageError>(PageError::TooManySeeds),
            seeds <= 4096 ==> made is Ok,
            made matches Ok(sim) ==> {
                &&& sim.wf()
                &&& sim.phase() == GrowthPhase::Axon
                &&& sim.active().len() <= seeds
                &&& exists|genes: Seq<Permissions>, samples: Seq<(u32, Gate)>|
                    {
                        &&& genes.len() == 4096
                        &&& samples.len() == seeds
                        &&& sim.cells() == seeded(genes, samples)
                        &&& sim.active() == sample_indices(samples).to_set()
                    }
                &&& forall|i: int|
                    #![trigger sim.cells()[i]]
                    0 <= i < 4096 ==> sim.cells()[i].cell_type == if sim.active().contains(
                        i as u32,
                    ) {
                        CellType::Body
                    } else {
                        CellType::Empty
                    }
            },
    {
        match Page::new(seeds) {
            Ok(page) => Ok(Cajal { page, phase: GrowthPhase::Axon }),
            Err(e) => Err(e),
        }
    }

    /// Sets the phase of the steps to come.
    pub fn set_phase(&mut self, phase: GrowthPhase)
        ensures
            final(self).phase() == phase,
            final(self).cells() == old(self).cells(),
            final(self).active() == old(self).active(),
            final(self).wf() == old(self).wf(),
    {
        self.phase = phase;
    }

    /// One growth step, committed: the cells of the frontier grow into their
    /// unoccupied neighbours, which become the new frontier. Returns the size
    /// of the new frontier; 0 says that growth has come to its end.
    pub fn grow_step(&mut self) -> (count: u32)
        requires
            old(self).wf(),
        ensures
            final(self).wf(),
            final(self).phase() == old(self).phase(),
            (final(self).cells(), final(self).active()) == step(
                old(self).cells(),
                old(self).active(),
                old(self).phase().produces(),
            ),
            count == final(self).active().len(),
            count > 0 ==> vacancies(final(self).cells()).len() < vacancies(old(self).cells()).len(),
            count == 0 ==> final(self).cells() == old(self).cells(),
            old(self).active() == Set::<u32>::empty() ==> count == 0 && final(self).active()
                == old(self).active(),
    {
        proof {
            lemma_step_exhausted(self.page.cells(), self.phase.produces());
            lemma_step_occupies(self.page.cells(), self.page.active(), self.phase.produces());
        }
        let count = self.page.grow(self.phase);
        self.page.update();
        proof {
            if count == 0 {
                assert(self.page.active() =~= Set::<u32>::empty());
                assert(self.page.cells() =~= old(self).page.cells());
            }
        }
        count
    }

    /// Growth to its end: steps are taken until one leaves the frontier
    /// empty. That takes at most one step more than there are unoccupied
    /// cells.
    pub fn grow(&mut self)
        requires
            old(self).wf(),
        ensures
            final(self).wf(),
            final(self).phase() == old(self).phase(),
            final(self).active() == Set::<u32>::empty(),
            exists|n: nat|
                {
                    &&& 0 < n <= vacancies(old(self).cells()).len() + 1
                    &&& (final(self).cells(), final(self).active()) == #[trigger] steps(
                        old(self).cells(),
                        old(self).active(),
                        old(self).phase().produces(),
                        n,
                    )
                    &&& forall|m: nat|
                        0 < m < n ==> (#[trigger] steps(
                            old(self).cells(),
                            old(self).active(),
                            old(self).phase().produces(),
                            m,
                        )).1 != Set::<u32>::empty()
                },
    {
        let ghost cells0 = self.cells();
        let ghost active0 = self.active();
        let ghost kind = self.phase().produces();
        let ghost mut n: nat = 1;
        proof {
            reveal_with_fuel(steps, 2);
        }
        let mut count = self.grow_step();
        while count > 0
            invariant
                self.wf(),
                self.phase().produces() == kind,
                self.phase() == old(self).phase(),
                count == self.active().len(),
                self.active().finite(),
                0 < n,
                n + vacancies(self.cells()).len() <= vacancies(cells0).len() + (if count > 0 {
                    0nat
                } else {
                    1nat
                }),
                (self.cells(), self.active()) == steps(cells0, active0, kind, n),
                forall|m: nat|
                    0 < m < n ==> (#[trigger] steps(cells0, active0, kind, m)).1 != Set::<
                        u32,
                    >::empty(),
            decreases vacancies(self.cells()).len() + (if count > 0 { 1nat } else { 0nat }),
        {
            proof {
                lemma_steps_then_step(cells0, active0, kind, n);
                assert(self.active() != Set::<u32>::empty());
            }
            count = self.grow_step();
            proof {
                n = n + 1;
            }
        }
        proof {
            assert(self.active() =~= Set::<u32>::empty());
        }
    }

    /// The cell at column `x` and row `y`.
    pub fn get_cell(&self, x: u32, y: u32) -> (cell: &Cell)
        requires
            self.wf(),
            x < 64,
            y < 64,
        ensures
            *cell == self.cells()[interleave(x, y) as int],
    {
        self.page.get_cell(x, y)
    }

    /// A rough estimate of the bytes that the simulation takes: 16 for each
    /// cell and 8 for each index of the frontier.
    pub fn memory(&self) -> (bytes: u32)
        requires
            self.wf(),
        ensures
            bytes == 65536 + 8 * self.active().len(),
    {
        self.page.memory()
    }

    /// The size of the frontier.
    pub fn active_len(&self) -> (n: u32)
        requires
            self.wf(),
        ensures
            n == self.active().len(),
    {
        self.page.active_len()
    }
}

impl Default for Cajal {
    /// A simulation on a fresh random page with [`DEFAULT_SEEDS`] seeds,
    /// growing axons.
    fn default() -> (sim: Cajal)
        ensures
            sim.wf(),
            sim.phase() == GrowthPhase::Axon,
            sim.active().len() <= DEFAULT_SEEDS,
            exists|genes: Seq<Permissions>, samples: Seq<(u32, Gate)>|
                {
                    &&& genes.len() == 4096
                    &&& samples.len() == DEFAULT_SEEDS
                    &&& sim.cells() == seeded(genes, samples)
                    &&& sim.active() == sample_indices(samples).to_set()
                },
            forall|i: int|
                #![trigger sim.cells()[i]]
                0 <= i < 4096 ==> sim.cells()[i].cell_type == if sim.active().contains(i as u32) {
                    CellType::Body
                } else {
                    CellType::Empty
                },
    {
        Cajal::with_seeds(DEFAULT_SEEDS).unwrap()
    }
}

} // verus!
