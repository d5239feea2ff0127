//! State tracker for a chain of 8x8 LED-matrix panels.
//!
//! A chain of identical panels is addressed from software as one flat pixel
//! grid: `x` runs over `[0, 8 * panel_count)` left to right across the
//! chain, `y` over `[0, 8)` down one panel. The tracker splits a flat
//! coordinate into a (panel index, column, row) hardware address — integer
//! division and remainder by the panel width are the whole scheme — and
//! mirrors the lit state of every LED in a shadow bitmap, one byte per row
//! and one bit per column, so that the current picture can be read back and
//! redrawn without querying write-only hardware.
//!
//! Issuing the per-panel commands is the caller's business: `set_pixel`
//! returns the hardware address to light, `reset` leaves a state whose
//! rows can be pushed panel by panel.

use vstd::prelude::*;

verus! {

/// Why a flat pixel coordinate was rejected: the row is not on a panel, or
/// the column lies beyond the last panel of the chain.
#[derive(Clone, Copy, Debug, PartialEq, Eq, Structural)]
pub enum CoordError {
    YOutOfRange,
    XOutOfRange,
}

/// Whether bit `k` of `row`, counting from the least significant end, is
/// one. Bit `k` of row `y` records the LED in column `k` of that row.
pub open spec fn bit_set(row: u8, k: u8) -> bool {
    (row >> k) & 1 == 1
}

/// Setting bit `k` of a row lights exactly that bit: bit `k` of the result
/// is one and every other bit keeps its value.
proof fn lemma_set_bit(row: u8, k: u8, j: u8)
    requires
        k < 8,
        j < 8,
    ensures
        bit_set(row | (1u8 << k), k),
        j != k ==> bit_set(row | (1u8 << k), j) == bit_set(row, j),
{
    assert(((row | (1u8 << k)) >> k) & 1 == 1) by (bit_vector)
        requires
            k < 8,
    ;
    assert(j != k ==> ((row | (1u8 << k)) >> j) & 1 == (row >> j) & 1) by (bit_vector)
        requires
            k < 8 && j < 8,
    ;
}

/// A row with no bit set records every LED of that row unlit.
proof fn lemma_zero_row_unlit()
    ensures
        forall|k: u8| !bit_set(0u8, k),
{
    assert(forall|k: u8| (0u8 >> k) & 1 == 0) by (bit_vector);
}

/// Shadow state for a chain of 8x8 panels. Row `y` of panel `p` sits at
/// index `p * 8 + y` of `rows`; panel 0 is the leftmost in the flat
/// coordinate space.
pub struct PanelChain {
    panels: usize,
    rows: Vec<u8>,
}

impl PanelChain {
    /// Number of chained panels.
    pub closed spec fn spec_panels(&self) -> int {
        self.panels as int
    }

    /// The shadow bitmap rows of the whole chain.
    pub closed spec fn spec_rows(&self) -> Seq<u8> {
        self.rows@
    }

    /// Well-formedness: at least one panel, and one row byte for each of
    /// the eight rows of every panel.
    pub open spec fn wf(&self) -> bool {
        &&& self.spec_panels() >= 1
        &&& self.spec_rows().len() == self.spec_panels() * 8
    }

    /// Whether the shadow state records the LED at flat coordinate
    /// `(x, y)` as lit.
    pub open spec fn lit(&self, x: int, y: int) -> bool
        recommends
            self.wf(),
            0 <= x < self.spec_panels() * 8,
            0 <= y < 8,
    {
        bit_set(self.spec_rows()[(x / 8) * 8 + y], (x % 8) as u8)
    }

    /// Creates a chain of `panel_count` panels with every LED recorded
    /// unlit. A chain of zero panels has no display to track and is a
    /// caller bug, so it is ruled out up front.
    pub fn create(panel_count: usize) -> (r: PanelChain)
        requires
            1 <= panel_count,
            panel_count <= usize::MAX / 8,
        ensures
            r.wf(),
            r.spec_panels() == panel_count,
            forall|x: int, y: int| 0 <= x < panel_count * 8 && 0 <= y < 8 ==> !r.lit(x, y),
    {
        let total = panel_count * 8;
        let mut rows: Vec<u8> = Vec::new();
        let mut i: usize = 0;
        while i < total
            invariant
                i <= total,
                rows@.len() == i,
                forall|j: int| 0 <= j < i ==> rows@[j] == 0u8,
            decreases total - i,
        {
            rows.push(0u8);
            i += 1;
        }
        proof {
            lemma_zero_row_unlit();
        }
        PanelChain { panels: panel_count, rows }
    }

    /// Splits the flat coordinate `(x, y)` into the hardware address
    /// `(panel index, column, row)` of the LED it names, for a chain of
    /// `panel_count` panels. Rows not on a panel and columns beyond the
    /// last panel are rejected, the row being checked first.
    pub fn map_coordinate(panel_count: usize, x: usize, y: usize) -> (r: Result<
        (usize, usize, usize),
        CoordError,
    >)
        ensures
            y >= 8 ==> r == Err::<(usize, usize, usize), CoordError>(CoordError::YOutOfRange),
            y < 8 && x >= panel_count * 8 ==> r == Err::<(usize, usize, usize), CoordError>(
                CoordError::XOutOfRange,
            ),
            y < 8 && x < panel_count * 8 ==> r == Ok::<(usize, usize, usize), CoordError>(
                (x / 8, x % 8, y),
            ),
    {
        if y >= 8 {
            Err(CoordError::YOutOfRange)
        } else if x / 8 >= panel_count {
            assert(x >= panel_count * 8) by (nonlinear_arith)
                requires
                    x / 8 >= panel_count,
                    x >= 0,
                    panel_count >= 0,
            ;
            Err(CoordError::XOutOfRange)
        } else {
            assert(x < panel_count * 8) by (nonlinear_arith)
                requires
                    x / 8 < panel_count,
                    x >= 0,
                    panel_count >= 0,
            ;
            Ok((x / 8, x % 8, y))
        }
    }

    /// Records the LED at flat coordinate `(x, y)` as lit and returns the
    /// hardware address the caller must light. A rejected coordinate
    /// leaves the state untouched.
    pub fn set_pixel(&mut self, x: usize, y: usize) -> (r: Result<(usize, usize, usize), CoordError>)
        requires
            old(self).wf(),
        ensures
            final(self).wf(),
            final(self).spec_panels() == old(self).spec_panels(),
            y >= 8 ==> r == Err::<(usize, usize, usize), CoordError>(CoordError::YOutOfRange)
                && *final(self) == *old(self),
            y < 8 && x >= old(self).spec_panels() * 8 ==> r == Err::<
                (usize, usize, usize),
                CoordError,
            >(CoordError::XOutOfRange) && *final(self) == *old(self),
            y < 8 && x < old(self).spec_panels() * 8 ==> {
                &&& r == Ok::<(usize, usize, usize), CoordError>((x / 8, x % 8, y))
                &&& final(self).lit(x as int, y as int)
                &&& forall|x2: int, y2: int|
                    0 <= x2 < old(self).spec_panels() * 8 && 0 <= y2 < 8 && !(x2 == x && y2 == y)
                        ==> final(self).lit(x2, y2) == old(self).lit(x2, y2)
            },
    {
        match Self::map_coordinate(self.panels, x, y) {
            Err(e) => Err(e),
            Ok((panel, local_x, local_y)) => {
                let ghost pc = old(self).spec_panels();
                let ghost len = old(self).spec_rows().len() as int;
                proof {
                    assert(panel * 8 + local_y < pc * 8) by (nonlinear_arith)
                        requires
                            0 <= panel < pc,
                            0 <= local_y < 8,
                    ;
                }
                let idx = panel * 8 + local_y;
                let mask = 1u8 << (local_x as u8);
                self.rows[idx] = self.rows[idx] | mask;
                proof {
                    let k = (x % 8) as u8;
                    lemma_set_bit(old(self).spec_rows()[idx as int], k, k);
                    assert forall|x2: int, y2: int|
                        0 <= x2 < pc * 8 && 0 <= y2 < 8 && !(x2 == x && y2 == y) implies #[trigger]
                    final(self).lit(x2, y2) == old(self).lit(x2, y2) by {
                        let q2 = x2 / 8;
                        let idx2 = q2 * 8 + y2;
                        let xi = x as int;
                        let yi = y as int;
                        let idxi = idx as int;
                        assert(0 <= q2 < pc);
                        assert(0 <= idx2 < len) by (nonlinear_arith)
                            requires
                                idx2 == q2 * 8 + y2,
                                0 <= q2 < pc,
                                0 <= y2 < 8,
                                len == pc * 8,
                        ;
                        if idx2 == idxi {
                            assert(x2 / 8 == xi / 8 && y2 == yi) by (nonlinear_arith)
                                requires
                                    (x2 / 8) * 8 + y2 == idx2,
                                    (xi / 8) * 8 + yi == idxi,
                                    idx2 == idxi,
                                    0 <= y2 < 8,
                                    0 <= yi < 8,
                            ;
                            assert(x2 % 8 != xi % 8);
                            lemma_set_bit(old(self).spec_rows()[idxi], k, (x2 % 8) as u8);
                        }
                    }
                }
                Ok((panel, local_x, local_y))
            },
        }
    }

    /// Whether the LED at flat coordinate `(x, y)` is recorded as lit,
    /// with the same coordinate checks as `set_pixel`.
    pub fn pixel(&self, x: usize, y: usize) -> (r: Result<bool, CoordError>)
        requires
            self.wf(),
        ensures
            y >= 8 ==> r == Err::<bool, CoordError>(CoordError::YOutOfRange),
            y < 8 && x >= self.spec_panels() * 8 ==> r == Err::<bool, CoordError>(
                CoordError::XOutOfRange,
            ),
            y < 8 && x < self.spec_panels() * 8 ==> r == Ok::<bool, CoordError>(
                self.lit(x as int, y as int),
            ),
    {
        match Self::map_coordinate(self.panels, x, y) {
            Err(e) => Err(e),
            Ok((panel, local_x, local_y)) => {
                let ghost pc = self.spec_panels();
                let ghost len = self.spec_rows().len() as int;
                proof {
                    assert(panel * 8 + local_y < pc * 8) by (nonlinear_arith)
                        requires
                            0 <= panel < pc,
                            0 <= local_y < 8,
                    ;
                }
                let idx = panel * 8 + local_y;
                let row = self.rows[idx];
                Ok((row >> (local_x as u8)) & 1 == 1)
            },
        }
    }

    /// Number of chained panels.
    pub fn panel_count(&self) -> (r: usize)
        ensures
            r == self.spec_panels(),
    {
        self.panels
    }

    /// Row `row` of panel `panel`, one bit per column, as the caller pushes
    /// it to the hardware; `None` when the panel or row does not exist.
    pub fn panel_row(&self, panel: usize, row: usize) -> (r: Option<u8>)
        requires
            self.wf(),
        ensures
            panel < self.spec_panels() && row < 8 ==> r == Some(
                self.spec_rows()[panel as int * 8 + row],
            ),
            !(panel < self.spec_panels() && row < 8) ==> r == None::<u8>,
    {
        if panel < self.panels && row < 8 {
            let ghost pc = self.spec_panels();
            let n = self.rows.len();
            proof {
                assert(n == pc * 8);
                assert(panel * 8 + row < pc * 8) by (nonlinear_arith)
                    requires
                        0 <= panel < pc,
                        0 <= row < 8,
                ;
            }
            let idx = panel * 8 + row;
            Some(self.rows[idx])
        } else {
            None
        }
    }

    /// Clears the shadow bitmap of every panel in the chain: afterwards
    /// every LED of every panel is recorded unlit, whatever was set before.
    /// The final state depends only on the panel count, so a second reset
    /// changes nothing.
    pub fn reset(&mut self)
        requires
            old(self).wf(),
        ensures
            final(self).wf(),
            final(self).spec_panels() == old(self).spec_panels(),
            final(self).spec_rows() =~= Seq::new(old(self).spec_rows().len(), |i: int| 0u8),
            forall|x: int, y: int|
                0 <= x < old(self).spec_panels() * 8 && 0 <= y < 8 ==> !final(self).lit(x, y),
    {
        let n = self.rows.len();
        let mut i: usize = 0;
        while i < n
            invariant
                i <= n,
                self.panels == old(self).panels,
                self.rows@.len() == n,
                n == old(self).spec_rows().len(),
                forall|j: int| 0 <= j < i ==> self.rows@[j] == 0u8,
            decreases n - i,
        {
            self.rows[i] = 0u8;
            i += 1;
        }
        proof {
            lemma_zero_row_unlit();
            let pc = old(self).spec_panels();
            let len = final(self).spec_rows().len() as int;
            assert forall|x: int, y: int| 0 <= x < pc * 8 && 0 <= y < 8 implies !final(self).lit(
                x,
                y,
            ) by {
                assert(0 <= (x / 8) * 8 + y < len) by (nonlinear_arith)
                    requires
                        0 <= x / 8 < pc,
                        0 <= y < 8,
                        len == pc * 8,
                ;
            }
        }
    }
}

/// Resetting is idempotent: the shadow state a reset leaves behind is a
/// function of the panel count alone, so resetting a chain that a reset
/// already cleared leaves its rows exactly as they were.
pub proof fn lemma_reset_idempotent(a: PanelChain, b: PanelChain)
    requires
        a.spec_panels() == b.spec_panels(),
        a.spec_rows() =~= Seq::new((a.spec_panels() * 8) as nat, |i: int| 0u8),
        b.spec_rows() =~= Seq::new((b.spec_panels() * 8) as nat, |i: int| 0u8),
    ensures
        a.spec_rows() == b.spec_rows(),
{
}

/// The coordinate mapping is injective: flat coordinates that name the same
/// hardware address are the same coordinate.
pub proof fn lemma_map_injective(x1: int, y1: int, x2: int, y2: int)
    requires
        0 <= x1,
        0 <= x2,
        0 <= y1 < 8,
        0 <= y2 < 8,
        x1 / 8 == x2 / 8,
        x1 % 8 == x2 % 8,
        y1 == y2,
    ensures
        x1 == x2,
        y1 == y2,
{
    assert(x1 == (x1 / 8) * 8 + x1 % 8) by (nonlinear_arith)
        requires
            0 <= x1,
    ;
    assert(x2 == (x2 / 8) * 8 + x2 % 8) by (nonlinear_arith)
        requires
            0 <= x2,
    ;
}

/// The coordinate mapping is surjective onto the chain: every hardware
/// address `(panel, column, row)` of a chain of `panel_count` panels is the
/// image of a flat coordinate in range, namely `(panel * 8 + column, row)`.
pub proof fn lemma_map_surjective(panel_count: int, panel: int, column: int, row: int)
    requires
        0 <= panel < panel_count,
        0 <= column < 8,
        0 <= row < 8,
    ensures
        0 <= panel * 8 + column < panel_count * 8,
        (panel * 8 + column) / 8 == panel,
        (panel * 8 + column) % 8 == column,
{
    assert(0 <= panel * 8 + column < panel_count * 8) by (nonlinear_arith)
        requires
            0 <= panel < panel_count,
            0 <= column < 8,
    ;
    assert((panel * 8 + column) / 8 == panel && (panel * 8 + column) % 8 == column)
        by (nonlinear_arith)
        requires
            0 <= panel,
            0 <= column < 8,
    ;
}

} // verus!
