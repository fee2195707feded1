use vstd::prelude::*;

use crate::grid::offset_of;
use crate::layout::{covered, last_source_at, no_source_at, too_small, Boundary, Layout, Region, Site};
use vstd::arithmetic::div_mod::{lemma_fundamental_div_mod, lemma_mod_pos_bound};

verus! {

/// The magnetic half-step at one cell. Offsets are row-major positions in a
/// grid of the layout's size.
#[derive(Debug, Clone, Copy, PartialEq, Eq, Structural)]
pub enum MagneticRule {
    /// Last column or last row: `Hx` and `Hy` are not touched.
    Skip,
    /// `Hx -= dt * (Ez[y_next] - Ez[here])`, `Hy += dt * (Ez[x_next] - Ez[here])`.
    Update { x_next: usize, y_next: usize },
}

/// The electric half-step at one cell.
#[derive(Debug, Clone, Copy, PartialEq, Eq, Structural)]
pub enum ElectricRule {
    /// A reflecting edge: `Ez` keeps its value.
    Hold,
    /// Interior: `Ez += C*dt * ((Hy[here] - Hy[x_prev]) - (Hx[here] - Hx[y_prev]))`.
    Curl { x_prev: usize, y_prev: usize },
    /// An absorbing edge:
    /// `Ez = Ez_before[inward] + (C*dt - 1)/(C*dt + 1) * (Ez[inward] - Ez_before[here])`,
    /// where `Ez_before` is the field as it stood at the start of the step and
    /// `Ez[inward]` the value the neighbour took earlier in this step.
    Mur { inward: usize },
}

/// What is written into `Ez` at one cell after the electric half-step.
#[derive(Debug, Clone, Copy, PartialEq, Eq, Structural)]
pub enum Stamp {
    /// The computed value stands.
    Keep,
    /// The cell lies in an obstacle: `Ez = 0`.
    Zero,
    /// The cell carries source `j`: `Ez = sin(time * omega_j)`.
    Source(usize),
}

/// The per-cell rules of one time step, each rule vector indexed by row-major
/// offset. A step applies, in this order: every magnetic rule, the electric
/// rules of the cells in the sequence `order`, every stamp, then advances the
/// clock. In `order` each absorbing edge cell comes after its inward neighbour,
/// so that it reads the value that neighbour took in this step.
pub struct Schedule {
    pub magnetic: Vec<MagneticRule>,
    pub order: Vec<usize>,
    pub electric: Vec<ElectricRule>,
    pub stamps: Vec<Stamp>,
}

pub open spec fn magnetic_rule_of(w: int, h: int, x: int, y: int) -> MagneticRule {
    if x < w - 1 && y < h - 1 {
        MagneticRule::Update {
            x_next: offset_of(w as nat, (x + 1) as nat, y as nat) as usize,
            y_next: offset_of(w as nat, x as nat, (y + 1) as nat) as usize,
        }
    } else {
        MagneticRule::Skip
    }
}

/// Interior cells take the curl update. On an absorbing boundary an edge cell
/// takes the Mur rule from the first matching face in the order: last column,
/// first column, last row, first row; so corners follow the column faces.
pub open spec fn electric_rule_of(w: int, h: int, boundary: Boundary, x: int, y: int) -> ElectricRule {
    if 1 <= x < w - 1 && 1 <= y < h - 1 {
        ElectricRule::Curl {
            x_prev: offset_of(w as nat, (x - 1) as nat, y as nat) as usize,
            y_prev: offset_of(w as nat, x as nat, (y - 1) as nat) as usize,
        }
    } else if boundary == Boundary::Reflecting {
        ElectricRule::Hold
    } else if x == w - 1 {
        ElectricRule::Mur { inward: offset_of(w as nat, (x - 1) as nat, y as nat) as usize }
    } else if x == 0 {
        ElectricRule::Mur { inward: offset_of(w as nat, (x + 1) as nat, y as nat) as usize }
    } else if y == h - 1 {
        ElectricRule::Mur { inward: offset_of(w as nat, x as nat, (y - 1) as nat) as usize }
    } else {
        ElectricRule::Mur { inward: offset_of(w as nat, x as nat, (y + 1) as nat) as usize }
    }
}

/// `s` is the stamp of cell `(x, y)`: the last source placed there wins over
/// obstacles, an obstacle cell without a source is zeroed, others keep their value.
pub open spec fn stamp_fits(sources: Seq<Site>, obstacles: Seq<Region>, x: int, y: int, s: Stamp) -> bool {
    match s {
        Stamp::Source(j) => last_source_at(sources, j as int, x, y),
        Stamp::Zero => no_source_at(sources, x, y) && covered(obstacles, x, y),
        Stamp::Keep => no_source_at(sources, x, y) && !covered(obstacles, x, y),
    }
}

/// When the electric rule of `(x, y)` runs: interior and holding cells first,
/// then absorbing edge cells that are not corners, then absorbing corners.
pub open spec fn stage_of(w: int, h: int, boundary: Boundary, x: int, y: int) -> int {
    if electric_rule_of(w, h, boundary, x, y) is Mur {
        if (x == 0 || x == w - 1) && (y == 0 || y == h - 1) {
            2
        } else {
            1
        }
    } else {
        0
    }
}

/// The stage of the cell at offset `k` of `l`.
pub open spec fn stage_at(l: &Layout, k: int) -> int {
    let w = l.cols() as int;
    stage_of(w, l.rows() as int, l.mode(), k % w, k / w)
}

/// Offset `a` runs before offset `b`: an earlier stage, or the same stage and a
/// smaller offset.
pub open spec fn runs_before(l: &Layout, a: int, b: int) -> bool {
    stage_at(l, a) < stage_at(l, b) || (stage_at(l, a) == stage_at(l, b) && a < b)
}

/// Offset `k` occurs in `order`.
pub open spec fn listed(order: Seq<usize>, k: int) -> bool {
    exists|p: int| 0 <= p < order.len() && order[p] == k
}

/// `order` lists every cell of `l` once, sorted by stage and then by offset.
pub open spec fn is_electric_order(l: &Layout, order: Seq<usize>) -> bool {
    &&& forall|p: int| 0 <= p < order.len() ==> #[trigger] order[p] < l.cell_count()
    &&& forall|p: int, q: int|
        0 <= p < q < order.len() ==> runs_before(l, #[trigger] order[p] as int, #[trigger] order[q] as int)
    &&& forall|k: int| 0 <= k < l.cell_count() ==> #[trigger] listed(order, k)
}

impl Schedule {
    /// This is the schedule of `l`: one rule of each kind for every cell.
    pub open spec fn of_layout(&self, l: &Layout) -> bool {
        let w = l.cols() as int;
        let h = l.rows() as int;
        &&& self.magnetic@.len() == l.cell_count()
        &&& self.electric@.len() == l.cell_count()
        &&& self.stamps@.len() == l.cell_count()
        &&& is_electric_order(l, self.order@)
        &&& forall|k: int|
            0 <= k < l.cell_count() ==> #[trigger] self.magnetic@[k] == magnetic_rule_of(w, h, k % w, k / w)
        &&& forall|k: int|
            0 <= k < l.cell_count() ==> #[trigger] self.electric@[k] == electric_rule_of(
                w,
                h,
                l.mode(),
                k % w,
                k / w,
            )
        &&& forall|k: int|
            0 <= k < l.cell_count() ==> stamp_fits(
                l.source_list(),
                l.obstacle_list(),
                k % w,
                k / w,
                #[trigger] self.stamps@[k],
            )
    }
}

proof fn lemma_neighbours(w: int, h: int, x: int, y: int)
    requires
        0 <= x < w,
        0 <= y < h,
    ensures
        0 <= x + y * w < w * h,
        x + (y + 1) * w == x + y * w + w,
        x + (y - 1) * w == x + y * w - w,
        y + 1 < h ==> x + (y + 1) * w < w * h,
        y >= 1 ==> x + (y - 1) * w >= 0,
{
    assert(0 <= x + y * w < w * h) by (nonlinear_arith)
        requires
            0 <= x < w,
            0 <= y < h,
    ;
    assert(x + (y + 1) * w == x + y * w + w) by (nonlinear_arith);
    assert(x + (y - 1) * w == x + y * w - w) by (nonlinear_arith);
    assert(y + 1 < h ==> x + (y + 1) * w < w * h) by (nonlinear_arith)
        requires
            0 <= x < w,
            0 <= y,
    ;
    assert(y >= 1 ==> x + (y - 1) * w >= 0) by (nonlinear_arith)
        requires
            0 <= x < w,
    ;
}

/// Splitting an offset into its column and row and joining them again gives it back.
proof fn lemma_split_offset(w: int, h: int, k: int)
    requires
        0 < w,
        0 < h,
        0 <= k < w * h,
    ensures
        0 <= k % w < w,
        0 <= k / w < h,
        k == k % w + (k / w) * w,
{
    lemma_fundamental_div_mod(k, w);
    lemma_mod_pos_bound(k, w);
    let q = k / w;
    let r = k % w;
    assert(0 <= q < h) by (nonlinear_arith)
        requires
            0 < w,
            0 <= r < w,
            k == w * q + r,
            0 <= k < w * h,
    ;
    assert(w * q == q * w) by (nonlinear_arith);
}

/// The offset of `(x, y)` splits back into `x` and `y`.
proof fn lemma_join_offset(w: int, h: int, x: int, y: int)
    requires
        0 <= x < w,
        0 <= y < h,
    ensures
        (x + y * w) % w == x,
        (x + y * w) / w == y,
        0 <= x + y * w < w * h,
{
    lemma_neighbours(w, h, x, y);
    vstd::arithmetic::div_mod::lemma_fundamental_div_mod_converse(x + y * w, w, y, x);
}

impl Layout {
    /// The magnetic rule of cell `(x, y)`.
    pub fn magnetic_rule(&self, x: usize, y: usize) -> (r: MagneticRule)
        requires
            self.wf(),
            x < self.cols(),
            y < self.rows(),
        ensures
            r == magnetic_rule_of(self.cols() as int, self.rows() as int, x as int, y as int),
    {
        let w = self.width();
        let h = self.height();
        proof {
            lemma_neighbours(w as int, h as int, x as int, y as int);
        }
        if x < w - 1 && y < h - 1 {
            let k = x + y * w;
            MagneticRule::Update { x_next: k + 1, y_next: k + w }
        } else {
            MagneticRule::Skip
        }
    }

    /// The electric rule of cell `(x, y)`.
    pub fn electric_rule(&self, x: usize, y: usize) -> (r: ElectricRule)
        requires
            self.wf(),
            x < self.cols(),
            y < self.rows(),
        ensures
            r == electric_rule_of(
                self.cols() as int,
                self.rows() as int,
                self.mode(),
                x as int,
                y as int,
            ),
    {
        let w = self.width();
        let h = self.height();
        proof {
            lemma_neighbours(w as int, h as int, x as int, y as int);
        }
        let k = x + y * w;
        if 1 <= x && x < w - 1 && 1 <= y && y < h - 1 {
            ElectricRule::Curl { x_prev: k - 1, y_prev: k - w }
        } else if self.boundary() == Boundary::Reflecting {
            ElectricRule::Hold
        } else if x == w - 1 {
            ElectricRule::Mur { inward: k - 1 }
        } else if x == 0 {
            ElectricRule::Mur { inward: k + 1 }
        } else if y == h - 1 {
            ElectricRule::Mur { inward: k - w }
        } else {
            ElectricRule::Mur { inward: k + w }
        }
    }

    /// The stage of cell `(x, y)` in the electric order.
    pub fn stage(&self, x: usize, y: usize) -> (r: usize)
        requires
            self.wf(),
            x < self.cols(),
            y < self.rows(),
        ensures
            r == stage_of(self.cols() as int, self.rows() as int, self.mode(), x as int, y as int),
    {
        let w = self.width();
        let h = self.height();
        match self.electric_rule(x, y) {
            ElectricRule::Mur { .. } => {
                if (x == 0 || x == w - 1) && (y == 0 || y == h - 1) {
                    2
                } else {
                    1
                }
            },
            _ => 0,
        }
    }

    /// Appends, in increasing offset, every cell of stage `s` to `order`, which
    /// holds the cells of the earlier stages.
    fn append_stage(&self, s: usize, order: &mut Vec<usize>)
        requires
            self.wf(),
            forall|p: int| 0 <= p < old(order)@.len() ==> #[trigger] old(order)@[p] < self.cell_count(),
            forall|p: int| 0 <= p < old(order)@.len() ==> stage_at(self, #[trigger] old(order)@[p] as int) < s,
            forall|p: int, q: int|
                0 <= p < q < old(order)@.len() ==> runs_before(
                    self,
                    #[trigger] old(order)@[p] as int,
                    #[trigger] old(order)@[q] as int,
                ),
            forall|k: int|
                0 <= k < self.cell_count() && stage_at(self, k) < s ==> #[trigger] listed(old(order)@, k),
        ensures
            forall|p: int| 0 <= p < final(order)@.len() ==> #[trigger] final(order)@[p] < self.cell_count(),
            forall|p: int| 0 <= p < final(order)@.len() ==> stage_at(self, #[trigger] final(order)@[p] as int) <= s,
            forall|p: int, q: int|
                0 <= p < q < final(order)@.len() ==> runs_before(
                    self,
                    #[trigger] final(order)@[p] as int,
                    #[trigger] final(order)@[q] as int,
                ),
            forall|k: int|
                0 <= k < self.cell_count() && stage_at(self, k) <= s ==> #[trigger] listed(final(order)@, k),
    {
        let w = self.width();
        let h = self.height();
        let n = w * h;
        let mut k: usize = 0;
        while k < n
            invariant
                self.wf(),
                w == self.cols(),
                h == self.rows(),
                n == w * h,
                k <= n,
                forall|p: int| 0 <= p < order@.len() ==> #[trigger] order@[p] < n,
                forall|p: int| 0 <= p < order@.len() ==> stage_at(self, #[trigger] order@[p] as int) <= s,
                forall|p: int|
                    0 <= p < order@.len() && stage_at(self, #[trigger] order@[p] as int) == s ==> order@[p] < k,
                forall|p: int, q: int|
                    0 <= p < q < order@.len() ==> runs_before(
                        self,
                        #[trigger] order@[p] as int,
                        #[trigger] order@[q] as int,
                    ),
                forall|j: int|
                    0 <= j < n && (stage_at(self, j) < s || (stage_at(self, j) == s && j < k))
                        ==> #[trigger] listed(order@, j),
            decreases n - k,
        {
            proof {
                lemma_split_offset(w as int, h as int, k as int);
            }
            let ghost before = order@;
            let st = self.stage(k % w, k / w);
            assert(st == stage_at(self, k as int));
            if st == s {
                let ghost prev = order@;
                order.push(k);
                proof {
                    assert forall|j: int| #[trigger] listed(prev, j) implies listed(order@, j) by {
                        let p = choose|p: int| 0 <= p < prev.len() && prev[p] == j;
                        assert(order@[p] == prev[p]);
                    }
                    assert(order@[order@.len() - 1] == k);
                    assert(listed(order@, k as int));
                }
            }
            proof {
                assert forall|j: int|
                    0 <= j < n && (stage_at(self, j) < s || (stage_at(self, j) == s && j < k + 1))
                    implies #[trigger] listed(order@, j) by {
                    if j < k || stage_at(self, j) < s {
                        assert(listed(before, j));
                        let p = choose|p: int| 0 <= p < before.len() && before[p] == j;
                        assert(order@[p] == before[p]);
                    }
                }
            }
            k = k + 1;
        }
    }

    /// Every cell of the grid, in the order in which the electric rules run.
    pub fn electric_order(&self) -> (r: Vec<usize>)
        requires
            self.wf(),
        ensures
            is_electric_order(self, r@),
    {
        let mut order: Vec<usize> = Vec::new();
        self.append_stage(0, &mut order);
        self.append_stage(1, &mut order);
        self.append_stage(2, &mut order);
        proof {
            assert forall|k: int| 0 <= k < self.cell_count() implies #[trigger] listed(order@, k) by {
                let w = self.cols() as int;
                lemma_split_offset(w, self.rows() as int, k);
                assert(stage_at(self, k) <= 2);
            }
        }
        order
    }

    /// The stamp of cell `(x, y)`.
    pub fn stamp(&self, x: usize, y: usize) -> (r: Stamp)
        ensures
            stamp_fits(self.source_list(), self.obstacle_list(), x as int, y as int, r),
    {
        match self.source_at(x, y) {
            Some(j) => Stamp::Source(j),
            None => {
                if self.in_obstacle(x, y) {
                    Stamp::Zero
                } else {
                    Stamp::Keep
                }
            },
        }
    }

    /// The rules of one time step for every cell of the grid.
    pub fn schedule(&self) -> (r: Schedule)
        requires
            self.wf(),
        ensures
            r.of_layout(self),
    {
        let w = self.width();
        let h = self.height();
        let n = w * h;
        let mut magnetic: Vec<MagneticRule> = Vec::with_capacity(n);
        let mut electric: Vec<ElectricRule> = Vec::with_capacity(n);
        let mut stamps: Vec<Stamp> = Vec::with_capacity(n);
        let mut k: usize = 0;
        while k < n
            invariant
                self.wf(),
                w == self.cols(),
                h == self.rows(),
                n == w * h,
                k <= n,
                magnetic@.len() == k,
                electric@.len() == k,
                stamps@.len() == k,
                forall|i: int|
                    0 <= i < k ==> #[trigger] magnetic@[i] == magnetic_rule_of(
                        w as int,
                        h as int,
                        i % (w as int),
                        i / (w as int),
                    ),
                forall|i: int|
                    0 <= i < k ==> #[trigger] electric@[i] == electric_rule_of(
                        w as int,
                        h as int,
                        self.mode(),
                        i % (w as int),
                        i / (w as int),
                    ),
                forall|i: int|
                    0 <= i < k ==> stamp_fits(
                        self.source_list(),
                        self.obstacle_list(),
                        i % (w as int),
                        i / (w as int),
                        #[trigger] stamps@[i],
                    ),
            decreases n - k,
        {
            proof {
                lemma_split_offset(w as int, h as int, k as int);
            }
            let x = k % w;
            let y = k / w;
            magnetic.push(self.magnetic_rule(x, y));
            electric.push(self.electric_rule(x, y));
            stamps.push(self.stamp(x, y));
            k = k + 1;
        }
        let order = self.electric_order();
        Schedule { magnetic, order, electric, stamps }
    }
}

/// Obstacle cells read zero after every step: a cell inside an obstacle
/// rectangle that carries no source is stamped `Zero`, and the stamps are the
/// last thing a step writes into `Ez`.
pub proof fn lemma_obstacle_cells_zeroed(l: &Layout, s: &Schedule, i: int, x: int, y: int)
    requires
        l.wf(),
        s.of_layout(l),
        0 <= i < l.obstacle_list().len(),
        l.obstacle_list()[i].holds(x, y),
        no_source_at(l.source_list(), x, y),
    ensures
        s.stamps@[offset_of(l.cols(), x as nat, y as nat) as int] == Stamp::Zero,
{
    let w = l.cols() as int;
    let h = l.rows() as int;
    assert(l.obstacle_list()[i].fits(w, h));
    lemma_join_offset(w, h, x, y);
    let k = x + y * w;
    assert(stamp_fits(l.source_list(), l.obstacle_list(), k % w, k / w, s.stamps@[k]));
}

/// Each source cell carries its source after every step: when no later source
/// shares its position, source `j`'s cell is stamped `Source(j)`, which writes
/// `sin(time * omega_j)` after everything else the step computed.
pub proof fn lemma_source_cells_stamped(l: &Layout, s: &Schedule, j: int)
    requires
        l.wf(),
        s.of_layout(l),
        0 <= j < l.source_list().len(),
        forall|k: int|
            j < k < l.source_list().len() ==> !(#[trigger] l.source_list()[k]).is_at(
                l.source_list()[j].x as int,
                l.source_list()[j].y as int,
            ),
    ensures
        s.stamps@[offset_of(
            l.cols(),
            l.source_list()[j].x as nat,
            l.source_list()[j].y as nat,
        ) as int] == Stamp::Source(j as usize),
{
    let w = l.cols() as int;
    let h = l.rows() as int;
    let src = l.source_list();
    let x = src[j].x as int;
    let y = src[j].y as int;
    lemma_join_offset(w, h, x, y);
    let k = x + y * w;
    let st = s.stamps@[k];
    assert(stamp_fits(src, l.obstacle_list(), x, y, st));
    match st {
        Stamp::Source(j2) => {
            if (j2 as int) < j {
                assert(src[j].is_at(x, y));
            }
        },
        _ => {
            assert(src[j].is_at(x, y));
        },
    }
}

/// The schedule never points outside the grid: every neighbour offset is a
/// cell of the layout and every stamped source is one of its sources.
pub proof fn lemma_schedule_in_range(l: &Layout, s: &Schedule, k: int)
    requires
        l.wf(),
        s.of_layout(l),
        0 <= k < l.cell_count(),
    ensures
        s.magnetic@[k] matches MagneticRule::Update { x_next, y_next } ==> x_next < l.cell_count()
            && y_next < l.cell_count(),
        s.electric@[k] matches ElectricRule::Curl { x_prev, y_prev } ==> x_prev < l.cell_count()
            && y_prev < l.cell_count(),
        s.electric@[k] matches ElectricRule::Mur { inward } ==> inward < l.cell_count(),
        s.stamps@[k] matches Stamp::Source(j) ==> j < l.source_list().len(),
{
    let w = l.cols() as int;
    let h = l.rows() as int;
    lemma_split_offset(w, h, k);
    let x = k % w;
    let y = k / w;
    lemma_neighbours(w, h, x, y);
    if x + 1 < w {
        lemma_neighbours(w, h, x + 1, y);
    }
    if x >= 1 {
        lemma_neighbours(w, h, x - 1, y);
    }
    if y >= 1 {
        lemma_neighbours(w, h, x, y - 1);
    }
    assert(s.magnetic@[k] == magnetic_rule_of(w, h, x, y));
    assert(s.electric@[k] == electric_rule_of(w, h, l.mode(), x, y));
    assert(stamp_fits(l.source_list(), l.obstacle_list(), x, y, s.stamps@[k]));
}

/// The inward neighbour of an absorbing edge cell lies in the grid and in an
/// earlier stage.
proof fn lemma_inward_stage(l: &Layout, x: int, y: int)
    requires
        l.wf(),
        0 <= x < l.cols(),
        0 <= y < l.rows(),
        electric_rule_of(l.cols() as int, l.rows() as int, l.mode(), x, y) is Mur,
    ensures
        ({
            let inward = electric_rule_of(l.cols() as int, l.rows() as int, l.mode(), x, y)->inward as int;
            &&& 0 <= inward < l.cell_count()
            &&& stage_at(l, inward) < stage_of(l.cols() as int, l.rows() as int, l.mode(), x, y)
        }),
{
    let w = l.cols() as int;
    let h = l.rows() as int;
    assert(!too_small(w, h, l.mode()));
    if x == w - 1 {
        lemma_join_offset(w, h, x - 1, y);
    } else if x == 0 {
        lemma_join_offset(w, h, x + 1, y);
    } else if y == h - 1 {
        lemma_join_offset(w, h, x, y - 1);
    } else {
        lemma_join_offset(w, h, x, y + 1);
    }
}

/// On an absorbing boundary every edge cell reads the value its inward
/// neighbour took in the same step: in the electric order the neighbour comes
/// first.
pub proof fn lemma_mur_after_inward(l: &Layout, s: &Schedule, p: int)
    requires
        l.wf(),
        s.of_layout(l),
        0 <= p < s.order@.len(),
        s.electric@[s.order@[p] as int] is Mur,
    ensures
        exists|q: int| 0 <= q < p && s.order@[q] == s.electric@[s.order@[p] as int]->inward,
{
    let w = l.cols() as int;
    let h = l.rows() as int;
    let k = s.order@[p] as int;
    lemma_split_offset(w, h, k);
    assert(s.electric@[k] == electric_rule_of(w, h, l.mode(), k % w, k / w));
    lemma_inward_stage(l, k % w, k / w);
    let inward = s.electric@[k]->inward as int;
    assert(listed(s.order@, inward));
    let q = choose|q: int| 0 <= q < s.order@.len() && s.order@[q] == inward;
    if q > p {
        assert(runs_before(l, s.order@[p] as int, s.order@[q] as int));
    }
    assert(q < p);
}

} // verus!
