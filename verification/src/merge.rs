//! Several determinations of one cell merged into a single cell.

use crate::error::{viewed, XdsError};
use crate::fixed::{Fixed, ONE};
use crate::stats::{raws, weighted_estimate, wmean, UncertaintyPolicy};
use vstd::prelude::*;
use vstd::string::*;

verus! {

/// What a cell record holds.
pub struct CellView {
    pub file: Seq<char>,
    pub sg: int,
    pub params: Seq<int>,
    pub esd: Option<Seq<int>>,
}

/// One determination of a cell: the file it was read from, the number of
/// the space group (minus one where none was given), the three edges and the
/// three angles in degrees, and the uncertainties of these six where the
/// file states them.
pub struct Cell {
    pub file: String,
    pub sg: i32,
    pub params: [Fixed; 6],
    pub esd: Option<[Fixed; 6]>,
}

/// The raw values of six numbers.
pub open spec fn six(c: [Fixed; 6]) -> Seq<int> {
    Seq::new(6, |i: int| c[i]@)
}

impl View for Cell {
    type V = CellView;

    open spec fn view(&self) -> CellView {
        CellView {
            file: self.file@,
            sg: self.sg as int,
            params: six(self.params),
            esd: match self.esd {
                Some(e) => Some(six(e)),
                None => None,
            },
        }
    }
}

/// The views of a list of cells.
pub open spec fn cell_views(cells: Seq<Cell>) -> Seq<CellView> {
    Seq::new(cells.len(), |i: int| cells[i]@)
}

/// The cell comes with a space group and with uncertainties.
pub open spec fn carries_esd(c: CellView) -> bool {
    c.sg != -1 && c.esd is Some
}

/// One of the first `n` cells comes with uncertainties.
pub open spec fn any_esd(cells: Seq<CellView>, n: nat) -> bool {
    exists|i: int| 0 <= i < n && carries_esd(#[trigger] cells[i])
}

/// The cell takes part in the merge: where any cell comes with
/// uncertainties, only those that do; where none does, all.
pub open spec fn takes_part(c: CellView, genuine: bool) -> bool {
    !genuine || carries_esd(c)
}

/// The uncertainty that parameter `k` of a cell is merged with: its own
/// where the merge is over genuine uncertainties, one where it is not.
pub open spec fn merge_sigma(c: CellView, genuine: bool, k: int) -> int {
    if genuine {
        c.esd.unwrap()[k]
    } else {
        ONE as int
    }
}

/// Parameter `k` of those of the first `n` cells that take part.
pub open spec fn selected_values(cells: Seq<CellView>, genuine: bool, k: int, n: nat) -> Seq<int>
    decreases n,
{
    if n == 0 {
        Seq::empty()
    } else {
        let rest = selected_values(cells, genuine, k, (n - 1) as nat);
        if takes_part(cells[n - 1], genuine) {
            rest.push(cells[n - 1].params[k])
        } else {
            rest
        }
    }
}

/// The uncertainties that go with `selected_values`.
pub open spec fn selected_sigmas(cells: Seq<CellView>, genuine: bool, k: int, n: nat) -> Seq<int>
    decreases n,
{
    if n == 0 {
        Seq::empty()
    } else {
        let rest = selected_sigmas(cells, genuine, k, (n - 1) as nat);
        if takes_part(cells[n - 1], genuine) {
            rest.push(merge_sigma(cells[n - 1], genuine, k))
        } else {
            rest
        }
    }
}

/// The space group of the first of the first `n` cells that takes part;
/// minus one where none does.
pub open spec fn leading_sg(cells: Seq<CellView>, genuine: bool, n: nat) -> int
    decreases n,
{
    if n == 0 {
        -1
    } else if selected_values(cells, genuine, 0, (n - 1) as nat).len() > 0 {
        leading_sg(cells, genuine, (n - 1) as nat)
    } else if takes_part(cells[n - 1], genuine) {
        cells[n - 1].sg
    } else {
        -1
    }
}

/// The merged value of parameter `k` and its uncertainty.
pub open spec fn merged_parameter(
    cells: Seq<CellView>,
    genuine: bool,
    k: int,
    policy: UncertaintyPolicy,
) -> Result<(int, int), XdsError> {
    weighted_estimate(
        selected_values(cells, genuine, k, cells.len()),
        selected_sigmas(cells, genuine, k, cells.len()),
        policy,
    )
}

/// The merged values of the first `n` parameters with their uncertainties;
/// the first parameter that cannot be merged decides the error.
pub open spec fn merged_parameters(
    cells: Seq<CellView>,
    genuine: bool,
    policy: UncertaintyPolicy,
    n: nat,
) -> Result<Seq<(int, int)>, XdsError>
    decreases n,
{
    if n == 0 {
        Ok(Seq::empty())
    } else {
        match merged_parameters(cells, genuine, policy, (n - 1) as nat) {
            Err(e) => Err(e),
            Ok(done) => match merged_parameter(cells, genuine, n - 1, policy) {
                Err(e) => Err(e),
                Ok(p) => Ok(done.push(p)),
            },
        }
    }
}

/// The cell that several determinations merge into. Where at least one of
/// them comes with uncertainties, those that do are merged, each parameter
/// weighted by its own uncertainty; where none does, all are merged with the
/// uniform uncertainty one. The merged cell has no file, the space group of
/// the first cell that took part, and the uncertainties that the merge
/// gave. Nothing merges into nothing.
pub open spec fn merged_cell(cells: Seq<CellView>, policy: UncertaintyPolicy) -> Result<
    CellView,
    XdsError,
> {
    let genuine = any_esd(cells, cells.len());
    if cells.len() == 0 {
        Err(XdsError::InsufficientData)
    } else {
        match merged_parameters(cells, genuine, policy, 6) {
            Err(e) => Err(e),
            Ok(p) => Ok(
                CellView {
                    file: Seq::empty(),
                    sg: leading_sg(cells, genuine, cells.len()),
                    params: Seq::new(6, |k: int| p[k].0),
                    esd: Some(Seq::new(6, |k: int| p[k].1)),
                },
            ),
        }
    }
}

/// Whether the cell comes with a space group and with uncertainties.
fn has_esd(c: &Cell) -> (r: bool)
    ensures
        r == carries_esd(c@),
{
    c.sg != -1 && c.esd.is_some()
}

/// Whether any of the cells comes with uncertainties.
fn any_has_esd(cells: &Vec<Cell>) -> (r: bool)
    ensures
        r == any_esd(cell_views(cells@), cells@.len()),
{
    let mut i: usize = 0;
    while i < cells.len()
        invariant
            i <= cells.len(),
            !any_esd(cell_views(cells@), i as nat),
        decreases cells.len() - i,
    {
        assert(cell_views(cells@)[i as int] == cells[i as int]@);
        if has_esd(&cells[i]) {
            return true;
        }
        i = i + 1;
    }
    false
}

/// Parameter `k` of the cells that take part, the uncertainties that go
/// with it, and the space group of the first cell that takes part.
fn select(cells: &Vec<Cell>, genuine: bool, k: usize) -> (r: (Vec<Fixed>, Vec<Fixed>, i32))
    requires
        k < 6,
    ensures
        raws(r.0@) == selected_values(cell_views(cells@), genuine, k as int, cells@.len()),
        raws(r.1@) == selected_sigmas(cell_views(cells@), genuine, k as int, cells@.len()),
        r.2 == leading_sg(cell_views(cells@), genuine, cells@.len()),
{
    let ghost views = cell_views(cells@);
    let mut values: Vec<Fixed> = Vec::new();
    let mut sigmas: Vec<Fixed> = Vec::new();
    let mut sg: i32 = -1;
    let mut i: usize = 0;
    assert(raws(values@) =~= Seq::<int>::empty());
    assert(raws(sigmas@) =~= Seq::<int>::empty());
    while i < cells.len()
        invariant
            i <= cells.len(),
            k < 6,
            views == cell_views(cells@),
            raws(values@) == selected_values(views, genuine, k as int, i as nat),
            raws(sigmas@) == selected_sigmas(views, genuine, k as int, i as nat),
            values@.len() == selected_values(views, genuine, 0, i as nat).len(),
            sg == leading_sg(views, genuine, i as nat),
        decreases cells.len() - i,
    {
        assert(views[i as int] == cells[i as int]@);
        let c = &cells[i];
        let ghost old_values = values@;
        let ghost old_sigmas = sigmas@;
        if !genuine || has_esd(c) {
            if values.len() == 0 {
                sg = c.sg;
            }
            let sigma = if genuine {
                match c.esd {
                    Some(e) => e[k],
                    None => Fixed::one(),
                }
            } else {
                Fixed::one()
            };
            values.push(c.params[k]);
            sigmas.push(sigma);
            assert(raws(values@) =~= raws(old_values).push(c.params[k as int]@));
            assert(raws(sigmas@) =~= raws(old_sigmas).push(sigma@));
        }
        i = i + 1;
    }
    (values, sigmas, sg)
}

/// Merges several determinations of a cell into one.
pub fn merge_cells(cells: &Vec<Cell>, policy: UncertaintyPolicy) -> (r: Result<Cell, XdsError>)
    ensures
        viewed(r) == merged_cell(cell_views(cells@), policy),
{
    if cells.len() == 0 {
        return Err(XdsError::InsufficientData);
    }
    let ghost views = cell_views(cells@);
    let genuine = any_has_esd(cells);
    let zero = Fixed::zero();
    let mut params: [Fixed; 6] = [zero, zero, zero, zero, zero, zero];
    let mut esd: [Fixed; 6] = [zero, zero, zero, zero, zero, zero];
    let mut sg: i32 = -1;
    let ghost mut done: Seq<(int, int)> = Seq::empty();
    let mut k: usize = 0;
    while k < 6
        invariant
            k <= 6,
            views == cell_views(cells@),
            cells@.len() > 0,
            genuine == any_esd(views, cells@.len()),
            merged_parameters(views, genuine, policy, k as nat) == Ok::<Seq<(int, int)>, XdsError>(
                done,
            ),
            done.len() == k,
            forall|j: int| 0 <= j < k ==> params[j]@ == done[j].0 && esd[j]@ == done[j].1,
            k > 0 ==> sg == leading_sg(views, genuine, cells@.len()),
        decreases 6 - k,
    {
        let (values, sigmas, first_sg) = select(cells, genuine, k);
        let estimate = wmean(&values, &sigmas, policy);
        match estimate {
            Err(e) => {
                proof {
                    lemma_first_failure(views, genuine, policy, (k + 1) as nat, 6);
                }
                return Err(e);
            },
            Ok((mean, spread)) => {
                params[k] = mean;
                esd[k] = spread;
                sg = first_sg;
                proof {
                    done = done.push((mean@, spread@));
                }
            },
        }
        k = k + 1;
    }
    proof {
        assert(six(params) =~= Seq::new(6, |j: int| done[j].0));
        assert(six(esd) =~= Seq::new(6, |j: int| done[j].1));
    }
    Ok(Cell { file: String::new(), sg, params, esd: Some(esd) })
}

/// Once one parameter cannot be merged, no longer list of parameters can.
proof fn lemma_first_failure(
    cells: Seq<CellView>,
    genuine: bool,
    policy: UncertaintyPolicy,
    n: nat,
    m: nat,
)
    requires
        n <= m,
        merged_parameters(cells, genuine, policy, n) is Err,
    ensures
        merged_parameters(cells, genuine, policy, m) == merged_parameters(
            cells,
            genuine,
            policy,
            n,
        ),
    decreases m - n,
{
    if n < m {
        lemma_first_failure(cells, genuine, policy, n, (m - 1) as nat);
    }
}

} // verus!
